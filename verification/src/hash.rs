//! The child-addressing hash, written out and verified.
//!
//! The collector library keys a metric vector's children by an FNV-1a hash
//! of the label values' UTF-8 bytes, written back to back with no
//! separator.  Distinct label vectors can therefore share a hash (the
//! values `"ab","c"` and `"a","bc"` concatenate to the same bytes) and
//! would silently share one child.  This library computes the same hash
//! itself so that it can state the collector's behaviour truthfully and
//! refuse a label vector that collides with an existing child.

use vstd::prelude::*;
use vstd::utf8::encode_utf8;

verus! {

/// The FNV-1a offset basis for 64-bit hashes.
pub const FNV_OFFSET_BASIS: u64 = 0xcbf29ce484222325;

/// The FNV-1a prime for 64-bit hashes.
pub const FNV_PRIME: u64 = 0x100000001b3;

/// One FNV-1a step: fold one byte into the running hash.
pub open spec fn fnv1a_step(h: u64, b: u8) -> u64 {
    vstd::wrapping::u64_specs::wrapping_mul(h ^ (b as u64), FNV_PRIME)
}

/// FNV-1a over `bytes`, started from the running hash `h`.
pub open spec fn fnv1a_from(h: u64, bytes: Seq<u8>) -> u64
    decreases bytes.len(),
{
    if bytes.len() == 0 {
        h
    } else {
        fnv1a_from(fnv1a_step(h, bytes[0]), bytes.drop_first())
    }
}

/// FNV-1a consumes concatenated inputs one after the other.
pub proof fn lemma_fnv1a_concat(h: u64, a: Seq<u8>, b: Seq<u8>)
    ensures
        fnv1a_from(h, a + b) == fnv1a_from(fnv1a_from(h, a), b),
    decreases a.len(),
{
    if a.len() == 0 {
        assert(a + b =~= b);
    } else {
        assert((a + b).drop_first() =~= a.drop_first() + b);
        lemma_fnv1a_concat(fnv1a_step(h, a[0]), a.drop_first(), b);
    }
}

/// Appending one byte folds it in last.
pub proof fn lemma_fnv1a_push(h: u64, s: Seq<u8>, b: u8)
    ensures
        fnv1a_from(h, s.push(b)) == fnv1a_step(fnv1a_from(h, s), b),
{
    assert(s.push(b) =~= s + seq![b]);
    lemma_fnv1a_concat(h, s, seq![b]);
    let x = fnv1a_from(h, s);
    assert(seq![b].len() == 1);
    assert(seq![b][0] == b);
    assert(seq![b].drop_first() =~= Seq::<u8>::empty());
    assert(fnv1a_from(x, seq![b]) == fnv1a_from(fnv1a_step(x, b), seq![b].drop_first()));
    assert(fnv1a_from(fnv1a_step(x, b), Seq::<u8>::empty()) == fnv1a_step(x, b));
}

/// The UTF-8 bytes of a label vector's values, back to back with no
/// separator: exactly what the collector library feeds its hasher.
pub open spec fn labels_bytes(lv: Seq<Seq<char>>) -> Seq<u8>
    decreases lv.len(),
{
    if lv.len() == 0 {
        Seq::<u8>::empty()
    } else {
        encode_utf8(lv[0]) + labels_bytes(lv.drop_first())
    }
}

/// Appending one label value appends its bytes.
pub proof fn lemma_labels_bytes_push(lv: Seq<Seq<char>>, v: Seq<char>)
    ensures
        labels_bytes(lv.push(v)) == labels_bytes(lv) + encode_utf8(v),
    decreases lv.len(),
{
    if lv.len() == 0 {
        assert(lv.push(v)[0] == v);
        assert(lv.push(v).drop_first() =~= Seq::<Seq<char>>::empty());
        assert(labels_bytes(lv.push(v)) == encode_utf8(v) + labels_bytes(
            Seq::<Seq<char>>::empty(),
        ));
        assert(labels_bytes(Seq::<Seq<char>>::empty()) =~= Seq::<u8>::empty());
        assert(encode_utf8(v) + Seq::<u8>::empty() =~= encode_utf8(v));
        assert(labels_bytes(lv) + encode_utf8(v) =~= encode_utf8(v));
    } else {
        assert(lv.push(v).drop_first() =~= lv.drop_first().push(v));
        lemma_labels_bytes_push(lv.drop_first(), v);
        assert(labels_bytes(lv.push(v)) == encode_utf8(lv[0]) + (labels_bytes(lv.drop_first())
            + encode_utf8(v)));
        assert(encode_utf8(lv[0]) + (labels_bytes(lv.drop_first()) + encode_utf8(v)) =~= (
        encode_utf8(lv[0]) + labels_bytes(lv.drop_first())) + encode_utf8(v));
    }
}

/// The hash under which a metric vector's child for this label vector is
/// stored: FNV-1a over the values' concatenated UTF-8 bytes.
pub open spec fn label_hash(lv: Seq<Seq<char>>) -> u64 {
    fnv1a_from(FNV_OFFSET_BASIS, labels_bytes(lv))
}

/// Whether some child already stored under `children` has this label
/// vector's hash without being this label vector: such a vector cannot be
/// given a child of its own.
pub open spec fn child_hash_collision<V>(children: Map<Seq<Seq<char>>, V>, lv: Seq<Seq<char>>) -> bool {
    exists|lv2: Seq<Seq<char>>|
        children.contains_key(lv2) && lv2 != lv && label_hash(lv2) == label_hash(lv)
}

/// Computes [`label_hash`] of a label vector.
pub fn hash_labels(labels: &Vec<String>) -> (h: u64)
    ensures
        h == label_hash(labels.deep_view()),
{
    let mut h: u64 = FNV_OFFSET_BASIS;
    let n = labels.len();
    let mut i: usize = 0;
    while i < n
        invariant
            n == labels@.len(),
            0 <= i <= n,
            h == fnv1a_from(FNV_OFFSET_BASIS, labels_bytes(labels.deep_view().take(i as int))),
        decreases n - i,
    {
        let bs = labels[i].as_str().as_bytes();
        let ghost done = labels_bytes(labels.deep_view().take(i as int));
        let m = bs.len();
        let mut j: usize = 0;
        while j < m
            invariant
                m == bs@.len(),
                0 <= j <= m,
                bs@ == encode_utf8(labels.deep_view()[i as int]),
                i < labels@.len(),
                h == fnv1a_from(FNV_OFFSET_BASIS, done + bs@.take(j as int)),
            decreases m - j,
        {
            let b = bs[j];
            h = (h ^ (b as u64)).wrapping_mul(FNV_PRIME);
            proof {
                assert(bs@.take(j + 1) =~= bs@.take(j as int).push(b));
                lemma_fnv1a_push(FNV_OFFSET_BASIS, done + bs@.take(j as int), b);
                assert(done + bs@.take(j + 1) =~= (done + bs@.take(j as int)).push(b));
            }
            j += 1;
        }
        proof {
            assert(bs@.take(m as int) =~= bs@);
            assert(labels.deep_view().take(i + 1) =~= labels.deep_view().take(i as int).push(
                labels.deep_view()[i as int],
            ));
            lemma_labels_bytes_push(
                labels.deep_view().take(i as int),
                labels.deep_view()[i as int],
            );
        }
        i += 1;
    }
    proof {
        assert(labels.deep_view().take(n as int) =~= labels.deep_view());
    }
    h
}

} // verus!
