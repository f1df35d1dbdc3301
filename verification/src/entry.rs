//! One registered metric family per entry: its name, its group tag, its
//! declared schema, and the underlying collector vector, together with a
//! mirror of the label-value vectors whose children currently exist.
//!
//! The mirror lets executable code decide child existence; its agreement
//! with the collector vector's own hash-keyed store is part of each entry's
//! well-formedness and is maintained by every operation.  The collector
//! stores children under [`label_hash`], so a new label vector whose hash
//! collides with an existing child's is refused rather than silently
//! sharing that child.

use vstd::prelude::*;

use crate::errors::RegistryError;
use crate::hash::{child_hash_collision, hash_labels, label_hash};
use crate::prom::{
    add_bits, counter_delta_ok, counter_vec_children, counter_vec_get,
    counter_vec_inc, counter_vec_inc_by, counter_vec_labels, counter_vec_name, counter_vec_remove,
    counter_vec_reset, gauge_vec_children, gauge_vec_get, gauge_vec_labels, gauge_vec_name,
    gauge_vec_remove, gauge_vec_set, CounterHandle, GaugeHandle, COUNTER_ONE_BITS,
};

verus! {

/// What one registered gauge family looks like in contracts.
pub ghost struct GaugeModel {
    /// The group tag the family was registered under.
    pub group: Seq<char>,
    /// The immutable human-readable description.
    pub description: Seq<char>,
    /// The declared, ordered label names; their count is the family's arity.
    pub label_names: Seq<Seq<char>>,
    /// The children currently present: each observed label-value vector,
    /// mapped to the bit pattern of the child's current value.
    pub children: Map<Seq<Seq<char>>, u64>,
}

/// What one registered counter family looks like in contracts.  A counter
/// child's value moves by [`add_bits`] on increments and back to the bit
/// pattern of zero on reset.
pub ghost struct CounterModel {
    /// The group tag the family was registered under.
    pub group: Seq<char>,
    /// The immutable human-readable description.
    pub description: Seq<char>,
    /// The declared, ordered label names; their count is the family's arity.
    pub label_names: Seq<Seq<char>>,
    /// The children currently present: each observed label-value vector,
    /// mapped to the bit pattern of the child's current value.
    pub children: Map<Seq<Seq<char>>, u64>,
}

/// The bit pattern a counter increment uses: the given one, or one.
pub open spec fn delta_or_one(d: Option<u64>) -> u64 {
    match d {
        Some(b) => b,
        None => COUNTER_ONE_BITS,
    }
}

/// What an increment leaves at a child, keyed by label vector: the sum of
/// the child's current value (zero if created by this call) and the
/// increment, as bit patterns.
pub open spec fn bump_child(m: Map<Seq<Seq<char>>, u64>, lv: Seq<Seq<char>>, d: u64) -> Map<
    Seq<Seq<char>>,
    u64,
> {
    m.insert(
        lv,
        add_bits(
            if m.contains_key(lv) {
                m[lv]
            } else {
                0
            },
            d,
        ),
    )
}

/// The hash of each mirror position.
pub open spec fn mirror_hashes(s: Seq<Seq<Seq<char>>>) -> Seq<u64> {
    s.map_values(|lv: Seq<Seq<char>>| label_hash(lv))
}

/// Every two mirror positions hash apart.
pub open spec fn hashes_distinct(s: Seq<Seq<Seq<char>>>) -> bool {
    forall|i: int, j: int|
        0 <= i < j < s.len() ==> label_hash(#[trigger] s[i]) != label_hash(#[trigger] s[j])
}

/// The children as contracts see them: each mirrored label vector, mapped
/// to the value its hash slot holds in the collector's store.
pub open spec fn child_view(mirror: Seq<Seq<Seq<char>>>, store: Map<u64, u64>) -> Map<
    Seq<Seq<char>>,
    u64,
> {
    Map::new(|lv: Seq<Seq<char>>| mirror.contains(lv), |lv: Seq<Seq<char>>| store[label_hash(lv)])
}

/// Hash-apart mirror positions hold distinct vectors.
pub proof fn lemma_mirror_no_dup(s: Seq<Seq<Seq<char>>>)
    requires
        hashes_distinct(s),
    ensures
        s.no_duplicates(),
{
    assert forall|i: int, j: int|
        0 <= i < s.len() && 0 <= j < s.len() && i != j implies s[i] != s[j] by {
        if i < j {
            assert(label_hash(s[i]) != label_hash(s[j]));
        } else {
            assert(label_hash(s[j]) != label_hash(s[i]));
        }
    }
}

/// Compares two label vectors element by element.
pub fn labels_eq(a: &Vec<String>, b: &Vec<String>) -> (r: bool)
    ensures
        r == (a.deep_view() == b.deep_view()),
{
    if a.len() != b.len() {
        proof {
            assert(a.deep_view().len() == a@.len());
            assert(b.deep_view().len() == b@.len());
        }
        return false;
    }
    let n = a.len();
    let mut i: usize = 0;
    while i < n
        invariant
            n == a@.len() == b@.len(),
            0 <= i <= n,
            forall|j: int| 0 <= j < i ==> a.deep_view()[j] == b.deep_view()[j],
        decreases n - i,
    {
        if !(a[i] == b[i]) {
            proof {
                assert(a.deep_view()[i as int] == a@[i as int]@);
                assert(b.deep_view()[i as int] == b@[i as int]@);
            }
            return false;
        }
        i += 1;
    }
    proof {
        assert(a.deep_view() =~= b.deep_view());
    }
    true
}

/// Copies a label vector.
pub fn clone_labels(v: &Vec<String>) -> (r: Vec<String>)
    ensures
        r.deep_view() == v.deep_view(),
        r@.len() == v@.len(),
{
    let mut r: Vec<String> = Vec::new();
    let n = v.len();
    let mut i: usize = 0;
    while i < n
        invariant
            n == v@.len(),
            0 <= i <= n,
            r@.len() == i,
            forall|j: int| 0 <= j < i ==> r.deep_view()[j] == v.deep_view()[j],
        decreases n - i,
    {
        r.push(v[i].clone());
        i += 1;
    }
    proof {
        assert(r.deep_view() =~= v.deep_view());
    }
    r
}

/// The position of `labels` in `children`, if present.
pub fn find_labels(children: &Vec<Vec<String>>, labels: &Vec<String>) -> (r: Option<usize>)
    ensures
        match r {
            Some(i) => i < children@.len() && children.deep_view()[i as int] == labels.deep_view(),
            None => forall|j: int|
                0 <= j < children@.len() ==> children.deep_view()[j] != labels.deep_view(),
        },
{
    let n = children.len();
    let mut i: usize = 0;
    while i < n
        invariant
            n == children@.len(),
            0 <= i <= n,
            forall|j: int| 0 <= j < i ==> children.deep_view()[j] != labels.deep_view(),
        decreases n - i,
    {
        if labels_eq(&children[i], labels) {
            return Some(i);
        }
        i += 1;
    }
    None
}

/// The position of a mirrored vector whose hash is `h`, if any.
pub fn find_hash(children: &Vec<Vec<String>>, h: u64) -> (r: Option<usize>)
    ensures
        match r {
            Some(i) => i < children@.len() && label_hash(children.deep_view()[i as int]) == h,
            None => forall|j: int|
                0 <= j < children@.len() ==> label_hash(#[trigger] children.deep_view()[j]) != h,
        },
{
    let n = children.len();
    let mut i: usize = 0;
    while i < n
        invariant
            n == children@.len(),
            0 <= i <= n,
            forall|j: int| 0 <= j < i ==> label_hash(#[trigger] children.deep_view()[j]) != h,
        decreases n - i,
    {
        if hash_labels(&children[i]) == h {
            return Some(i);
        }
        i += 1;
    }
    None
}

/// One registered gauge family.
pub struct GaugeEntry {
    pub name: String,
    pub group: String,
    pub description: String,
    pub label_names: Vec<String>,
    pub children: Vec<Vec<String>>,
    pub vec: GaugeHandle,
}

impl GaugeEntry {
    /// The family's metric name.
    pub open spec fn name_view(self) -> Seq<char> {
        self.name@
    }

    /// The family as contracts see it.
    pub open spec fn model(self) -> GaugeModel {
        GaugeModel {
            group: self.group@,
            description: self.description@,
            label_names: self.label_names.deep_view(),
            children: child_view(self.children.deep_view(), gauge_vec_children(self.vec)),
        }
    }

    /// The mirror holds exactly the existing children, one position each,
    /// every vector of the declared arity, pairwise hash-apart, and the
    /// collector vector carries this entry's name and schema, with one
    /// stored child per mirrored hash.
    pub open spec fn wf(self) -> bool {
        &&& gauge_vec_name(self.vec) == self.name@
        &&& gauge_vec_labels(self.vec) == self.label_names.deep_view()
        &&& gauge_vec_children(self.vec).dom() == mirror_hashes(
            self.children.deep_view(),
        ).to_set()
        &&& forall|i: int|
            0 <= i < self.children@.len() ==> (#[trigger] self.children.deep_view()[i]).len()
                == self.label_names@.len()
        &&& hashes_distinct(self.children.deep_view())
        &&& self.children.deep_view().no_duplicates()
    }

    /// Create-or-update the child for `labels` and store the value's bit
    /// pattern in it.  A vector whose hash collides with a different
    /// existing child's is refused.
    pub fn set_child(&mut self, labels: &Vec<String>, bits: u64) -> (r: Result<(), RegistryError>)
        requires
            old(self).wf(),
        ensures
            final(self).wf(),
            final(self).name_view() == old(self).name_view(),
            labels@.len() == old(self).model().label_names.len() && !child_hash_collision(
                old(self).model().children,
                labels.deep_view(),
            ) ==> r is Ok && final(self).model() == (GaugeModel {
                children: old(self).model().children.insert(labels.deep_view(), bits),
                ..old(self).model()
            }),
            labels@.len() == old(self).model().label_names.len() && child_hash_collision(
                old(self).model().children,
                labels.deep_view(),
            ) ==> (r matches Err(RegistryError::LabelHashCollision) && *final(self) == *old(self)),
            labels@.len() != old(self).model().label_names.len() ==> (r matches Err(
                RegistryError::LabelArityMismatch { expected, got },
            ) && expected == old(self).model().label_names.len() && got == labels@.len()
                && *final(self) == *old(self)),
    {
        if labels.len() != self.label_names.len() {
            return Err(
                RegistryError::LabelArityMismatch {
                    expected: self.label_names.len(),
                    got: labels.len(),
                },
            );
        }
        match find_labels(&self.children, labels) {
            Some(i) => {
                proof {
                    self.lemma_no_collision_at(i as int, labels.deep_view());
                }
                let res = gauge_vec_set(&mut self.vec, labels, bits);
                proof {
                    assert(res is Ok);
                    self.lemma_view_after_update(
                        *old(self),
                        i as int,
                        labels.deep_view(),
                        bits,
                    );
                }
                Ok(())
            },
            None => {
                let h = hash_labels(labels);
                match find_hash(&self.children, h) {
                    Some(j) => {
                        proof {
                            assert(self.children.deep_view().contains(
                                self.children.deep_view()[j as int],
                            ));
                            assert(child_hash_collision(
                                old(self).model().children,
                                labels.deep_view(),
                            ));
                        }
                        Err(RegistryError::LabelHashCollision)
                    },
                    None => {
                        proof {
                            old(self).lemma_no_collision_fresh(labels.deep_view());
                        }
                        let res = gauge_vec_set(&mut self.vec, labels, bits);
                        proof {
                            assert(res is Ok);
                        }
                        self.children.push(clone_labels(labels));
                        proof {
                            assert(self.children.deep_view() =~= old(
                                self,
                            ).children.deep_view().push(labels.deep_view()));
                            self.lemma_view_after_insert(
                                *old(self),
                                labels.deep_view(),
                                bits,
                            );
                        }
                        Ok(())
                    },
                }
            },
        }
    }

    /// With the vector already mirrored, no different vector shares its
    /// hash.
    proof fn lemma_no_collision_at(self, i: int, lv: Seq<Seq<char>>)
        requires
            self.wf(),
            0 <= i < self.children@.len(),
            self.children.deep_view()[i] == lv,
        ensures
            !child_hash_collision(self.model().children, lv),
    {
        assert forall|lv2: Seq<Seq<char>>|
            self.children.deep_view().contains(lv2) && lv2 != lv implies label_hash(lv2)
            != label_hash(lv) by {
            let a = choose|a: int|
                0 <= a < self.children.deep_view().len() && self.children.deep_view()[a] == lv2;
            if a < i {
                assert(label_hash(self.children.deep_view()[a]) != label_hash(
                    self.children.deep_view()[i],
                ));
            } else {
                assert(a != i);
                assert(label_hash(self.children.deep_view()[i]) != label_hash(
                    self.children.deep_view()[a],
                ));
            }
        }
    }

    /// With no mirrored vector sharing the hash, there is no collision.
    proof fn lemma_no_collision_fresh(self, lv: Seq<Seq<char>>)
        requires
            forall|j: int|
                0 <= j < self.children@.len() ==> label_hash(
                    #[trigger] self.children.deep_view()[j],
                ) != label_hash(lv),
        ensures
            !child_hash_collision(self.model().children, lv),
    {
        assert forall|lv2: Seq<Seq<char>>|
            self.children.deep_view().contains(lv2) implies label_hash(lv2) != label_hash(lv) by {
            let a = choose|a: int|
                0 <= a < self.children.deep_view().len() && self.children.deep_view()[a] == lv2;
        }
    }

    /// After storing under a hash already mirrored at `i`, the view gains
    /// exactly that vector's new value and the entry stays well-formed.
    proof fn lemma_view_after_update(self, pre: GaugeEntry, i: int, lv: Seq<Seq<char>>, bits: u64)
        requires
            pre.wf(),
            0 <= i < pre.children@.len(),
            pre.children.deep_view()[i] == lv,
            self.name == pre.name,
            self.group == pre.group,
            self.description == pre.description,
            self.label_names == pre.label_names,
            self.children == pre.children,
            gauge_vec_name(self.vec) == gauge_vec_name(pre.vec),
            gauge_vec_labels(self.vec) == gauge_vec_labels(pre.vec),
            gauge_vec_children(self.vec) == gauge_vec_children(pre.vec).insert(
                label_hash(lv),
                bits,
            ),
        ensures
            self.wf(),
            self.model() == (GaugeModel { children: pre.model().children.insert(lv, bits), ..pre.model() }),
    {
        let h = label_hash(lv);
        assert(mirror_hashes(pre.children.deep_view())[i] == h);
        assert(mirror_hashes(pre.children.deep_view()).to_set().contains(h));
        assert(gauge_vec_children(self.vec).dom() =~= mirror_hashes(
            self.children.deep_view(),
        ).to_set());
        pre.lemma_no_collision_at(i, lv);
        assert(self.model().children =~= pre.model().children.insert(lv, bits)) by {
            assert forall|lv2: Seq<Seq<char>>|
                self.children.deep_view().contains(lv2) && lv2 != lv implies gauge_vec_children(
                self.vec,
            )[label_hash(lv2)] == gauge_vec_children(pre.vec)[label_hash(lv2)] by {
                assert(label_hash(lv2) != h);
            }
            assert(self.children.deep_view().contains(lv));
        }
    }

    /// After storing under a fresh hash and mirroring the vector, the view
    /// gains exactly that vector and the entry stays well-formed.
    proof fn lemma_view_after_insert(self, pre: GaugeEntry, lv: Seq<Seq<char>>, bits: u64)
        requires
            pre.wf(),
            lv.len() == pre.label_names@.len(),
            forall|j: int|
                0 <= j < pre.children@.len() ==> label_hash(#[trigger] pre.children.deep_view()[j])
                    != label_hash(lv),
            self.name == pre.name,
            self.group == pre.group,
            self.description == pre.description,
            self.label_names == pre.label_names,
            self.children.deep_view() == pre.children.deep_view().push(lv),
            gauge_vec_name(self.vec) == gauge_vec_name(pre.vec),
            gauge_vec_labels(self.vec) == gauge_vec_labels(pre.vec),
            gauge_vec_children(self.vec) == gauge_vec_children(pre.vec).insert(
                label_hash(lv),
                bits,
            ),
        ensures
            self.wf(),
            self.model() == (GaugeModel { children: pre.model().children.insert(lv, bits), ..pre.model() }),
    {
        let h = label_hash(lv);
        let pm = pre.children.deep_view();
        pm.lemma_push_map_commute(|x: Seq<Seq<char>>| label_hash(x), lv);
        mirror_hashes(pm).lemma_push_to_set_commute(h);
        assert(mirror_hashes(self.children.deep_view()).to_set() =~= mirror_hashes(
            pm,
        ).to_set().insert(h));
        assert(gauge_vec_children(self.vec).dom() =~= mirror_hashes(
            self.children.deep_view(),
        ).to_set());
        assert forall|a: int, b: int|
            0 <= a < b < self.children.deep_view().len() implies label_hash(
            #[trigger] self.children.deep_view()[a],
        ) != label_hash(#[trigger] self.children.deep_view()[b]) by {
            if b < pm.len() {
                assert(self.children.deep_view()[a] == pm[a]);
                assert(self.children.deep_view()[b] == pm[b]);
            } else {
                assert(self.children.deep_view()[b] == lv);
                assert(self.children.deep_view()[a] == pm[a]);
            }
        }
        lemma_mirror_no_dup(self.children.deep_view());
        assert forall|k: int|
            0 <= k < self.children@.len() implies (#[trigger] self.children.deep_view()[k]).len()
            == self.label_names@.len() by {
            if k < pm.len() {
                assert(self.children.deep_view()[k] == pm[k]);
            } else {
                assert(self.children.deep_view()[k] == lv);
            }
        }
        assert(self.model().children =~= pre.model().children.insert(lv, bits)) by {
            assert forall|lv2: Seq<Seq<char>>|
                pm.contains(lv2) implies label_hash(lv2) != h && self.children.deep_view().contains(
                lv2,
            ) by {
                let a = choose|a: int| 0 <= a < pm.len() && pm[a] == lv2;
                assert(self.children.deep_view()[a] == lv2);
            }
            assert(self.children.deep_view()[pm.len() as int] == lv);
            assert(self.children.deep_view().contains(lv));
            assert forall|lv2: Seq<Seq<char>>|
                self.children.deep_view().contains(lv2) && lv2 != lv implies pm.contains(lv2) by {
                let a = choose|a: int|
                    0 <= a < self.children.deep_view().len() && self.children.deep_view()[a] == lv2;
                assert(a < pm.len());
            }
        }
    }

    /// The bit pattern the child for `labels` currently stores, or `None`
    /// if no such child exists.  Never creates a child.
    pub fn child_bits(&mut self, labels: &Vec<String>) -> (r: Result<Option<u64>, RegistryError>)
        requires
            old(self).wf(),
        ensures
            final(self).wf(),
            final(self).name_view() == old(self).name_view(),
            final(self).model() == old(self).model(),
            labels@.len() == old(self).model().label_names.len() ==> (r matches Ok(v) && v == (
            if old(self).model().children.contains_key(labels.deep_view()) {
                Some(old(self).model().children[labels.deep_view()])
            } else {
                Option::<u64>::None
            })),
            labels@.len() != old(self).model().label_names.len() ==> (r matches Err(
                RegistryError::LabelArityMismatch { expected, got },
            ) && expected == old(self).model().label_names.len() && got == labels@.len()),
    {
        if labels.len() != self.label_names.len() {
            return Err(
                RegistryError::LabelArityMismatch {
                    expected: self.label_names.len(),
                    got: labels.len(),
                },
            );
        }
        match find_labels(&self.children, labels) {
            Some(i) => {
                proof {
                    assert(self.children.deep_view()[i as int] == labels.deep_view());
                    assert(self.children.deep_view().contains(labels.deep_view()));
                    assert(mirror_hashes(self.children.deep_view())[i as int] == label_hash(
                        labels.deep_view(),
                    ));
                    assert(gauge_vec_children(self.vec).contains_key(label_hash(
                        labels.deep_view(),
                    )));
                }
                let res = gauge_vec_get(&mut self.vec, labels);
                proof {
                    assert(res is Ok);
                    assert(self.model().children =~= old(self).model().children);
                }
                match res {
                    Ok(b) => Ok(Some(b)),
                    Err(_) => Err(RegistryError::NotFound),
                }
            },
            None => {
                proof {
                    assert(!self.children.deep_view().contains(labels.deep_view()));
                }
                Ok(None)
            },
        }
    }

    /// Delete the child for `labels` if it exists; deleting an absent child
    /// is a no-op success.
    pub fn remove_child(&mut self, labels: &Vec<String>) -> (r: Result<(), RegistryError>)
        requires
            old(self).wf(),
        ensures
            final(self).wf(),
            final(self).name_view() == old(self).name_view(),
            labels@.len() == old(self).model().label_names.len() ==> r is Ok && final(self).model()
                == (GaugeModel {
                children: old(self).model().children.remove(labels.deep_view()),
                ..old(self).model()
            }),
            labels@.len() != old(self).model().label_names.len() ==> (r matches Err(
                RegistryError::LabelArityMismatch { expected, got },
            ) && expected == old(self).model().label_names.len() && got == labels@.len()
                && *final(self) == *old(self)),
    {
        if labels.len() != self.label_names.len() {
            return Err(
                RegistryError::LabelArityMismatch {
                    expected: self.label_names.len(),
                    got: labels.len(),
                },
            );
        }
        match find_labels(&self.children, labels) {
            Some(i) => {
                proof {
                    assert(self.children.deep_view()[i as int] == labels.deep_view());
                    assert(self.children.deep_view().contains(labels.deep_view()));
                    assert(mirror_hashes(self.children.deep_view())[i as int] == label_hash(
                        labels.deep_view(),
                    ));
                    assert(gauge_vec_children(self.vec).contains_key(label_hash(
                        labels.deep_view(),
                    )));
                }
                let res = gauge_vec_remove(&mut self.vec, labels);
                proof {
                    assert(res is Ok);
                }
                let ghost pre = *old(self);
                let _ = self.children.remove(i);
                proof {
                    lemma_view_after_remove_g(*self, pre, i as int, labels.deep_view());
                }
                Ok(())
            },
            None => {
                proof {
                    assert(!self.children.deep_view().contains(labels.deep_view()));
                    assert(old(self).model().children.remove(labels.deep_view()) =~= old(
                        self,
                    ).model().children);
                }
                Ok(())
            },
        }
    }
}

/// After removing a mirrored vector and its hash slot, the view loses
/// exactly that vector and the entry stays well-formed.
proof fn lemma_view_after_remove_g(e: GaugeEntry, pre: GaugeEntry, i: int, lv: Seq<Seq<char>>)
    requires
        pre.wf(),
        0 <= i < pre.children@.len(),
        pre.children.deep_view()[i] == lv,
        e.name == pre.name,
        e.group == pre.group,
        e.description == pre.description,
        e.label_names == pre.label_names,
        e.children@ == pre.children@.remove(i),
        gauge_vec_name(e.vec) == gauge_vec_name(pre.vec),
        gauge_vec_labels(e.vec) == gauge_vec_labels(pre.vec),
        gauge_vec_children(e.vec) == gauge_vec_children(pre.vec).remove(label_hash(lv)),
    ensures
        e.wf(),
        e.model() == (GaugeModel { children: pre.model().children.remove(lv), ..pre.model() }),
{
    let h = label_hash(lv);
    let pm = pre.children.deep_view();
    let em = e.children.deep_view();
    assert(em =~= pm.remove(i));
    assert(mirror_hashes(em) =~= mirror_hashes(pm).remove(i));
    assert(mirror_hashes(pm).no_duplicates());
    crate::entry::lemma_remove_to_set(mirror_hashes(pm), i);
    assert(mirror_hashes(pm)[i] == h);
    assert(gauge_vec_children(e.vec).dom() =~= mirror_hashes(em).to_set());
    assert forall|a: int, b: int|
        0 <= a < b < em.len() implies label_hash(#[trigger] em[a]) != label_hash(
        #[trigger] em[b],
    ) by {
        let a1: int = if a < i {
            a
        } else {
            a + 1
        };
        let b1: int = if b < i {
            b
        } else {
            b + 1
        };
        assert(em[a] == pm[a1]);
        assert(em[b] == pm[b1]);
        assert(label_hash(pm[a1]) != label_hash(pm[b1]));
    }
    lemma_mirror_no_dup(em);
    assert forall|k: int|
        0 <= k < em.len() implies (#[trigger] em[k]).len() == e.label_names@.len() by {
        let k1: int = if k < i {
            k
        } else {
            k + 1
        };
        assert(em[k] == pm[k1]);
    }
    pre.lemma_no_collision_at(i, lv);
    assert(e.model().children =~= pre.model().children.remove(lv)) by {
        assert forall|lv2: Seq<Seq<char>>| em.contains(lv2) implies pm.contains(lv2) && lv2 != lv
            && label_hash(lv2) != h by {
            let a = choose|a: int| 0 <= a < em.len() && em[a] == lv2;
            let a1: int = if a < i {
                a
            } else {
                a + 1
            };
            assert(pm[a1] == lv2);
            if a1 < i {
                assert(label_hash(pm[a1]) != label_hash(pm[i]));
            } else {
                assert(a1 > i);
                assert(label_hash(pm[i]) != label_hash(pm[a1]));
            }
        }
        assert forall|lv2: Seq<Seq<char>>| pm.contains(lv2) && lv2 != lv implies em.contains(
            lv2,
        ) by {
            let a1 = choose|a1: int| 0 <= a1 < pm.len() && pm[a1] == lv2;
            assert(a1 != i);
            let a: int = if a1 < i {
                a1
            } else {
                a1 - 1
            };
            assert(em[a] == lv2);
        }
    }
}

/// Removing one position from a sequence without duplicates removes exactly
/// that element from the set of its values.
pub proof fn lemma_remove_to_set<A>(s: Seq<A>, i: int)
    requires
        0 <= i < s.len(),
        s.no_duplicates(),
    ensures
        s.remove(i).to_set() =~= s.to_set().remove(s[i]),
{
    let t = s.remove(i);
    assert forall|x: A| t.to_set().contains(x) implies s.to_set().remove(s[i]).contains(x) by {
        let j = choose|j: int| 0 <= j < t.len() && t[j] == x;
        if j < i {
            assert(s[j] == x);
        } else {
            assert(s[j + 1] == x);
        }
    }
    assert forall|x: A| s.to_set().remove(s[i]).contains(x) implies t.to_set().contains(x) by {
        let j = choose|j: int| 0 <= j < s.len() && s[j] == x;
        if j < i {
            assert(t[j] == x);
        } else {
            assert(j > i);
            assert(t[j - 1] == x);
        }
    }
}

/// One registered counter family.
pub struct CounterEntry {
    pub name: String,
    pub group: String,
    pub description: String,
    pub label_names: Vec<String>,
    pub children: Vec<Vec<String>>,
    pub vec: CounterHandle,
}

impl CounterEntry {
    /// The family's metric name.
    pub open spec fn name_view(self) -> Seq<char> {
        self.name@
    }

    /// The family as contracts see it.
    pub open spec fn model(self) -> CounterModel {
        CounterModel {
            group: self.group@,
            description: self.description@,
            label_names: self.label_names.deep_view(),
            children: child_view(self.children.deep_view(), counter_vec_children(self.vec)),
        }
    }

    /// As for gauges: the mirror agrees with the collector vector's
    /// hash-keyed store.
    pub open spec fn wf(self) -> bool {
        &&& counter_vec_name(self.vec) == self.name@
        &&& counter_vec_labels(self.vec) == self.label_names.deep_view()
        &&& counter_vec_children(self.vec).dom() == mirror_hashes(
            self.children.deep_view(),
        ).to_set()
        &&& forall|i: int|
            0 <= i < self.children@.len() ==> (#[trigger] self.children.deep_view()[i]).len()
                == self.label_names@.len()
        &&& hashes_distinct(self.children.deep_view())
        &&& self.children.deep_view().no_duplicates()
    }

    /// With the vector already mirrored, no different vector shares its
    /// hash.
    proof fn lemma_no_collision_at(self, i: int, lv: Seq<Seq<char>>)
        requires
            self.wf(),
            0 <= i < self.children@.len(),
            self.children.deep_view()[i] == lv,
        ensures
            !child_hash_collision(self.model().children, lv),
    {
        assert forall|lv2: Seq<Seq<char>>|
            self.children.deep_view().contains(lv2) && lv2 != lv implies label_hash(lv2)
            != label_hash(lv) by {
            let a = choose|a: int|
                0 <= a < self.children.deep_view().len() && self.children.deep_view()[a] == lv2;
            if a < i {
                assert(label_hash(self.children.deep_view()[a]) != label_hash(
                    self.children.deep_view()[i],
                ));
            } else {
                assert(a != i);
                assert(label_hash(self.children.deep_view()[i]) != label_hash(
                    self.children.deep_view()[a],
                ));
            }
        }
    }

    /// With no mirrored vector sharing the hash, there is no collision.
    proof fn lemma_no_collision_fresh(self, lv: Seq<Seq<char>>)
        requires
            forall|j: int|
                0 <= j < self.children@.len() ==> label_hash(
                    #[trigger] self.children.deep_view()[j],
                ) != label_hash(lv),
        ensures
            !child_hash_collision(self.model().children, lv),
    {
        assert forall|lv2: Seq<Seq<char>>|
            self.children.deep_view().contains(lv2) implies label_hash(lv2) != label_hash(lv) by {
            let a = choose|a: int|
                0 <= a < self.children.deep_view().len() && self.children.deep_view()[a] == lv2;
        }
    }

    /// Create-or-update the child for `labels`, adding to it: one when
    /// `delta_bits` is `None`, else the value whose bit pattern is given.
    /// A vector whose hash collides with a different existing child's is
    /// refused.
    pub fn inc_child(&mut self, labels: &Vec<String>, delta_bits: Option<u64>) -> (r: Result<
        (),
        RegistryError,
    >)
        requires
            old(self).wf(),
            delta_bits matches Some(b) ==> counter_delta_ok(b),
        ensures
            final(self).wf(),
            final(self).name_view() == old(self).name_view(),
            labels@.len() == old(self).model().label_names.len() && !child_hash_collision(
                old(self).model().children,
                labels.deep_view(),
            ) ==> r is Ok && final(self).model() == (CounterModel {
                children: bump_child(
                    old(self).model().children,
                    labels.deep_view(),
                    delta_or_one(delta_bits),
                ),
                ..old(self).model()
            }),
            labels@.len() == old(self).model().label_names.len() && child_hash_collision(
                old(self).model().children,
                labels.deep_view(),
            ) ==> (r matches Err(RegistryError::LabelHashCollision) && *final(self) == *old(self)),
            labels@.len() != old(self).model().label_names.len() ==> (r matches Err(
                RegistryError::LabelArityMismatch { expected, got },
            ) && expected == old(self).model().label_names.len() && got == labels@.len()
                && *final(self) == *old(self)),
    {
        if labels.len() != self.label_names.len() {
            return Err(
                RegistryError::LabelArityMismatch {
                    expected: self.label_names.len(),
                    got: labels.len(),
                },
            );
        }
        match find_labels(&self.children, labels) {
            Some(i) => {
                proof {
                    self.lemma_no_collision_at(i as int, labels.deep_view());
                    assert(mirror_hashes(self.children.deep_view())[i as int] == label_hash(
                        labels.deep_view(),
                    ));
                    assert(counter_vec_children(self.vec).contains_key(label_hash(
                        labels.deep_view(),
                    )));
                }
                let res = match delta_bits {
                    None => counter_vec_inc(&mut self.vec, labels),
                    Some(b) => counter_vec_inc_by(&mut self.vec, labels, b),
                };
                proof {
                    assert(res is Ok);
                    let h = label_hash(labels.deep_view());
                    let newv = add_bits(
                        counter_vec_children(old(self).vec)[h],
                        delta_or_one(delta_bits),
                    );
                    assert(counter_vec_children(self.vec) == counter_vec_children(
                        old(self).vec,
                    ).insert(h, newv));
                    self.lemma_view_after_store(
                        *old(self),
                        i as int,
                        labels.deep_view(),
                        newv,
                    );
                    assert(old(self).model().children[labels.deep_view()]
                        == counter_vec_children(old(self).vec)[h]);
                    assert(old(self).model().children.contains_key(labels.deep_view()));
                }
                Ok(())
            },
            None => {
                let h = hash_labels(labels);
                match find_hash(&self.children, h) {
                    Some(j) => {
                        proof {
                            assert(self.children.deep_view().contains(
                                self.children.deep_view()[j as int],
                            ));
                            assert(child_hash_collision(
                                old(self).model().children,
                                labels.deep_view(),
                            ));
                        }
                        Err(RegistryError::LabelHashCollision)
                    },
                    None => {
                        proof {
                            old(self).lemma_no_collision_fresh(labels.deep_view());
                            assert(!mirror_hashes(old(self).children.deep_view()).to_set().contains(
                                h,
                            )) by {
                                if mirror_hashes(old(self).children.deep_view()).contains(h) {
                                    let a = choose|a: int|
                                        0 <= a < mirror_hashes(
                                            old(self).children.deep_view(),
                                        ).len() && mirror_hashes(old(self).children.deep_view())[a]
                                            == h;
                                }
                            }
                            assert(!counter_vec_children(self.vec).contains_key(h));
                        }
                        let res = match delta_bits {
                            None => counter_vec_inc(&mut self.vec, labels),
                            Some(b) => counter_vec_inc_by(&mut self.vec, labels, b),
                        };
                        proof {
                            assert(res is Ok);
                        }
                        self.children.push(clone_labels(labels));
                        proof {
                            assert(self.children.deep_view() =~= old(
                                self,
                            ).children.deep_view().push(labels.deep_view()));
                            let newv = add_bits(0, delta_or_one(delta_bits));
                            assert(counter_vec_children(self.vec) == counter_vec_children(
                                old(self).vec,
                            ).insert(h, newv));
                            self.lemma_view_after_grow(
                                *old(self),
                                labels.deep_view(),
                                newv,
                            );
                            assert(!old(self).model().children.contains_key(labels.deep_view()));
                        }
                        Ok(())
                    },
                }
            },
        }
    }

    /// Create-or-update the child for `labels` and set it back to the bit
    /// pattern of zero, preserving its existence.  A vector whose hash
    /// collides with a different existing child's is refused.
    pub fn reset_child(&mut self, labels: &Vec<String>) -> (r: Result<(), RegistryError>)
        requires
            old(self).wf(),
        ensures
            final(self).wf(),
            final(self).name_view() == old(self).name_view(),
            labels@.len() == old(self).model().label_names.len() && !child_hash_collision(
                old(self).model().children,
                labels.deep_view(),
            ) ==> r is Ok && final(self).model() == (CounterModel {
                children: old(self).model().children.insert(labels.deep_view(), 0),
                ..old(self).model()
            }),
            labels@.len() == old(self).model().label_names.len() && child_hash_collision(
                old(self).model().children,
                labels.deep_view(),
            ) ==> (r matches Err(RegistryError::LabelHashCollision) && *final(self) == *old(self)),
            labels@.len() != old(self).model().label_names.len() ==> (r matches Err(
                RegistryError::LabelArityMismatch { expected, got },
            ) && expected == old(self).model().label_names.len() && got == labels@.len()
                && *final(self) == *old(self)),
    {
        if labels.len() != self.label_names.len() {
            return Err(
                RegistryError::LabelArityMismatch {
                    expected: self.label_names.len(),
                    got: labels.len(),
                },
            );
        }
        match find_labels(&self.children, labels) {
            Some(i) => {
                proof {
                    self.lemma_no_collision_at(i as int, labels.deep_view());
                }
                let res = counter_vec_reset(&mut self.vec, labels);
                proof {
                    assert(res is Ok);
                    self.lemma_view_after_store(*old(self), i as int, labels.deep_view(), 0);
                }
                Ok(())
            },
            None => {
                let h = hash_labels(labels);
                match find_hash(&self.children, h) {
                    Some(j) => {
                        proof {
                            assert(self.children.deep_view().contains(
                                self.children.deep_view()[j as int],
                            ));
                            assert(child_hash_collision(
                                old(self).model().children,
                                labels.deep_view(),
                            ));
                        }
                        Err(RegistryError::LabelHashCollision)
                    },
                    None => {
                        proof {
                            old(self).lemma_no_collision_fresh(labels.deep_view());
                        }
                        let res = counter_vec_reset(&mut self.vec, labels);
                        proof {
                            assert(res is Ok);
                        }
                        self.children.push(clone_labels(labels));
                        proof {
                            assert(self.children.deep_view() =~= old(
                                self,
                            ).children.deep_view().push(labels.deep_view()));
                            self.lemma_view_after_grow(*old(self), labels.deep_view(), 0);
                        }
                        Ok(())
                    },
                }
            },
        }
    }

    /// After storing a value under a hash already mirrored at `i`, the
    /// view holds exactly that vector's new value and the entry stays
    /// well-formed.
    proof fn lemma_view_after_store(self, pre: CounterEntry, i: int, lv: Seq<Seq<char>>, v: u64)
        requires
            pre.wf(),
            0 <= i < pre.children@.len(),
            pre.children.deep_view()[i] == lv,
            self.name == pre.name,
            self.group == pre.group,
            self.description == pre.description,
            self.label_names == pre.label_names,
            self.children == pre.children,
            counter_vec_name(self.vec) == counter_vec_name(pre.vec),
            counter_vec_labels(self.vec) == counter_vec_labels(pre.vec),
            counter_vec_children(self.vec) == counter_vec_children(pre.vec).insert(
                label_hash(lv),
                v,
            ),
        ensures
            self.wf(),
            self.model() == (CounterModel { children: pre.model().children.insert(lv, v), ..pre.model() }),
    {
        let h = label_hash(lv);
        assert(mirror_hashes(pre.children.deep_view())[i] == h);
        assert(mirror_hashes(pre.children.deep_view()).to_set().contains(h));
        assert(counter_vec_children(self.vec).dom() =~= mirror_hashes(
            self.children.deep_view(),
        ).to_set());
        pre.lemma_no_collision_at(i, lv);
        assert(self.model().children =~= pre.model().children.insert(lv, v)) by {
            assert forall|lv2: Seq<Seq<char>>|
                self.children.deep_view().contains(lv2) && lv2 != lv implies counter_vec_children(
                self.vec,
            )[label_hash(lv2)] == counter_vec_children(pre.vec)[label_hash(lv2)] by {
                assert(label_hash(lv2) != h);
            }
            assert(self.children.deep_view().contains(lv));
        }
    }

    /// After storing a value under a fresh hash and mirroring the vector,
    /// the view gains exactly that vector and the entry stays well-formed.
    proof fn lemma_view_after_grow(self, pre: CounterEntry, lv: Seq<Seq<char>>, v: u64)
        requires
            pre.wf(),
            lv.len() == pre.label_names@.len(),
            forall|j: int|
                0 <= j < pre.children@.len() ==> label_hash(#[trigger] pre.children.deep_view()[j])
                    != label_hash(lv),
            self.name == pre.name,
            self.group == pre.group,
            self.description == pre.description,
            self.label_names == pre.label_names,
            self.children.deep_view() == pre.children.deep_view().push(lv),
            counter_vec_name(self.vec) == counter_vec_name(pre.vec),
            counter_vec_labels(self.vec) == counter_vec_labels(pre.vec),
            counter_vec_children(self.vec) == counter_vec_children(pre.vec).insert(
                label_hash(lv),
                v,
            ),
        ensures
            self.wf(),
            self.model() == (CounterModel { children: pre.model().children.insert(lv, v), ..pre.model() }),
    {
        let h = label_hash(lv);
        let pm = pre.children.deep_view();
        pm.lemma_push_map_commute(|x: Seq<Seq<char>>| label_hash(x), lv);
        mirror_hashes(pm).lemma_push_to_set_commute(h);
        assert(mirror_hashes(self.children.deep_view()).to_set() =~= mirror_hashes(
            pm,
        ).to_set().insert(h));
        assert(counter_vec_children(self.vec).dom() =~= mirror_hashes(
            self.children.deep_view(),
        ).to_set());
        assert forall|a: int, b: int|
            0 <= a < b < self.children.deep_view().len() implies label_hash(
            #[trigger] self.children.deep_view()[a],
        ) != label_hash(#[trigger] self.children.deep_view()[b]) by {
            if b < pm.len() {
                assert(self.children.deep_view()[a] == pm[a]);
                assert(self.children.deep_view()[b] == pm[b]);
            } else {
                assert(self.children.deep_view()[b] == lv);
                assert(self.children.deep_view()[a] == pm[a]);
            }
        }
        lemma_mirror_no_dup(self.children.deep_view());
        assert forall|k: int|
            0 <= k < self.children@.len() implies (#[trigger] self.children.deep_view()[k]).len()
            == self.label_names@.len() by {
            if k < pm.len() {
                assert(self.children.deep_view()[k] == pm[k]);
            } else {
                assert(self.children.deep_view()[k] == lv);
            }
        }
        assert(self.model().children =~= pre.model().children.insert(lv, v)) by {
            assert forall|lv2: Seq<Seq<char>>|
                pm.contains(lv2) implies label_hash(lv2) != h && self.children.deep_view().contains(
                lv2,
            ) by {
                let a = choose|a: int| 0 <= a < pm.len() && pm[a] == lv2;
                assert(self.children.deep_view()[a] == lv2);
            }
            assert(self.children.deep_view()[pm.len() as int] == lv);
            assert(self.children.deep_view().contains(lv));
            assert forall|lv2: Seq<Seq<char>>|
                self.children.deep_view().contains(lv2) && lv2 != lv implies pm.contains(lv2) by {
                let a = choose|a: int|
                    0 <= a < self.children.deep_view().len() && self.children.deep_view()[a] == lv2;
                assert(a < pm.len());
            }
        }
    }

    /// The bit pattern the child for `labels` currently stores, or `None`
    /// if no such child exists.  Never creates a child.
    pub fn child_bits(&mut self, labels: &Vec<String>) -> (r: Result<Option<u64>, RegistryError>)
        requires
            old(self).wf(),
        ensures
            final(self).wf(),
            final(self).name_view() == old(self).name_view(),
            final(self).model() == old(self).model(),
            labels@.len() == old(self).model().label_names.len() ==> (r matches Ok(v) && v == (
            if old(self).model().children.contains_key(labels.deep_view()) {
                Some(old(self).model().children[labels.deep_view()])
            } else {
                Option::<u64>::None
            })),
            labels@.len() != old(self).model().label_names.len() ==> (r matches Err(
                RegistryError::LabelArityMismatch { expected, got },
            ) && expected == old(self).model().label_names.len() && got == labels@.len()),
    {
        if labels.len() != self.label_names.len() {
            return Err(
                RegistryError::LabelArityMismatch {
                    expected: self.label_names.len(),
                    got: labels.len(),
                },
            );
        }
        match find_labels(&self.children, labels) {
            Some(i) => {
                proof {
                    assert(self.children.deep_view()[i as int] == labels.deep_view());
                    assert(self.children.deep_view().contains(labels.deep_view()));
                    assert(mirror_hashes(self.children.deep_view())[i as int] == label_hash(
                        labels.deep_view(),
                    ));
                    assert(counter_vec_children(self.vec).contains_key(label_hash(
                        labels.deep_view(),
                    )));
                }
                let res = counter_vec_get(&mut self.vec, labels);
                proof {
                    assert(res is Ok);
                    assert(self.model().children =~= old(self).model().children);
                }
                match res {
                    Ok(b) => Ok(Some(b)),
                    Err(_) => Err(RegistryError::NotFound),
                }
            },
            None => {
                proof {
                    assert(!self.children.deep_view().contains(labels.deep_view()));
                }
                Ok(None)
            },
        }
    }

    /// Delete the child for `labels` if it exists; deleting an absent child
    /// is a no-op success.
    pub fn remove_child(&mut self, labels: &Vec<String>) -> (r: Result<(), RegistryError>)
        requires
            old(self).wf(),
        ensures
            final(self).wf(),
            final(self).name_view() == old(self).name_view(),
            labels@.len() == old(self).model().label_names.len() ==> r is Ok && final(self).model()
                == (CounterModel {
                children: old(self).model().children.remove(labels.deep_view()),
                ..old(self).model()
            }),
            labels@.len() != old(self).model().label_names.len() ==> (r matches Err(
                RegistryError::LabelArityMismatch { expected, got },
            ) && expected == old(self).model().label_names.len() && got == labels@.len()
                && *final(self) == *old(self)),
    {
        if labels.len() != self.label_names.len() {
            return Err(
                RegistryError::LabelArityMismatch {
                    expected: self.label_names.len(),
                    got: labels.len(),
                },
            );
        }
        match find_labels(&self.children, labels) {
            Some(i) => {
                proof {
                    assert(self.children.deep_view()[i as int] == labels.deep_view());
                    assert(self.children.deep_view().contains(labels.deep_view()));
                    assert(mirror_hashes(self.children.deep_view())[i as int] == label_hash(
                        labels.deep_view(),
                    ));
                    assert(counter_vec_children(self.vec).contains_key(label_hash(
                        labels.deep_view(),
                    )));
                }
                let res = counter_vec_remove(&mut self.vec, labels);
                proof {
                    assert(res is Ok);
                }
                let ghost pre = *old(self);
                let _ = self.children.remove(i);
                proof {
                    lemma_view_after_remove_c(*self, pre, i as int, labels.deep_view());
                }
                Ok(())
            },
            None => {
                proof {
                    assert(!self.children.deep_view().contains(labels.deep_view()));
                    assert(old(self).model().children.remove(labels.deep_view()) =~= old(
                        self,
                    ).model().children);
                }
                Ok(())
            },
        }
    }
}

/// After removing a mirrored vector and its hash slot, the view loses
/// exactly that vector and the entry stays well-formed.
proof fn lemma_view_after_remove_c(e: CounterEntry, pre: CounterEntry, i: int, lv: Seq<Seq<char>>)
    requires
        pre.wf(),
        0 <= i < pre.children@.len(),
        pre.children.deep_view()[i] == lv,
        e.name == pre.name,
        e.group == pre.group,
        e.description == pre.description,
        e.label_names == pre.label_names,
        e.children@ == pre.children@.remove(i),
        counter_vec_name(e.vec) == counter_vec_name(pre.vec),
        counter_vec_labels(e.vec) == counter_vec_labels(pre.vec),
        counter_vec_children(e.vec) == counter_vec_children(pre.vec).remove(label_hash(lv)),
    ensures
        e.wf(),
        e.model() == (CounterModel { children: pre.model().children.remove(lv), ..pre.model() }),
{
    let h = label_hash(lv);
    let pm = pre.children.deep_view();
    let em = e.children.deep_view();
    assert(em =~= pm.remove(i));
    assert(mirror_hashes(em) =~= mirror_hashes(pm).remove(i));
    assert(mirror_hashes(pm).no_duplicates());
    lemma_remove_to_set(mirror_hashes(pm), i);
    assert(mirror_hashes(pm)[i] == h);
    assert(counter_vec_children(e.vec).dom() =~= mirror_hashes(em).to_set());
    assert forall|a: int, b: int|
        0 <= a < b < em.len() implies label_hash(#[trigger] em[a]) != label_hash(
        #[trigger] em[b],
    ) by {
        let a1: int = if a < i {
            a
        } else {
            a + 1
        };
        let b1: int = if b < i {
            b
        } else {
            b + 1
        };
        assert(em[a] == pm[a1]);
        assert(em[b] == pm[b1]);
        assert(label_hash(pm[a1]) != label_hash(pm[b1]));
    }
    lemma_mirror_no_dup(em);
    assert forall|k: int|
        0 <= k < em.len() implies (#[trigger] em[k]).len() == e.label_names@.len() by {
        let k1: int = if k < i {
            k
        } else {
            k + 1
        };
        assert(em[k] == pm[k1]);
    }
    pre.lemma_no_collision_at(i, lv);
    assert(e.model().children =~= pre.model().children.remove(lv)) by {
        assert forall|lv2: Seq<Seq<char>>| em.contains(lv2) implies pm.contains(lv2) && lv2 != lv
            && label_hash(lv2) != h by {
            let a = choose|a: int| 0 <= a < em.len() && em[a] == lv2;
            let a1: int = if a < i {
                a
            } else {
                a + 1
            };
            assert(pm[a1] == lv2);
            if a1 < i {
                assert(label_hash(pm[a1]) != label_hash(pm[i]));
            } else {
                assert(a1 > i);
                assert(label_hash(pm[i]) != label_hash(pm[a1]));
            }
        }
        assert forall|lv2: Seq<Seq<char>>| pm.contains(lv2) && lv2 != lv implies em.contains(
            lv2,
        ) by {
            let a1 = choose|a1: int| 0 <= a1 < pm.len() && pm[a1] == lv2;
            assert(a1 != i);
            let a: int = if a1 < i {
                a1
            } else {
                a1 - 1
            };
            assert(em[a] == lv2);
        }
    }
}

} // verus!

