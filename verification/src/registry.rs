//! The metric registry: one name-to-family map per kind, guarded as a whole
//! by the caller (one exclusive lock around each call), kept consistent
//! with the underlying collector registry.
//!
//! Names are unique across the union of both kind-maps.  Each operation is
//! total: every failure is returned as a [`RegistryError`] value.

use vstd::prelude::*;

use crate::entry::{
    bump_child, clone_labels, delta_or_one, CounterEntry, CounterModel, GaugeEntry, GaugeModel,
};
use crate::hash::child_hash_collision;
use crate::errors::RegistryError;
use crate::prom::{
    collector_error_text, collector_names, collector_register_counter, collector_register_gauge,
    collector_registry_new, collector_unregister_counter, collector_unregister_gauge,
    counter_delta_ok, counter_vec_new, gauge_vec_new,
};

verus! {

/// The bit pattern of the value a gauge is set to when the caller omits one:
/// zero.
pub const GAUGE_DEFAULT_BITS: u64 = 0;

/// The bit pattern a gauge set call stores: the given one, or the default.
pub open spec fn gauge_bits_or_default(value: Option<u64>) -> u64 {
    match value {
        Some(b) => b,
        None => GAUGE_DEFAULT_BITS,
    }
}

/// The registry: a collector registry plus one list of families per kind.
pub struct MetricRegistry {
    collector: prometheus::Registry,
    gauges: Vec<GaugeEntry>,
    counters: Vec<CounterEntry>,
}

impl MetricRegistry {
    /// Whether a gauge family of this name is registered.
    pub closed spec fn has_gauge(self, n: Seq<char>) -> bool {
        exists|i: int| 0 <= i < self.gauges@.len() && (#[trigger] self.gauges@[i]).name_view() == n
    }

    /// The position of the gauge family of this name.
    pub closed spec fn gauge_index(self, n: Seq<char>) -> int {
        choose|i: int| 0 <= i < self.gauges@.len() && (#[trigger] self.gauges@[i]).name_view() == n
    }

    /// The gauge kind-map: metric name to family.
    pub closed spec fn gauges(self) -> Map<Seq<char>, GaugeModel> {
        Map::new(
            |n: Seq<char>| self.has_gauge(n),
            |n: Seq<char>| self.gauges@[self.gauge_index(n)].model(),
        )
    }

    /// Whether a counter family of this name is registered.
    pub closed spec fn has_counter(self, n: Seq<char>) -> bool {
        exists|i: int|
            0 <= i < self.counters@.len() && (#[trigger] self.counters@[i]).name_view() == n
    }

    /// The position of the counter family of this name.
    pub closed spec fn counter_index(self, n: Seq<char>) -> int {
        choose|i: int|
            0 <= i < self.counters@.len() && (#[trigger] self.counters@[i]).name_view() == n
    }

    /// The counter kind-map: metric name to family.
    pub closed spec fn counters(self) -> Map<Seq<char>, CounterModel> {
        Map::new(
            |n: Seq<char>| self.has_counter(n),
            |n: Seq<char>| self.counters@[self.counter_index(n)].model(),
        )
    }

    /// The names currently registered in the underlying collector registry.
    pub closed spec fn collector_view(self) -> Set<Seq<char>> {
        collector_names(self.collector)
    }

    /// Whether the underlying collector registry, in its current state,
    /// accepts a fresh family with this name, description and label names.
    pub closed spec fn admits(
        self,
        name: Seq<char>,
        description: Seq<char>,
        label_names: Seq<Seq<char>>,
    ) -> bool {
        crate::prom::collector_admits(self.collector, name, description, label_names)
    }

    /// The collector registry holds exactly the union of both kind-maps.
    /// Every operation preserves this, except a group unregister whose
    /// collector-side removals partly fail.
    pub open spec fn synced(self) -> bool {
        self.collector_view() == Set::new(
            |n: Seq<char>| self.gauges().contains_key(n) || self.counters().contains_key(n),
        )
    }

    /// Every entry is well-formed and names are unique across the union of
    /// both kind-maps.
    pub closed spec fn wf(self) -> bool {
        &&& forall|i: int| 0 <= i < self.gauges@.len() ==> (#[trigger] self.gauges@[i]).wf()
        &&& forall|i: int| 0 <= i < self.counters@.len() ==> (#[trigger] self.counters@[i]).wf()
        &&& forall|i: int, j: int|
            0 <= i < j < self.gauges@.len() ==> (#[trigger] self.gauges@[i]).name_view() != (
            #[trigger] self.gauges@[j]).name_view()
        &&& forall|i: int, j: int|
            0 <= i < j < self.counters@.len() ==> (#[trigger] self.counters@[i]).name_view() != (
            #[trigger] self.counters@[j]).name_view()
        &&& forall|i: int, j: int|
            0 <= i < self.gauges@.len() && 0 <= j < self.counters@.len() ==> (
            #[trigger] self.gauges@[i]).name_view() != (#[trigger] self.counters@[j]).name_view()
    }

    /// An empty registry around a fresh collector registry.
    pub fn new() -> (r: MetricRegistry)
        ensures
            r.wf(),
            r.synced(),
            r.gauges() == Map::<Seq<char>, GaugeModel>::empty(),
            r.counters() == Map::<Seq<char>, CounterModel>::empty(),
            r.collector_view() == Set::<Seq<char>>::empty(),
    {
        let r = MetricRegistry {
            collector: collector_registry_new(),
            gauges: Vec::new(),
            counters: Vec::new(),
        };
        proof {
            assert(r.gauges() =~= Map::<Seq<char>, GaugeModel>::empty());
            assert(r.counters() =~= Map::<Seq<char>, CounterModel>::empty());
            assert(r.collector_view() =~= Set::<Seq<char>>::empty());
            assert(Set::new(
                |n: Seq<char>| r.gauges().contains_key(n) || r.counters().contains_key(n),
            ) =~= Set::<Seq<char>>::empty());
        }
        r
    }

    /// The position of the gauge family named `name`, if any.
    fn find_gauge(&self, name: &String) -> (r: Option<usize>)
        ensures
            match r {
                Some(i) => i < self.gauges@.len() && self.gauges@[i as int].name_view() == name@,
                None => forall|i: int|
                    0 <= i < self.gauges@.len() ==> (#[trigger] self.gauges@[i]).name_view()
                        != name@,
            },
    {
        let n = self.gauges.len();
        let mut i: usize = 0;
        while i < n
            invariant
                n == self.gauges@.len(),
                0 <= i <= n,
                forall|j: int| 0 <= j < i ==> (#[trigger] self.gauges@[j]).name_view() != name@,
            decreases n - i,
        {
            if self.gauges[i].name == *name {
                return Some(i);
            }
            i += 1;
        }
        None
    }

    /// The position of the counter family named `name`, if any.
    fn find_counter(&self, name: &String) -> (r: Option<usize>)
        ensures
            match r {
                Some(i) => i < self.counters@.len() && self.counters@[i as int].name_view()
                    == name@,
                None => forall|i: int|
                    0 <= i < self.counters@.len() ==> (#[trigger] self.counters@[i]).name_view()
                        != name@,
            },
    {
        let n = self.counters.len();
        let mut i: usize = 0;
        while i < n
            invariant
                n == self.counters@.len(),
                0 <= i <= n,
                forall|j: int| 0 <= j < i ==> (#[trigger] self.counters@[j]).name_view() != name@,
            decreases n - i,
        {
            if self.counters[i].name == *name {
                return Some(i);
            }
            i += 1;
        }
        None
    }
}

/// Two registries with the same gauge list have the same gauge map.
proof fn lemma_gauges_same(r1: MetricRegistry, r2: MetricRegistry)
    requires
        r1.gauges@ == r2.gauges@,
    ensures
        r1.gauges() =~= r2.gauges(),
{
    assert forall|n: Seq<char>| r1.has_gauge(n) == r2.has_gauge(n) by {
        if r1.has_gauge(n) {
            let i = choose|i: int|
                0 <= i < r1.gauges@.len() && (#[trigger] r1.gauges@[i]).name_view() == n;
            assert(r2.gauges@[i].name_view() == n);
        }
        if r2.has_gauge(n) {
            let i = choose|i: int|
                0 <= i < r2.gauges@.len() && (#[trigger] r2.gauges@[i]).name_view() == n;
            assert(r1.gauges@[i].name_view() == n);
        }
    }
}

/// Two registries with the same counter list have the same counter map.
proof fn lemma_counters_same(r1: MetricRegistry, r2: MetricRegistry)
    requires
        r1.counters@ == r2.counters@,
    ensures
        r1.counters() =~= r2.counters(),
{
    assert forall|n: Seq<char>| r1.has_counter(n) == r2.has_counter(n) by {
        if r1.has_counter(n) {
            let i = choose|i: int|
                0 <= i < r1.counters@.len() && (#[trigger] r1.counters@[i]).name_view() == n;
            assert(r2.counters@[i].name_view() == n);
        }
        if r2.has_counter(n) {
            let i = choose|i: int|
                0 <= i < r2.counters@.len() && (#[trigger] r2.counters@[i]).name_view() == n;
            assert(r1.counters@[i].name_view() == n);
        }
    }
}

/// With unique names, the map sends the name of the entry at `i` to that
/// entry's model.
proof fn lemma_gauge_at(r: MetricRegistry, i: int)
    requires
        r.wf(),
        0 <= i < r.gauges@.len(),
    ensures
        r.has_gauge(r.gauges@[i].name_view()),
        r.gauge_index(r.gauges@[i].name_view()) == i,
        r.gauges()[r.gauges@[i].name_view()] == r.gauges@[i].model(),
{
    let n = r.gauges@[i].name_view();
    assert(r.has_gauge(n));
    let j = r.gauge_index(n);
    if j != i {
        assert(r.gauges@[i].name_view() != r.gauges@[j].name_view());
    }
}

/// With unique names, the map sends the name of the entry at `i` to that
/// entry's model.
proof fn lemma_counter_at(r: MetricRegistry, i: int)
    requires
        r.wf(),
        0 <= i < r.counters@.len(),
    ensures
        r.has_counter(r.counters@[i].name_view()),
        r.counter_index(r.counters@[i].name_view()) == i,
        r.counters()[r.counters@[i].name_view()] == r.counters@[i].model(),
{
    let n = r.counters@[i].name_view();
    assert(r.has_counter(n));
    let j = r.counter_index(n);
    if j != i {
        assert(r.counters@[i].name_view() != r.counters@[j].name_view());
    }
}

/// Appending an entry with a fresh name inserts it into the gauge map.
proof fn lemma_gauge_push(r1: MetricRegistry, r2: MetricRegistry, e: GaugeEntry)
    requires
        r2.gauges@ == r1.gauges@.push(e),
        forall|i: int, j: int|
            0 <= i < j < r1.gauges@.len() ==> (#[trigger] r1.gauges@[i]).name_view() != (
            #[trigger] r1.gauges@[j]).name_view(),
        forall|i: int|
            0 <= i < r1.gauges@.len() ==> (#[trigger] r1.gauges@[i]).name_view() != e.name_view(),
    ensures
        r2.gauges() =~= r1.gauges().insert(e.name_view(), e.model()),
{
    let len = r1.gauges@.len() as int;
    assert(r2.gauges@[len] == e);
    assert forall|n: Seq<char>| #![auto] true implies {
        &&& r2.has_gauge(n) == (r1.has_gauge(n) || n == e.name_view())
        &&& (r2.has_gauge(n) ==> r2.gauges()[n] == r1.gauges().insert(e.name_view(), e.model())[n])
    } by {
        if r1.has_gauge(n) {
            let i = choose|i: int|
                0 <= i < r1.gauges@.len() && (#[trigger] r1.gauges@[i]).name_view() == n;
            assert(r2.gauges@[i].name_view() == n);
            assert(r2.has_gauge(n));
            let j = r2.gauge_index(n);
            if n != e.name_view() {
                assert(j < len);
                if j != i {
                    assert(r1.gauges@[i].name_view() != r1.gauges@[j].name_view());
                }
                assert(r1.gauge_index(n) == i) by {
                    let k = r1.gauge_index(n);
                    if k != i {
                        assert(r1.gauges@[i].name_view() != r1.gauges@[k].name_view());
                    }
                }
            }
        }
        if n == e.name_view() {
            assert(r2.gauges@[len].name_view() == n);
            assert(r2.has_gauge(n));
            let j = r2.gauge_index(n);
            if j != len {
                assert(r1.gauges@[j].name_view() == e.name_view());
                assert(false);
            }
            assert(r2.gauges()[n] == e.model());
        }
        if r2.has_gauge(n) && n != e.name_view() {
            let i = choose|i: int|
                0 <= i < r2.gauges@.len() && (#[trigger] r2.gauges@[i]).name_view() == n;
            assert(i != len);
            assert(r1.gauges@[i].name_view() == n);
            assert(r1.has_gauge(n));
        }
    }
}

/// Appending an entry with a fresh name inserts it into the counter map.
proof fn lemma_counter_push(r1: MetricRegistry, r2: MetricRegistry, e: CounterEntry)
    requires
        r2.counters@ == r1.counters@.push(e),
        forall|i: int, j: int|
            0 <= i < j < r1.counters@.len() ==> (#[trigger] r1.counters@[i]).name_view() != (
            #[trigger] r1.counters@[j]).name_view(),
        forall|i: int|
            0 <= i < r1.counters@.len() ==> (#[trigger] r1.counters@[i]).name_view()
                != e.name_view(),
    ensures
        r2.counters() =~= r1.counters().insert(e.name_view(), e.model()),
{
    let len = r1.counters@.len() as int;
    assert(r2.counters@[len] == e);
    assert forall|n: Seq<char>| #![auto] true implies {
        &&& r2.has_counter(n) == (r1.has_counter(n) || n == e.name_view())
        &&& (r2.has_counter(n) ==> r2.counters()[n] == r1.counters().insert(
            e.name_view(),
            e.model(),
        )[n])
    } by {
        if r1.has_counter(n) {
            let i = choose|i: int|
                0 <= i < r1.counters@.len() && (#[trigger] r1.counters@[i]).name_view() == n;
            assert(r2.counters@[i].name_view() == n);
            assert(r2.has_counter(n));
            let j = r2.counter_index(n);
            if n != e.name_view() {
                assert(j < len);
                if j != i {
                    assert(r1.counters@[i].name_view() != r1.counters@[j].name_view());
                }
                assert(r1.counter_index(n) == i) by {
                    let k = r1.counter_index(n);
                    if k != i {
                        assert(r1.counters@[i].name_view() != r1.counters@[k].name_view());
                    }
                }
            }
        }
        if n == e.name_view() {
            assert(r2.counters@[len].name_view() == n);
            assert(r2.has_counter(n));
            let j = r2.counter_index(n);
            if j != len {
                assert(r1.counters@[j].name_view() == e.name_view());
                assert(false);
            }
            assert(r2.counters()[n] == e.model());
        }
        if r2.has_counter(n) && n != e.name_view() {
            let i = choose|i: int|
                0 <= i < r2.counters@.len() && (#[trigger] r2.counters@[i]).name_view() == n;
            assert(i != len);
            assert(r1.counters@[i].name_view() == n);
            assert(r1.has_counter(n));
        }
    }
}

/// Removing the entry at `i` removes exactly its name from the gauge map.
proof fn lemma_gauge_remove(r1: MetricRegistry, r2: MetricRegistry, i: int)
    requires
        r1.wf(),
        0 <= i < r1.gauges@.len(),
        r2.gauges@ == r1.gauges@.remove(i),
    ensures
        r2.gauges() =~= r1.gauges().remove(r1.gauges@[i].name_view()),
        forall|a: int, b: int|
            0 <= a < b < r2.gauges@.len() ==> (#[trigger] r2.gauges@[a]).name_view() != (
            #[trigger] r2.gauges@[b]).name_view(),
{
    let nm = r1.gauges@[i].name_view();
    assert forall|a: int, b: int|
        0 <= a < b < r2.gauges@.len() implies (#[trigger] r2.gauges@[a]).name_view() != (
    #[trigger] r2.gauges@[b]).name_view() by {
        let a1: int = if a < i { a } else { a + 1 };
        let b1: int = if b < i { b } else { b + 1 };
        assert(r2.gauges@[a] == r1.gauges@[a1]);
        assert(r2.gauges@[b] == r1.gauges@[b1]);
        assert(r1.gauges@[a1].name_view() != r1.gauges@[b1].name_view());
    }
    assert forall|n: Seq<char>| #![auto] true implies {
        &&& r2.has_gauge(n) == (r1.has_gauge(n) && n != nm)
        &&& (r2.has_gauge(n) ==> r2.gauges()[n] == r1.gauges()[n])
    } by {
        if r2.has_gauge(n) {
            let a = choose|a: int|
                0 <= a < r2.gauges@.len() && (#[trigger] r2.gauges@[a]).name_view() == n;
            let a1: int = if a < i { a } else { a + 1 };
            assert(r2.gauges@[a] == r1.gauges@[a1]);
            assert(r1.has_gauge(n));
            if n == nm {
                assert(r1.gauges@[a1].name_view() == r1.gauges@[i].name_view());
                assert(a1 != i);
                assert(false);
            }
            lemma_gauge_at(r1, a1);
            assert(r1.gauges()[n] == r1.gauges@[a1].model());
            let j = r2.gauge_index(n);
            let j1: int = if j < i { j } else { j + 1 };
            assert(r2.gauges@[j] == r1.gauges@[j1]);
            if j1 != a1 {
                assert(r1.gauges@[j1].name_view() != r1.gauges@[a1].name_view());
            }
        }
        if r1.has_gauge(n) && n != nm {
            let a1 = choose|a1: int|
                0 <= a1 < r1.gauges@.len() && (#[trigger] r1.gauges@[a1]).name_view() == n;
            assert(a1 != i);
            let a: int = if a1 < i { a1 } else { a1 - 1 };
            assert(r2.gauges@[a] == r1.gauges@[a1]);
            assert(r2.has_gauge(n));
        }
    }
}

/// Removing the entry at `i` removes exactly its name from the counter map.
proof fn lemma_counter_remove(r1: MetricRegistry, r2: MetricRegistry, i: int)
    requires
        r1.wf(),
        0 <= i < r1.counters@.len(),
        r2.counters@ == r1.counters@.remove(i),
    ensures
        r2.counters() =~= r1.counters().remove(r1.counters@[i].name_view()),
        forall|a: int, b: int|
            0 <= a < b < r2.counters@.len() ==> (#[trigger] r2.counters@[a]).name_view() != (
            #[trigger] r2.counters@[b]).name_view(),
{
    let nm = r1.counters@[i].name_view();
    assert forall|a: int, b: int|
        0 <= a < b < r2.counters@.len() implies (#[trigger] r2.counters@[a]).name_view() != (
    #[trigger] r2.counters@[b]).name_view() by {
        let a1: int = if a < i { a } else { a + 1 };
        let b1: int = if b < i { b } else { b + 1 };
        assert(r2.counters@[a] == r1.counters@[a1]);
        assert(r2.counters@[b] == r1.counters@[b1]);
        assert(r1.counters@[a1].name_view() != r1.counters@[b1].name_view());
    }
    assert forall|n: Seq<char>| #![auto] true implies {
        &&& r2.has_counter(n) == (r1.has_counter(n) && n != nm)
        &&& (r2.has_counter(n) ==> r2.counters()[n] == r1.counters()[n])
    } by {
        if r2.has_counter(n) {
            let a = choose|a: int|
                0 <= a < r2.counters@.len() && (#[trigger] r2.counters@[a]).name_view() == n;
            let a1: int = if a < i { a } else { a + 1 };
            assert(r2.counters@[a] == r1.counters@[a1]);
            assert(r1.has_counter(n));
            if n == nm {
                assert(r1.counters@[a1].name_view() == r1.counters@[i].name_view());
                assert(a1 != i);
                assert(false);
            }
            lemma_counter_at(r1, a1);
            assert(r1.counters()[n] == r1.counters@[a1].model());
            let j = r2.counter_index(n);
            let j1: int = if j < i { j } else { j + 1 };
            assert(r2.counters@[j] == r1.counters@[j1]);
            if j1 != a1 {
                assert(r1.counters@[j1].name_view() != r1.counters@[a1].name_view());
            }
        }
        if r1.has_counter(n) && n != nm {
            let a1 = choose|a1: int|
                0 <= a1 < r1.counters@.len() && (#[trigger] r1.counters@[a1]).name_view() == n;
            assert(a1 != i);
            let a: int = if a1 < i { a1 } else { a1 - 1 };
            assert(r2.counters@[a] == r1.counters@[a1]);
            assert(r2.has_counter(n));
        }
    }
}


/// Reinserting a well-formed entry under an existing gauge name updates the
/// gauge map at that name and preserves well-formedness.
proof fn lemma_gauge_update(
    r0: MetricRegistry,
    mid: MetricRegistry,
    r2: MetricRegistry,
    i: int,
    e: GaugeEntry,
)
    requires
        r0.wf(),
        0 <= i < r0.gauges@.len(),
        mid.gauges@ == r0.gauges@.remove(i),
        r2.gauges@ == mid.gauges@.push(e),
        r2.counters@ == r0.counters@,
        e.wf(),
        e.name_view() == r0.gauges@[i].name_view(),
    ensures
        r2.wf(),
        r2.gauges() =~= r0.gauges().insert(e.name_view(), e.model()),
        r2.counters() =~= r0.counters(),
{
    lemma_gauge_remove(r0, mid, i);
    assert forall|k: int|
        0 <= k < mid.gauges@.len() implies (#[trigger] mid.gauges@[k]).name_view()
        != e.name_view() by {
        let k1: int = if k < i {
            k
        } else {
            k + 1
        };
        assert(mid.gauges@[k] == r0.gauges@[k1]);
        assert(r0.gauges@[k1].name_view() != r0.gauges@[i].name_view());
    }
    lemma_gauge_push(mid, r2, e);
    assert(r2.gauges() =~= r0.gauges().remove(e.name_view()).insert(e.name_view(), e.model()));
    assert(r0.gauges().remove(e.name_view()).insert(e.name_view(), e.model()) =~= r0.gauges().insert(
        e.name_view(),
        e.model(),
    ));
    lemma_counters_same(r0, r2);
    assert forall|k: int| 0 <= k < r2.gauges@.len() implies (#[trigger] r2.gauges@[k]).wf() by {
        if k < mid.gauges@.len() {
            let k1: int = if k < i {
                k
            } else {
                k + 1
            };
            assert(r2.gauges@[k] == r0.gauges@[k1]);
        } else {
            assert(r2.gauges@[k] == e);
        }
    }
    assert forall|a: int, b: int|
        0 <= a < b < r2.gauges@.len() implies (#[trigger] r2.gauges@[a]).name_view() != (
    #[trigger] r2.gauges@[b]).name_view() by {
        if b < mid.gauges@.len() {
            assert(r2.gauges@[a] == mid.gauges@[a]);
            assert(r2.gauges@[b] == mid.gauges@[b]);
        } else {
            assert(r2.gauges@[b] == e);
            assert(r2.gauges@[a] == mid.gauges@[a]);
        }
    }
    assert forall|a: int, b: int|
        0 <= a < r2.gauges@.len() && 0 <= b < r2.counters@.len() implies (
    #[trigger] r2.gauges@[a]).name_view() != (#[trigger] r2.counters@[b]).name_view() by {
        let a1: int = if a < mid.gauges@.len() {
            if a < i {
                a
            } else {
                a + 1
            }
        } else {
            i
        };
        assert(r2.gauges@[a].name_view() == r0.gauges@[a1].name_view());
        assert(r0.gauges@[a1].name_view() != r0.counters@[b].name_view());
    }
}

/// Reinserting a well-formed entry under an existing counter name updates
/// the counter map at that name and preserves well-formedness.
proof fn lemma_counter_update(
    r0: MetricRegistry,
    mid: MetricRegistry,
    r2: MetricRegistry,
    i: int,
    e: CounterEntry,
)
    requires
        r0.wf(),
        0 <= i < r0.counters@.len(),
        mid.counters@ == r0.counters@.remove(i),
        r2.counters@ == mid.counters@.push(e),
        r2.gauges@ == r0.gauges@,
        e.wf(),
        e.name_view() == r0.counters@[i].name_view(),
    ensures
        r2.wf(),
        r2.counters() =~= r0.counters().insert(e.name_view(), e.model()),
        r2.gauges() =~= r0.gauges(),
{
    lemma_counter_remove(r0, mid, i);
    assert forall|k: int|
        0 <= k < mid.counters@.len() implies (#[trigger] mid.counters@[k]).name_view()
        != e.name_view() by {
        let k1: int = if k < i {
            k
        } else {
            k + 1
        };
        assert(mid.counters@[k] == r0.counters@[k1]);
        assert(r0.counters@[k1].name_view() != r0.counters@[i].name_view());
    }
    lemma_counter_push(mid, r2, e);
    assert(r2.counters() =~= r0.counters().remove(e.name_view()).insert(e.name_view(), e.model()));
    assert(r0.counters().remove(e.name_view()).insert(e.name_view(), e.model())
        =~= r0.counters().insert(e.name_view(), e.model()));
    lemma_gauges_same(r0, r2);
    assert forall|k: int| 0 <= k < r2.counters@.len() implies (#[trigger] r2.counters@[k]).wf() by {
        if k < mid.counters@.len() {
            let k1: int = if k < i {
                k
            } else {
                k + 1
            };
            assert(r2.counters@[k] == r0.counters@[k1]);
        } else {
            assert(r2.counters@[k] == e);
        }
    }
    assert forall|a: int, b: int|
        0 <= a < b < r2.counters@.len() implies (#[trigger] r2.counters@[a]).name_view() != (
    #[trigger] r2.counters@[b]).name_view() by {
        if b < mid.counters@.len() {
            assert(r2.counters@[a] == mid.counters@[a]);
            assert(r2.counters@[b] == mid.counters@[b]);
        } else {
            assert(r2.counters@[b] == e);
            assert(r2.counters@[a] == mid.counters@[a]);
        }
    }
    assert forall|a: int, b: int|
        0 <= a < r2.gauges@.len() && 0 <= b < r2.counters@.len() implies (
    #[trigger] r2.gauges@[a]).name_view() != (#[trigger] r2.counters@[b]).name_view() by {
        let b1: int = if b < mid.counters@.len() {
            if b < i {
                b
            } else {
                b + 1
            }
        } else {
            i
        };
        assert(r2.counters@[b].name_view() == r0.counters@[b1].name_view());
        assert(r0.gauges@[a].name_view() != r0.counters@[b1].name_view());
    }
}

/// Deleting the gauge entry at `i` removes its name from the gauge map and
/// preserves well-formedness.
proof fn lemma_gauge_delete(r0: MetricRegistry, r2: MetricRegistry, i: int)
    requires
        r0.wf(),
        0 <= i < r0.gauges@.len(),
        r2.gauges@ == r0.gauges@.remove(i),
        r2.counters@ == r0.counters@,
    ensures
        r2.wf(),
        r2.gauges() =~= r0.gauges().remove(r0.gauges@[i].name_view()),
        r2.counters() =~= r0.counters(),
{
    lemma_gauge_remove(r0, r2, i);
    lemma_counters_same(r0, r2);
    assert forall|k: int| 0 <= k < r2.gauges@.len() implies (#[trigger] r2.gauges@[k]).wf() by {
        let k1: int = if k < i {
            k
        } else {
            k + 1
        };
        assert(r2.gauges@[k] == r0.gauges@[k1]);
    }
    assert forall|a: int, b: int|
        0 <= a < r2.gauges@.len() && 0 <= b < r2.counters@.len() implies (
    #[trigger] r2.gauges@[a]).name_view() != (#[trigger] r2.counters@[b]).name_view() by {
        let a1: int = if a < i {
            a
        } else {
            a + 1
        };
        assert(r2.gauges@[a] == r0.gauges@[a1]);
        assert(r0.gauges@[a1].name_view() != r0.counters@[b].name_view());
    }
}

/// Deleting the counter entry at `i` removes its name from the counter map
/// and preserves well-formedness.
proof fn lemma_counter_delete(r0: MetricRegistry, r2: MetricRegistry, i: int)
    requires
        r0.wf(),
        0 <= i < r0.counters@.len(),
        r2.counters@ == r0.counters@.remove(i),
        r2.gauges@ == r0.gauges@,
    ensures
        r2.wf(),
        r2.counters() =~= r0.counters().remove(r0.counters@[i].name_view()),
        r2.gauges() =~= r0.gauges(),
{
    lemma_counter_remove(r0, r2, i);
    lemma_gauges_same(r0, r2);
    assert forall|k: int| 0 <= k < r2.counters@.len() implies (#[trigger] r2.counters@[k]).wf() by {
        let k1: int = if k < i {
            k
        } else {
            k + 1
        };
        assert(r2.counters@[k] == r0.counters@[k1]);
    }
    assert forall|a: int, b: int|
        0 <= a < r2.gauges@.len() && 0 <= b < r2.counters@.len() implies (
    #[trigger] r2.gauges@[a]).name_view() != (#[trigger] r2.counters@[b]).name_view() by {
        let b1: int = if b < i {
            b
        } else {
            b + 1
        };
        assert(r2.counters@[b] == r0.counters@[b1]);
        assert(r0.gauges@[a].name_view() != r0.counters@[b1].name_view());
    }
}


impl MetricRegistry {
    /// Register a new gauge family under `group`, with the given name,
    /// description and ordered label names.  Fails with `NameCollision` if
    /// the name is present in either kind-map, with `CollectorCreation` if
    /// the collector library rejects the schema; no failure changes any
    /// state.
    pub fn register_gauge(
        &mut self,
        group: &String,
        name: &String,
        description: &String,
        label_names: &Vec<String>,
    ) -> (r: Result<(), RegistryError>)
        requires
            old(self).wf(),
        ensures
            final(self).wf(),
            old(self).synced() ==> final(self).synced(),
            (r matches Err(RegistryError::NameCollision)) <==> (old(self).gauges().contains_key(
                name@,
            ) || old(self).counters().contains_key(name@)),
            (!old(self).gauges().contains_key(name@) && !old(self).counters().contains_key(
                name@,
            )) ==> (r is Ok <==> crate::prom::schema_ok(
                name@,
                description@,
                label_names.deep_view(),
            ) && old(self).admits(name@, description@, label_names.deep_view())),
            r is Ok ==> final(self).gauges() == old(self).gauges().insert(
                name@,
                (GaugeModel {
                    group: group@,
                    description: description@,
                    label_names: label_names.deep_view(),
                    children: Map::<Seq<Seq<char>>, u64>::empty(),
                }),
            ) && final(self).counters() == old(self).counters() && final(self).collector_view()
                == old(self).collector_view().insert(name@),
            r is Err ==> final(self).gauges() == old(self).gauges() && final(self).counters()
                == old(self).counters() && final(self).collector_view() == old(
                self,
            ).collector_view(),
            r is Ok || (r matches Err(RegistryError::NameCollision)) || (r matches Err(
                RegistryError::CollectorCreation(_),
            )),
    {
        let g_found = self.find_gauge(name);
        let c_found = self.find_counter(name);
        if g_found.is_some() || c_found.is_some() {
            proof {
                if g_found is Some {
                    let i = g_found->0;
                    assert(self.gauges@[i as int].name_view() == name@);
                    assert(self.has_gauge(name@));
                }
                if c_found is Some {
                    let i = c_found->0;
                    assert(self.counters@[i as int].name_view() == name@);
                    assert(self.has_counter(name@));
                }
            }
            return Err(RegistryError::NameCollision);
        }
        proof {
            assert(!old(self).gauges().contains_key(name@));
            assert(!old(self).counters().contains_key(name@));
        }
        let vec = match gauge_vec_new(name, description, label_names) {
            Ok(v) => v,
            Err(e) => {
                return Err(RegistryError::CollectorCreation(collector_error_text(&e)));
            },
        };
        match collector_register_gauge(&mut self.collector, &vec) {
            Err(e) => {
                proof {
                    lemma_gauges_same(*old(self), *self);
                    lemma_counters_same(*old(self), *self);
                }
                Err(RegistryError::CollectorCreation(collector_error_text(&e)))
            },
            Ok(()) => {
                let entry = GaugeEntry {
                    name: name.clone(),
                    group: group.clone(),
                    description: description.clone(),
                    label_names: clone_labels(label_names),
                    children: Vec::new(),
                    vec,
                };
                proof {
                    assert(crate::entry::mirror_hashes(entry.children.deep_view()).to_set()
                        =~= Set::<u64>::empty());
                    assert(crate::prom::gauge_vec_children(entry.vec).dom() =~= Set::<
                        u64,
                    >::empty());
                    assert(entry.wf());
                }
                let ghost ge = entry;
                let ghost mid = *self;
                self.gauges.push(entry);
                proof {
                    lemma_gauge_push(mid, *self, ge);
                    lemma_gauges_same(*old(self), mid);
                    lemma_counters_same(*old(self), *self);
                    assert(self.gauges() =~= old(self).gauges().insert(name@, ge.model()));
                    assert(ge.model().children =~= Map::<Seq<Seq<char>>, u64>::empty());
                    assert(ge.model() == (GaugeModel {
                        group: group@,
                        description: description@,
                        label_names: label_names.deep_view(),
                        children: Map::<Seq<Seq<char>>, u64>::empty(),
                    }));
                    assert forall|k: int|
                        0 <= k < self.gauges@.len() implies (#[trigger] self.gauges@[k]).wf() by {
                        if k < old(self).gauges@.len() {
                            assert(self.gauges@[k] == old(self).gauges@[k]);
                        } else {
                            assert(self.gauges@[k] == ge);
                        }
                    }
                    assert forall|a: int, b: int|
                        0 <= a < b < self.gauges@.len() implies (
                    #[trigger] self.gauges@[a]).name_view() != (
                    #[trigger] self.gauges@[b]).name_view() by {
                        if b < old(self).gauges@.len() {
                            assert(self.gauges@[a] == old(self).gauges@[a]);
                            assert(self.gauges@[b] == old(self).gauges@[b]);
                        } else {
                            assert(self.gauges@[b] == ge);
                            assert(self.gauges@[a] == old(self).gauges@[a]);
                        }
                    }
                    assert forall|a: int, b: int|
                        0 <= a < self.gauges@.len() && 0 <= b < self.counters@.len() implies (
                    #[trigger] self.gauges@[a]).name_view() != (
                    #[trigger] self.counters@[b]).name_view() by {
                        if a < old(self).gauges@.len() {
                            assert(self.gauges@[a] == old(self).gauges@[a]);
                        } else {
                            assert(self.gauges@[a] == ge);
                        }
                    }
                    if old(self).synced() {
                        assert(Set::new(
                            |n: Seq<char>| self.gauges().contains_key(n)
                                || self.counters().contains_key(n),
                        ) =~= Set::new(
                            |n: Seq<char>| old(self).gauges().contains_key(n) || old(
                                self,
                            ).counters().contains_key(n),
                        ).insert(name@));
                    }
                }
                Ok(())
            },
        }
    }
}

impl MetricRegistry {
    /// Register a new counter family, as register_gauge does for gauges.
    pub fn register_counter(
        &mut self,
        group: &String,
        name: &String,
        description: &String,
        label_names: &Vec<String>,
    ) -> (r: Result<(), RegistryError>)
        requires
            old(self).wf(),
        ensures
            final(self).wf(),
            old(self).synced() ==> final(self).synced(),
            (r matches Err(RegistryError::NameCollision)) <==> (old(self).gauges().contains_key(
                name@,
            ) || old(self).counters().contains_key(name@)),
            (!old(self).gauges().contains_key(name@) && !old(self).counters().contains_key(
                name@,
            )) ==> (r is Ok <==> crate::prom::schema_ok(
                name@,
                description@,
                label_names.deep_view(),
            ) && old(self).admits(name@, description@, label_names.deep_view())),
            r is Ok ==> final(self).counters() == old(self).counters().insert(
                name@,
                (CounterModel {
                    group: group@,
                    description: description@,
                    label_names: label_names.deep_view(),
                    children: Map::<Seq<Seq<char>>, u64>::empty(),
                }),
            ) && final(self).gauges() == old(self).gauges() && final(self).collector_view() == old(
                self,
            ).collector_view().insert(name@),
            r is Err ==> final(self).gauges() == old(self).gauges() && final(self).counters()
                == old(self).counters() && final(self).collector_view() == old(
                self,
            ).collector_view(),
            r is Ok || (r matches Err(RegistryError::NameCollision)) || (r matches Err(
                RegistryError::CollectorCreation(_),
            )),
    {
        let g_found = self.find_gauge(name);
        let c_found = self.find_counter(name);
        if g_found.is_some() || c_found.is_some() {
            proof {
                if g_found is Some {
                    let i = g_found->0;
                    assert(self.gauges@[i as int].name_view() == name@);
                    assert(self.has_gauge(name@));
                }
                if c_found is Some {
                    let i = c_found->0;
                    assert(self.counters@[i as int].name_view() == name@);
                    assert(self.has_counter(name@));
                }
            }
            return Err(RegistryError::NameCollision);
        }
        proof {
            assert(!old(self).gauges().contains_key(name@));
            assert(!old(self).counters().contains_key(name@));
        }
        let vec = match counter_vec_new(name, description, label_names) {
            Ok(v) => v,
            Err(e) => {
                return Err(RegistryError::CollectorCreation(collector_error_text(&e)));
            },
        };
        match collector_register_counter(&mut self.collector, &vec) {
            Err(e) => {
                proof {
                    lemma_gauges_same(*old(self), *self);
                    lemma_counters_same(*old(self), *self);
                }
                Err(RegistryError::CollectorCreation(collector_error_text(&e)))
            },
            Ok(()) => {
                let entry = CounterEntry {
                    name: name.clone(),
                    group: group.clone(),
                    description: description.clone(),
                    label_names: clone_labels(label_names),
                    children: Vec::new(),
                    vec,
                };
                proof {
                    assert(crate::entry::mirror_hashes(entry.children.deep_view()).to_set()
                        =~= Set::<u64>::empty());
                    assert(crate::prom::counter_vec_children(entry.vec).dom() =~= Set::<
                        u64,
                    >::empty());
                    assert(entry.wf());
                }
                let ghost ge = entry;
                let ghost mid = *self;
                self.counters.push(entry);
                proof {
                    lemma_counter_push(mid, *self, ge);
                    lemma_counters_same(*old(self), mid);
                    lemma_gauges_same(*old(self), *self);
                    assert(self.counters() =~= old(self).counters().insert(name@, ge.model()));
                    assert(ge.model().children =~= Map::<Seq<Seq<char>>, u64>::empty());
                    assert(ge.model() == (CounterModel {
                        group: group@,
                        description: description@,
                        label_names: label_names.deep_view(),
                        children: Map::<Seq<Seq<char>>, u64>::empty(),
                    }));
                    assert forall|k: int|
                        0 <= k < self.counters@.len() implies (
                    #[trigger] self.counters@[k]).wf() by {
                        if k < old(self).counters@.len() {
                            assert(self.counters@[k] == old(self).counters@[k]);
                        } else {
                            assert(self.counters@[k] == ge);
                        }
                    }
                    assert forall|a: int, b: int|
                        0 <= a < b < self.counters@.len() implies (
                    #[trigger] self.counters@[a]).name_view() != (
                    #[trigger] self.counters@[b]).name_view() by {
                        if b < old(self).counters@.len() {
                            assert(self.counters@[a] == old(self).counters@[a]);
                            assert(self.counters@[b] == old(self).counters@[b]);
                        } else {
                            assert(self.counters@[b] == ge);
                            assert(self.counters@[a] == old(self).counters@[a]);
                        }
                    }
                    assert forall|a: int, b: int|
                        0 <= a < self.gauges@.len() && 0 <= b < self.counters@.len() implies (
                    #[trigger] self.gauges@[a]).name_view() != (
                    #[trigger] self.counters@[b]).name_view() by {
                        if b < old(self).counters@.len() {
                            assert(self.counters@[b] == old(self).counters@[b]);
                        } else {
                            assert(self.counters@[b] == ge);
                        }
                    }
                    if old(self).synced() {
                        assert(Set::new(
                            |n: Seq<char>| self.gauges().contains_key(n)
                                || self.counters().contains_key(n),
                        ) =~= Set::new(
                            |n: Seq<char>| old(self).gauges().contains_key(n) || old(
                                self,
                            ).counters().contains_key(n),
                        ).insert(name@));
                    }
                }
                Ok(())
            },
        }
    }

    /// Create-or-update the child of the named gauge for this label vector
    /// and set it to the given value: the bit pattern in `value`, or zero
    /// when omitted.
    pub fn set_gauge(&mut self, name: &String, value: Option<u64>, labels: &Vec<String>) -> (r:
        Result<(), RegistryError>)
        requires
            old(self).wf(),
        ensures
            final(self).wf(),
            old(self).synced() ==> final(self).synced(),
            final(self).counters() == old(self).counters(),
            final(self).collector_view() == old(self).collector_view(),
            !old(self).gauges().contains_key(name@) ==> (r matches Err(RegistryError::NotFound))
                && final(self).gauges() == old(self).gauges(),
            old(self).gauges().contains_key(name@) && labels@.len() == old(self).gauges()[
                name@
            ].label_names.len() && !child_hash_collision(
                old(self).gauges()[name@].children,
                labels.deep_view(),
            ) ==> r is Ok && final(self).gauges() == old(self).gauges().insert(
                name@,
                (GaugeModel {
                    children: old(self).gauges()[name@].children.insert(
                        labels.deep_view(),
                        gauge_bits_or_default(value),
                    ),
                    ..old(self).gauges()[name@]
                }),
            ),
            old(self).gauges().contains_key(name@) && labels@.len() == old(self).gauges()[
                name@
            ].label_names.len() && child_hash_collision(
                old(self).gauges()[name@].children,
                labels.deep_view(),
            ) ==> (r matches Err(RegistryError::LabelHashCollision)) && final(self).gauges()
                == old(self).gauges(),
            old(self).gauges().contains_key(name@) && labels@.len() != old(self).gauges()[
                name@
            ].label_names.len() ==> (r matches Err(
                RegistryError::LabelArityMismatch { expected, got },
            ) && expected == old(self).gauges()[name@].label_names.len() && got == labels@.len()
                && final(self).gauges() == old(self).gauges()),
    {
        match self.find_gauge(name) {
            None => {
                proof {
                    assert(!old(self).gauges().contains_key(name@));
                }
                Err(RegistryError::NotFound)
            },
            Some(i) => {
                proof {
                    lemma_gauge_at(*self, i as int);
                }
                let bits = match value {
                    Some(b) => b,
                    None => GAUGE_DEFAULT_BITS,
                };
                let mut e = self.gauges.remove(i);
                let ghost mid = *self;
                let res = e.set_child(labels, bits);
                let ghost ge = e;
                self.gauges.push(e);
                proof {
                    lemma_gauge_update(*old(self), mid, *self, i as int, ge);
                    if labels@.len() != old(self).gauges()[name@].label_names.len()
                        || child_hash_collision(
                        old(self).gauges()[name@].children,
                        labels.deep_view(),
                    ) {
                        assert(ge == old(self).gauges@[i as int]);
                        assert(old(self).gauges().insert(name@, ge.model()) =~= old(self).gauges());
                    }
                    if old(self).synced() {
                        assert(Set::new(
                            |n: Seq<char>| self.gauges().contains_key(n)
                                || self.counters().contains_key(n),
                        ) =~= Set::new(
                            |n: Seq<char>| old(self).gauges().contains_key(n) || old(
                                self,
                            ).counters().contains_key(n),
                        ));
                    }
                }
                res
            },
        }
    }

    /// The bit pattern the named gauge's child for this label vector
    /// currently stores, or `None` if that child does not exist; reading
    /// never creates a child.
    pub fn gauge_value_bits(&mut self, name: &String, labels: &Vec<String>) -> (r: Result<
        Option<u64>,
        RegistryError,
    >)
        requires
            old(self).wf(),
        ensures
            final(self).wf(),
            old(self).synced() ==> final(self).synced(),
            final(self).gauges() == old(self).gauges(),
            final(self).counters() == old(self).counters(),
            final(self).collector_view() == old(self).collector_view(),
            !old(self).gauges().contains_key(name@) ==> (r matches Err(RegistryError::NotFound)),
            old(self).gauges().contains_key(name@) && labels@.len() == old(self).gauges()[
                name@
            ].label_names.len() ==> (r matches Ok(v) && v == (
            if old(self).gauges()[name@].children.contains_key(labels.deep_view()) {
                Some(old(self).gauges()[name@].children[labels.deep_view()])
            } else {
                Option::<u64>::None
            })),
            old(self).gauges().contains_key(name@) && labels@.len() != old(self).gauges()[
                name@
            ].label_names.len() ==> (r matches Err(
                RegistryError::LabelArityMismatch { expected, got },
            ) && expected == old(self).gauges()[name@].label_names.len() && got == labels@.len()),
    {
        match self.find_gauge(name) {
            None => {
                proof {
                    assert(!old(self).gauges().contains_key(name@));
                }
                Err(RegistryError::NotFound)
            },
            Some(i) => {
                proof {
                    lemma_gauge_at(*self, i as int);
                }
                let mut e = self.gauges.remove(i);
                let ghost mid = *self;
                let res = e.child_bits(labels);
                let ghost ge = e;
                self.gauges.push(e);
                proof {
                    lemma_gauge_update(*old(self), mid, *self, i as int, ge);
                    assert(ge.model() == old(self).gauges@[i as int].model());
                    assert(old(self).gauges().insert(name@, ge.model()) =~= old(self).gauges());
                    if old(self).synced() {
                        assert(Set::new(
                            |n: Seq<char>| self.gauges().contains_key(n)
                                || self.counters().contains_key(n),
                        ) =~= Set::new(
                            |n: Seq<char>| old(self).gauges().contains_key(n) || old(
                                self,
                            ).counters().contains_key(n),
                        ));
                    }
                }
                res
            },
        }
    }

    /// Delete the named gauge's child for this label vector; deleting an
    /// absent child is a no-op success.  The family itself stays
    /// registered.
    pub fn remove_gauge_child(&mut self, name: &String, labels: &Vec<String>) -> (r: Result<
        (),
        RegistryError,
    >)
        requires
            old(self).wf(),
        ensures
            final(self).wf(),
            old(self).synced() ==> final(self).synced(),
            final(self).counters() == old(self).counters(),
            final(self).collector_view() == old(self).collector_view(),
            !old(self).gauges().contains_key(name@) ==> (r matches Err(RegistryError::NotFound))
                && final(self).gauges() == old(self).gauges(),
            old(self).gauges().contains_key(name@) && labels@.len() == old(self).gauges()[
                name@
            ].label_names.len() ==> r is Ok && final(self).gauges() == old(self).gauges().insert(
                name@,
                (GaugeModel {
                    children: old(self).gauges()[name@].children.remove(labels.deep_view()),
                    ..old(self).gauges()[name@]
                }),
            ),
            old(self).gauges().contains_key(name@) && labels@.len() != old(self).gauges()[
                name@
            ].label_names.len() ==> (r matches Err(
                RegistryError::LabelArityMismatch { expected, got },
            ) && expected == old(self).gauges()[name@].label_names.len() && got == labels@.len()
                && final(self).gauges() == old(self).gauges()),
    {
        match self.find_gauge(name) {
            None => {
                proof {
                    assert(!old(self).gauges().contains_key(name@));
                }
                Err(RegistryError::NotFound)
            },
            Some(i) => {
                proof {
                    lemma_gauge_at(*self, i as int);
                }
                let mut e = self.gauges.remove(i);
                let ghost mid = *self;
                let res = e.remove_child(labels);
                let ghost ge = e;
                self.gauges.push(e);
                proof {
                    lemma_gauge_update(*old(self), mid, *self, i as int, ge);
                    if labels@.len() != old(self).gauges()[name@].label_names.len() {
                        assert(ge == old(self).gauges@[i as int]);
                        assert(old(self).gauges().insert(name@, ge.model()) =~= old(self).gauges());
                    }
                    if old(self).synced() {
                        assert(Set::new(
                            |n: Seq<char>| self.gauges().contains_key(n)
                                || self.counters().contains_key(n),
                        ) =~= Set::new(
                            |n: Seq<char>| old(self).gauges().contains_key(n) || old(
                                self,
                            ).counters().contains_key(n),
                        ));
                    }
                }
                res
            },
        }
    }

    /// Remove the named gauge family from the registry and from the
    /// collector registry.  On a collector-side failure nothing changes on
    /// either side.
    pub fn unregister_gauge(&mut self, name: &String) -> (r: Result<(), RegistryError>)
        requires
            old(self).wf(),
        ensures
            final(self).wf(),
            old(self).synced() ==> final(self).synced(),
            final(self).counters() == old(self).counters(),
            (!old(self).gauges().contains_key(name@)) <==> (r matches Err(
                RegistryError::NotFound
            )),
            r is Ok ==> final(self).gauges() == old(self).gauges().remove(name@) && final(self).collector_view() == old(self).collector_view().remove(name@),
            r is Err ==> final(self).gauges() == old(self).gauges() && final(self).collector_view() == old(self).collector_view(),
            r is Ok || (r matches Err(RegistryError::NotFound)) || (r matches Err(
                RegistryError::CollectorRemoval(_),
            )),
    {
        match self.find_gauge(name) {
            None => {
                proof {
                    assert(!old(self).gauges().contains_key(name@));
                }
                Err(RegistryError::NotFound)
            },
            Some(i) => {
                proof {
                    lemma_gauge_at(*self, i as int);
                    if old(self).synced() {
                        assert(old(self).collector_view().contains(name@));
                    }
                }
                let e = self.gauges.remove(i);
                let ghost mid = *self;
                let ghost ge = e;
                let res = collector_unregister_gauge(&mut self.collector, &e.vec);
                match res {
                    Ok(()) => {
                        proof {
                            lemma_gauge_delete(*old(self), *self, i as int);
                            if old(self).synced() {
                                assert(Set::new(
                                    |n: Seq<char>| self.gauges().contains_key(n)
                                        || self.counters().contains_key(n),
                                ) =~= Set::new(
                                    |n: Seq<char>| old(self).gauges().contains_key(n) || old(
                                        self,
                                    ).counters().contains_key(n),
                                ).remove(name@));
                            }
                        }
                        Ok(())
                    },
                    Err(er) => {
                        let msg = collector_error_text(&er);
                        self.gauges.push(e);
                        proof {
                            lemma_gauge_update(*old(self), mid, *self, i as int, ge);
                            assert(old(self).gauges().insert(name@, ge.model()) =~= old(
                                self,
                            ).gauges());
                            if old(self).synced() {
                                assert(Set::new(
                                    |n: Seq<char>| self.gauges().contains_key(n)
                                        || self.counters().contains_key(n),
                                ) =~= Set::new(
                                    |n: Seq<char>| old(self).gauges().contains_key(n) || old(
                                        self,
                                    ).counters().contains_key(n),
                                ));
                            }
                        }
                        Err(RegistryError::CollectorRemoval(msg))
                    },
                }
            },
        }
    }

    /// Create-or-update the child of the named counter for this label
    /// vector and add one to it.
    pub fn inc_counter(&mut self, name: &String, labels: &Vec<String>) -> (r: Result<
        (),
        RegistryError,
    >)
        requires
            old(self).wf(),
        ensures
            final(self).wf(),
            old(self).synced() ==> final(self).synced(),
            final(self).gauges() == old(self).gauges(),
            final(self).collector_view() == old(self).collector_view(),
            !old(self).counters().contains_key(name@) ==> (r matches Err(RegistryError::NotFound))
                && final(self).counters() == old(self).counters(),
            old(self).counters().contains_key(name@) && labels@.len() == old(self).counters()[
                name@
            ].label_names.len() && !child_hash_collision(
                old(self).counters()[name@].children,
                labels.deep_view(),
            ) ==> r is Ok && final(self).counters() == old(self).counters().insert(
                name@,
                (CounterModel {
                    children: bump_child(
                        old(self).counters()[name@].children,
                        labels.deep_view(),
                        crate::prom::COUNTER_ONE_BITS,
                    ),
                    ..old(self).counters()[name@]
                }),
            ),
            old(self).counters().contains_key(name@) && labels@.len() == old(self).counters()[
                name@
            ].label_names.len() && child_hash_collision(
                old(self).counters()[name@].children,
                labels.deep_view(),
            ) ==> (r matches Err(RegistryError::LabelHashCollision)) && final(self).counters()
                == old(self).counters(),
            old(self).counters().contains_key(name@) && labels@.len() != old(self).counters()[
                name@
            ].label_names.len() ==> (r matches Err(
                RegistryError::LabelArityMismatch { expected, got },
            ) && expected == old(self).counters()[name@].label_names.len() && got == labels@.len()
                && final(self).counters() == old(self).counters()),
    {
        self.counter_touch(name, labels, CounterTouch::Increment(None))
    }

    /// Create-or-update the child of the named counter for this label
    /// vector and add to it: the value whose bit pattern is given, or one
    /// when omitted.  The bit pattern of a negative or NaN value is not a
    /// legal increment.
    pub fn inc_counter_by(
        &mut self,
        name: &String,
        value: Option<u64>,
        labels: &Vec<String>,
    ) -> (r: Result<(), RegistryError>)
        requires
            old(self).wf(),
        ensures
            final(self).wf(),
            old(self).synced() ==> final(self).synced(),
            final(self).gauges() == old(self).gauges(),
            final(self).collector_view() == old(self).collector_view(),
            value matches Some(b) && !counter_delta_ok(b) ==> (r matches Err(
                RegistryError::InvalidCounterDelta,
            )) && final(self).counters() == old(self).counters(),
            (value matches Some(b) ==> counter_delta_ok(b)) && !old(self).counters().contains_key(
                name@,
            ) ==> (r matches Err(RegistryError::NotFound)) && final(self).counters() == old(
                self,
            ).counters(),
            (value matches Some(b) ==> counter_delta_ok(b)) && old(self).counters().contains_key(
                name@,
            ) && labels@.len() == old(self).counters()[name@].label_names.len()
                && !child_hash_collision(
                old(self).counters()[name@].children,
                labels.deep_view(),
            ) ==> r is Ok && final(self).counters() == old(self).counters().insert(
                name@,
                (CounterModel {
                    children: bump_child(
                        old(self).counters()[name@].children,
                        labels.deep_view(),
                        delta_or_one(value),
                    ),
                    ..old(self).counters()[name@]
                }),
            ),
            (value matches Some(b) ==> counter_delta_ok(b)) && old(self).counters().contains_key(
                name@,
            ) && labels@.len() == old(self).counters()[name@].label_names.len()
                && child_hash_collision(
                old(self).counters()[name@].children,
                labels.deep_view(),
            ) ==> (r matches Err(RegistryError::LabelHashCollision)) && final(self).counters()
                == old(self).counters(),
            (value matches Some(b) ==> counter_delta_ok(b)) && old(self).counters().contains_key(
                name@,
            ) && labels@.len() != old(self).counters()[name@].label_names.len() ==> (r matches Err(
                RegistryError::LabelArityMismatch { expected, got },
            ) && expected == old(self).counters()[name@].label_names.len() && got == labels@.len()
                && final(self).counters() == old(self).counters()),
    {
        match value {
            None => self.counter_touch(name, labels, CounterTouch::Increment(None)),
            Some(b) => {
                if (b >> 63u64) != 0 || ((b >> 52u64) == 0x7ff && (b & 0xf_ffff_ffff_ffff) != 0) {
                    proof {
                        assert(!counter_delta_ok(b));
                    }
                    Err(RegistryError::InvalidCounterDelta)
                } else {
                    proof {
                        assert(counter_delta_ok(b));
                    }
                    self.counter_touch(name, labels, CounterTouch::Increment(Some(b)))
                }
            },
        }
    }

    /// Create-or-update the child of the named counter for this label
    /// vector and set it back to zero, preserving its existence.
    pub fn reset_counter(&mut self, name: &String, labels: &Vec<String>) -> (r: Result<
        (),
        RegistryError,
    >)
        requires
            old(self).wf(),
        ensures
            final(self).wf(),
            old(self).synced() ==> final(self).synced(),
            final(self).gauges() == old(self).gauges(),
            final(self).collector_view() == old(self).collector_view(),
            !old(self).counters().contains_key(name@) ==> (r matches Err(RegistryError::NotFound))
                && final(self).counters() == old(self).counters(),
            old(self).counters().contains_key(name@) && labels@.len() == old(self).counters()[
                name@
            ].label_names.len() && !child_hash_collision(
                old(self).counters()[name@].children,
                labels.deep_view(),
            ) ==> r is Ok && final(self).counters() == old(self).counters().insert(
                name@,
                (CounterModel {
                    children: old(self).counters()[name@].children.insert(
                        labels.deep_view(),
                        0,
                    ),
                    ..old(self).counters()[name@]
                }),
            ),
            old(self).counters().contains_key(name@) && labels@.len() == old(self).counters()[
                name@
            ].label_names.len() && child_hash_collision(
                old(self).counters()[name@].children,
                labels.deep_view(),
            ) ==> (r matches Err(RegistryError::LabelHashCollision)) && final(self).counters()
                == old(self).counters(),
            old(self).counters().contains_key(name@) && labels@.len() != old(self).counters()[
                name@
            ].label_names.len() ==> (r matches Err(
                RegistryError::LabelArityMismatch { expected, got },
            ) && expected == old(self).counters()[name@].label_names.len() && got == labels@.len()
                && final(self).counters() == old(self).counters()),
    {
        self.counter_touch(name, labels, CounterTouch::Reset)
    }

    /// Look up the named counter and apply one child-touching operation.
    fn counter_touch(&mut self, name: &String, labels: &Vec<String>, op: CounterTouch) -> (r:
        Result<(), RegistryError>)
        requires
            old(self).wf(),
            op matches CounterTouch::Increment(Some(b)) ==> counter_delta_ok(b),
        ensures
            final(self).wf(),
            old(self).synced() ==> final(self).synced(),
            final(self).gauges() == old(self).gauges(),
            final(self).collector_view() == old(self).collector_view(),
            !old(self).counters().contains_key(name@) ==> (r matches Err(RegistryError::NotFound))
                && final(self).counters() == old(self).counters(),
            old(self).counters().contains_key(name@) && labels@.len() == old(self).counters()[
                name@
            ].label_names.len() && !child_hash_collision(
                old(self).counters()[name@].children,
                labels.deep_view(),
            ) ==> r is Ok && final(self).counters() == old(self).counters().insert(
                name@,
                (CounterModel {
                    children: touch_children(
                        op,
                        old(self).counters()[name@].children,
                        labels.deep_view(),
                    ),
                    ..old(self).counters()[name@]
                }),
            ),
            old(self).counters().contains_key(name@) && labels@.len() == old(self).counters()[
                name@
            ].label_names.len() && child_hash_collision(
                old(self).counters()[name@].children,
                labels.deep_view(),
            ) ==> (r matches Err(RegistryError::LabelHashCollision)) && final(self).counters()
                == old(self).counters(),
            old(self).counters().contains_key(name@) && labels@.len() != old(self).counters()[
                name@
            ].label_names.len() ==> (r matches Err(
                RegistryError::LabelArityMismatch { expected, got },
            ) && expected == old(self).counters()[name@].label_names.len() && got == labels@.len()
                && final(self).counters() == old(self).counters()),
    {
        match self.find_counter(name) {
            None => {
                proof {
                    assert(!old(self).counters().contains_key(name@));
                }
                Err(RegistryError::NotFound)
            },
            Some(i) => {
                proof {
                    lemma_counter_at(*self, i as int);
                }
                let mut e = self.counters.remove(i);
                let ghost mid = *self;
                let res = match op {
                    CounterTouch::Increment(delta) => e.inc_child(labels, delta),
                    CounterTouch::Reset => e.reset_child(labels),
                };
                let ghost ge = e;
                self.counters.push(e);
                proof {
                    lemma_counter_update(*old(self), mid, *self, i as int, ge);
                    if labels@.len() != old(self).counters()[name@].label_names.len()
                        || child_hash_collision(
                        old(self).counters()[name@].children,
                        labels.deep_view(),
                    ) {
                        assert(ge == old(self).counters@[i as int]);
                        assert(old(self).counters().insert(name@, ge.model()) =~= old(
                            self,
                        ).counters());
                    }
                    if old(self).synced() {
                        assert(Set::new(
                            |n: Seq<char>| self.gauges().contains_key(n)
                                || self.counters().contains_key(n),
                        ) =~= Set::new(
                            |n: Seq<char>| old(self).gauges().contains_key(n) || old(
                                self,
                            ).counters().contains_key(n),
                        ));
                    }
                }
                res
            },
        }
    }

    /// Whether the named counter's child for this label vector exists, and
    /// if so the bit pattern of its current value; reading never creates a
    /// child.
    pub fn counter_value_bits(&mut self, name: &String, labels: &Vec<String>) -> (r: Result<
        Option<u64>,
        RegistryError,
    >)
        requires
            old(self).wf(),
        ensures
            final(self).wf(),
            old(self).synced() ==> final(self).synced(),
            final(self).gauges() == old(self).gauges(),
            final(self).counters() == old(self).counters(),
            final(self).collector_view() == old(self).collector_view(),
            !old(self).counters().contains_key(name@) ==> (r matches Err(RegistryError::NotFound)),
            old(self).counters().contains_key(name@) && labels@.len() == old(self).counters()[
                name@
            ].label_names.len() ==> (r matches Ok(v) && v == (
            if old(self).counters()[name@].children.contains_key(labels.deep_view()) {
                Some(old(self).counters()[name@].children[labels.deep_view()])
            } else {
                Option::<u64>::None
            })),
            old(self).counters().contains_key(name@) && labels@.len() != old(self).counters()[
                name@
            ].label_names.len() ==> (r matches Err(
                RegistryError::LabelArityMismatch { expected, got },
            ) && expected == old(self).counters()[name@].label_names.len() && got == labels@.len()),
    {
        match self.find_counter(name) {
            None => {
                proof {
                    assert(!old(self).counters().contains_key(name@));
                }
                Err(RegistryError::NotFound)
            },
            Some(i) => {
                proof {
                    lemma_counter_at(*self, i as int);
                }
                let mut e = self.counters.remove(i);
                let ghost mid = *self;
                let res = e.child_bits(labels);
                let ghost ge = e;
                self.counters.push(e);
                proof {
                    lemma_counter_update(*old(self), mid, *self, i as int, ge);
                    assert(ge.model() == old(self).counters@[i as int].model());
                    assert(old(self).counters().insert(name@, ge.model()) =~= old(self).counters());
                    if old(self).synced() {
                        assert(Set::new(
                            |n: Seq<char>| self.gauges().contains_key(n)
                                || self.counters().contains_key(n),
                        ) =~= Set::new(
                            |n: Seq<char>| old(self).gauges().contains_key(n) || old(
                                self,
                            ).counters().contains_key(n),
                        ));
                    }
                }
                res
            },
        }
    }

    /// Delete the named counter's child for this label vector; deleting an
    /// absent child is a no-op success.  The family itself stays
    /// registered.
    pub fn remove_counter_child(&mut self, name: &String, labels: &Vec<String>) -> (r: Result<
        (),
        RegistryError,
    >)
        requires
            old(self).wf(),
        ensures
            final(self).wf(),
            old(self).synced() ==> final(self).synced(),
            final(self).gauges() == old(self).gauges(),
            final(self).collector_view() == old(self).collector_view(),
            !old(self).counters().contains_key(name@) ==> (r matches Err(RegistryError::NotFound))
                && final(self).counters() == old(self).counters(),
            old(self).counters().contains_key(name@) && labels@.len() == old(self).counters()[
                name@
            ].label_names.len() ==> r is Ok && final(self).counters() == old(
                self,
            ).counters().insert(
                name@,
                (CounterModel {
                    children: old(self).counters()[name@].children.remove(labels.deep_view()),
                    ..old(self).counters()[name@]
                }),
            ),
            old(self).counters().contains_key(name@) && labels@.len() != old(self).counters()[
                name@
            ].label_names.len() ==> (r matches Err(
                RegistryError::LabelArityMismatch { expected, got },
            ) && expected == old(self).counters()[name@].label_names.len() && got == labels@.len()
                && final(self).counters() == old(self).counters()),
    {
        match self.find_counter(name) {
            None => {
                proof {
                    assert(!old(self).counters().contains_key(name@));
                }
                Err(RegistryError::NotFound)
            },
            Some(i) => {
                proof {
                    lemma_counter_at(*self, i as int);
                }
                let mut e = self.counters.remove(i);
                let ghost mid = *self;
                let res = e.remove_child(labels);
                let ghost ge = e;
                self.counters.push(e);
                proof {
                    lemma_counter_update(*old(self), mid, *self, i as int, ge);
                    if labels@.len() != old(self).counters()[name@].label_names.len() {
                        assert(ge == old(self).counters@[i as int]);
                        assert(old(self).counters().insert(name@, ge.model()) =~= old(
                            self,
                        ).counters());
                    }
                    if old(self).synced() {
                        assert(Set::new(
                            |n: Seq<char>| self.gauges().contains_key(n)
                                || self.counters().contains_key(n),
                        ) =~= Set::new(
                            |n: Seq<char>| old(self).gauges().contains_key(n) || old(
                                self,
                            ).counters().contains_key(n),
                        ));
                    }
                }
                res
            },
        }
    }

    /// Remove the named counter family from the registry and from the
    /// collector registry.  On a collector-side failure nothing changes on
    /// either side.
    pub fn unregister_counter(&mut self, name: &String) -> (r: Result<(), RegistryError>)
        requires
            old(self).wf(),
        ensures
            final(self).wf(),
            old(self).synced() ==> final(self).synced(),
            final(self).gauges() == old(self).gauges(),
            (!old(self).counters().contains_key(name@)) <==> (r matches Err(
                RegistryError::NotFound
            )),
            r is Ok ==> final(self).counters() == old(self).counters().remove(name@) && final(self).collector_view() == old(self).collector_view().remove(name@),
            r is Err ==> final(self).counters() == old(self).counters() && final(self).collector_view() == old(self).collector_view(),
            r is Ok || (r matches Err(RegistryError::NotFound)) || (r matches Err(
                RegistryError::CollectorRemoval(_),
            )),
    {
        match self.find_counter(name) {
            None => {
                proof {
                    assert(!old(self).counters().contains_key(name@));
                }
                Err(RegistryError::NotFound)
            },
            Some(i) => {
                proof {
                    lemma_counter_at(*self, i as int);
                    if old(self).synced() {
                        assert(old(self).collector_view().contains(name@));
                    }
                }
                let e = self.counters.remove(i);
                let ghost mid = *self;
                let ghost ge = e;
                let res = collector_unregister_counter(&mut self.collector, &e.vec);
                match res {
                    Ok(()) => {
                        proof {
                            lemma_counter_delete(*old(self), *self, i as int);
                            if old(self).synced() {
                                assert(Set::new(
                                    |n: Seq<char>| self.gauges().contains_key(n)
                                        || self.counters().contains_key(n),
                                ) =~= Set::new(
                                    |n: Seq<char>| old(self).gauges().contains_key(n) || old(
                                        self,
                                    ).counters().contains_key(n),
                                ).remove(name@));
                            }
                        }
                        Ok(())
                    },
                    Err(er) => {
                        let msg = collector_error_text(&er);
                        self.counters.push(e);
                        proof {
                            lemma_counter_update(*old(self), mid, *self, i as int, ge);
                            assert(old(self).counters().insert(name@, ge.model()) =~= old(
                                self,
                            ).counters());
                            if old(self).synced() {
                                assert(Set::new(
                                    |n: Seq<char>| self.gauges().contains_key(n)
                                        || self.counters().contains_key(n),
                                ) =~= Set::new(
                                    |n: Seq<char>| old(self).gauges().contains_key(n) || old(
                                        self,
                                    ).counters().contains_key(n),
                                ));
                            }
                        }
                        Err(RegistryError::CollectorRemoval(msg))
                    },
                }
            },
        }
    }
}

/// One child-touching counter operation.
enum CounterTouch {
    /// Add to the child: one when `None`, else the value whose bit pattern
    /// is carried.
    Increment(Option<u64>),
    /// Set the child back to zero.
    Reset,
}

/// What the operation leaves in the family's children.
spec fn touch_children(
    op: CounterTouch,
    m: Map<Seq<Seq<char>>, u64>,
    lv: Seq<Seq<char>>,
) -> Map<Seq<Seq<char>>, u64> {
    match op {
        CounterTouch::Increment(d) => bump_child(m, lv, delta_or_one(d)),
        CounterTouch::Reset => m.insert(lv, 0),
    }
}

impl MetricRegistry {
    /// Whether the name belongs to a family (of either kind) whose group
    /// tag equals `g`.
    pub open spec fn in_group(self, n: Seq<char>, g: Seq<char>) -> bool {
        (self.gauges().contains_key(n) && self.gauges()[n].group == g) || (
        self.counters().contains_key(n) && self.counters()[n].group == g)
    }

    /// The position of some gauge family whose group tag equals `group`.
    fn find_gauge_in_group(&self, group: &String) -> (r: Option<usize>)
        ensures
            match r {
                Some(i) => i < self.gauges@.len() && self.gauges@[i as int].group@ == group@,
                None => forall|i: int|
                    0 <= i < self.gauges@.len() ==> (#[trigger] self.gauges@[i]).group@ != group@,
            },
    {
        let n = self.gauges.len();
        let mut i: usize = 0;
        while i < n
            invariant
                n == self.gauges@.len(),
                0 <= i <= n,
                forall|j: int| 0 <= j < i ==> (#[trigger] self.gauges@[j]).group@ != group@,
            decreases n - i,
        {
            if self.gauges[i].group == *group {
                return Some(i);
            }
            i += 1;
        }
        None
    }

    /// The position of some counter family whose group tag equals `group`.
    fn find_counter_in_group(&self, group: &String) -> (r: Option<usize>)
        ensures
            match r {
                Some(i) => i < self.counters@.len() && self.counters@[i as int].group@ == group@,
                None => forall|i: int|
                    0 <= i < self.counters@.len() ==> (#[trigger] self.counters@[i]).group@
                        != group@,
            },
    {
        let n = self.counters.len();
        let mut i: usize = 0;
        while i < n
            invariant
                n == self.counters@.len(),
                0 <= i <= n,
                forall|j: int| 0 <= j < i ==> (#[trigger] self.counters@[j]).group@ != group@,
            decreases n - i,
        {
            if self.counters[i].group == *group {
                return Some(i);
            }
            i += 1;
        }
        None
    }

    /// Remove every family whose group tag equals `group`, of both kinds,
    /// from the registry, attempting to remove each from the collector
    /// registry as well.  All matched families leave the local maps even
    /// when their collector-side removal fails; in that case the call
    /// reports the names that failed, which then remain in the collector
    /// registry.  A group with no members succeeds trivially.
    pub fn unregister_group(&mut self, group: &String) -> (r: Result<(), RegistryError>)
        requires
            old(self).wf(),
        ensures
            final(self).wf(),
            forall|n: Seq<char>|
                #[trigger] final(self).gauges().contains_key(n) <==> old(
                    self,
                ).gauges().contains_key(n) && old(self).gauges()[n].group != group@,
            forall|n: Seq<char>|
                #[trigger] final(self).gauges().contains_key(n) ==> final(self).gauges()[n] == old(
                    self,
                ).gauges()[n],
            forall|n: Seq<char>|
                #[trigger] final(self).counters().contains_key(n) <==> old(
                    self,
                ).counters().contains_key(n) && old(self).counters()[n].group != group@,
            forall|n: Seq<char>|
                #[trigger] final(self).counters().contains_key(n) ==> final(self).counters()[n]
                    == old(self).counters()[n],
            r is Ok || (r matches Err(RegistryError::GroupUnregisterPartialFailure(_))),
            old(self).synced() ==> r is Ok,
            r is Ok ==> forall|n: Seq<char>|
                #[trigger] final(self).collector_view().contains(n) <==> old(
                    self,
                ).collector_view().contains(n) && !old(self).in_group(n, group@),
            r matches Err(RegistryError::GroupUnregisterPartialFailure(f)) ==> f@.len() > 0 && (
            forall|k: int|
                0 <= k < f@.len() ==> old(self).in_group(#[trigger] f.deep_view()[k], group@)) && (
            forall|n: Seq<char>|
                #[trigger] final(self).collector_view().contains(n) <==> old(
                    self,
                ).collector_view().contains(n) && !(old(self).in_group(n, group@)
                    && !f.deep_view().to_set().contains(n))),
            old(self).synced() && r is Ok ==> final(self).synced(),
    {
        let mut failed: Vec<String> = Vec::new();
        let mut go = true;
        while go
            invariant
                old(self).wf(),
                self.wf(),
                old(self).synced() ==> failed@.len() == 0,
                self.counters@ == old(self).counters@,
                forall|n: Seq<char>|
                    #[trigger] self.gauges().contains_key(n) ==> old(self).gauges().contains_key(n)
                        && self.gauges()[n] == old(self).gauges()[n],
                forall|n: Seq<char>|
                    old(self).gauges().contains_key(n) && old(self).gauges()[n].group != group@
                        ==> #[trigger] self.gauges().contains_key(n),
                !go ==> forall|n: Seq<char>|
                    #[trigger] self.gauges().contains_key(n) ==> self.gauges()[n].group != group@,
                forall|k: int|
                    0 <= k < failed@.len() ==> {
                        &&& old(self).gauges().contains_key(#[trigger] failed.deep_view()[k])
                        &&& old(self).gauges()[failed.deep_view()[k]].group == group@
                        &&& !self.gauges().contains_key(failed.deep_view()[k])
                    },
                forall|n: Seq<char>|
                    #[trigger] self.collector_view().contains(n) <==> old(
                        self,
                    ).collector_view().contains(n) && !(old(self).gauges().contains_key(n) && old(
                        self,
                    ).gauges()[n].group == group@ && !self.gauges().contains_key(n)
                        && !failed.deep_view().to_set().contains(n)),
            decreases self.gauges@.len(), (if go { 1int } else { 0int }),
        {
            match self.find_gauge_in_group(group) {
                None => {
                    go = false;
                },
                Some(i) => {
                    let ghost pre = *self;
                    let ghost prefailed = failed.deep_view();
                    proof {
                        lemma_gauge_at(pre, i as int);
                    }
                    let e = self.gauges.remove(i);
                    let ghost ge = e;
                    let res = collector_unregister_gauge(&mut self.collector, &e.vec);
                    proof {
                        lemma_gauge_delete(pre, *self, i as int);
                        if old(self).synced() {
                            assert(pre.gauges().contains_key(ge.name_view()));
                            assert(old(self).gauges().contains_key(ge.name_view()));
                            assert(old(self).collector_view().contains(ge.name_view()));
                            assert(pre.collector_view().contains(ge.name_view()));
                            assert(res is Ok);
                        }
                        assert(pre.gauges().contains_key(ge.name_view()));
                        assert(pre.gauges()[ge.name_view()] == ge.model());
                        assert(old(self).gauges().contains_key(ge.name_view()));
                        assert(old(self).gauges()[ge.name_view()].group == group@);
                        assert(ge.wf());
                        assert(crate::prom::gauge_vec_name(ge.vec) == ge.name_view());
                        assert(!prefailed.to_set().contains(ge.name_view())) by {
                            if prefailed.contains(ge.name_view()) {
                                let k = choose|k: int|
                                    0 <= k < prefailed.len() && prefailed[k] == ge.name_view();
                                assert(!pre.gauges().contains_key(prefailed[k]));
                            }
                        }
                    }
                    if let Err(_) = res {
                        failed.push(e.name);
                        proof {
                            assert(failed.deep_view() =~= prefailed.push(ge.name_view()));
                            assert(failed.deep_view().to_set() =~= prefailed.to_set().insert(
                                ge.name_view(),
                            )) by {
                                prefailed.lemma_push_to_set_commute(ge.name_view());
                            }
                        }
                    }
                    proof {
                        assert forall|n: Seq<char>|
                            #![auto]
                            (self.collector_view().contains(n) <==> (old(
                                self,
                            ).collector_view().contains(n) && !(old(self).gauges().contains_key(n)
                                && old(self).gauges()[n].group == group@
                                && !self.gauges().contains_key(n)
                                && !failed.deep_view().to_set().contains(n)))) by {
                            assert(pre.collector_view().contains(n) <==> (old(
                                self,
                            ).collector_view().contains(n) && !(old(self).gauges().contains_key(n)
                                && old(self).gauges()[n].group == group@
                                && !pre.gauges().contains_key(n) && !prefailed.to_set().contains(
                                n,
                            ))));
                            if res is Ok {
                                assert(self.collector_view() == pre.collector_view().remove(
                                    ge.name_view(),
                                ));
                            } else {
                                assert(self.collector_view() == pre.collector_view());
                                assert(failed.deep_view().to_set() == prefailed.to_set().insert(
                                    ge.name_view(),
                                ));
                            }
                            assert(self.gauges() == pre.gauges().remove(ge.name_view()));
                        }
                    }
                },
            }
        }
        proof {
            lemma_counters_same(*old(self), *self);
        }
        let ghost afterg = *self;
        let mut go2 = true;
        while go2
            invariant
                old(self).wf(),
                self.wf(),
                old(self).synced() ==> failed@.len() == 0,
                self.gauges@ == afterg.gauges@,
                forall|n: Seq<char>|
                    #[trigger] self.gauges().contains_key(n) <==> old(
                        self,
                    ).gauges().contains_key(n) && old(self).gauges()[n].group != group@,
                forall|n: Seq<char>|
                    #[trigger] self.gauges().contains_key(n) ==> self.gauges()[n] == old(
                        self,
                    ).gauges()[n],
                forall|n: Seq<char>|
                    #[trigger] self.counters().contains_key(n) ==> old(
                        self,
                    ).counters().contains_key(n) && self.counters()[n] == old(self).counters()[n],
                forall|n: Seq<char>|
                    old(self).counters().contains_key(n) && old(self).counters()[n].group != group@
                        ==> #[trigger] self.counters().contains_key(n),
                !go2 ==> forall|n: Seq<char>|
                    #[trigger] self.counters().contains_key(n) ==> self.counters()[n].group
                        != group@,
                forall|k: int|
                    0 <= k < failed@.len() ==> {
                        &&& old(self).in_group(#[trigger] failed.deep_view()[k], group@)
                        &&& !self.gauges().contains_key(failed.deep_view()[k])
                        &&& !self.counters().contains_key(failed.deep_view()[k])
                    },
                forall|n: Seq<char>|
                    #[trigger] self.collector_view().contains(n) <==> old(
                        self,
                    ).collector_view().contains(n) && !(((old(self).gauges().contains_key(n)
                        && old(self).gauges()[n].group == group@) || (old(
                        self,
                    ).counters().contains_key(n) && old(self).counters()[n].group == group@
                        && !self.counters().contains_key(n)))
                        && !failed.deep_view().to_set().contains(n)),
            decreases self.counters@.len(), (if go2 { 1int } else { 0int }),
        {
            match self.find_counter_in_group(group) {
                None => {
                    go2 = false;
                },
                Some(i) => {
                    let ghost pre = *self;
                    let ghost prefailed = failed.deep_view();
                    proof {
                        lemma_counter_at(pre, i as int);
                    }
                    let e = self.counters.remove(i);
                    let ghost ge = e;
                    let res = collector_unregister_counter(&mut self.collector, &e.vec);
                    proof {
                        lemma_counter_delete(pre, *self, i as int);
                        if old(self).synced() {
                            assert(pre.counters().contains_key(ge.name_view()));
                            assert(old(self).counters().contains_key(ge.name_view()));
                            assert(old(self).collector_view().contains(ge.name_view()));
                            assert(pre.collector_view().contains(ge.name_view()));
                            assert(res is Ok);
                        }
                        assert(pre.counters().contains_key(ge.name_view()));
                        assert(pre.counters()[ge.name_view()] == ge.model());
                        assert(old(self).counters().contains_key(ge.name_view()));
                        assert(old(self).counters()[ge.name_view()].group == group@);
                        assert(ge.wf());
                        assert(crate::prom::counter_vec_name(ge.vec) == ge.name_view());
                        assert(!prefailed.to_set().contains(ge.name_view())) by {
                            if prefailed.contains(ge.name_view()) {
                                let k = choose|k: int|
                                    0 <= k < prefailed.len() && prefailed[k] == ge.name_view();
                                assert(!pre.counters().contains_key(prefailed[k]));
                            }
                        }
                    }
                    if let Err(_) = res {
                        failed.push(e.name);
                        proof {
                            assert(failed.deep_view() =~= prefailed.push(ge.name_view()));
                            assert(failed.deep_view().to_set() =~= prefailed.to_set().insert(
                                ge.name_view(),
                            )) by {
                                prefailed.lemma_push_to_set_commute(ge.name_view());
                            }
                        }
                    }
                    proof {
                        assert(old(self).counters().contains_key(ge.name_view()));
                        assert(!old(self).gauges().contains_key(ge.name_view())) by {
                            if old(self).has_gauge(ge.name_view()) {
                                let a = choose|a: int|
                                    0 <= a < old(self).gauges@.len() && (#[trigger] old(
                                        self,
                                    ).gauges@[a]).name_view() == ge.name_view();
                                assert(old(self).has_counter(ge.name_view()));
                                let b = choose|b: int|
                                    0 <= b < old(self).counters@.len() && (#[trigger] old(
                                        self,
                                    ).counters@[b]).name_view() == ge.name_view();
                                assert(old(self).gauges@[a].name_view() != old(
                                    self,
                                ).counters@[b].name_view());
                            }
                        }
                        assert forall|n: Seq<char>|
                            #![auto]
                            (self.collector_view().contains(n) <==> (old(
                                self,
                            ).collector_view().contains(n) && !(((old(self).gauges().contains_key(
                                n,
                            ) && old(self).gauges()[n].group == group@) || (old(
                                self,
                            ).counters().contains_key(n) && old(self).counters()[n].group == group@
                                && !self.counters().contains_key(n)))
                                && !failed.deep_view().to_set().contains(n)))) by {
                            assert(pre.collector_view().contains(n) <==> (old(
                                self,
                            ).collector_view().contains(n) && !(((old(self).gauges().contains_key(
                                n,
                            ) && old(self).gauges()[n].group == group@) || (old(
                                self,
                            ).counters().contains_key(n) && old(self).counters()[n].group == group@
                                && !pre.counters().contains_key(n)))
                                && !prefailed.to_set().contains(n))));
                            if res is Ok {
                                assert(self.collector_view() == pre.collector_view().remove(
                                    ge.name_view(),
                                ));
                            } else {
                                assert(self.collector_view() == pre.collector_view());
                                assert(failed.deep_view().to_set() == prefailed.to_set().insert(
                                    ge.name_view(),
                                ));
                            }
                            assert(self.counters() == pre.counters().remove(ge.name_view()));
                        }
                    }
                },
            }
        }
        if failed.is_empty() {
            proof {
                assert(failed.deep_view().to_set() =~= Set::<Seq<char>>::empty());
                if old(self).synced() {
                    assert(self.collector_view() =~= Set::new(
                        |n: Seq<char>| self.gauges().contains_key(n) || self.counters().contains_key(
                            n,
                        ),
                    ));
                }
            }
            Ok(())
        } else {
            Err(RegistryError::GroupUnregisterPartialFailure(failed))
        }
    }
}

/// Registering a family and then looking its name up finds exactly the
/// family that was supplied: in the map a successful register leaves
/// behind, the name is present and carries the registered schema, so the
/// family's label arity equals the number of label names supplied.
pub proof fn lemma_register_then_lookup(
    m: Map<Seq<char>, GaugeModel>,
    n: Seq<char>,
    fam: GaugeModel,
)
    ensures
        m.insert(n, fam).contains_key(n),
        m.insert(n, fam)[n] == fam,
        m.insert(n, fam)[n].label_names.len() == fam.label_names.len(),
{
}

/// Setting a gauge with an omitted value stores the same bit pattern as
/// setting it with the default written out: the resulting kind-map is the
/// same.
pub proof fn lemma_set_gauge_default_equiv(
    m: Map<Seq<char>, GaugeModel>,
    n: Seq<char>,
    lv: Seq<Seq<char>>,
)
    requires
        m.contains_key(n),
    ensures
        m.insert(
            n,
            (GaugeModel {
                children: m[n].children.insert(lv, gauge_bits_or_default(None)),
                ..m[n]
            }),
        ) == m.insert(
            n,
            (GaugeModel {
                children: m[n].children.insert(
                    lv,
                    gauge_bits_or_default(Some(GAUGE_DEFAULT_BITS)),
                ),
                ..m[n]
            }),
        ),
{
}

/// Unregistering removes the name from subsequent lookups: in the map a
/// successful unregister leaves behind the name is absent, so a second
/// unregister of the same name must report that it was not found.
pub proof fn lemma_unregister_then_absent(m: Map<Seq<char>, GaugeModel>, n: Seq<char>)
    ensures
        !m.remove(n).contains_key(n),
{
}

impl MetricRegistry {
    /// The declared label arity of the named gauge family, or `None` if no
    /// gauge of this name is registered.
    pub fn gauge_label_count(&self, name: &String) -> (r: Option<usize>)
        requires
            self.wf(),
        ensures
            match r {
                Some(k) => self.gauges().contains_key(name@) && k == self.gauges()[
                    name@
                ].label_names.len(),
                None => !self.gauges().contains_key(name@),
            },
    {
        match self.find_gauge(name) {
            None => None,
            Some(i) => {
                proof {
                    lemma_gauge_at(*self, i as int);
                }
                Some(self.gauges[i].label_names.len())
            },
        }
    }

    /// The declared label arity of the named counter family, or `None` if
    /// no counter of this name is registered.
    pub fn counter_label_count(&self, name: &String) -> (r: Option<usize>)
        requires
            self.wf(),
        ensures
            match r {
                Some(k) => self.counters().contains_key(name@) && k == self.counters()[
                    name@
                ].label_names.len(),
                None => !self.counters().contains_key(name@),
            },
    {
        match self.find_counter(name) {
            None => None,
            Some(i) => {
                proof {
                    lemma_counter_at(*self, i as int);
                }
                Some(self.counters[i].label_names.len())
            },
        }
    }
}

impl MetricRegistry {
    /// A shared handle on the underlying collector registry, for a scrape
    /// exporter to serve.
    pub fn collector_handle(&self) -> prometheus::Registry {
        crate::prom::collector_registry_clone(&self.collector)
    }
}

} // verus!







