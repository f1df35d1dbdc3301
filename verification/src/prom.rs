//! The trusted boundary to the `prometheus` collector library.
//!
//! Everything the registry knows about collector state is stated here, over
//! uninterpreted names for what a collector registry and a metric vector
//! hold.  Each wrapper's contract states what the named prometheus call does
//! to those contents, as its source shows; nothing else in the crate is
//! trusted.
//!
//! The gauge- and counter-vector types of prometheus cannot be declared to
//! the verifier (their builder type parameters are not exported), so each is
//! held in an opaque handle struct of this crate.  Every handle is built by
//! this module's constructors, so each wraps a vector with one descriptor
//! and no constant labels.
//!
//! A metric vector keys its children by an FNV-1a hash of the label values'
//! concatenated bytes — [`crate::hash::label_hash`], written out and
//! verified in this crate — so these contracts state the children as a map
//! from that hash.  Distinct label vectors with equal hashes address the
//! same child; the registry detects and refuses such a vector before it
//! reaches the collector.
//!
//! Gauge and counter values are IEEE-754 double-precision numbers inside
//! prometheus; this library carries them as their `u64` bit patterns.  A
//! child returns exactly the bit pattern last stored in it; what a counter
//! increment stores is named [`add_bits`], the bit pattern of the IEEE
//! double sum, which is a function of the two operands alone.

use vstd::prelude::*;

use crate::hash::label_hash;

verus! {

#[verifier::external_type_specification]
#[verifier::external_body]
pub struct ExPromRegistry(prometheus::Registry);

#[verifier::external_type_specification]
#[verifier::external_body]
pub struct ExPromError(prometheus::Error);

/// An opaque handle on one `prometheus::GaugeVec`: a named family of gauge
/// children addressed by label-value vectors.
#[verifier::external_body]
pub struct GaugeHandle(prometheus::GaugeVec);

/// An opaque handle on one `prometheus::CounterVec`.
#[verifier::external_body]
pub struct CounterHandle(prometheus::CounterVec);

/// The bit pattern of the IEEE double one, the increment a plain counter
/// increment adds.
pub const COUNTER_ONE_BITS: u64 = 0x3ff0000000000000;

/// The fully-qualified names of the collectors currently registered in a
/// collector registry.
pub uninterp spec fn collector_names(r: prometheus::Registry) -> Set<Seq<char>>;

/// Whether a collector registry in this state accepts a fresh single-
/// descriptor collector with this name, help text and label names: the
/// name's descriptor must be new to it and must agree with any dimension
/// record the registry retains for that name.  Registration is a function
/// of the registry state and these three values.
pub uninterp spec fn collector_admits(
    r: prometheus::Registry,
    name: Seq<char>,
    help: Seq<char>,
    label_names: Seq<Seq<char>>,
) -> bool;

/// Whether the collector library accepts this schema at creation time (its
/// descriptor validation is a function of these three values alone).
pub uninterp spec fn schema_ok(
    name: Seq<char>,
    help: Seq<char>,
    label_names: Seq<Seq<char>>,
) -> bool;

/// The bit pattern of the IEEE double sum of the doubles with these bit
/// patterns: what a counter increment stores.  A function of the two
/// operands alone.
pub uninterp spec fn add_bits(a: u64, b: u64) -> u64;

/// The metric name a gauge vector was created with.
pub uninterp spec fn gauge_vec_name(g: GaugeHandle) -> Seq<char>;

/// The help text a gauge vector was created with.
pub uninterp spec fn gauge_vec_help(g: GaugeHandle) -> Seq<char>;

/// The ordered label names a gauge vector was created with.
pub uninterp spec fn gauge_vec_labels(g: GaugeHandle) -> Seq<Seq<char>>;

/// The number of label names a gauge vector was created with.
pub open spec fn gauge_vec_arity(g: GaugeHandle) -> nat {
    gauge_vec_labels(g).len()
}

/// The children a gauge vector currently holds: the hash each child is
/// stored under, mapped to the bit pattern of the child's current value.
pub uninterp spec fn gauge_vec_children(g: GaugeHandle) -> Map<u64, u64>;

/// The metric name a counter vector was created with.
pub uninterp spec fn counter_vec_name(c: CounterHandle) -> Seq<char>;

/// The help text a counter vector was created with.
pub uninterp spec fn counter_vec_help(c: CounterHandle) -> Seq<char>;

/// The ordered label names a counter vector was created with.
pub uninterp spec fn counter_vec_labels(c: CounterHandle) -> Seq<Seq<char>>;

/// The number of label names a counter vector was created with.
pub open spec fn counter_vec_arity(c: CounterHandle) -> nat {
    counter_vec_labels(c).len()
}

/// The children a counter vector currently holds: the hash each child is
/// stored under, mapped to the bit pattern of the child's current value.
pub uninterp spec fn counter_vec_children(c: CounterHandle) -> Map<u64, u64>;

/// Relies on prometheus::Registry::new: a fresh registry holds no collector.
#[verifier::external_body]
pub(crate) fn collector_registry_new() -> (r: prometheus::Registry)
    ensures
        collector_names(r) == Set::<Seq<char>>::empty(),
{
    prometheus::Registry::new()
}

/// Relies on prometheus::Registry::register: it succeeds exactly when the
/// registry admits the collector's descriptor, adding its fully-qualified
/// name; on failure nothing changes.
#[verifier::external_body]
pub(crate) fn collector_register_gauge(
    r: &mut prometheus::Registry,
    g: &GaugeHandle,
) -> (res: Result<(), prometheus::Error>)
    ensures
        res is Ok <==> collector_admits(
            *old(r),
            gauge_vec_name(*g),
            gauge_vec_help(*g),
            gauge_vec_labels(*g),
        ),
        res is Ok ==> collector_names(*final(r)) == collector_names(*old(r)).insert(
            gauge_vec_name(*g),
        ),
        res is Err ==> collector_names(*final(r)) == collector_names(*old(r)),
{
    r.register(Box::new(g.0.clone()))
}

/// Relies on prometheus::Registry::register, as for gauges.
#[verifier::external_body]
pub(crate) fn collector_register_counter(
    r: &mut prometheus::Registry,
    c: &CounterHandle,
) -> (res: Result<(), prometheus::Error>)
    ensures
        res is Ok <==> collector_admits(
            *old(r),
            counter_vec_name(*c),
            counter_vec_help(*c),
            counter_vec_labels(*c),
        ),
        res is Ok ==> collector_names(*final(r)) == collector_names(*old(r)).insert(
            counter_vec_name(*c),
        ),
        res is Err ==> collector_names(*final(r)) == collector_names(*old(r)),
{
    r.register(Box::new(c.0.clone()))
}

/// Relies on prometheus::Registry::unregister: a registered collector of
/// this fully-qualified name carries the same collector id, so removal of
/// a contained name always succeeds; on success the name is removed, on
/// failure nothing changes.
#[verifier::external_body]
pub(crate) fn collector_unregister_gauge(
    r: &mut prometheus::Registry,
    g: &GaugeHandle,
) -> (res: Result<(), prometheus::Error>)
    ensures
        collector_names(*old(r)).contains(gauge_vec_name(*g)) ==> res is Ok,
        res is Ok ==> collector_names(*final(r)) == collector_names(*old(r)).remove(
            gauge_vec_name(*g),
        ),
        res is Err ==> collector_names(*final(r)) == collector_names(*old(r)),
{
    r.unregister(Box::new(g.0.clone()))
}

/// Relies on prometheus::Registry::unregister, as for gauges.
#[verifier::external_body]
pub(crate) fn collector_unregister_counter(
    r: &mut prometheus::Registry,
    c: &CounterHandle,
) -> (res: Result<(), prometheus::Error>)
    ensures
        collector_names(*old(r)).contains(counter_vec_name(*c)) ==> res is Ok,
        res is Ok ==> collector_names(*final(r)) == collector_names(*old(r)).remove(
            counter_vec_name(*c),
        ),
        res is Err ==> collector_names(*final(r)) == collector_names(*old(r)),
{
    r.unregister(Box::new(c.0.clone()))
}

/// Relies on prometheus::GaugeVec::new (with prometheus::Opts::new building
/// its argument): it succeeds exactly when descriptor validation accepts
/// the schema, and the vector then carries the given name, help text and
/// label names, with no children yet.
#[verifier::external_body]
pub(crate) fn gauge_vec_new(
    name: &String,
    description: &String,
    label_names: &Vec<String>,
) -> (res: Result<GaugeHandle, prometheus::Error>)
    ensures
        res is Ok <==> schema_ok(name@, description@, label_names.deep_view()),
        res matches Ok(g) ==> {
            &&& gauge_vec_name(g) == name@
            &&& gauge_vec_help(g) == description@
            &&& gauge_vec_labels(g) == label_names.deep_view()
            &&& gauge_vec_children(g) == Map::<u64, u64>::empty()
        },
{
    let refs: Vec<&str> = label_names.iter().map(|s| s.as_str()).collect();
    prometheus::GaugeVec::new(
        prometheus::Opts::new(name.as_str(), description.as_str()),
        refs.as_slice(),
    ).map(GaugeHandle)
}

/// Relies on prometheus::CounterVec::new, as for gauges.
#[verifier::external_body]
pub(crate) fn counter_vec_new(
    name: &String,
    description: &String,
    label_names: &Vec<String>,
) -> (res: Result<CounterHandle, prometheus::Error>)
    ensures
        res is Ok <==> schema_ok(name@, description@, label_names.deep_view()),
        res matches Ok(c) ==> {
            &&& counter_vec_name(c) == name@
            &&& counter_vec_help(c) == description@
            &&& counter_vec_labels(c) == label_names.deep_view()
            &&& counter_vec_children(c) == Map::<u64, u64>::empty()
        },
{
    let refs: Vec<&str> = label_names.iter().map(|s| s.as_str()).collect();
    prometheus::CounterVec::new(
        prometheus::Opts::new(name.as_str(), description.as_str()),
        refs.as_slice(),
    ).map(CounterHandle)
}

/// Relies on prometheus::core::MetricVec::get_metric_with_label_values
/// (create-or-fetch the child stored under the label values' hash; fails
/// exactly when the label count differs from the declared arity) and
/// prometheus::core::GenericGauge::set (store the value's bit pattern).
#[verifier::external_body]
pub(crate) fn gauge_vec_set(
    g: &mut GaugeHandle,
    labels: &Vec<String>,
    bits: u64,
) -> (res: Result<(), prometheus::Error>)
    ensures
        gauge_vec_name(*final(g)) == gauge_vec_name(*old(g)),
        gauge_vec_help(*final(g)) == gauge_vec_help(*old(g)),
        gauge_vec_labels(*final(g)) == gauge_vec_labels(*old(g)),
        labels@.len() == gauge_vec_arity(*old(g)) ==> res is Ok && gauge_vec_children(*final(g))
            == gauge_vec_children(*old(g)).insert(label_hash(labels.deep_view()), bits),
        labels@.len() != gauge_vec_arity(*old(g)) ==> res is Err && gauge_vec_children(*final(g))
            == gauge_vec_children(*old(g)),
{
    let refs: Vec<&str> = labels.iter().map(|x| x.as_str()).collect();
    let child = g.0.get_metric_with_label_values(refs.as_slice())?;
    child.set(<prometheus::core::AtomicF64 as prometheus::core::Atomic>::T::from_bits(bits));
    Ok(())
}

/// Relies on prometheus::core::MetricVec::get_metric_with_label_values and
/// prometheus::core::GenericGauge::get: returns the bit pattern the child
/// under this hash currently stores; a child created by this call starts
/// at the bit pattern of zero.
#[verifier::external_body]
pub(crate) fn gauge_vec_get(
    g: &mut GaugeHandle,
    labels: &Vec<String>,
) -> (res: Result<u64, prometheus::Error>)
    ensures
        gauge_vec_name(*final(g)) == gauge_vec_name(*old(g)),
        gauge_vec_help(*final(g)) == gauge_vec_help(*old(g)),
        gauge_vec_labels(*final(g)) == gauge_vec_labels(*old(g)),
        labels@.len() == gauge_vec_arity(*old(g)) && gauge_vec_children(*old(g)).contains_key(
            label_hash(labels.deep_view()),
        ) ==> (res matches Ok(b) && b == gauge_vec_children(*old(g))[label_hash(
            labels.deep_view(),
        )] && gauge_vec_children(*final(g)) == gauge_vec_children(*old(g))),
        labels@.len() == gauge_vec_arity(*old(g)) && !gauge_vec_children(*old(g)).contains_key(
            label_hash(labels.deep_view()),
        ) ==> (res matches Ok(b) && b == 0 && gauge_vec_children(*final(g)) == gauge_vec_children(
            *old(g),
        ).insert(label_hash(labels.deep_view()), 0)),
        labels@.len() != gauge_vec_arity(*old(g)) ==> res is Err && gauge_vec_children(*final(g))
            == gauge_vec_children(*old(g)),
{
    let refs: Vec<&str> = labels.iter().map(|x| x.as_str()).collect();
    let child = g.0.get_metric_with_label_values(refs.as_slice())?;
    Ok(child.get().to_bits())
}

/// Relies on prometheus::core::MetricVec::delete_label_values: removes the
/// child stored under this hash; fails when the label count differs from
/// the declared arity or no child is stored there, changing nothing.
#[verifier::external_body]
pub(crate) fn gauge_vec_remove(
    g: &mut GaugeHandle,
    labels: &Vec<String>,
) -> (res: Result<(), prometheus::Error>)
    ensures
        gauge_vec_name(*final(g)) == gauge_vec_name(*old(g)),
        gauge_vec_help(*final(g)) == gauge_vec_help(*old(g)),
        gauge_vec_labels(*final(g)) == gauge_vec_labels(*old(g)),
        labels@.len() == gauge_vec_arity(*old(g)) && gauge_vec_children(*old(g)).contains_key(
            label_hash(labels.deep_view()),
        ) ==> res is Ok && gauge_vec_children(*final(g)) == gauge_vec_children(*old(g)).remove(
            label_hash(labels.deep_view()),
        ),
        labels@.len() != gauge_vec_arity(*old(g)) || !gauge_vec_children(*old(g)).contains_key(
            label_hash(labels.deep_view()),
        ) ==> res is Err && gauge_vec_children(*final(g)) == gauge_vec_children(*old(g)),
{
    let refs: Vec<&str> = labels.iter().map(|x| x.as_str()).collect();
    g.0.remove_label_values(refs.as_slice())
}

/// Relies on prometheus::core::MetricVec::get_metric_with_label_values and
/// prometheus::core::GenericCounter::inc: creates the child under the
/// label values' hash if absent (at zero) and adds one to it.
#[verifier::external_body]
pub(crate) fn counter_vec_inc(
    c: &mut CounterHandle,
    labels: &Vec<String>,
) -> (res: Result<(), prometheus::Error>)
    ensures
        counter_vec_name(*final(c)) == counter_vec_name(*old(c)),
        counter_vec_help(*final(c)) == counter_vec_help(*old(c)),
        counter_vec_labels(*final(c)) == counter_vec_labels(*old(c)),
        labels@.len() == counter_vec_arity(*old(c)) ==> res is Ok && counter_vec_children(
            *final(c),
        ) == counter_vec_children(*old(c)).insert(
            label_hash(labels.deep_view()),
            add_bits(
                (if counter_vec_children(*old(c)).contains_key(label_hash(labels.deep_view())) {
                    counter_vec_children(*old(c))[label_hash(labels.deep_view())]
                } else {
                    0
                }),
                COUNTER_ONE_BITS,
            ),
        ),
        labels@.len() != counter_vec_arity(*old(c)) ==> res is Err && counter_vec_children(
            *final(c),
        ) == counter_vec_children(*old(c)),
{
    let refs: Vec<&str> = labels.iter().map(|x| x.as_str()).collect();
    let child = c.0.get_metric_with_label_values(refs.as_slice())?;
    child.inc();
    Ok(())
}

/// Whether a bit pattern is a legal counter increment: a non-negative
/// double that is not a NaN.  prometheus::core::GenericCounter::inc_by
/// asserts this in debug builds.
pub open spec fn counter_delta_ok(bits: u64) -> bool {
    bits >> 63 == 0 && !(bits >> 52 == 0x7ff && bits & 0xf_ffff_ffff_ffff != 0)
}

/// Relies on prometheus::core::MetricVec::get_metric_with_label_values and
/// prometheus::core::GenericCounter::inc_by: creates the child under the
/// label values' hash if absent (at zero) and adds the value to it.  A
/// negative or NaN value is excluded: inc_by asserts against it in debug
/// builds.
#[verifier::external_body]
pub(crate) fn counter_vec_inc_by(
    c: &mut CounterHandle,
    labels: &Vec<String>,
    bits: u64,
) -> (res: Result<(), prometheus::Error>)
    requires
        counter_delta_ok(bits),
    ensures
        counter_vec_name(*final(c)) == counter_vec_name(*old(c)),
        counter_vec_help(*final(c)) == counter_vec_help(*old(c)),
        counter_vec_labels(*final(c)) == counter_vec_labels(*old(c)),
        labels@.len() == counter_vec_arity(*old(c)) ==> res is Ok && counter_vec_children(
            *final(c),
        ) == counter_vec_children(*old(c)).insert(
            label_hash(labels.deep_view()),
            add_bits(
                (if counter_vec_children(*old(c)).contains_key(label_hash(labels.deep_view())) {
                    counter_vec_children(*old(c))[label_hash(labels.deep_view())]
                } else {
                    0
                }),
                bits,
            ),
        ),
        labels@.len() != counter_vec_arity(*old(c)) ==> res is Err && counter_vec_children(
            *final(c),
        ) == counter_vec_children(*old(c)),
{
    let refs: Vec<&str> = labels.iter().map(|x| x.as_str()).collect();
    let child = c.0.get_metric_with_label_values(refs.as_slice())?;
    child.inc_by(<prometheus::core::AtomicF64 as prometheus::core::Atomic>::T::from_bits(bits));
    Ok(())
}

/// Relies on prometheus::core::MetricVec::get_metric_with_label_values and
/// prometheus::core::GenericCounter::reset: creates the child under the
/// label values' hash if absent and stores the bit pattern of zero in it.
#[verifier::external_body]
pub(crate) fn counter_vec_reset(
    c: &mut CounterHandle,
    labels: &Vec<String>,
) -> (res: Result<(), prometheus::Error>)
    ensures
        counter_vec_name(*final(c)) == counter_vec_name(*old(c)),
        counter_vec_help(*final(c)) == counter_vec_help(*old(c)),
        counter_vec_labels(*final(c)) == counter_vec_labels(*old(c)),
        labels@.len() == counter_vec_arity(*old(c)) ==> res is Ok && counter_vec_children(
            *final(c),
        ) == counter_vec_children(*old(c)).insert(label_hash(labels.deep_view()), 0),
        labels@.len() != counter_vec_arity(*old(c)) ==> res is Err && counter_vec_children(
            *final(c),
        ) == counter_vec_children(*old(c)),
{
    let refs: Vec<&str> = labels.iter().map(|x| x.as_str()).collect();
    let child = c.0.get_metric_with_label_values(refs.as_slice())?;
    child.reset();
    Ok(())
}

/// Relies on prometheus::core::MetricVec::get_metric_with_label_values and
/// prometheus::core::GenericCounter::get: returns the bit pattern the
/// child under this hash currently stores; a child created by this call
/// starts at the bit pattern of zero.
#[verifier::external_body]
pub(crate) fn counter_vec_get(
    c: &mut CounterHandle,
    labels: &Vec<String>,
) -> (res: Result<u64, prometheus::Error>)
    ensures
        counter_vec_name(*final(c)) == counter_vec_name(*old(c)),
        counter_vec_help(*final(c)) == counter_vec_help(*old(c)),
        counter_vec_labels(*final(c)) == counter_vec_labels(*old(c)),
        labels@.len() == counter_vec_arity(*old(c)) && counter_vec_children(*old(c)).contains_key(
            label_hash(labels.deep_view()),
        ) ==> (res matches Ok(b) && b == counter_vec_children(*old(c))[label_hash(
            labels.deep_view(),
        )] && counter_vec_children(*final(c)) == counter_vec_children(*old(c))),
        labels@.len() == counter_vec_arity(*old(c)) && !counter_vec_children(*old(c)).contains_key(
            label_hash(labels.deep_view()),
        ) ==> (res matches Ok(b) && b == 0 && counter_vec_children(*final(c))
            == counter_vec_children(*old(c)).insert(label_hash(labels.deep_view()), 0)),
        labels@.len() != counter_vec_arity(*old(c)) ==> res is Err && counter_vec_children(
            *final(c),
        ) == counter_vec_children(*old(c)),
{
    let refs: Vec<&str> = labels.iter().map(|x| x.as_str()).collect();
    let child = c.0.get_metric_with_label_values(refs.as_slice())?;
    Ok(child.get().to_bits())
}

/// Relies on prometheus::core::MetricVec::delete_label_values, as for
/// gauges.
#[verifier::external_body]
pub(crate) fn counter_vec_remove(
    c: &mut CounterHandle,
    labels: &Vec<String>,
) -> (res: Result<(), prometheus::Error>)
    ensures
        counter_vec_name(*final(c)) == counter_vec_name(*old(c)),
        counter_vec_help(*final(c)) == counter_vec_help(*old(c)),
        counter_vec_labels(*final(c)) == counter_vec_labels(*old(c)),
        labels@.len() == counter_vec_arity(*old(c)) && counter_vec_children(*old(c)).contains_key(
            label_hash(labels.deep_view()),
        ) ==> res is Ok && counter_vec_children(*final(c)) == counter_vec_children(*old(c)).remove(
            label_hash(labels.deep_view()),
        ),
        labels@.len() != counter_vec_arity(*old(c)) || !counter_vec_children(
            *old(c),
        ).contains_key(label_hash(labels.deep_view())) ==> res is Err && counter_vec_children(
            *final(c),
        ) == counter_vec_children(*old(c)),
{
    let refs: Vec<&str> = labels.iter().map(|x| x.as_str()).collect();
    c.0.remove_label_values(refs.as_slice())
}

/// Relies on the std Display impl of prometheus::Error: renders the error
/// as its message string.
#[verifier::external_body]
pub(crate) fn collector_error_text(e: &prometheus::Error) -> String {
    e.to_string()
}

/// Relies on the Clone impl of prometheus::Registry: the clone is a shared
/// handle on the same underlying registry, handed out so a scrape exporter
/// can serve it.  The library's contracts describe the registry as mutated
/// through this library alone.
#[verifier::external_body]
pub(crate) fn collector_registry_clone(r: &prometheus::Registry) -> prometheus::Registry {
    r.clone()
}

} // verus!
