use metric_registry::MetricRegistry;
use metric_registry::RegistryError;

fn s(x: &str) -> String {
    x.to_string()
}

fn labels(xs: &[&str]) -> Vec<String> {
    xs.iter().map(|x| x.to_string()).collect()
}

#[test]
fn register_collision_across_kinds() {
    let mut r = MetricRegistry::new();
    assert!(r.register_gauge(&s("svc"), &s("m"), &s("d"), &labels(&[])).is_ok());
    let e = r.register_counter(&s("svc"), &s("m"), &s("d"), &labels(&[]));
    assert!(matches!(e, Err(RegistryError::NameCollision)));
    let e2 = r.register_gauge(&s("other"), &s("m"), &s("d"), &labels(&["a"]));
    assert!(matches!(e2, Err(RegistryError::NameCollision)));
    // both maps unchanged: the gauge still answers, no counter appeared
    assert_eq!(r.gauge_label_count(&s("m")), Some(0));
    assert_eq!(r.counter_label_count(&s("m")), None);
}

#[test]
fn register_then_lookup_arity() {
    let mut r = MetricRegistry::new();
    assert!(r.register_gauge(&s("svc"), &s("g2"), &s("d"), &labels(&["a", "b"])).is_ok());
    assert!(r.register_counter(&s("svc"), &s("c3"), &s("d"), &labels(&["x", "y", "z"])).is_ok());
    assert_eq!(r.gauge_label_count(&s("g2")), Some(2));
    assert_eq!(r.counter_label_count(&s("c3")), Some(3));
}

#[test]
fn arity_mismatch_preserves_values() {
    let mut r = MetricRegistry::new();
    assert!(r.register_gauge(&s("svc"), &s("g"), &s("d"), &labels(&["k"])).is_ok());
    assert!(r.set_gauge(&s("g"), Some(2.5f64.to_bits()), &labels(&["a"])).is_ok());
    let e = r.set_gauge(&s("g"), Some(9.0f64.to_bits()), &labels(&["a", "b"]));
    assert!(matches!(e, Err(RegistryError::LabelArityMismatch { expected: 1, got: 2 })));
    let v = r.gauge_value_bits(&s("g"), &labels(&["a"])).unwrap();
    assert_eq!(v.map(f64::from_bits), Some(2.5));
}

#[test]
fn arity_mismatch_on_counter() {
    let mut r = MetricRegistry::new();
    assert!(r.register_counter(&s("svc"), &s("c"), &s("d"), &labels(&["k"])).is_ok());
    let e = r.inc_counter(&s("c"), &labels(&[]));
    assert!(matches!(e, Err(RegistryError::LabelArityMismatch { expected: 1, got: 0 })));
    assert_eq!(r.counter_value_bits(&s("c"), &labels(&["a"])).unwrap(), None);
}

#[test]
fn set_gauge_default_is_zero() {
    let mut r = MetricRegistry::new();
    assert!(r.register_gauge(&s("svc"), &s("g"), &s("d"), &labels(&[])).is_ok());
    assert!(r.set_gauge(&s("g"), None, &labels(&[])).is_ok());
    let v = r.gauge_value_bits(&s("g"), &labels(&[])).unwrap();
    assert_eq!(v.map(f64::from_bits), Some(0.0));
    // the same call with the default written out stores the same value
    assert!(r.set_gauge(&s("g"), Some(0.0f64.to_bits()), &labels(&[])).is_ok());
    let v2 = r.gauge_value_bits(&s("g"), &labels(&[])).unwrap();
    assert_eq!(v, v2);
}

#[test]
fn inc_counter_by_default_is_one() {
    let mut r = MetricRegistry::new();
    assert!(r.register_counter(&s("svc"), &s("c"), &s("d"), &labels(&[])).is_ok());
    assert!(r.inc_counter_by(&s("c"), None, &labels(&[])).is_ok());
    let v = r.counter_value_bits(&s("c"), &labels(&[])).unwrap();
    assert_eq!(v.map(f64::from_bits), Some(1.0));
}

#[test]
fn remove_absent_child_is_ok() {
    let mut r = MetricRegistry::new();
    assert!(r.register_gauge(&s("svc"), &s("g"), &s("d"), &labels(&["k"])).is_ok());
    assert!(r.register_counter(&s("svc"), &s("c"), &s("d"), &labels(&["k"])).is_ok());
    assert!(r.remove_gauge_child(&s("g"), &labels(&["never"])).is_ok());
    assert!(r.remove_counter_child(&s("c"), &labels(&["never"])).is_ok());
}

#[test]
fn remove_child_deletes_value() {
    let mut r = MetricRegistry::new();
    assert!(r.register_gauge(&s("svc"), &s("g"), &s("d"), &labels(&["k"])).is_ok());
    assert!(r.set_gauge(&s("g"), Some(4.0f64.to_bits()), &labels(&["a"])).is_ok());
    assert!(r.remove_gauge_child(&s("g"), &labels(&["a"])).is_ok());
    assert_eq!(r.gauge_value_bits(&s("g"), &labels(&["a"])).unwrap(), None);
    // the family itself stays registered
    assert_eq!(r.gauge_label_count(&s("g")), Some(1));
}

#[test]
fn unregister_then_not_found() {
    let mut r = MetricRegistry::new();
    assert!(r.register_gauge(&s("svc"), &s("g"), &s("d"), &labels(&[])).is_ok());
    assert!(r.unregister_gauge(&s("g")).is_ok());
    assert!(matches!(r.set_gauge(&s("g"), None, &labels(&[])), Err(RegistryError::NotFound)));
    assert!(matches!(r.unregister_gauge(&s("g")), Err(RegistryError::NotFound)));
}

#[test]
fn unregister_counter_then_not_found() {
    let mut r = MetricRegistry::new();
    assert!(r.register_counter(&s("svc"), &s("c"), &s("d"), &labels(&[])).is_ok());
    assert!(r.unregister_counter(&s("c")).is_ok());
    assert!(matches!(r.inc_counter(&s("c"), &labels(&[])), Err(RegistryError::NotFound)));
    assert!(matches!(r.unregister_counter(&s("c")), Err(RegistryError::NotFound)));
}

#[test]
fn unregister_group_scope() {
    let mut r = MetricRegistry::new();
    assert!(r.register_counter(&s("svc"), &s("c1"), &s("d"), &labels(&[])).is_ok());
    assert!(r.register_counter(&s("svc"), &s("c2"), &s("d"), &labels(&[])).is_ok());
    assert!(r.register_counter(&s("other"), &s("c3"), &s("d"), &labels(&[])).is_ok());
    assert!(r.unregister_group(&s("svc")).is_ok());
    assert!(matches!(r.inc_counter(&s("c1"), &labels(&[])), Err(RegistryError::NotFound)));
    assert!(matches!(r.inc_counter(&s("c2"), &labels(&[])), Err(RegistryError::NotFound)));
    assert!(r.inc_counter(&s("c3"), &labels(&[])).is_ok());
}

#[test]
fn unregister_group_mixed_kinds() {
    let mut r = MetricRegistry::new();
    assert!(r.register_gauge(&s("svc"), &s("g1"), &s("d"), &labels(&[])).is_ok());
    assert!(r.register_counter(&s("svc"), &s("c1"), &s("d"), &labels(&[])).is_ok());
    assert!(r.register_gauge(&s("other"), &s("g2"), &s("d"), &labels(&[])).is_ok());
    assert!(r.unregister_group(&s("svc")).is_ok());
    assert_eq!(r.gauge_label_count(&s("g1")), None);
    assert_eq!(r.counter_label_count(&s("c1")), None);
    assert_eq!(r.gauge_label_count(&s("g2")), Some(0));
    // the freed names can be registered again
    assert!(r.register_gauge(&s("svc"), &s("g1"), &s("d"), &labels(&[])).is_ok());
}

#[test]
fn unregister_empty_group_is_ok() {
    let mut r = MetricRegistry::new();
    assert!(r.register_gauge(&s("svc"), &s("g"), &s("d"), &labels(&[])).is_ok());
    assert!(r.unregister_group(&s("nobody")).is_ok());
    assert_eq!(r.gauge_label_count(&s("g")), Some(0));
}

#[test]
fn counter_round_trip() {
    let mut r = MetricRegistry::new();
    assert!(r.register_counter(&s("svc"), &s("reqs"), &s("desc"), &labels(&["method"])).is_ok());
    assert!(r.inc_counter_by(&s("reqs"), Some(5.0f64.to_bits()), &labels(&["GET"])).is_ok());
    assert!(r.inc_counter_by(&s("reqs"), Some(2.0f64.to_bits()), &labels(&["GET"])).is_ok());
    let v = r.counter_value_bits(&s("reqs"), &labels(&["GET"])).unwrap();
    assert_eq!(v.map(f64::from_bits), Some(7.0));
    // an unseen label combination is absent until first touched
    assert_eq!(r.counter_value_bits(&s("reqs"), &labels(&["POST"])).unwrap(), None);
}

#[test]
fn gauge_set_overwrites() {
    let mut r = MetricRegistry::new();
    assert!(r.register_gauge(&s("svc"), &s("temp"), &s("desc"), &labels(&[])).is_ok());
    assert!(r.set_gauge(&s("temp"), Some(3.5f64.to_bits()), &labels(&[])).is_ok());
    assert!(r.set_gauge(&s("temp"), Some((-1.0f64).to_bits()), &labels(&[])).is_ok());
    let v = r.gauge_value_bits(&s("temp"), &labels(&[])).unwrap();
    assert_eq!(v.map(f64::from_bits), Some(-1.0));
}

#[test]
fn reset_counter_back_to_zero() {
    let mut r = MetricRegistry::new();
    assert!(r.register_counter(&s("svc"), &s("c"), &s("d"), &labels(&[])).is_ok());
    assert!(r.inc_counter_by(&s("c"), Some(5.0f64.to_bits()), &labels(&[])).is_ok());
    assert!(r.reset_counter(&s("c"), &labels(&[])).is_ok());
    let v = r.counter_value_bits(&s("c"), &labels(&[])).unwrap();
    assert_eq!(v.map(f64::from_bits), Some(0.0));
}

#[test]
fn collector_rejects_bad_schema() {
    let mut r = MetricRegistry::new();
    let e = r.register_gauge(&s("svc"), &s("not a valid name"), &s("d"), &labels(&[]));
    match e {
        Err(RegistryError::CollectorCreation(msg)) => assert!(!msg.is_empty()),
        other => panic!("expected a collector creation error, got {:?}", other.is_ok()),
    }
    // the failed registration left nothing behind
    assert_eq!(r.gauge_label_count(&s("not a valid name")), None);
}

#[test]
fn registries_are_isolated() {
    let mut a = MetricRegistry::new();
    let mut b = MetricRegistry::new();
    assert!(a.register_gauge(&s("svc"), &s("same"), &s("d"), &labels(&[])).is_ok());
    assert!(b.register_gauge(&s("svc"), &s("same"), &s("d"), &labels(&[])).is_ok());
    assert!(a.set_gauge(&s("same"), Some(1.5f64.to_bits()), &labels(&[])).is_ok());
    assert!(b.set_gauge(&s("same"), Some(2.5f64.to_bits()), &labels(&[])).is_ok());
    let va = a.gauge_value_bits(&s("same"), &labels(&[])).unwrap();
    let vb = b.gauge_value_bits(&s("same"), &labels(&[])).unwrap();
    assert_eq!(va.map(f64::from_bits), Some(1.5));
    assert_eq!(vb.map(f64::from_bits), Some(2.5));
}

#[test]
fn error_messages_render() {
    assert_eq!(RegistryError::NotFound.message(), "Metric not found");
    assert_eq!(
        RegistryError::NameCollision.message(),
        "Metric with same name is already registered"
    );
    assert!(!RegistryError::LabelArityMismatch { expected: 1, got: 2 }.message().is_empty());
    assert!(!RegistryError::LockUnavailable.message().is_empty());
    assert!(!RegistryError::AddressParse.message().is_empty());
    assert!(!RegistryError::Bind(s("in use")).message().is_empty());
    assert!(!RegistryError::CollectorRemoval(s("gone")).message().is_empty());
    assert!(!RegistryError::GroupUnregisterPartialFailure(vec![s("a")]).message().is_empty());
}

#[test]
fn colliding_label_vectors_are_refused() {
    // "ab","c" and "a","bc" concatenate to the same bytes, so the collector
    // would store both under one child; the registry refuses the second.
    let mut r = MetricRegistry::new();
    assert!(r.register_gauge(&s("svc"), &s("g"), &s("d"), &labels(&["k1", "k2"])).is_ok());
    assert!(r.set_gauge(&s("g"), Some(1.5f64.to_bits()), &labels(&["ab", "c"])).is_ok());
    let e = r.set_gauge(&s("g"), Some(9.0f64.to_bits()), &labels(&["a", "bc"]));
    assert!(matches!(e, Err(RegistryError::LabelHashCollision)));
    // the first child keeps its value, the second never came to exist
    let v = r.gauge_value_bits(&s("g"), &labels(&["ab", "c"])).unwrap();
    assert_eq!(v.map(f64::from_bits), Some(1.5));
    assert_eq!(r.gauge_value_bits(&s("g"), &labels(&["a", "bc"])).unwrap(), None);
}

#[test]
fn colliding_counter_vectors_are_refused() {
    let mut r = MetricRegistry::new();
    assert!(r.register_counter(&s("svc"), &s("c"), &s("d"), &labels(&["k1", "k2"])).is_ok());
    assert!(r.inc_counter(&s("c"), &labels(&["ab", "c"])).is_ok());
    let e = r.inc_counter(&s("c"), &labels(&["a", "bc"]));
    assert!(matches!(e, Err(RegistryError::LabelHashCollision)));
    let v = r.counter_value_bits(&s("c"), &labels(&["ab", "c"])).unwrap();
    assert_eq!(v.map(f64::from_bits), Some(1.0));
    assert_eq!(r.counter_value_bits(&s("c"), &labels(&["a", "bc"])).unwrap(), None);
}

#[test]
fn negative_counter_delta_is_an_error_value() {
    let mut r = MetricRegistry::new();
    assert!(r.register_counter(&s("svc"), &s("c"), &s("d"), &labels(&[])).is_ok());
    assert!(r.inc_counter_by(&s("c"), Some(2.0f64.to_bits()), &labels(&[])).is_ok());
    let e = r.inc_counter_by(&s("c"), Some((-1.0f64).to_bits()), &labels(&[]));
    assert!(matches!(e, Err(RegistryError::InvalidCounterDelta)));
    let nan = r.inc_counter_by(&s("c"), Some(f64::NAN.to_bits()), &labels(&[]));
    assert!(matches!(nan, Err(RegistryError::InvalidCounterDelta)));
    let v = r.counter_value_bits(&s("c"), &labels(&[])).unwrap();
    assert_eq!(v.map(f64::from_bits), Some(2.0));
}
