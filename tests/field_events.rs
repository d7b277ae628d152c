use field_events::field::derive_field;
use field_events::listen::Observer;
use field_events::naming::{event_name, handle_ident, is_identifier};
use field_events::registry::StateRegistry;
use field_events::state::{next_publish, EventError, FieldValue, PublishStep, StateObject};

fn fv(name: &str, value: &[u8]) -> FieldValue {
    FieldValue { name: name.to_string(), value: value.to_vec() }
}

fn counter(count: u32) -> StateObject {
    StateObject::new("Counter".to_string(), vec![fv("count", &count.to_le_bytes())]).unwrap()
}

#[test]
fn event_name_joins_type_and_field() {
    assert_eq!(event_name("Counter", "count"), "Counter::count");
    assert_eq!(event_name("TestState", "foo"), "TestState::foo");
}

#[test]
fn handle_ident_prefixes_pascal_case() {
    assert_eq!(handle_ident("bar"), "FBar");
    assert_eq!(handle_ident("foo_bar"), "FFooBar");
    assert_eq!(handle_ident("already_Big_x1"), "FAlreadyBigX1");
    assert_eq!(handle_ident("_lead"), "FLead");
}

#[test]
fn handle_ident_differs_from_type_of_same_name() {
    // a field `bar: Bar` gets handle `FBar`, not `Bar`
    assert_ne!(handle_ident("bar"), "Bar");
}

#[test]
fn identifiers_are_checked() {
    assert!(is_identifier("count"));
    assert!(is_identifier("_x9"));
    assert!(!is_identifier(""));
    assert!(!is_identifier("9lives"));
    assert!(!is_identifier("a::b"));
    assert!(!is_identifier("a-b"));
    assert!(!is_identifier("_"));
    assert!(is_identifier("__"));
}

#[test]
fn derive_field_builds_descriptor() {
    let f = derive_field("Test", "bar").unwrap();
    assert_eq!(f.parent, "Test");
    assert_eq!(f.name, "bar");
    assert_eq!(f.event_name, "Test::bar");
    assert_eq!(f.ident, "FBar");
    assert!(derive_field("Test", "no way").is_none());
    assert!(derive_field("Te:st", "bar").is_none());
}

#[test]
fn derive_gives_distinct_event_names_within_a_type() {
    let names = vec!["foo".to_string(), "bar".to_string(), "foo_bar".to_string()];
    let fs = field_events::field::derive("TestState", &names).unwrap();
    assert_eq!(fs.len(), 3);
    assert_eq!(fs[0].event_name, "TestState::foo");
    assert_eq!(fs[1].event_name, "TestState::bar");
    assert_eq!(fs[2].event_name, "TestState::foo_bar");
    for i in 0..fs.len() {
        for j in 0..fs.len() {
            if i != j {
                assert_ne!(fs[i].event_name, fs[j].event_name);
            }
        }
    }
}

#[test]
fn derive_rejects_duplicate_or_bad_names() {
    let dup = vec!["foo".to_string(), "foo".to_string()];
    assert!(field_events::field::derive("T", &dup).is_none());
    let bad = vec!["foo".to_string(), "1x".to_string()];
    assert!(field_events::field::derive("T", &bad).is_none());
    assert!(field_events::field::derive("", &vec!["foo".to_string()]).is_none());
    assert!(field_events::field::derive("T", &vec![]).unwrap().is_empty());
}

#[test]
fn event_names_distinct_across_types() {
    // would collide if type names could hold the separator
    assert_ne!(event_name("A", "b_c"), event_name("Ab", "c"));
    assert_ne!(event_name("Alpha", "x"), event_name("Beta", "x"));
}

#[test]
fn state_object_new_checks_fields() {
    assert!(StateObject::new("S".to_string(), vec![fv("a", b"1"), fv("a", b"2")]).is_none());
    assert!(StateObject::new("S".to_string(), vec![fv("a b", b"1")]).is_none());
    assert!(StateObject::new("S s".to_string(), vec![]).is_none());
    assert!(StateObject::new("S".to_string(), vec![fv("a", b"1"), fv("b", b"2")]).is_some());
}

#[test]
fn emit_yields_event_name_and_value() {
    let o = StateObject::new("TestState".to_string(), vec![fv("foo", b"hi"), fv("bar", b"\x01")])
        .unwrap();
    let e = o.emit("bar").ok().unwrap();
    assert_eq!(e.event_name, "TestState::bar");
    assert_eq!(e.payload, vec![1u8]);
    match o.emit("baz") {
        Err(EventError::FieldIsNotDeclared(n)) => assert_eq!(n, "baz"),
        _ => panic!("expected FieldIsNotDeclared"),
    }
}

#[test]
fn emit_all_in_declaration_order() {
    let o = StateObject::new("TestState".to_string(), vec![fv("foo", b"hi"), fv("bar", b"\x01")])
        .unwrap();
    let es = o.emit_all();
    assert_eq!(es.len(), 2);
    assert_eq!(es[0].event_name, "TestState::foo");
    assert_eq!(es[0].payload, b"hi".to_vec());
    assert_eq!(es[1].event_name, "TestState::bar");
    assert_eq!(es[1].payload, vec![1u8]);
}

#[test]
fn update_sets_then_emits() {
    let mut o = counter(0);
    let e = o.update("count", 5u32.to_le_bytes().to_vec()).ok().unwrap();
    assert_eq!(e.event_name, "Counter::count");
    assert_eq!(e.payload, 5u32.to_le_bytes().to_vec());
    assert_eq!(o.fields[0].value, 5u32.to_le_bytes().to_vec());
    assert!(matches!(o.update("missing", vec![]), Err(EventError::FieldIsNotDeclared(_))));
    assert_eq!(o.fields[0].value, 5u32.to_le_bytes().to_vec());
}

#[test]
fn get_value_of_unregistered_type() {
    let reg = StateRegistry::new();
    match reg.get_value("Counter", "count") {
        Err(EventError::StateIsNotRegistered(n)) => assert_eq!(n, "Counter"),
        _ => panic!("expected StateIsNotRegistered"),
    }
}

#[test]
fn get_value_of_registered_field() {
    let mut reg = StateRegistry::new();
    reg.register(counter(7));
    assert_eq!(reg.get_value("Counter", "count").ok().unwrap(), 7u32.to_le_bytes().to_vec());
    assert!(matches!(reg.get_value("Counter", "other"), Err(EventError::FieldIsNotDeclared(_))));
    assert!(matches!(reg.get_value("Other", "count"), Err(EventError::StateIsNotRegistered(_))));
    let f = derive_field("Counter", "count").unwrap();
    assert_eq!(reg.get_field_value(&f).ok().unwrap(), 7u32.to_le_bytes().to_vec());
}

#[test]
fn register_replaces_earlier_entry() {
    let mut reg = StateRegistry::new();
    reg.register(counter(1));
    reg.register(counter(2));
    assert_eq!(reg.get_value("Counter", "count").ok().unwrap(), 2u32.to_le_bytes().to_vec());
}

#[test]
fn deliver_routes_to_active_subscriptions() {
    let mut obs = Observer::new();
    let foo = obs.listen("TestState::foo");
    let bar = obs.listen("TestState::bar");
    let foo2 = obs.listen("TestState::foo");
    let got = obs.deliver("TestState::foo");
    assert_eq!(got.len(), 2);
    assert!(got[0] == foo && got[1] == foo2);
    let got = obs.deliver("TestState::bar");
    assert_eq!(got.len(), 1);
    assert!(got[0] == bar);
    assert!(obs.deliver("TestState::baz").is_empty());
}

#[test]
fn emission_reaches_subscriber_once() {
    let o = counter(3);
    let mut obs = Observer::new();
    let h = obs.listen("Counter::count");
    let e = o.emit("count").ok().unwrap();
    let got = obs.deliver(e.event_name.as_str());
    assert_eq!(got.len(), 1);
    assert!(got[0] == h);
    assert_eq!(e.payload, 3u32.to_le_bytes().to_vec());
}

#[test]
fn detach_twice_same_as_once() {
    let mut obs = Observer::new();
    let h = obs.listen("TestState::foo");
    let other = obs.listen("TestState::foo");
    assert!(obs.is_active(h));
    obs.detach(h);
    assert!(!obs.is_active(h));
    let once = obs.deliver("TestState::foo");
    obs.detach(h);
    assert!(!obs.is_active(h));
    let twice = obs.deliver("TestState::foo");
    assert_eq!(once.len(), 1);
    assert_eq!(twice.len(), 1);
    assert!(once[0] == other && twice[0] == other);
    assert!(obs.is_active(other));
}

#[test]
fn registry_update_changes_live_object() {
    let mut reg = StateRegistry::new();
    assert!(matches!(
        reg.update("Counter", "count", vec![1]),
        Err(EventError::StateIsNotRegistered(_))
    ));
    reg.register(counter(1));
    assert!(matches!(reg.update("Counter", "nope", vec![1]), Err(EventError::FieldIsNotDeclared(_))));
    assert_eq!(reg.get_value("Counter", "count").ok().unwrap(), 1u32.to_le_bytes().to_vec());
    let e = reg.update("Counter", "count", 9u32.to_le_bytes().to_vec()).ok().unwrap();
    assert_eq!(e.event_name, "Counter::count");
    assert_eq!(e.payload, 9u32.to_le_bytes().to_vec());
    assert_eq!(reg.get_value("Counter", "count").ok().unwrap(), 9u32.to_le_bytes().to_vec());
}

#[test]
fn duplicate_copies_object() {
    let o = StateObject::new("S".to_string(), vec![fv("a", b"1"), fv("b", b"22")]).unwrap();
    let d = o.duplicate();
    assert_eq!(d.name, "S");
    assert_eq!(d.fields.len(), 2);
    assert_eq!(d.fields[1].name, "b");
    assert_eq!(d.fields[1].value, b"22".to_vec());
}

#[test]
fn counter_scenario() {
    let mut reg = StateRegistry::new();
    reg.register(counter(0));
    // first observer queries, then subscribes
    let mut first = Observer::new();
    assert_eq!(reg.get_value("Counter", "count").ok().unwrap(), 0u32.to_le_bytes().to_vec());
    let h = first.listen("Counter::count");
    // host updates the field, which yields its emission
    let e = reg.update("Counter", "count", 5u32.to_le_bytes().to_vec()).ok().unwrap();
    let got = first.deliver(e.event_name.as_str());
    assert_eq!(got.len(), 1);
    assert!(got[0] == h);
    assert_eq!(u32::from_le_bytes([e.payload[0], e.payload[1], e.payload[2], e.payload[3]]), 5);
    // a second observer arriving now sees the current value
    let mut second = Observer::new();
    let _h2 = second.listen("Counter::count");
    assert_eq!(reg.get_value("Counter", "count").ok().unwrap(), 5u32.to_le_bytes().to_vec());
}

#[test]
fn derive_rejects_colliding_handles() {
    let pairs = [("a", "a_"), ("lead", "_lead"), ("foo_bar", "fooBar")];
    for (x, y) in pairs {
        assert_eq!(handle_ident(x), handle_ident(y));
        let names = vec![x.to_string(), y.to_string()];
        assert!(field_events::field::derive("T", &names).is_none());
    }
}

#[test]
fn derive_gives_distinct_handles() {
    let names = vec!["foo".to_string(), "bar".to_string(), "foo_bar".to_string()];
    let fs = field_events::field::derive("TestState", &names).unwrap();
    assert_eq!(fs[0].ident, "FFoo");
    assert_eq!(fs[1].ident, "FBar");
    assert_eq!(fs[2].ident, "FFooBar");
}

#[test]
fn is_well_formed_matches_new() {
    assert!(counter(1).is_well_formed());
    let bad = StateObject { name: "S".to_string(), fields: vec![fv("a", b"1"), fv("a", b"2")] };
    assert!(!bad.is_well_formed());
    let bad = StateObject { name: "_".to_string(), fields: vec![] };
    assert!(!bad.is_well_formed());
}

#[test]
fn next_publish_stops_at_first_failure() {
    assert!(matches!(next_publish(3, 0, false), PublishStep::Publish(0)));
    assert!(matches!(next_publish(3, 2, false), PublishStep::Publish(2)));
    assert!(matches!(next_publish(3, 3, false), PublishStep::Done));
    assert!(matches!(next_publish(3, 2, true), PublishStep::Failed(1)));
    assert!(matches!(next_publish(0, 0, false), PublishStep::Done));
}

#[test]
fn errors_name_what_is_missing() {
    let mut reg = StateRegistry::new();
    match reg.update("Counter", "count", vec![1]) {
        Err(EventError::StateIsNotRegistered(n)) => assert_eq!(n, "Counter"),
        _ => panic!("expected StateIsNotRegistered"),
    }
    let f = derive_field("Counter", "count").unwrap();
    match reg.get_field_value(&f) {
        Err(EventError::StateIsNotRegistered(n)) => assert_eq!(n, "Counter"),
        _ => panic!("expected StateIsNotRegistered"),
    }
    reg.register(counter(1));
    match reg.update("Counter", "nope", vec![1]) {
        Err(EventError::FieldIsNotDeclared(n)) => assert_eq!(n, "nope"),
        _ => panic!("expected FieldIsNotDeclared"),
    }
    let g = derive_field("Counter", "total").unwrap();
    match reg.get_field_value(&g) {
        Err(EventError::FieldIsNotDeclared(n)) => assert_eq!(n, "total"),
        _ => panic!("expected FieldIsNotDeclared"),
    }
}

#[test]
fn get_with_applies_accessor() {
    let mut reg = StateRegistry::new();
    match reg.get_with("Counter", |o: &StateObject| o.fields.len()) {
        Err(EventError::StateIsNotRegistered(n)) => assert_eq!(n, "Counter"),
        _ => panic!("expected StateIsNotRegistered"),
    }
    reg.register(counter(4));
    let v = reg.get_with("Counter", |o: &StateObject| o.fields[0].value.clone()).ok().unwrap();
    assert_eq!(v, 4u32.to_le_bytes().to_vec());
}
