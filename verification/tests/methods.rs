use yara::methods::{lookup, methods, names_for, ReceiverKind};
use yara::typechecker::Type;

#[test]
fn no_duplicate_receiver_name_pairs() {
    let all = methods();
    for (i, a) in all.iter().enumerate() {
        for b in &all[i + 1..] {
            assert!(
                !(a.receiver == b.receiver && a.name == b.name),
                "duplicate method `{}` on {:?}",
                a.name,
                a.receiver
            );
        }
    }
}

#[test]
fn instance_and_nil_have_no_receiver_kind() {
    assert_eq!(ReceiverKind::of_type(&Type::Nil), None);
    assert_eq!(
        ReceiverKind::of_type(&Type::Instance("Foo".to_string())),
        None
    );
}

#[test]
fn lookup_finds_registered_methods() {
    assert!(lookup(ReceiverKind::Array, "size").is_some());
    assert!(lookup(ReceiverKind::Integer, "to_s").is_some());
    assert!(lookup(ReceiverKind::Integer, "nope").is_none());
    assert!(lookup(ReceiverKind::Array, "to_s").is_none());
}

#[test]
fn names_for_lists_only_that_receivers_methods() {
    let names = names_for(ReceiverKind::Boolean);
    assert_eq!(names, vec!["to_s"]);
}

#[test]
fn primitive_types_map_to_their_receiver_kind() {
    assert_eq!(ReceiverKind::of_type(&Type::Integer), Some(ReceiverKind::Integer));
    assert_eq!(ReceiverKind::of_type(&Type::Float), Some(ReceiverKind::Float));
    assert_eq!(ReceiverKind::of_type(&Type::Boolean), Some(ReceiverKind::Boolean));
    assert_eq!(ReceiverKind::of_type(&Type::String), Some(ReceiverKind::String));
    assert_eq!(
        ReceiverKind::of_type(&Type::Array(Box::new(Type::Integer))),
        Some(ReceiverKind::Array)
    );
    assert_eq!(lookup(ReceiverKind::Array, "set").map(|m| m.arity), Some(2));
}
