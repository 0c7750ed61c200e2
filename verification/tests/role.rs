use ryke::role::Role;

#[test]
fn roles_are_symmetric() {
    assert_eq!(Role::Initiator.peer(), Role::Responder);
    assert_eq!(Role::Responder.peer().peer(), Role::Responder);
    assert!(Role::Initiator.header_initiator_flag());
    assert!(!Role::Responder.header_initiator_flag());
}

#[test]
fn exactly_one_side_is_the_initiator() {
    for role in [Role::Initiator, Role::Responder] {
        assert_ne!(role.is_initiator(), role.is_responder());
        assert_ne!(role.is_initiator(), role.peer().is_initiator());
        assert_eq!(role.header_initiator_flag(), role.is_initiator());
    }
}
