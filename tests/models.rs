use fpl::models::Position;

#[test]
fn test_position_element_type_id() {
    assert_eq!(Position::Goalkeeper.element_type_id(), 1);
    assert_eq!(Position::Defender.element_type_id(), 2);
    assert_eq!(Position::Midfielder.element_type_id(), 3);
    assert_eq!(Position::Forward.element_type_id(), 4);
}

#[test]
fn position_labels_and_codes_round_trip() {
    for code in 1..=4u64 {
        let p = Position::from_element_type_id(code).unwrap();
        assert_eq!(p.element_type_id() as u64, code);
    }
    assert_eq!(Position::Goalkeeper.display_name(), "GKP");
    assert_eq!(Position::Defender.display_name(), "DEF");
    assert_eq!(Position::Midfielder.display_name(), "MID");
    assert_eq!(Position::Forward.display_name(), "FWD");
    assert!(Position::from_element_type_id(0).is_none());
    assert!(Position::from_element_type_id(5).is_none());
}
