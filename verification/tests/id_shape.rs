use ix_trace_rs::id::is_id_shaped;

#[test]
fn accepts_the_id_forms_the_corpus_actually_writes() {
    for id in [
        "TC-707",
        "IT-033",
        "FR-047-AC-1",
        "NFR-003-AC-2",
        "StR-004-AC-2",
        "US-005-AC-2",
        "FR-003-CON-1",
        "TC-001a",
        "TC-CB-01",
        "IT-EDGE-008",
        "TC-EC-01",
        "FR-S003",
        "FR-M6",
        "FR-SP001",
    ] {
        assert!(is_id_shaped(id), "rejected a real id: {id}");
    }
}

#[test]
fn rejects_prose_and_malformed_ids() {
    for id in [
        "hello world",
        "TC",
        "TC-",
        "-707",
        "non-canonical",
        "vague-response",
        "TC-707-",
        "TC 707",
        "TC-707-AC-",
        "FR_047",
    ] {
        assert!(!is_id_shaped(id), "accepted prose as an id: {id}");
    }
}

#[test]
fn the_kind_vocabulary_is_deliberately_not_checked() {
    assert!(is_id_shaped("ZZ-001"));
    assert!(is_id_shaped("MADEUP-042-AC-9"));
}

#[test]
fn a_kind_may_carry_digits_and_underscores_after_its_first_letter() {
    assert!(is_id_shaped("interface_004-AC-1"));
    assert!(is_id_shaped("a1-2"));
}

#[test]
fn a_kind_must_begin_with_a_letter() {
    for id in ["004-AC-1", "_interface_004-AC-1", "4interface-AC-1", "1_x-AC-1"] {
        assert!(!is_id_shaped(id), "accepted a kind without a leading letter: {id}");
    }
}

#[test]
fn segments_after_the_kind_take_no_underscore_and_no_empty_piece() {
    assert!(!is_id_shaped("TC-70_7"));
    assert!(!is_id_shaped("TC--707"));
    assert!(!is_id_shaped("TC-7.0"));
}

#[test]
fn a_digit_after_the_kind_is_what_makes_an_id() {
    assert!(!is_id_shaped("FR-backed"));
    assert!(!is_id_shaped("FR-AC-X"));
    assert!(is_id_shaped("FR-AC-X1"));
    // Digits in the kind alone do not count.
    assert!(!is_id_shaped("interface_004-AC"));
}

#[test]
fn two_ids_differing_only_in_a_well_formed_kind_agree() {
    for tail in ["001", "AC", "042-AC-9", "-1", "x_1"] {
        let a = format!("TC-{tail}");
        let b = format!("MADEUP_9-{tail}");
        assert_eq!(is_id_shaped(&a), is_id_shaped(&b), "tail {tail}");
    }
}

#[test]
fn non_ascii_characters_are_not_id_characters() {
    assert!(!is_id_shaped("TC-７０７"));
    assert!(!is_id_shaped("ÄB-001"));
    assert!(!is_id_shaped(""));
}
