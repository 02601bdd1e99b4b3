use ackamoto::classify::{extract_ack_type, MarkerKind, Mode};

#[test]
fn concept_ack_with_surrounding_text() {
    let r = extract_ack_type("Concept ACK, looks good", Mode::Ack);
    assert_eq!(r, Some(MarkerKind::ConceptAck));
    assert_eq!(r.unwrap().label(), "Concept ACK");
}

#[test]
fn bare_ack_alone() {
    let r = extract_ack_type("ack", Mode::Ack);
    assert_eq!(r, Some(MarkerKind::BareAck));
    assert_eq!(r.unwrap().label(), "ACK");
}

#[test]
fn embedded_word_does_not_match() {
    assert_eq!(extract_ack_type("I hijacked this PR", Mode::Ack), None);
}

#[test]
fn compound_phrase_matches_regardless_of_casing() {
    assert_eq!(extract_ack_type("CONCEPT ack after testing", Mode::Ack), Some(MarkerKind::ConceptAck));
    assert_eq!(extract_ack_type("tEsTeD aCk", Mode::Ack), Some(MarkerKind::TestedAck));
}

#[test]
fn compound_phrase_matches_inside_larger_word() {
    // The compound check is a plain substring scan, by design.
    assert_eq!(extract_ack_type("utacknowledge", Mode::Ack), Some(MarkerKind::UtAck));
}

#[test]
fn utack_and_code_review_ack() {
    assert_eq!(extract_ack_type("utACK abc1234", Mode::Ack), Some(MarkerKind::UtAck));
    assert_eq!(
        extract_ack_type("Code Review ACK abc1234", Mode::Ack),
        Some(MarkerKind::CodeReviewAck)
    );
}

#[test]
fn compound_priority_order_wins() {
    // Both phrases occur; the first in priority order decides.
    assert_eq!(
        extract_ack_type("tested ack but really Concept ACK", Mode::Ack),
        Some(MarkerKind::ConceptAck)
    );
}

#[test]
fn bare_ack_with_punctuation() {
    assert_eq!(extract_ack_type("ACK!", Mode::Ack), Some(MarkerKind::BareAck));
    assert_eq!(extract_ack_type("(ack)", Mode::Ack), Some(MarkerKind::BareAck));
}

#[test]
fn nack_mode_compounds() {
    assert_eq!(extract_ack_type("Concept NACK", Mode::Nack), Some(MarkerKind::ConceptNack));
    assert_eq!(extract_ack_type("strong nack from me", Mode::Nack), Some(MarkerKind::StrongNack));
    assert_eq!(extract_ack_type("Weak NACK", Mode::Nack), Some(MarkerKind::WeakNack));
    assert_eq!(extract_ack_type("nack.", Mode::Nack), Some(MarkerKind::BareNack));
}

#[test]
fn mode_purity_same_body_different_modes() {
    let body = "Concept ACK and concept nack in one comment";
    assert_eq!(extract_ack_type(body, Mode::Ack), Some(MarkerKind::ConceptAck));
    assert_eq!(extract_ack_type(body, Mode::Nack), Some(MarkerKind::ConceptNack));
    // Order of calls does not matter; repeating gives the same results.
    assert_eq!(extract_ack_type(body, Mode::Ack), Some(MarkerKind::ConceptAck));
}

#[test]
fn ack_body_is_unclassified_in_nack_mode() {
    assert_eq!(extract_ack_type("ack", Mode::Nack), None);
    assert_eq!(extract_ack_type("NACK", Mode::Ack), None);
}

#[test]
fn empty_body_unclassified() {
    assert_eq!(extract_ack_type("", Mode::Ack), None);
    assert_eq!(extract_ack_type("", Mode::Nack), None);
}

#[test]
fn label_strings() {
    assert_eq!(MarkerKind::TestedAck.label(), "Tested ACK");
    assert_eq!(MarkerKind::CodeReviewAck.label(), "Code Review ACK");
    assert_eq!(MarkerKind::StrongNack.label(), "Strong NACK");
    assert_eq!(MarkerKind::WeakNack.label(), "Weak NACK");
    assert_eq!(MarkerKind::BareNack.label(), "NACK");
    assert_eq!(MarkerKind::UtAck.label(), "utACK");
}
