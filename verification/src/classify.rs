//! Signal classification: decides whether a comment body carries a
//! recognized endorsement or rejection marker, and which kind, by an ordered
//! list of compound-phrase checks followed by a standalone-word check.

use vstd::prelude::*;
use crate::text::contains_phrase;
use crate::text::has_bare_word;
use crate::text::find_phrase;
use crate::text::find_bare_word;

verus! {

/// The run-wide operating mode: a run classifies endorsement markers or
/// rejection markers, never both.
#[derive(Clone, Copy, PartialEq, Eq, Structural, Debug)]
pub enum Mode {
    Ack,
    Nack,
}

/// The closed set of marker kinds, over both modes.
#[derive(Clone, Copy, PartialEq, Eq, Structural, Debug)]
pub enum MarkerKind {
    ConceptAck,
    UtAck,
    TestedAck,
    CodeReviewAck,
    BareAck,
    ConceptNack,
    StrongNack,
    WeakNack,
    BareNack,
}

/// The display label of a marker kind.
pub open spec fn label_spec(k: MarkerKind) -> Seq<char> {
    match k {
        MarkerKind::ConceptAck => "Concept ACK"@,
        MarkerKind::UtAck => "utACK"@,
        MarkerKind::TestedAck => "Tested ACK"@,
        MarkerKind::CodeReviewAck => "Code Review ACK"@,
        MarkerKind::BareAck => "ACK"@,
        MarkerKind::ConceptNack => "Concept NACK"@,
        MarkerKind::StrongNack => "Strong NACK"@,
        MarkerKind::WeakNack => "Weak NACK"@,
        MarkerKind::BareNack => "NACK"@,
    }
}

impl MarkerKind {
    /// The display label of this marker kind.
    pub fn label(&self) -> (r: &'static str)
        ensures
            r@ == label_spec(*self),
    {
        match self {
            MarkerKind::ConceptAck => "Concept ACK",
            MarkerKind::UtAck => "utACK",
            MarkerKind::TestedAck => "Tested ACK",
            MarkerKind::CodeReviewAck => "Code Review ACK",
            MarkerKind::BareAck => "ACK",
            MarkerKind::ConceptNack => "Concept NACK",
            MarkerKind::StrongNack => "Strong NACK",
            MarkerKind::WeakNack => "Weak NACK",
            MarkerKind::BareNack => "NACK",
        }
    }
}

/// The compound marker kinds of a mode, in priority order.
pub open spec fn compound_kinds(mode: Mode) -> Seq<MarkerKind> {
    match mode {
        Mode::Ack => seq![
            MarkerKind::ConceptAck,
            MarkerKind::UtAck,
            MarkerKind::TestedAck,
            MarkerKind::CodeReviewAck,
        ],
        Mode::Nack => seq![MarkerKind::ConceptNack, MarkerKind::StrongNack, MarkerKind::WeakNack],
    }
}

/// The literal phrase checked for a compound kind, and the bare word for a
/// bare kind.
pub open spec fn phrase_of(k: MarkerKind) -> Seq<char> {
    match k {
        MarkerKind::ConceptAck => "concept ack"@,
        MarkerKind::UtAck => "utack"@,
        MarkerKind::TestedAck => "tested ack"@,
        MarkerKind::CodeReviewAck => "code review ack"@,
        MarkerKind::BareAck => "ack"@,
        MarkerKind::ConceptNack => "concept nack"@,
        MarkerKind::StrongNack => "strong nack"@,
        MarkerKind::WeakNack => "weak nack"@,
        MarkerKind::BareNack => "nack"@,
    }
}

/// Position of a kind in its mode's priority order; smaller wins.
pub open spec fn priority(k: MarkerKind) -> int {
    match k {
        MarkerKind::ConceptAck => 0,
        MarkerKind::UtAck => 1,
        MarkerKind::TestedAck => 2,
        MarkerKind::CodeReviewAck => 3,
        MarkerKind::BareAck => 4,
        MarkerKind::ConceptNack => 0,
        MarkerKind::StrongNack => 1,
        MarkerKind::WeakNack => 2,
        MarkerKind::BareNack => 3,
    }
}

/// The standalone word checked when no compound phrase matches.
pub open spec fn bare_word(mode: Mode) -> Seq<char> {
    match mode {
        Mode::Ack => "ack"@,
        Mode::Nack => "nack"@,
    }
}

/// The kind yielded by a standalone-word match.
pub open spec fn bare_kind(mode: Mode) -> MarkerKind {
    match mode {
        Mode::Ack => MarkerKind::BareAck,
        Mode::Nack => MarkerKind::BareNack,
    }
}

/// What classification returns: the fixed priority list of compound phrases
/// is checked first, case-insensitively and anywhere in the body; then the
/// standalone-word check over whitespace-delimited, punctuation-stripped
/// tokens; otherwise the body is unclassified.
pub open spec fn classify_spec(s: Seq<char>, mode: Mode) -> Option<MarkerKind> {
    match mode {
        Mode::Ack => {
            if contains_phrase(s, "concept ack"@) {
                Some(MarkerKind::ConceptAck)
            } else if contains_phrase(s, "utack"@) {
                Some(MarkerKind::UtAck)
            } else if contains_phrase(s, "tested ack"@) {
                Some(MarkerKind::TestedAck)
            } else if contains_phrase(s, "code review ack"@) {
                Some(MarkerKind::CodeReviewAck)
            } else if has_bare_word(s, "ack"@) {
                Some(MarkerKind::BareAck)
            } else {
                None
            }
        },
        Mode::Nack => {
            if contains_phrase(s, "concept nack"@) {
                Some(MarkerKind::ConceptNack)
            } else if contains_phrase(s, "strong nack"@) {
                Some(MarkerKind::StrongNack)
            } else if contains_phrase(s, "weak nack"@) {
                Some(MarkerKind::WeakNack)
            } else if has_bare_word(s, "nack"@) {
                Some(MarkerKind::BareNack)
            } else {
                None
            }
        },
    }
}

/// Classifies one comment body under the active mode: the marker kind it
/// carries, or `None` when it is unclassified.
pub fn extract_ack_type(body: &str, mode: Mode) -> (r: Option<MarkerKind>)
    ensures
        r == classify_spec(body@, mode),
{
    match mode {
        Mode::Ack => {
            if find_phrase(body, "concept ack") {
                Some(MarkerKind::ConceptAck)
            } else if find_phrase(body, "utack") {
                Some(MarkerKind::UtAck)
            } else if find_phrase(body, "tested ack") {
                Some(MarkerKind::TestedAck)
            } else if find_phrase(body, "code review ack") {
                Some(MarkerKind::CodeReviewAck)
            } else if find_bare_word(body, "ack") {
                Some(MarkerKind::BareAck)
            } else {
                None
            }
        },
        Mode::Nack => {
            if find_phrase(body, "concept nack") {
                Some(MarkerKind::ConceptNack)
            } else if find_phrase(body, "strong nack") {
                Some(MarkerKind::StrongNack)
            } else if find_phrase(body, "weak nack") {
                Some(MarkerKind::WeakNack)
            } else if find_bare_word(body, "nack") {
                Some(MarkerKind::BareNack)
            } else {
                None
            }
        },
    }
}

/// Law: a body containing the compound phrase of kind `k` always classifies,
/// to a compound kind of the same mode whose phrase the body also contains
/// and whose priority is at least as high as `k`'s; in particular a body
/// containing exactly one compound phrase classifies to that phrase's kind,
/// regardless of surrounding text or casing.
pub proof fn lemma_compound_phrase_classifies(s: Seq<char>, mode: Mode, k: MarkerKind)
    requires
        compound_kinds(mode).contains(k),
        contains_phrase(s, phrase_of(k)),
    ensures
        classify_spec(s, mode) is Some,
        compound_kinds(mode).contains(classify_spec(s, mode)->0),
        contains_phrase(s, phrase_of(classify_spec(s, mode)->0)),
        priority(classify_spec(s, mode)->0) <= priority(k),
{
    match mode {
        Mode::Ack => {
            assert(compound_kinds(Mode::Ack)[0] == MarkerKind::ConceptAck);
            assert(compound_kinds(Mode::Ack)[1] == MarkerKind::UtAck);
            assert(compound_kinds(Mode::Ack)[2] == MarkerKind::TestedAck);
            assert(compound_kinds(Mode::Ack)[3] == MarkerKind::CodeReviewAck);
        },
        Mode::Nack => {
            assert(compound_kinds(Mode::Nack)[0] == MarkerKind::ConceptNack);
            assert(compound_kinds(Mode::Nack)[1] == MarkerKind::StrongNack);
            assert(compound_kinds(Mode::Nack)[2] == MarkerKind::WeakNack);
        },
    }
}

/// Law: a body whose folded text contains no compound phrase of the mode and
/// none of whose tokens strips to the mode's bare word is unclassified; in
/// particular the bare word embedded inside a longer token never matches.
pub proof fn lemma_no_marker_unclassified(s: Seq<char>, mode: Mode)
    requires
        forall|k: MarkerKind|
            compound_kinds(mode).contains(k) ==> !contains_phrase(s, #[trigger] phrase_of(k)),
        !has_bare_word(s, bare_word(mode)),
    ensures
        classify_spec(s, mode) is None,
{
    match mode {
        Mode::Ack => {
            assert(compound_kinds(Mode::Ack).contains(MarkerKind::ConceptAck)) by {
                assert(compound_kinds(Mode::Ack)[0] == MarkerKind::ConceptAck);
            }
            assert(compound_kinds(Mode::Ack).contains(MarkerKind::UtAck)) by {
                assert(compound_kinds(Mode::Ack)[1] == MarkerKind::UtAck);
            }
            assert(compound_kinds(Mode::Ack).contains(MarkerKind::TestedAck)) by {
                assert(compound_kinds(Mode::Ack)[2] == MarkerKind::TestedAck);
            }
            assert(compound_kinds(Mode::Ack).contains(MarkerKind::CodeReviewAck)) by {
                assert(compound_kinds(Mode::Ack)[3] == MarkerKind::CodeReviewAck);
            }
            assert(!contains_phrase(s, phrase_of(MarkerKind::ConceptAck)));
            assert(!contains_phrase(s, phrase_of(MarkerKind::UtAck)));
            assert(!contains_phrase(s, phrase_of(MarkerKind::TestedAck)));
            assert(!contains_phrase(s, phrase_of(MarkerKind::CodeReviewAck)));
        },
        Mode::Nack => {
            assert(compound_kinds(Mode::Nack).contains(MarkerKind::ConceptNack)) by {
                assert(compound_kinds(Mode::Nack)[0] == MarkerKind::ConceptNack);
            }
            assert(compound_kinds(Mode::Nack).contains(MarkerKind::StrongNack)) by {
                assert(compound_kinds(Mode::Nack)[1] == MarkerKind::StrongNack);
            }
            assert(compound_kinds(Mode::Nack).contains(MarkerKind::WeakNack)) by {
                assert(compound_kinds(Mode::Nack)[2] == MarkerKind::WeakNack);
            }
            assert(!contains_phrase(s, phrase_of(MarkerKind::ConceptNack)));
            assert(!contains_phrase(s, phrase_of(MarkerKind::StrongNack)));
            assert(!contains_phrase(s, phrase_of(MarkerKind::WeakNack)));
        },
    }
}

/// Law: a body whose folded text contains no compound phrase of the mode
/// but does hold a whitespace-delimited token that strips to the mode's
/// bare word classifies to the bare kind: the standalone-word check is
/// token-exact, no more and no less.
pub proof fn lemma_bare_word_classifies(s: Seq<char>, mode: Mode)
    requires
        forall|k: MarkerKind|
            compound_kinds(mode).contains(k) ==> !contains_phrase(s, #[trigger] phrase_of(k)),
        has_bare_word(s, bare_word(mode)),
    ensures
        classify_spec(s, mode) == Some(bare_kind(mode)),
{
    match mode {
        Mode::Ack => {
            assert(compound_kinds(Mode::Ack).contains(MarkerKind::ConceptAck)) by {
                assert(compound_kinds(Mode::Ack)[0] == MarkerKind::ConceptAck);
            }
            assert(compound_kinds(Mode::Ack).contains(MarkerKind::UtAck)) by {
                assert(compound_kinds(Mode::Ack)[1] == MarkerKind::UtAck);
            }
            assert(compound_kinds(Mode::Ack).contains(MarkerKind::TestedAck)) by {
                assert(compound_kinds(Mode::Ack)[2] == MarkerKind::TestedAck);
            }
            assert(compound_kinds(Mode::Ack).contains(MarkerKind::CodeReviewAck)) by {
                assert(compound_kinds(Mode::Ack)[3] == MarkerKind::CodeReviewAck);
            }
            assert(!contains_phrase(s, phrase_of(MarkerKind::ConceptAck)));
            assert(!contains_phrase(s, phrase_of(MarkerKind::UtAck)));
            assert(!contains_phrase(s, phrase_of(MarkerKind::TestedAck)));
            assert(!contains_phrase(s, phrase_of(MarkerKind::CodeReviewAck)));
        },
        Mode::Nack => {
            assert(compound_kinds(Mode::Nack).contains(MarkerKind::ConceptNack)) by {
                assert(compound_kinds(Mode::Nack)[0] == MarkerKind::ConceptNack);
            }
            assert(compound_kinds(Mode::Nack).contains(MarkerKind::StrongNack)) by {
                assert(compound_kinds(Mode::Nack)[1] == MarkerKind::StrongNack);
            }
            assert(compound_kinds(Mode::Nack).contains(MarkerKind::WeakNack)) by {
                assert(compound_kinds(Mode::Nack)[2] == MarkerKind::WeakNack);
            }
            assert(!contains_phrase(s, phrase_of(MarkerKind::ConceptNack)));
            assert(!contains_phrase(s, phrase_of(MarkerKind::StrongNack)));
            assert(!contains_phrase(s, phrase_of(MarkerKind::WeakNack)));
        },
    }
}

/// Law: classification is mode-pure. Its result is a function of the body
/// and the mode alone, and a returned kind always belongs to the active
/// mode's vocabulary, so switching the mode on the same body can only move
/// between that body's per-mode results, independent of call order.
pub proof fn lemma_kind_matches_mode(s: Seq<char>, mode: Mode)
    ensures
        classify_spec(s, mode) is Some ==> (classify_spec(s, mode)->0 == bare_kind(mode)
            || compound_kinds(mode).contains(classify_spec(s, mode)->0)),
{
    if classify_spec(s, mode) is Some {
        let k = classify_spec(s, mode)->0;
        match mode {
            Mode::Ack => {
                if k != bare_kind(mode) {
                    assert(compound_kinds(Mode::Ack).contains(k)) by {
                        if k == MarkerKind::ConceptAck {
                            assert(compound_kinds(Mode::Ack)[0] == k);
                        } else if k == MarkerKind::UtAck {
                            assert(compound_kinds(Mode::Ack)[1] == k);
                        } else if k == MarkerKind::TestedAck {
                            assert(compound_kinds(Mode::Ack)[2] == k);
                        } else {
                            assert(compound_kinds(Mode::Ack)[3] == k);
                        }
                    }
                }
            },
            Mode::Nack => {
                if k != bare_kind(mode) {
                    assert(compound_kinds(Mode::Nack).contains(k)) by {
                        if k == MarkerKind::ConceptNack {
                            assert(compound_kinds(Mode::Nack)[0] == k);
                        } else if k == MarkerKind::StrongNack {
                            assert(compound_kinds(Mode::Nack)[1] == k);
                        } else {
                            assert(compound_kinds(Mode::Nack)[2] == k);
                        }
                    }
                }
            },
        }
    }
}

} // verus!
