//! Data model of the pipeline: review requests, comments, classified
//! signals and date groups, with their mathematical views.

use vstd::prelude::*;
use crate::classify::MarkerKind;
use crate::excerpt::truncate_spec;

verus! {

/// Largest timestamp the library accepts: the last second of year 9999,
/// UTC. Comment timestamps are non-negative seconds since the UTC epoch.
pub const MAX_TIMESTAMP: i64 = 253402300799;

/// One review request, as fetched: identifier, title and canonical URL.
pub struct ReviewRequest {
    pub number: u32,
    pub title: String,
    pub url: String,
}

/// One discussion comment: body, author login and profile URL, canonical
/// URL, and creation time as seconds since the UTC epoch.
pub struct Comment {
    pub body: String,
    pub author: String,
    pub author_url: String,
    pub url: String,
    pub timestamp: i64,
}

/// A review request together with its fetched comment thread.
pub struct RequestThread {
    pub request: ReviewRequest,
    pub comments: Vec<Comment>,
}

/// One classified endorsement or rejection signal, composed from a review
/// request and a comment that matched a marker.
pub struct Signal {
    pub number: u32,
    pub title: String,
    pub url: String,
    pub author: String,
    pub author_url: String,
    pub comment_url: String,
    pub timestamp: i64,
    pub excerpt: String,
    pub kind: MarkerKind,
}

/// The signals of one UTC calendar day, most recent first.
pub struct DateGroup {
    pub day: i64,
    pub label: String,
    pub signals: Vec<Signal>,
}

/// Mathematical view of a review request.
pub struct ReviewRequestV {
    pub number: int,
    pub title: Seq<char>,
    pub url: Seq<char>,
}

/// Mathematical view of a comment.
pub struct CommentV {
    pub body: Seq<char>,
    pub author: Seq<char>,
    pub author_url: Seq<char>,
    pub url: Seq<char>,
    pub timestamp: int,
}

/// Mathematical view of a thread.
pub struct RequestThreadV {
    pub request: ReviewRequestV,
    pub comments: Seq<CommentV>,
}

/// Mathematical view of a signal.
pub struct SignalV {
    pub number: int,
    pub title: Seq<char>,
    pub url: Seq<char>,
    pub author: Seq<char>,
    pub author_url: Seq<char>,
    pub comment_url: Seq<char>,
    pub timestamp: int,
    pub excerpt: Seq<char>,
    pub kind: MarkerKind,
}

impl View for ReviewRequest {
    type V = ReviewRequestV;

    open spec fn view(&self) -> ReviewRequestV {
        ReviewRequestV { number: self.number as int, title: self.title@, url: self.url@ }
    }
}

impl View for Comment {
    type V = CommentV;

    open spec fn view(&self) -> CommentV {
        CommentV {
            body: self.body@,
            author: self.author@,
            author_url: self.author_url@,
            url: self.url@,
            timestamp: self.timestamp as int,
        }
    }
}

impl View for RequestThread {
    type V = RequestThreadV;

    open spec fn view(&self) -> RequestThreadV {
        RequestThreadV {
            request: self.request@,
            comments: self.comments@.map_values(|c: Comment| c@),
        }
    }
}

impl View for Signal {
    type V = SignalV;

    open spec fn view(&self) -> SignalV {
        SignalV {
            number: self.number as int,
            title: self.title@,
            url: self.url@,
            author: self.author@,
            author_url: self.author_url@,
            comment_url: self.comment_url@,
            timestamp: self.timestamp as int,
            excerpt: self.excerpt@,
            kind: self.kind,
        }
    }
}

/// The views of a sequence of signals.
pub open spec fn seq_v(ss: Seq<Signal>) -> Seq<SignalV> {
    ss.map_values(|s: Signal| s@)
}

/// A comment timestamp the library accepts.
pub open spec fn wf_comment(c: CommentV) -> bool {
    0 <= c.timestamp <= MAX_TIMESTAMP as int
}

/// A thread whose comments the library accepts.
pub open spec fn wf_thread(t: RequestThreadV) -> bool {
    forall|j: int| 0 <= j < t.comments.len() ==> wf_comment(#[trigger] t.comments[j])
}

/// A signal timestamp the library accepts.
pub open spec fn wf_signal(s: SignalV) -> bool {
    0 <= s.timestamp <= MAX_TIMESTAMP as int
}

/// The signal derived from a request and a comment classified as kind `k`:
/// every field is copied from its source, the timestamp is the comment's
/// creation time, and the excerpt is the derived truncation of the body.
pub open spec fn signal_v(r: ReviewRequestV, c: CommentV, k: MarkerKind) -> SignalV {
    SignalV {
        number: r.number,
        title: r.title,
        url: r.url,
        author: c.author,
        author_url: c.author_url,
        comment_url: c.url,
        timestamp: c.timestamp,
        excerpt: truncate_spec(c.body, 200),
        kind: k,
    }
}

} // verus!
