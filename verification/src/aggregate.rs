//! Signal aggregation: automated authors are filtered out, comments are
//! classified and turned into signals, the signal list is sorted by
//! timestamp descending, and the sorted list is partitioned into date
//! groups ordered by calendar day descending.

use vstd::prelude::*;
use vstd::multiset::Multiset;
use crate::classify::Mode;
use crate::classify::classify_spec;
use crate::classify::extract_ack_type;
use crate::dates::date_label_of;
use crate::dates::day_of;
use crate::dates::day_of_ts;
use crate::dates::format_date;
use crate::dates::lemma_day_monotonic;
use crate::excerpt::truncate_comment;
use crate::model::Comment;
use crate::model::CommentV;
use crate::model::DateGroup;
use crate::model::RequestThread;
use crate::model::RequestThreadV;
use crate::model::ReviewRequest;
use crate::model::ReviewRequestV;
use crate::model::Signal;
use crate::model::SignalV;
use crate::model::seq_v;
use crate::model::signal_v;
use crate::model::wf_signal;
use crate::model::wf_thread;
use crate::render::error_page_spec;
use crate::render::generate_error_html;
use crate::text::contains_phrase;
use crate::text::find_phrase;
use crate::text::fold;
use crate::text::lower_char;
use crate::text::lower_char_x;

verus! {

broadcast use {vstd::seq_lib::group_to_multiset_ensures, vstd::multiset::group_multiset_axioms};

/// An automated author: the login contains "bot" case-insensitively, or is
/// the known automation account.
pub open spec fn is_automated(login: Seq<char>) -> bool {
    contains_phrase(login, "bot"@) || fold(login) == "bitcoin-core-ci"@
}

/// Whether the folded text of `s` equals the lowercase word `w` exactly.
fn folded_equals(s: &str, w: &str) -> (b: bool)
    ensures
        b == (fold(s@) == w@),
{
    let n = s.unicode_len();
    let m = w.unicode_len();
    if n != m {
        assert(fold(s@).len() != w@.len());
        return false;
    }
    let mut i: usize = 0;
    while i < n
        invariant
            n == s@.len(),
            n == w@.len(),
            i <= n,
            forall|k: int| 0 <= k < i ==> fold(s@)[k] == w@[k],
        decreases n - i,
    {
        let cs = lower_char_x(s.get_char(i));
        let cw = w.get_char(i);
        assert(fold(s@)[i as int] == lower_char(s@[i as int]));
        if cs != cw {
            assert(fold(s@)[i as int] != w@[i as int]);
            return false;
        }
        i += 1;
    }
    assert(fold(s@) =~= w@);
    true
}

/// Whether a comment author is an automation account, to be excluded before
/// classification.
pub fn is_automated_author(login: &str) -> (b: bool)
    ensures
        b == is_automated(login@),
{
    if find_phrase(login, "bot") {
        true
    } else {
        folded_equals(login, "bitcoin-core-ci")
    }
}

/// Builds the signal a comment contributes, if any: `None` exactly when the
/// author is automated or the body carries no marker of the mode; otherwise
/// the signal composed of the request's and the comment's fields, the
/// comment's timestamp, the derived excerpt, and the classified kind.
pub fn build_signal(req: &ReviewRequest, c: &Comment, mode: Mode) -> (r: Option<Signal>)
    ensures
        r is Some <==> (!is_automated(c.author@) && classify_spec(c.body@, mode) is Some),
        r matches Some(s) ==> s@ == signal_v(req@, c@, classify_spec(c.body@, mode)->0),
{
    if is_automated_author(c.author.as_str()) {
        return None;
    }
    match extract_ack_type(c.body.as_str(), mode) {
        None => None,
        Some(kind) => {
            let excerpt = truncate_comment(c.body.as_str(), 200);
            Some(
                Signal {
                    number: req.number,
                    title: req.title.clone(),
                    url: req.url.clone(),
                    author: c.author.clone(),
                    author_url: c.author_url.clone(),
                    comment_url: c.url.clone(),
                    timestamp: c.timestamp,
                    excerpt,
                    kind,
                },
            )
        },
    }
}

/// The signal views one comment contributes under a mode.
pub open spec fn comment_contrib(r: ReviewRequestV, c: CommentV, mode: Mode) -> Seq<SignalV> {
    if !is_automated(c.author) && classify_spec(c.body, mode) is Some {
        seq![signal_v(r, c, classify_spec(c.body, mode)->0)]
    } else {
        Seq::empty()
    }
}

/// The signal views a comment thread contributes, in comment order.
pub open spec fn comments_signals(r: ReviewRequestV, cs: Seq<CommentV>, mode: Mode) -> Seq<
    SignalV,
>
    decreases cs.len(),
{
    if cs.len() == 0 {
        Seq::empty()
    } else {
        comments_signals(r, cs.drop_last(), mode) + comment_contrib(r, cs.last(), mode)
    }
}

/// The signal views a run collects, thread by thread, in fetch order.
pub open spec fn collect_spec(ts: Seq<RequestThreadV>, mode: Mode) -> Seq<SignalV>
    decreases ts.len(),
{
    if ts.len() == 0 {
        Seq::empty()
    } else {
        collect_spec(ts.drop_last(), mode) + comments_signals(
            ts.last().request,
            ts.last().comments,
            mode,
        )
    }
}

/// Walks the fetched threads in order and collects the signal of every
/// comment that survives the author filter and classifies under the mode.
pub fn collect_signals(threads: &Vec<RequestThread>, mode: Mode) -> (out: Vec<Signal>)
    requires
        forall|i: int| 0 <= i < threads@.len() ==> wf_thread(#[trigger] threads@[i]@),
    ensures
        seq_v(out@) == collect_spec(threads@.map_values(|t: RequestThread| t@), mode),
        forall|k: int| 0 <= k < out@.len() ==> wf_signal(#[trigger] out@[k]@),
{
    let ghost tv = threads@.map_values(|t: RequestThread| t@);
    let mut out: Vec<Signal> = Vec::new();
    let mut i: usize = 0;
    while i < threads.len()
        invariant
            tv == threads@.map_values(|t: RequestThread| t@),
            forall|i2: int| 0 <= i2 < threads@.len() ==> wf_thread(#[trigger] threads@[i2]@),
            i <= threads@.len(),
            seq_v(out@) == collect_spec(tv.take(i as int), mode),
            forall|k: int| 0 <= k < out@.len() ==> wf_signal(#[trigger] out@[k]@),
        decreases threads@.len() - i,
    {
        let ghost rv = tv[i as int].request;
        let ghost cv = tv[i as int].comments;
        let ncom = threads[i].comments.len();
        let mut j: usize = 0;
        while j < ncom
            invariant
                tv == threads@.map_values(|t: RequestThread| t@),
                forall|i2: int| 0 <= i2 < threads@.len() ==> wf_thread(#[trigger] threads@[i2]@),
                i < threads@.len(),
                rv == tv[i as int].request,
                cv == tv[i as int].comments,
                ncom == cv.len(),
                j <= ncom,
                seq_v(out@) == collect_spec(tv.take(i as int), mode) + comments_signals(
                    rv,
                    cv.take(j as int),
                    mode,
                ),
                forall|k: int| 0 <= k < out@.len() ==> wf_signal(#[trigger] out@[k]@),
            decreases ncom - j,
        {
            let ghost old_out = out@;
            assert(threads@[i as int].comments@[j as int]@ == cv[j as int]);
            assert(wf_thread(threads@[i as int]@));
            assert(crate::model::wf_comment(cv[j as int]));
            let r = build_signal(&threads[i].request, &threads[i].comments[j], mode);
            proof {
                assert(cv.take(j + 1).drop_last() =~= cv.take(j as int));
                assert(cv.take(j + 1).last() == cv[j as int]);
            }
            match r {
                Some(s) => {
                    out.push(s);
                    proof {
                        assert(seq_v(out@) =~= seq_v(old_out).push(s@));
                        assert(comment_contrib(rv, cv[j as int], mode) =~= seq![s@]);
                        assert(comments_signals(rv, cv.take(j + 1), mode) == comments_signals(
                            rv,
                            cv.take(j as int),
                            mode,
                        ) + comment_contrib(rv, cv[j as int], mode));
                        assert(seq_v(out@) =~= collect_spec(tv.take(i as int), mode)
                            + comments_signals(rv, cv.take(j + 1), mode));
                    }
                },
                None => {
                    proof {
                        assert(comment_contrib(rv, cv[j as int], mode) =~= Seq::<SignalV>::empty());
                        assert(comments_signals(rv, cv.take(j + 1), mode) == comments_signals(
                            rv,
                            cv.take(j as int),
                            mode,
                        ) + comment_contrib(rv, cv[j as int], mode));
                        assert(seq_v(out@) =~= collect_spec(tv.take(i as int), mode)
                            + comments_signals(rv, cv.take(j + 1), mode));
                    }
                },
            }
            j += 1;
        }
        proof {
            assert(cv.take(cv.len() as int) =~= cv);
            assert(tv.take(i + 1).drop_last() =~= tv.take(i as int));
            assert(tv.take(i + 1).last() == tv[i as int]);
            assert(collect_spec(tv.take(i + 1), mode) == collect_spec(tv.take(i as int), mode)
                + comments_signals(rv, cv, mode));
        }
        i += 1;
    }
    proof {
        assert(tv.take(tv.len() as int) =~= tv);
    }
    out
}

/// Signals ordered by timestamp, most recent first.
pub open spec fn sorted_desc(ss: Seq<Signal>) -> bool {
    forall|i: int, j: int| 0 <= i < j < ss.len() ==> ss[i].timestamp >= ss[j].timestamp
}

/// Inserting an element anywhere in a sequence adds exactly one occurrence
/// of it to the sequence's multiset.
proof fn lemma_insert_to_multiset<A>(s: Seq<A>, pos: int, x: A)
    requires
        0 <= pos <= s.len(),
    ensures
        s.insert(pos, x).to_multiset() =~= s.to_multiset().insert(x),
{
    let t = s.insert(pos, x);
    s.insert_ensures(pos, x);
    assert(t.remove(pos) =~= s);
    assert(t[pos] == x);
    assert(t.contains(x)) by {
        assert(t[pos] == x);
    }
    assert(t.remove(pos).to_multiset() =~= t.to_multiset().remove(t[pos]));
    assert(t.to_multiset().count(x) > 0);
    assert forall|y: A| t.to_multiset().count(y) == s.to_multiset().insert(x).count(y) by {
        assert(s.to_multiset().count(y) == t.to_multiset().remove(x).count(y));
    }
}

/// Position at which a signal of timestamp `x_ts` is inserted to keep the
/// descending order: after every element at least as recent.
fn insert_pos(out: &Vec<Signal>, x_ts: i64) -> (pos: usize)
    ensures
        pos <= out@.len(),
        forall|p: int| 0 <= p < pos ==> out@[p].timestamp >= x_ts,
        pos < out@.len() ==> out@[pos as int].timestamp < x_ts,
{
    let mut pos: usize = 0;
    while pos < out.len()
        invariant
            pos <= out@.len(),
            forall|p: int| 0 <= p < pos ==> out@[p].timestamp >= x_ts,
        decreases out@.len() - pos,
    {
        if out[pos].timestamp < x_ts {
            return pos;
        }
        pos += 1;
    }
    pos
}

/// Sorts the signal list by timestamp descending. The result is a
/// permutation of the input; a list already in the documented order is
/// returned unchanged, so the sort is idempotent.
pub fn sort_signals(sig: Vec<Signal>) -> (out: Vec<Signal>)
    ensures
        sorted_desc(out@),
        seq_v(out@).to_multiset() == seq_v(sig@).to_multiset(),
        forall|k: int| 0 <= k < out@.len() ==> sig@.contains(#[trigger] out@[k]),
        sorted_desc(sig@) ==> out@ == sig@,
{
    let ghost orig = sig@;
    let mut rest = sig;
    let mut out: Vec<Signal> = Vec::new();
    while rest.len() > 0
        invariant
            sorted_desc(out@),
            seq_v(out@).to_multiset().add(seq_v(rest@).to_multiset()) == seq_v(
                orig,
            ).to_multiset(),
            forall|k: int| 0 <= k < out@.len() ==> orig.contains(#[trigger] out@[k]),
            forall|k: int| 0 <= k < rest@.len() ==> orig.contains(#[trigger] rest@[k]),
            out@.len() + rest@.len() == orig.len(),
            sorted_desc(orig) ==> (out@ == orig.take(out@.len() as int) && rest@ == orig.skip(
                out@.len() as int,
            )),
        decreases rest@.len(),
    {
        let ghost old_rest = rest@;
        let ghost old_out = out@;
        let x = rest.remove(0);
        assert(x == old_rest[0]);
        let pos = insert_pos(&out, x.timestamp);
        out.insert(pos, x);
        proof {
            old_out.insert_ensures(pos as int, x);
            // The new list remains sorted around the insertion point.
            assert forall|i: int, j: int|
                0 <= i < j < out@.len() implies out@[i].timestamp >= out@[j].timestamp by {
                if j < pos {
                } else if i < pos && j == pos {
                } else if i < pos && j > pos {
                    assert(out@[j] == old_out[j - 1]);
                } else if i == pos {
                    assert(out@[j] == old_out[j - 1]);
                    assert(old_out[j - 1].timestamp < x.timestamp);
                } else {
                    assert(out@[i] == old_out[i - 1]);
                    assert(out@[j] == old_out[j - 1]);
                }
            }
            // Multiset bookkeeping at the view level.
            assert(seq_v(rest@) =~= seq_v(old_rest).remove(0));
            assert(seq_v(old_rest)[0] == x@);
            assert(seq_v(old_rest).remove(0).to_multiset() =~= seq_v(old_rest).to_multiset()
                .remove(x@));
            assert(seq_v(out@) =~= seq_v(old_out).insert(pos as int, x@));
            lemma_insert_to_multiset(seq_v(old_out), pos as int, x@);
            assert(seq_v(old_rest).contains(x@)) by {
                assert(seq_v(old_rest)[0] == x@);
            }
            assert(seq_v(old_rest).to_multiset().count(x@) > 0);
            assert forall|y: SignalV|
                seq_v(out@).to_multiset().add(seq_v(rest@).to_multiset()).count(y) == seq_v(
                    orig,
                ).to_multiset().count(y) by {
                assert(seq_v(old_out).to_multiset().add(seq_v(old_rest).to_multiset()).count(y)
                    == seq_v(orig).to_multiset().count(y));
            }
            assert(seq_v(out@).to_multiset().add(seq_v(rest@).to_multiset()) =~= seq_v(
                orig,
            ).to_multiset());
            // A sorted input is rebuilt unchanged.
            if sorted_desc(orig) {
                let n = old_out.len() as int;
                assert(old_out == orig.take(n));
                assert(x == orig[n]);
                assert forall|p: int| 0 <= p < n implies old_out[p].timestamp >= x.timestamp by {
                    assert(orig[p].timestamp >= orig[n].timestamp);
                }
                assert(pos == old_out.len());
                assert(out@ =~= orig.take(n + 1)) by {
                    assert(out@ == old_out.insert(n, x));
                }
                assert(rest@ =~= orig.skip(n + 1)) by {
                    assert(rest@ == old_rest.remove(0));
                    assert(old_rest == orig.skip(n));
                }
            }
        }
    }
    proof {
        assert(seq_v(rest@).to_multiset() =~= Multiset::<SignalV>::empty()) by {
            assert(seq_v(rest@) =~= Seq::<SignalV>::empty());
        }
        assert(seq_v(out@).to_multiset() =~= seq_v(orig).to_multiset());
        if sorted_desc(orig) {
            assert(out@ =~= orig);
        }
    }
    out
}

/// The signals of a group sequence, concatenated in group order.
pub open spec fn flat_groups(gs: Seq<DateGroup>) -> Seq<Signal>
    decreases gs.len(),
{
    if gs.len() == 0 {
        Seq::empty()
    } else {
        flat_groups(gs.drop_last()) + gs.last().signals@
    }
}

/// Appending a group appends its signals.
proof fn lemma_flat_push(gs: Seq<DateGroup>, g: DateGroup)
    ensures
        flat_groups(gs.push(g)) == flat_groups(gs) + g.signals@,
{
    assert(gs.push(g).drop_last() =~= gs);
    assert(gs.push(g).last() == g);
}

/// Partitions a sorted signal list into date groups: every signal lands in
/// the group of its UTC calendar day, the concatenation of the groups is
/// exactly the input (so each signal appears in exactly one group and the
/// global order is preserved), groups are non-empty, their days strictly
/// descend, and each group carries the rendered label of its day.
pub fn group_by_date(v: Vec<Signal>) -> (out: Vec<DateGroup>)
    requires
        sorted_desc(v@),
        forall|k: int| 0 <= k < v@.len() ==> wf_signal(#[trigger] v@[k]@),
    ensures
        flat_groups(out@) == v@,
        forall|g: int| 0 <= g < out@.len() ==> (#[trigger] out@[g]).signals@.len() > 0,
        forall|g: int, k: int|
            0 <= g < out@.len() && 0 <= k < out@[g].signals@.len() ==> day_of(
                (#[trigger] out@[g].signals@[k]).timestamp as int,
            ) == out@[g].day as int,
        forall|g1: int, g2: int| 0 <= g1 < g2 < out@.len() ==> out@[g1].day > out@[g2].day,
        forall|g: int|
            0 <= g < out@.len() ==> (#[trigger] out@[g]).label@ == date_label_of(
                out@[g].day as int,
            ),
{
    let ghost orig = v@;
    let mut rest = v;
    let mut out: Vec<DateGroup> = Vec::new();
    let mut cur: Vec<Signal> = Vec::new();
    let mut cur_day: i64 = 0;
    let mut cur_label = String::new();
    while rest.len() > 0
        invariant
            flat_groups(out@) + cur@ + rest@ == orig,
            sorted_desc(rest@),
            forall|k: int| 0 <= k < rest@.len() ==> wf_signal(#[trigger] rest@[k]@),
            cur@.len() > 0 ==> forall|k: int|
                0 <= k < cur@.len() ==> day_of((#[trigger] cur@[k]).timestamp as int)
                    == cur_day as int,
            cur@.len() > 0 ==> cur_label@ == date_label_of(cur_day as int),
            cur@.len() > 0 ==> forall|k: int|
                0 <= k < rest@.len() ==> day_of((#[trigger] rest@[k]).timestamp as int)
                    <= cur_day as int,
            cur@.len() == 0 ==> out@.len() == 0,
            forall|g: int| 0 <= g < out@.len() ==> (#[trigger] out@[g]).signals@.len() > 0,
            forall|g: int, k: int|
                0 <= g < out@.len() && 0 <= k < out@[g].signals@.len() ==> day_of(
                    (#[trigger] out@[g].signals@[k]).timestamp as int,
                ) == out@[g].day as int,
            forall|g1: int, g2: int| 0 <= g1 < g2 < out@.len() ==> out@[g1].day > out@[g2].day,
            forall|g: int|
                0 <= g < out@.len() ==> (#[trigger] out@[g]).label@ == date_label_of(
                    out@[g].day as int,
                ),
            cur@.len() > 0 ==> forall|g: int| 0 <= g < out@.len() ==> (#[trigger] out@[g]).day
                > cur_day,
        decreases rest@.len(),
    {
        let ghost old_rest = rest@;
        let ghost old_out = out@;
        let ghost old_cur = cur@;
        let x = rest.remove(0);
        assert(x == old_rest[0]);
        assert(wf_signal(x@));
        let d = day_of_ts(x.timestamp);
        proof {
            assert forall|k: int| 0 <= k < rest@.len() implies #[trigger] rest@[k] == old_rest[k
                + 1] by {
                assert(rest@ == old_rest.remove(0));
            }
            assert forall|i: int, j: int|
                0 <= i < j < rest@.len() implies rest@[i].timestamp >= rest@[j].timestamp by {
                assert(rest@[i] == old_rest[i + 1]);
                assert(rest@[j] == old_rest[j + 1]);
            }
            assert forall|k: int| 0 <= k < rest@.len() implies wf_signal(
                (#[trigger] rest@[k])@,
            ) by {
                assert(rest@[k] == old_rest[k + 1]);
            }
            assert forall|k: int|
                0 <= k < rest@.len() implies day_of((#[trigger] rest@[k]).timestamp as int)
                <= d as int by {
                assert(rest@[k] == old_rest[k + 1]);
                assert(old_rest[k + 1].timestamp <= old_rest[0].timestamp);
                lemma_day_monotonic(rest@[k].timestamp as int, x.timestamp as int);
            }
        }
        if cur.len() == 0 {
            cur_day = d;
            cur_label = format_date(x.timestamp);
            cur.push(x);
            proof {
                assert(flat_groups(out@) + cur@ + rest@ =~= orig);
            }
        } else if d == cur_day {
            cur.push(x);
            proof {
                assert(flat_groups(out@) + cur@ + rest@ =~= orig);
            }
        } else {
            assert(day_of(old_rest[0].timestamp as int) <= cur_day as int);
            assert(d < cur_day);
            let g = DateGroup { day: cur_day, label: cur_label, signals: cur };
            out.push(g);
            cur = Vec::new();
            cur_day = d;
            cur_label = format_date(x.timestamp);
            cur.push(x);
            proof {
                assert(out@.last().signals@ == old_cur);
                lemma_flat_push(old_out, out@.last());
                assert(out@ == old_out.push(out@.last()));
                assert(flat_groups(out@) =~= flat_groups(old_out) + old_cur);
                assert(flat_groups(out@) + cur@ + rest@ =~= orig);
            }
        }
    }
    if cur.len() > 0 {
        let ghost old_out = out@;
        let ghost old_cur = cur@;
        let g = DateGroup { day: cur_day, label: cur_label, signals: cur };
        out.push(g);
        proof {
            assert(out@.last().signals@ == old_cur);
            lemma_flat_push(old_out, out@.last());
            assert(out@ == old_out.push(out@.last()));
            assert(flat_groups(out@) =~= flat_groups(old_out) + old_cur);
            assert(flat_groups(out@) =~= orig);
        }
    } else {
        proof {
            assert(flat_groups(out@) =~= orig);
        }
    }
    out
}

/// Sorts the collected signals by timestamp descending and partitions the
/// sorted list into date groups: the groups' concatenation is a
/// permutation of the input holding every signal exactly once, it is
/// ordered by timestamp descending, groups are non-empty with strictly
/// descending, labelled days, and each signal sits in the group of its own
/// calendar day.
pub fn aggregate(signals: Vec<Signal>) -> (out: Vec<DateGroup>)
    requires
        forall|k: int| 0 <= k < signals@.len() ==> wf_signal(#[trigger] signals@[k]@),
    ensures
        seq_v(flat_groups(out@)).to_multiset() == seq_v(signals@).to_multiset(),
        sorted_desc(flat_groups(out@)),
        forall|g: int| 0 <= g < out@.len() ==> (#[trigger] out@[g]).signals@.len() > 0,
        forall|g: int, k: int|
            0 <= g < out@.len() && 0 <= k < out@[g].signals@.len() ==> day_of(
                (#[trigger] out@[g].signals@[k]).timestamp as int,
            ) == out@[g].day as int,
        forall|g1: int, g2: int| 0 <= g1 < g2 < out@.len() ==> out@[g1].day > out@[g2].day,
        forall|g: int|
            0 <= g < out@.len() ==> (#[trigger] out@[g]).label@ == date_label_of(
                out@[g].day as int,
            ),
{
    let ghost sv = signals@;
    let sorted = sort_signals(signals);
    let ghost sortedv = sorted@;
    proof {
        assert forall|k: int| 0 <= k < sortedv.len() implies wf_signal(
            (#[trigger] sortedv[k])@,
        ) by {
            assert(sv.contains(sortedv[k]));
            let idx = choose|idx: int| 0 <= idx < sv.len() && sv[idx] == sortedv[k];
            assert(wf_signal(sv[idx]@));
        }
    }
    let out = group_by_date(sorted);
    proof {
        assert(flat_groups(out@) == sortedv);
    }
    out
}

/// The two artifacts a run can produce: the report's ordered date groups
/// (possibly empty), or the error page of a total fetch failure. The two
/// cases stay distinct: an empty report is never rendered as an error, nor
/// the reverse.
pub enum ReportArtifact {
    Report(Vec<DateGroup>),
    ErrorPage(String),
}

/// The message shown when no review requests could be retrieved at all.
pub open spec fn fetch_error_message() -> Seq<char> {
    "Unable to fetch data from GitHub API. This may be due to rate limiting."@
}

/// Runs the whole pipeline on one fetch snapshot. A total fetch failure
/// (`None`) short-circuits to the error page; otherwise every fetched
/// comment is filtered, classified and aggregated into the report's ordered
/// date groups, empty when nothing matched.
pub fn run(fetched: Option<Vec<RequestThread>>, mode: Mode) -> (r: ReportArtifact)
    requires
        fetched matches Some(ts) ==> forall|i: int|
            0 <= i < ts@.len() ==> wf_thread(#[trigger] ts@[i]@),
    ensures
        fetched is None <==> r is ErrorPage,
        fetched is None ==> (r matches ReportArtifact::ErrorPage(page) && page@
            == error_page_spec(mode, fetch_error_message())),
        fetched matches Some(ts) ==> (r matches ReportArtifact::Report(gs) && {
            let flat = flat_groups(gs@);
            &&& seq_v(flat).to_multiset() == collect_spec(
                ts@.map_values(|t: RequestThread| t@),
                mode,
            ).to_multiset()
            &&& sorted_desc(flat)
            &&& (forall|g: int| 0 <= g < gs@.len() ==> (#[trigger] gs@[g]).signals@.len() > 0)
            &&& (forall|g: int, k: int|
                0 <= g < gs@.len() && 0 <= k < gs@[g].signals@.len() ==> day_of(
                    (#[trigger] gs@[g].signals@[k]).timestamp as int,
                ) == gs@[g].day as int)
            &&& (forall|g1: int, g2: int|
                0 <= g1 < g2 < gs@.len() ==> gs@[g1].day > gs@[g2].day)
            &&& (forall|g: int|
                0 <= g < gs@.len() ==> (#[trigger] gs@[g]).label@ == date_label_of(
                    gs@[g].day as int,
                ))
        }),
{
    match fetched {
        None => {
            let page = generate_error_html(
                "Unable to fetch data from GitHub API. This may be due to rate limiting.",
                mode,
            );
            ReportArtifact::ErrorPage(page)
        },
        Some(threads) => {
            let sigs = collect_signals(&threads, mode);
            let ghost sigsv = sigs@;
            let groups = aggregate(sigs);
            ReportArtifact::Report(groups)
        },
    }
}

} // verus!
