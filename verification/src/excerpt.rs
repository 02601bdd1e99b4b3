//! Excerpt derivation: a comment body is cut into lines, whole lines are
//! accumulated while they fit the length budget, an ellipsis replaces the
//! first line that does not fit, and the result is trimmed of surrounding
//! whitespace. No line is ever split in the middle.

use vstd::prelude::*;
use crate::text::is_space;
use crate::text::is_space_x;

verus! {

/// Index of the first newline in `s`, or `s.len()` if there is none.
pub open spec fn line_break(s: Seq<char>) -> nat
    decreases s.len(),
{
    if s.len() == 0 {
        0
    } else if s[0] == '\n' {
        0
    } else {
        1 + line_break(s.drop_first())
    }
}

/// The first line of a non-empty body: the text before the first newline,
/// with a trailing carriage return stripped.
pub open spec fn first_line(s: Seq<char>) -> Seq<char> {
    let raw = s.subrange(0, line_break(s) as int);
    if raw.len() > 0 && raw.last() == '\r' {
        raw.drop_last()
    } else {
        raw
    }
}

/// The lines of a body, split on newlines, each with a trailing carriage
/// return stripped; a trailing newline produces no final empty line.
pub open spec fn lines_spec(s: Seq<char>) -> Seq<Seq<char>>
    decreases s.len(),
{
    if s.len() == 0 {
        Seq::empty()
    } else {
        let i = line_break(s);
        if i >= s.len() {
            seq![first_line(s)]
        } else {
            seq![first_line(s)] + lines_spec(s.subrange(i as int + 1, s.len() as int))
        }
    }
}

/// The ellipsis appended when a line is dropped.
pub open spec fn ellipsis() -> Seq<char> {
    seq!['.', '.', '.']
}

/// The untrimmed excerpt: lines are kept, each followed by a newline, while
/// the accumulated length (starting from `acc`) stays within `max`; the
/// first line that would overflow is dropped entirely and replaced by the
/// ellipsis.
pub open spec fn excerpt_pre(lines: Seq<Seq<char>>, max: int, acc: int) -> Seq<char>
    decreases lines.len(),
{
    if lines.len() == 0 {
        Seq::empty()
    } else if acc + lines[0].len() > max {
        ellipsis()
    } else {
        lines[0].push('\n') + excerpt_pre(lines.drop_first(), max, acc + lines[0].len() + 1)
    }
}

/// How many whole lines the excerpt keeps.
pub open spec fn kept_count(lines: Seq<Seq<char>>, max: int, acc: int) -> int
    decreases lines.len(),
{
    if lines.len() == 0 {
        0
    } else if acc + lines[0].len() > max {
        0
    } else {
        1 + kept_count(lines.drop_first(), max, acc + lines[0].len() + 1)
    }
}

/// Concatenation of lines, each followed by a newline.
pub open spec fn join_lines(lines: Seq<Seq<char>>) -> Seq<char>
    decreases lines.len(),
{
    if lines.len() == 0 {
        Seq::empty()
    } else {
        lines[0].push('\n') + join_lines(lines.drop_first())
    }
}

/// Drop leading whitespace.
pub open spec fn trim_ws_front(t: Seq<char>) -> Seq<char>
    decreases t.len(),
{
    if t.len() == 0 {
        t
    } else if !is_space(t[0]) {
        t
    } else {
        trim_ws_front(t.drop_first())
    }
}

/// Drop trailing whitespace.
pub open spec fn trim_ws_back(t: Seq<char>) -> Seq<char>
    decreases t.len(),
{
    if t.len() == 0 {
        t
    } else if !is_space(t.last()) {
        t
    } else {
        trim_ws_back(t.drop_last())
    }
}

/// The derived excerpt of a body under a length budget.
pub open spec fn truncate_spec(s: Seq<char>, max: int) -> Seq<char> {
    trim_ws_back(trim_ws_front(excerpt_pre(lines_spec(s), max, 0)))
}

/// `trim_ws_front` removes exactly the scanned whitespace prefix.
proof fn lemma_trim_ws_front_scan(t: Seq<char>, m: int)
    requires
        0 <= m <= t.len(),
        forall|k: int| 0 <= k < m ==> is_space(#[trigger] t[k]),
        m == t.len() || !is_space(t[m]),
    ensures
        trim_ws_front(t) == t.subrange(m, t.len() as int),
    decreases m,
{
    if m == 0 {
        assert(trim_ws_front(t) =~= t.subrange(0, t.len() as int)) by {
            assert(t =~= t.subrange(0, t.len() as int));
        }
    } else {
        let t2 = t.drop_first();
        lemma_trim_ws_front_scan(t2, m - 1);
        assert(t2.subrange(m - 1, t2.len() as int) =~= t.subrange(m, t.len() as int));
    }
}

/// `trim_ws_back` removes exactly the scanned whitespace suffix.
proof fn lemma_trim_ws_back_scan(t: Seq<char>, m: int)
    requires
        0 <= m <= t.len(),
        forall|k: int| m <= k < t.len() ==> is_space(#[trigger] t[k]),
        m == 0 || !is_space(t[m - 1]),
    ensures
        trim_ws_back(t) == t.subrange(0, m),
    decreases t.len() - m,
{
    if m == t.len() {
        assert(trim_ws_back(t) =~= t.subrange(0, m)) by {
            assert(t =~= t.subrange(0, t.len() as int));
        }
    } else {
        let t2 = t.drop_last();
        lemma_trim_ws_back_scan(t2, m);
        assert(t2.subrange(0, m) =~= t.subrange(0, m));
    }
}

/// Trimming never lengthens the text.
proof fn lemma_trim_ws_front_len(t: Seq<char>)
    ensures
        trim_ws_front(t).len() <= t.len(),
    decreases t.len(),
{
    if t.len() > 0 && is_space(t[0]) {
        lemma_trim_ws_front_len(t.drop_first());
    }
}

/// Trimming never lengthens the text.
proof fn lemma_trim_ws_back_len(t: Seq<char>)
    ensures
        trim_ws_back(t).len() <= t.len(),
    decreases t.len(),
{
    if t.len() > 0 && is_space(t.last()) {
        lemma_trim_ws_back_len(t.drop_last());
    }
}

/// The untrimmed excerpt stays within the budget: at most `max + 1 - acc`
/// characters of kept lines (newlines included) plus the three-character
/// ellipsis.
proof fn lemma_excerpt_pre_len(lines: Seq<Seq<char>>, max: int, acc: int)
    requires
        0 <= acc <= max + 1,
    ensures
        excerpt_pre(lines, max, acc).len() <= max + 1 - acc + 3,
    decreases lines.len(),
{
    if lines.len() == 0 {
    } else if acc + lines[0].len() > max {
    } else {
        lemma_excerpt_pre_len(lines.drop_first(), max, acc + lines[0].len() + 1)
    }
}

/// Law: the excerpt never splits inside a line and never exceeds the budget.
/// The untrimmed excerpt is the concatenation of a whole-line prefix of the
/// body's lines, each with its newline, followed by the ellipsis exactly
/// when a line was dropped; the kept content, accumulated from `acc`, stays
/// within `max + 1` characters.
pub proof fn lemma_excerpt_whole_lines(lines: Seq<Seq<char>>, max: int, acc: int)
    requires
        0 <= acc <= max + 1,
    ensures
        ({
            let k = kept_count(lines, max, acc);
            &&& 0 <= k <= lines.len()
            &&& excerpt_pre(lines, max, acc) == join_lines(lines.take(k)) + (if k
                < lines.len() {
                ellipsis()
            } else {
                Seq::<char>::empty()
            })
            &&& acc + join_lines(lines.take(k)).len() <= max + 1
        }),
    decreases lines.len(),
{
    let k = kept_count(lines, max, acc);
    if lines.len() == 0 {
        assert(lines.take(0) =~= Seq::<Seq<char>>::empty());
        assert(excerpt_pre(lines, max, acc) =~= join_lines(lines.take(k))
            + Seq::<char>::empty());
    } else if acc + lines[0].len() > max {
        assert(k == 0);
        assert(lines.take(0) =~= Seq::<Seq<char>>::empty());
        assert(excerpt_pre(lines, max, acc) =~= join_lines(lines.take(0)) + ellipsis());
    } else {
        let rest = lines.drop_first();
        let acc2 = acc + lines[0].len() + 1;
        lemma_excerpt_whole_lines(rest, max, acc2);
        let k2 = kept_count(rest, max, acc2);
        assert(k == 1 + k2);
        assert(lines.take(k).drop_first() =~= rest.take(k2));
        assert(lines.take(k)[0] == lines[0]);
        assert(join_lines(lines.take(k)) == lines[0].push('\n') + join_lines(rest.take(k2)));
        assert(excerpt_pre(lines, max, acc) =~= join_lines(lines.take(k)) + (if k
            < lines.len() {
            ellipsis()
        } else {
            Seq::<char>::empty()
        }));
    }
}

/// The position scanned for the first newline is the spec `line_break`.
proof fn lemma_line_break_scan(s: Seq<char>, m: int)
    requires
        0 <= m <= s.len(),
        forall|k: int| 0 <= k < m ==> #[trigger] s[k] != '\n',
        m == s.len() || s[m] == '\n',
    ensures
        line_break(s) == m,
    decreases m,
{
    if s.len() == 0 {
    } else if m == 0 {
    } else {
        let s2 = s.drop_first();
        lemma_line_break_scan(s2, m - 1);
    }
}

/// First newline position in `s`, or its length if none.
fn find_newline(s: &str) -> (i: usize)
    ensures
        0 <= i <= s@.len(),
        i == line_break(s@),
        i < s@.len() ==> s@[i as int] == '\n',
{
    let n = s.unicode_len();
    let mut i: usize = 0;
    while i < n
        invariant
            n == s@.len(),
            i <= n,
            forall|k: int| 0 <= k < i ==> #[trigger] s@[k] != '\n',
        decreases n - i,
    {
        if s.get_char(i) == '\n' {
            proof {
                lemma_line_break_scan(s@, i as int);
            }
            return i;
        }
        i += 1;
    }
    proof {
        lemma_line_break_scan(s@, n as int);
    }
    i
}

/// Builds the untrimmed excerpt of `s` under budget `max`, with `acc`
/// characters already accumulated.
fn excerpt_build(s: &str, max: usize, acc: usize) -> (r: String)
    requires
        max < usize::MAX,
        acc <= max + 1,
    ensures
        r@ == excerpt_pre(lines_spec(s@), max as int, acc as int),
    decreases s@.len(),
{
    let n = s.unicode_len();
    if n == 0 {
        assert(lines_spec(s@) =~= Seq::<Seq<char>>::empty());
        return String::new();
    }
    let lb = find_newline(s);
    let line_end = if lb > 0 && s.get_char(lb - 1) == '\r' {
        lb - 1
    } else {
        lb
    };
    let ghost line = first_line(s@);
    proof {
        if lb > 0 {
            assert(s@.subrange(0, lb as int)[lb - 1] == s@[lb - 1]);
            assert(s@.subrange(0, lb as int).last() == s@[lb - 1]);
            assert(s@.subrange(0, lb as int).drop_last() =~= s@.subrange(0, lb - 1));
        }
        assert(line == s@.subrange(0, line_end as int));
    }
    if acc > max || line_end > max - acc {
        // This line no longer fits: it is dropped whole.
        assert(acc + line.len() > max);
        let r = String::from_str("...");
        proof {
            reveal_strlit("...");
            assert(r@ =~= ellipsis());
        }
        return r;
    }
    assert(acc + line.len() <= max);
    let mut r = String::from_str(s.substring_char(0, line_end));
    r.append("\n");
    proof {
        reveal_strlit("\n");
        assert(r@ =~= line.push('\n'));
    }
    if lb == n {
        proof {
            let l2 = lines_spec(s@);
            assert(l2 =~= seq![line]);
            assert(l2.drop_first() =~= Seq::<Seq<char>>::empty());
            assert(excerpt_pre(l2.drop_first(), max as int, acc as int + line.len() + 1)
                =~= Seq::<char>::empty());
            assert(excerpt_pre(l2, max as int, acc as int) =~= line.push('\n') + excerpt_pre(
                l2.drop_first(),
                max as int,
                acc as int + line.len() + 1,
            ));
            assert(line.push('\n') + Seq::<char>::empty() =~= line.push('\n'));
            assert(r@ == excerpt_pre(l2, max as int, acc as int));
        }
        return r;
    }
    let rest = s.substring_char(lb + 1, n);
    let tail = excerpt_build(rest, max, acc + line_end + 1);
    r.append(tail.as_str());
    proof {
        assert(lines_spec(s@) =~= seq![line] + lines_spec(rest@));
        let ls = lines_spec(s@);
        assert(ls[0] == line);
        assert(ls.drop_first() =~= lines_spec(rest@));
        assert(r@ =~= excerpt_pre(ls, max as int, acc as int));
    }
    r
}

/// First non-whitespace position in `s`, or its length if all whitespace.
fn first_nonspace(s: &str) -> (a: usize)
    ensures
        0 <= a <= s@.len(),
        forall|k: int| 0 <= k < a ==> is_space(#[trigger] s@[k]),
        a < s@.len() ==> !is_space(s@[a as int]),
{
    let n = s.unicode_len();
    let mut a: usize = 0;
    while a < n
        invariant
            n == s@.len(),
            a <= n,
            forall|k: int| 0 <= k < a ==> is_space(#[trigger] s@[k]),
        decreases n - a,
    {
        if !is_space_x(s.get_char(a)) {
            return a;
        }
        a += 1;
    }
    a
}

/// One past the last non-whitespace position at or after `a`, where `a`
/// itself is non-whitespace.
fn last_nonspace(s: &str, a: usize) -> (b: usize)
    requires
        a < s@.len(),
        !is_space(s@[a as int]),
    ensures
        a < b <= s@.len(),
        forall|k: int| b <= k < s@.len() ==> is_space(#[trigger] s@[k]),
        !is_space(s@[b - 1]),
{
    let n = s.unicode_len();
    let mut b: usize = n;
    while b > a + 1
        invariant
            n == s@.len(),
            a < b <= n,
            !is_space(s@[a as int]),
            forall|k: int| b <= k < n ==> is_space(#[trigger] s@[k]),
        decreases b,
    {
        if !is_space_x(s.get_char(b - 1)) {
            return b;
        }
        b -= 1;
    }
    b
}

/// Derives the truncated excerpt of a comment body: whole lines are kept
/// while the accumulated length stays within `max_length`, the first line
/// that would overflow is replaced by an ellipsis, and the result is trimmed
/// of surrounding whitespace. The result never holds more than
/// `max_length + 1` accumulated characters ahead of the ellipsis.
pub fn truncate_comment(body: &str, max_length: usize) -> (r: String)
    requires
        max_length < usize::MAX,
    ensures
        r@ == truncate_spec(body@, max_length as int),
        r@.len() <= max_length + 4,
{
    let pre = excerpt_build(body, max_length, 0);
    proof {
        lemma_excerpt_pre_len(lines_spec(body@), max_length as int, 0);
        lemma_trim_ws_front_len(pre@);
        lemma_trim_ws_back_len(trim_ws_front(pre@));
    }
    let p = pre.as_str();
    let n = p.unicode_len();
    let a = first_nonspace(p);
    if a == n {
        proof {
            lemma_trim_ws_front_scan(p@, n as int);
            assert(trim_ws_front(p@) =~= Seq::<char>::empty());
            assert(trim_ws_back(trim_ws_front(p@)) =~= Seq::<char>::empty());
        }
        return String::new();
    }
    let b = last_nonspace(p, a);
    proof {
        lemma_trim_ws_front_scan(p@, a as int);
        let tf = p@.subrange(a as int, p@.len() as int);
        assert forall|k: int| b - a <= k < tf.len() implies is_space(#[trigger] tf[k]) by {
            assert(tf[k] == p@[a + k]);
        }
        assert(tf[b - a - 1] == p@[b - 1]);
        lemma_trim_ws_back_scan(tf, b - a);
        assert(tf.subrange(0, b - a) =~= p@.subrange(a as int, b as int));
        assert(truncate_spec(body@, max_length as int) == p@.subrange(a as int, b as int));
    }
    String::from_str(p.substring_char(a, b))
}

} // verus!
