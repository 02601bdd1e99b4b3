//! Character-level text scanning: ASCII case folding, case-insensitive
//! substring search, and whitespace-delimited token extraction with
//! punctuation trimming.

use vstd::prelude::*;

verus! {

/// ASCII case folding: uppercase letters map to their lowercase form,
/// every other character is unchanged.
pub open spec fn lower_char(c: char) -> char {
    if c == 'A' { 'a' } else if c == 'B' { 'b' } else if c == 'C' { 'c' }
    else if c == 'D' { 'd' } else if c == 'E' { 'e' } else if c == 'F' { 'f' }
    else if c == 'G' { 'g' } else if c == 'H' { 'h' } else if c == 'I' { 'i' }
    else if c == 'J' { 'j' } else if c == 'K' { 'k' } else if c == 'L' { 'l' }
    else if c == 'M' { 'm' } else if c == 'N' { 'n' } else if c == 'O' { 'o' }
    else if c == 'P' { 'p' } else if c == 'Q' { 'q' } else if c == 'R' { 'r' }
    else if c == 'S' { 's' } else if c == 'T' { 't' } else if c == 'U' { 'u' }
    else if c == 'V' { 'v' } else if c == 'W' { 'w' } else if c == 'X' { 'x' }
    else if c == 'Y' { 'y' } else if c == 'Z' { 'z' }
    else { c }
}

/// The whole body, case-folded.
pub open spec fn fold(s: Seq<char>) -> Seq<char> {
    s.map_values(|c: char| lower_char(c))
}

/// ASCII whitespace, the characters `split_whitespace` breaks on within ASCII.
pub open spec fn is_space(c: char) -> bool {
    c == ' ' || c == '\t' || c == '\n' || c == '\r' || c == '\u{b}' || c == '\u{c}'
}

/// ASCII alphanumeric: the characters a token keeps when its surrounding
/// punctuation is stripped.
pub open spec fn is_word_char(c: char) -> bool {
    (48 <= c as u32 && c as u32 <= 57) || (65 <= c as u32 && c as u32 <= 90)
        || (97 <= c as u32 && c as u32 <= 122)
}

/// The lowercase phrase `p` occurs in `s` at position `i`, comparing the
/// folded text of `s` against `p` verbatim.
pub open spec fn phrase_at(s: Seq<char>, p: Seq<char>, i: int) -> bool {
    &&& 0 <= i
    &&& i + p.len() <= s.len()
    &&& forall|j: int| 0 <= j < p.len() ==> lower_char(s[i + j]) == p[j]
}

/// The lowercase phrase `p` occurs somewhere in `s`, case-insensitively.
pub open spec fn contains_phrase(s: Seq<char>, p: Seq<char>) -> bool {
    exists|i: int| phrase_at(s, p, i)
}

/// `s[i..j]` is a maximal whitespace-free run: a token of the
/// whitespace-split of `s`.
pub open spec fn is_token(s: Seq<char>, i: int, j: int) -> bool {
    &&& 0 <= i < j <= s.len()
    &&& (i == 0 || is_space(s[i - 1]))
    &&& (j == s.len() || is_space(s[j]))
    &&& forall|k: int| i <= k < j ==> !is_space(s[k])
}

/// Drop leading characters that are not alphanumeric.
pub open spec fn trim_front(t: Seq<char>) -> Seq<char>
    decreases t.len(),
{
    if t.len() == 0 {
        t
    } else if is_word_char(t[0]) {
        t
    } else {
        trim_front(t.drop_first())
    }
}

/// Drop trailing characters that are not alphanumeric.
pub open spec fn trim_back(t: Seq<char>) -> Seq<char>
    decreases t.len(),
{
    if t.len() == 0 {
        t
    } else if is_word_char(t.last()) {
        t
    } else {
        trim_back(t.drop_last())
    }
}

/// A token with its leading and trailing punctuation stripped.
pub open spec fn clean_token(t: Seq<char>) -> Seq<char> {
    trim_back(trim_front(t))
}

/// Some whitespace-delimited token of `s`, case-folded and stripped of
/// surrounding punctuation, equals the word `w` exactly.
pub open spec fn has_bare_word(s: Seq<char>, w: Seq<char>) -> bool {
    exists|i: int, j: int| is_token(s, i, j) && clean_token(fold(s.subrange(i, j))) == w
}

/// Executable ASCII case folding.
pub fn lower_char_x(c: char) -> (r: char)
    ensures
        r == lower_char(c),
{
    if c == 'A' { 'a' } else if c == 'B' { 'b' } else if c == 'C' { 'c' }
    else if c == 'D' { 'd' } else if c == 'E' { 'e' } else if c == 'F' { 'f' }
    else if c == 'G' { 'g' } else if c == 'H' { 'h' } else if c == 'I' { 'i' }
    else if c == 'J' { 'j' } else if c == 'K' { 'k' } else if c == 'L' { 'l' }
    else if c == 'M' { 'm' } else if c == 'N' { 'n' } else if c == 'O' { 'o' }
    else if c == 'P' { 'p' } else if c == 'Q' { 'q' } else if c == 'R' { 'r' }
    else if c == 'S' { 's' } else if c == 'T' { 't' } else if c == 'U' { 'u' }
    else if c == 'V' { 'v' } else if c == 'W' { 'w' } else if c == 'X' { 'x' }
    else if c == 'Y' { 'y' } else if c == 'Z' { 'z' }
    else { c }
}

/// Executable whitespace test.
pub fn is_space_x(c: char) -> (b: bool)
    ensures
        b == is_space(c),
{
    c == ' ' || c == '\t' || c == '\n' || c == '\r' || c == '\u{b}' || c == '\u{c}'
}

/// Executable alphanumeric test.
pub fn is_word_char_x(c: char) -> (b: bool)
    ensures
        b == is_word_char(c),
{
    let u = c as u32;
    (48 <= u && u <= 57) || (65 <= u && u <= 90) || (97 <= u && u <= 122)
}

/// The folded text of `s` matches `p` verbatim at position `i`.
fn match_at(s: &str, p: &str, i: usize) -> (b: bool)
    requires
        i + p@.len() <= s@.len(),
    ensures
        b == phrase_at(s@, p@, i as int),
{
    let n = s.unicode_len();
    let m = p.unicode_len();
    let mut j: usize = 0;
    while j < m
        invariant
            j <= m,
            m == p@.len(),
            n == s@.len(),
            i + m <= n,
            forall|j2: int| 0 <= j2 < j ==> lower_char(s@[i + j2]) == p@[j2],
        decreases m - j,
    {
        let cs = s.get_char(i + j);
        let cp = p.get_char(j);
        if lower_char_x(cs) != cp {
            assert(!phrase_at(s@, p@, i as int));
            return false;
        }
        j += 1;
    }
    true
}

/// Case-insensitive substring search for the lowercase phrase `p` in `s`.
pub fn find_phrase(s: &str, p: &str) -> (b: bool)
    ensures
        b == contains_phrase(s@, p@),
{
    let n = s.unicode_len();
    let m = p.unicode_len();
    if m > n {
        assert(forall|i: int| !phrase_at(s@, p@, i));
        return false;
    }
    let mut i: usize = 0;
    while i <= n - m
        invariant
            n == s@.len(),
            m == p@.len(),
            m <= n,
            i <= n - m + 1,
            forall|k: int| 0 <= k < i ==> !phrase_at(s@, p@, k),
        decreases n - m + 1 - i,
    {
        if match_at(s, p, i) {
            assert(contains_phrase(s@, p@));
            return true;
        }
        i += 1;
    }
    assert(forall|k: int| phrase_at(s@, p@, k) ==> 0 <= k <= n - m);
    false
}

/// `trim_front` removes exactly the scanned prefix of non-word characters.
proof fn lemma_trim_front_scan(t: Seq<char>, m: int)
    requires
        0 <= m <= t.len(),
        forall|k: int| 0 <= k < m ==> !is_word_char(t[k]),
        m == t.len() || is_word_char(t[m]),
    ensures
        trim_front(t) == t.subrange(m, t.len() as int),
    decreases m,
{
    if m == 0 {
        assert(trim_front(t) =~= t.subrange(0, t.len() as int)) by {
            if t.len() > 0 && !is_word_char(t[0]) {
                assert(false);
            }
            assert(t =~= t.subrange(0, t.len() as int));
        }
    } else {
        assert(!is_word_char(t[0]));
        let t2 = t.drop_first();
        assert(forall|k: int| 0 <= k < m - 1 ==> !is_word_char(t2[k]));
        lemma_trim_front_scan(t2, m - 1);
        assert(t2.subrange(m - 1, t2.len() as int) =~= t.subrange(m, t.len() as int));
    }
}

/// `trim_back` removes exactly the scanned suffix of non-word characters.
proof fn lemma_trim_back_scan(t: Seq<char>, m: int)
    requires
        0 <= m <= t.len(),
        forall|k: int| m <= k < t.len() ==> !is_word_char(t[k]),
        m == 0 || is_word_char(t[m - 1]),
    ensures
        trim_back(t) == t.subrange(0, m),
    decreases t.len() - m,
{
    if m == t.len() {
        assert(trim_back(t) =~= t.subrange(0, m)) by {
            if t.len() > 0 && !is_word_char(t.last()) {
                assert(false);
            }
            assert(t =~= t.subrange(0, t.len() as int));
        }
    } else {
        assert(!is_word_char(t.last()));
        let t2 = t.drop_last();
        lemma_trim_back_scan(t2, m);
        assert(t2.subrange(0, m) =~= t.subrange(0, m));
    }
}

/// The end of the token that starts at `i`: the first whitespace position at
/// or after `i`, or the end of the text.
fn token_end(s: &str, i: usize) -> (j: usize)
    requires
        i < s@.len(),
        !is_space(s@[i as int]),
    ensures
        i < j <= s@.len(),
        forall|k: int| i <= k < j ==> !is_space(s@[k]),
        j == s@.len() || is_space(s@[j as int]),
{
    let n = s.unicode_len();
    let mut j: usize = i;
    while j < n
        invariant
            n == s@.len(),
            i <= j <= n,
            i < n,
            !is_space(s@[i as int]),
            forall|k: int| i <= k < j ==> !is_space(s@[k]),
        decreases n - j,
    {
        if is_space_x(s.get_char(j)) {
            return j;
        }
        j += 1;
    }
    j
}

/// The first alphanumeric position in `s[i..j]` after folding, or `j` if
/// the token holds none.
fn first_word_pos(s: &str, i: usize, j: usize) -> (a: usize)
    requires
        i < j <= s@.len(),
    ensures
        i <= a <= j,
        forall|k: int| i <= k < a ==> !is_word_char(lower_char(#[trigger] s@[k])),
        a < j ==> is_word_char(lower_char(s@[a as int])),
{
    let n = s.unicode_len();
    let mut a: usize = i;
    while a < j
        invariant
            n == s@.len(),
            i <= a <= j <= n,
            forall|k: int| i <= k < a ==> !is_word_char(lower_char(#[trigger] s@[k])),
        decreases j - a,
    {
        if is_word_char_x(lower_char_x(s.get_char(a))) {
            return a;
        }
        a += 1;
    }
    a
}

/// One past the last alphanumeric position in `s[i..j]` after folding, given
/// that position `a` is alphanumeric.
fn last_word_pos(s: &str, a: usize, j: usize) -> (b: usize)
    requires
        a < j <= s@.len(),
        is_word_char(lower_char(s@[a as int])),
    ensures
        a < b <= j,
        forall|k: int| b <= k < j ==> !is_word_char(lower_char(#[trigger] s@[k])),
        is_word_char(lower_char(s@[b - 1])),
{
    let n = s.unicode_len();
    let mut b: usize = j;
    while b > a + 1
        invariant
            n == s@.len(),
            a < b <= j <= n,
            is_word_char(lower_char(s@[a as int])),
            forall|k: int| b <= k < j ==> !is_word_char(lower_char(#[trigger] s@[k])),
        decreases b,
    {
        if is_word_char_x(lower_char_x(s.get_char(b - 1))) {
            return b;
        }
        b -= 1;
    }
    b
}

/// Whether the token `s[i..j]`, folded and stripped of surrounding
/// punctuation, equals the word `w` exactly.
fn token_matches(s: &str, i: usize, j: usize, w: &str) -> (b: bool)
    requires
        i < j <= s@.len(),
    ensures
        b == (clean_token(fold(s@.subrange(i as int, j as int))) == w@),
{
    let ghost ft = fold(s@.subrange(i as int, j as int));
    let wn = w.unicode_len();
    let n = s.unicode_len();
    let a = first_word_pos(s, i, j);
    if a == j {
        // Nothing but punctuation: the cleaned token is empty.
        proof {
            assert forall|k: int| 0 <= k < ft.len() implies !is_word_char(#[trigger] ft[k]) by {
                assert(ft[k] == lower_char(s@[i + k]));
            }
            lemma_trim_front_scan(ft, ft.len() as int);
            assert(trim_front(ft) =~= Seq::<char>::empty());
            assert(clean_token(ft) =~= Seq::<char>::empty());
            if w@.len() == 0 {
                assert(clean_token(ft) =~= w@);
            }
        }
        return wn == 0;
    }
    assert(ft[a - i] == lower_char(s@[a as int]));
    assert(is_word_char(ft[a - i]));
    let b = last_word_pos(s, a, j);
    proof {
        assert forall|k: int| 0 <= k < a - i implies !is_word_char(#[trigger] ft[k]) by {
            assert(ft[k] == lower_char(s@[i + k]));
        }
        lemma_trim_front_scan(ft, a - i);
        let tf = ft.subrange(a - i, ft.len() as int);
        assert(trim_front(ft) == tf);
        assert forall|k: int| b - a <= k < tf.len() implies !is_word_char(#[trigger] tf[k]) by {
            assert(tf[k] == ft[a - i + k]);
            assert(ft[a - i + k] == lower_char(s@[a + k]));
        }
        assert(tf[b - a - 1] == ft[b - i - 1]);
        assert(ft[b - i - 1] == lower_char(s@[b - 1]));
        assert(is_word_char(tf[b - a - 1]));
        lemma_trim_back_scan(tf, b - a);
        assert(clean_token(ft) == tf.subrange(0, b - a));
        assert(tf.subrange(0, b - a) =~= ft.subrange(a - i, b - i));
    }
    let len = b - a;
    if len != wn {
        assert(clean_token(ft).len() != w@.len());
        return false;
    }
    let mut k: usize = 0;
    while k < len
        invariant
            n == s@.len(),
            i <= a < b <= j <= n,
            len == b - a,
            len == w@.len(),
            k <= len,
            ft == fold(s@.subrange(i as int, j as int)),
            clean_token(ft) == ft.subrange(a - i, b - i),
            forall|k2: int| 0 <= k2 < k ==> clean_token(ft)[k2] == w@[k2],
        decreases len - k,
    {
        let cs = lower_char_x(s.get_char(a + k));
        let cw = w.get_char(k);
        assert(clean_token(ft)[k as int] == ft[a - i + k]);
        assert(ft[a - i + k] == lower_char(s@[a + k]));
        if cs != cw {
            assert(clean_token(ft)[k as int] != w@[k as int]);
            return false;
        }
        k += 1;
    }
    assert(clean_token(ft) =~= w@);
    true
}

/// Whether some whitespace-delimited token of `s`, after folding and
/// punctuation stripping, equals the lowercase word `w` exactly.
pub fn find_bare_word(s: &str, w: &str) -> (b: bool)
    ensures
        b == has_bare_word(s@, w@),
{
    let n = s.unicode_len();
    let mut i: usize = 0;
    while i < n
        invariant
            n == s@.len(),
            i <= n,
            i == 0 || i == n || is_space(s@[i - 1]),
            forall|a: int, b2: int|
                is_token(s@, a, b2) && b2 <= i ==> clean_token(
                    fold(s@.subrange(a, b2)),
                ) != w@,
        decreases n - i,
    {
        let c = s.get_char(i);
        if is_space_x(c) {
            assert(forall|a: int, b2: int|
                is_token(s@, a, b2) && b2 <= i + 1 ==> b2 <= i) by {
                assert(forall|a: int, b2: int|
                    is_token(s@, a, b2) && b2 == i + 1 ==> !is_space(s@[i as int]));
            }
            i += 1;
        } else {
            let j = token_end(s, i);
            assert(is_token(s@, i as int, j as int));
            if token_matches(s, i, j, w) {
                assert(has_bare_word(s@, w@));
                return true;
            }
            // The only token ending in (i, j] is the one just examined.
            proof {
                assert forall|a: int, b2: int|
                    is_token(s@, a, b2) && i < b2 <= j implies a == i && b2 == j by {
                    if b2 < j {
                        assert(!is_space(s@[b2]));
                    }
                    if a < i {
                        assert(i == 0 || is_space(s@[i - 1]));
                        if i > 0 {
                            assert(a <= i - 1 < b2);
                        }
                    }
                    if a > i {
                        assert(is_space(s@[a - 1]));
                    }
                }
            }
            if j < n {
                assert(is_space(s@[j as int]));
                assert(forall|a: int, b2: int|
                    is_token(s@, a, b2) && b2 == j + 1 ==> !is_space(s@[j as int]));
                i = j + 1;
            } else {
                i = j;
            }
        }
    }
    assert(forall|a: int, b2: int| is_token(s@, a, b2) ==> b2 <= n);
    false
}

} // verus!
