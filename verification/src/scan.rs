//! Verified text scanning: finding characters and substrings, splitting on
//! whitespace and line endings, trimming, and joining — the operations the
//! kernel-table and snapshot-output parsers are built from.

use vstd::prelude::*;

use crate::strutil::chars_vec;

verus! {

// ── Whitespace ──────────────────────────────────────────────────────────────

/// The Unicode `White_Space` characters, as `char::is_whitespace` reports.
pub open spec fn is_ws(c: char) -> bool {
    ||| c == '\u{9}'
    ||| c == '\u{A}'
    ||| c == '\u{B}'
    ||| c == '\u{C}'
    ||| c == '\u{D}'
    ||| c == ' '
    ||| c == '\u{85}'
    ||| c == '\u{A0}'
    ||| c == '\u{1680}'
    ||| ('\u{2000}' <= c && c <= '\u{200A}')
    ||| c == '\u{2028}'
    ||| c == '\u{2029}'
    ||| c == '\u{202F}'
    ||| c == '\u{205F}'
    ||| c == '\u{3000}'
}

/// Whitespace test matching `char::is_whitespace`.
pub fn char_is_ws(c: char) -> (r: bool)
    ensures
        r == is_ws(c),
{
    c == '\u{9}' || c == '\u{A}' || c == '\u{B}' || c == '\u{C}' || c == '\u{D}' || c == ' '
        || c == '\u{85}' || c == '\u{A0}' || c == '\u{1680}' || ('\u{2000}' <= c && c
        <= '\u{200A}') || c == '\u{2028}' || c == '\u{2029}' || c == '\u{202F}' || c == '\u{205F}'
        || c == '\u{3000}'
}

// ── Finding characters ──────────────────────────────────────────────────────

/// Index of the first occurrence of `c` in `s`.
pub open spec fn find_char(s: Seq<char>, c: char) -> Option<int>
    decreases s.len(),
{
    if s.len() == 0 {
        None
    } else if s[0] == c {
        Some(0)
    } else {
        match find_char(s.drop_first(), c) {
            Some(j) => Some(j + 1),
            None => None,
        }
    }
}

/// Index of the last occurrence of `c` in `s`.
pub open spec fn rfind_char(s: Seq<char>, c: char) -> Option<int>
    decreases s.len(),
{
    if s.len() == 0 {
        None
    } else if s.last() == c {
        Some(s.len() - 1)
    } else {
        rfind_char(s.drop_last(), c)
    }
}

pub proof fn lemma_find_char_props(s: Seq<char>, c: char)
    ensures
        match find_char(s, c) {
            Some(i) => 0 <= i < s.len() && s[i] == c && forall|k: int| 0 <= k < i ==> s[k] != c,
            None => forall|k: int| 0 <= k < s.len() ==> s[k] != c,
        },
    decreases s.len(),
{
    if s.len() > 0 && s[0] != c {
        let d = s.drop_first();
        lemma_find_char_props(d, c);
        match find_char(d, c) {
            Some(j) => {
                assert forall|k: int| 0 <= k < j + 1 implies s[k] != c by {
                    if k > 0 {
                        assert(d[k - 1] == s[k]);
                    }
                }
            },
            None => {
                assert forall|k: int| 0 <= k < s.len() implies s[k] != c by {
                    if k > 0 {
                        assert(d[k - 1] == s[k]);
                    }
                }
            },
        }
    }
}

pub proof fn lemma_rfind_char_props(s: Seq<char>, c: char)
    ensures
        match rfind_char(s, c) {
            Some(i) => 0 <= i < s.len() && s[i] == c && forall|k: int| i < k < s.len() ==> s[k]
                != c,
            None => forall|k: int| 0 <= k < s.len() ==> s[k] != c,
        },
    decreases s.len(),
{
    if s.len() > 0 && s.last() != c {
        let d = s.drop_last();
        lemma_rfind_char_props(d, c);
        match rfind_char(d, c) {
            Some(i) => {
                assert forall|k: int| i < k < s.len() implies s[k] != c by {
                    if k < s.len() - 1 {
                        assert(d[k] == s[k]);
                    }
                }
            },
            None => {
                assert forall|k: int| 0 <= k < s.len() implies s[k] != c by {
                    if k < s.len() - 1 {
                        assert(d[k] == s[k]);
                    }
                }
            },
        }
    }
}

/// The first occurrence is pinned by what stands before it.
pub proof fn lemma_find_char_is(s: Seq<char>, c: char, i: int)
    requires
        0 <= i < s.len(),
        s[i] == c,
        forall|k: int| 0 <= k < i ==> s[k] != c,
    ensures
        find_char(s, c) == Some(i),
    decreases s.len(),
{
    if i > 0 {
        lemma_find_char_is(s.drop_first(), c, i - 1);
    }
}

pub proof fn lemma_find_char_none(s: Seq<char>, c: char)
    requires
        forall|k: int| 0 <= k < s.len() ==> s[k] != c,
    ensures
        find_char(s, c) is None,
    decreases s.len(),
{
    if s.len() > 0 {
        lemma_find_char_none(s.drop_first(), c);
    }
}

pub proof fn lemma_rfind_char_is(s: Seq<char>, c: char, i: int)
    requires
        0 <= i < s.len(),
        s[i] == c,
        forall|k: int| i < k < s.len() ==> s[k] != c,
    ensures
        rfind_char(s, c) == Some(i),
    decreases s.len(),
{
    if i < s.len() - 1 {
        lemma_rfind_char_is(s.drop_last(), c, i);
    }
}

pub proof fn lemma_rfind_char_none(s: Seq<char>, c: char)
    requires
        forall|k: int| 0 <= k < s.len() ==> s[k] != c,
    ensures
        rfind_char(s, c) is None,
    decreases s.len(),
{
    if s.len() > 0 {
        lemma_rfind_char_none(s.drop_last(), c);
    }
}

/// Find the first occurrence of `c` in `s`.
pub fn index_of_char(s: &str, c: char) -> (r: Option<usize>)
    ensures
        match r {
            Some(i) => find_char(s@, c) == Some(i as int),
            None => find_char(s@, c) is None,
        },
{
    let cv = chars_vec(s);
    let n = cv.len();
    let mut i: usize = 0;
    while i < n
        invariant
            cv@ == s@,
            i <= n,
            n == s@.len(),
            forall|k: int| 0 <= k < i ==> s@[k] != c,
        decreases n - i,
    {
        if cv[i] == c {
            proof {
                lemma_find_char_is(s@, c, i as int);
            }
            return Some(i);
        }
        i += 1;
    }
    proof {
        lemma_find_char_none(s@, c);
    }
    None
}

/// Find the last occurrence of `c` in `s`.
pub fn rindex_of_char(s: &str, c: char) -> (r: Option<usize>)
    ensures
        match r {
            Some(i) => rfind_char(s@, c) == Some(i as int),
            None => rfind_char(s@, c) is None,
        },
{
    let cv = chars_vec(s);
    let n = cv.len();
    let mut i: usize = n;
    while i > 0
        invariant
            cv@ == s@,
            i <= n,
            n == s@.len(),
            forall|k: int| i <= k < n ==> s@[k] != c,
        decreases i,
    {
        i -= 1;
        if cv[i] == c {
            proof {
                lemma_rfind_char_is(s@, c, i as int);
            }
            return Some(i);
        }
    }
    proof {
        lemma_rfind_char_none(s@, c);
    }
    None
}

// ── Finding substrings ──────────────────────────────────────────────────────

/// Index of the first occurrence of `pat` in `text`.
pub open spec fn find_sub(text: Seq<char>, pat: Seq<char>) -> Option<int>
    decreases text.len(),
{
    if pat.len() > text.len() {
        None
    } else if text.take(pat.len() as int) == pat {
        Some(0)
    } else if text.len() == 0 {
        None
    } else {
        match find_sub(text.drop_first(), pat) {
            Some(j) => Some(j + 1),
            None => None,
        }
    }
}

pub proof fn lemma_find_sub_is(text: Seq<char>, pat: Seq<char>, i: int)
    requires
        0 <= i,
        i + pat.len() <= text.len(),
        text.subrange(i, i + pat.len() as int) == pat,
        forall|k: int|
            0 <= k < i ==> #[trigger] text.subrange(k, k + pat.len() as int) != pat,
    ensures
        find_sub(text, pat) == Some(i),
    decreases text.len(),
{
    assert(text.take(pat.len() as int) =~= text.subrange(0, pat.len() as int));
    if i == 0 {
        assert(text.take(pat.len() as int) == pat);
    } else {
        assert(text.subrange(0, 0 + pat.len() as int) != pat);
        assert(text.subrange(0, pat.len() as int) != pat);
        let t2 = text.drop_first();
        assert forall|k: int|
            0 <= k < i - 1 implies #[trigger] t2.subrange(k, k + pat.len() as int) != pat by {
            assert(t2.subrange(k, k + pat.len() as int) =~= text.subrange(
                k + 1,
                k + 1 + pat.len() as int,
            ));
        }
        assert(t2.subrange(i - 1, i - 1 + pat.len() as int) =~= text.subrange(
            i,
            i + pat.len() as int,
        ));
        lemma_find_sub_is(t2, pat, i - 1);
    }
}

pub proof fn lemma_find_sub_none(text: Seq<char>, pat: Seq<char>)
    requires
        forall|k: int|
            0 <= k && k + pat.len() <= text.len() ==> #[trigger] text.subrange(
                k,
                k + pat.len() as int,
            ) != pat,
    ensures
        find_sub(text, pat) is None,
    decreases text.len(),
{
    if pat.len() <= text.len() {
        assert(text.subrange(0, 0 + pat.len() as int) != pat);
        assert(text.take(pat.len() as int) =~= text.subrange(0, pat.len() as int));
    }
    if pat.len() <= text.len() && text.len() > 0 {
        let t2 = text.drop_first();
        assert forall|k: int|
            0 <= k && k + pat.len() <= t2.len() implies #[trigger] t2.subrange(
            k,
            k + pat.len() as int,
        ) != pat by {
            assert(t2.subrange(k, k + pat.len() as int) =~= text.subrange(
                k + 1,
                k + 1 + pat.len() as int,
            ));
        }
        lemma_find_sub_none(t2, pat);
    }
}

/// A found index is in range and marks a real match.
pub proof fn lemma_find_sub_props(text: Seq<char>, pat: Seq<char>)
    ensures
        find_sub(text, pat) matches Some(i) ==> 0 <= i && i + pat.len() <= text.len()
            && text.subrange(i, i + pat.len() as int) == pat,
    decreases text.len(),
{
    if pat.len() <= text.len() && text.take(pat.len() as int) == pat {
        assert(text.subrange(0, pat.len() as int) =~= text.take(pat.len() as int));
    } else if text.len() > 0 {
        let t2 = text.drop_first();
        lemma_find_sub_props(t2, pat);
        match find_sub(text, pat) {
            Some(i) => {
                assert(t2.subrange(i - 1, i - 1 + pat.len() as int) =~= text.subrange(
                    i,
                    i + pat.len() as int,
                ));
            },
            None => {},
        }
    }
}

/// Find the first occurrence of `pat` in `text`, as `str::find` does.
pub fn index_of_sub(text: &str, pat: &str) -> (r: Option<usize>)
    ensures
        match r {
            Some(i) => find_sub(text@, pat@) == Some(i as int),
            None => find_sub(text@, pat@) is None,
        },
{
    let tc = chars_vec(text);
    let pc = chars_vec(pat);
    if pc.len() > tc.len() {
        proof {
            lemma_find_sub_none(text@, pat@);
        }
        return None;
    }
    let bound = tc.len() - pc.len();
    let mut i: usize = 0;
    loop
        invariant
            tc@ == text@,
            pc@ == pat@,
            pc@.len() <= tc@.len(),
            bound == tc@.len() - pc@.len(),
            i <= bound,
            forall|k: int|
                0 <= k < i ==> #[trigger] text@.subrange(k, k + pat@.len() as int) != pat@,
        decreases bound - i,
    {
        if crate::strutil::match_at(&tc, &pc, i) {
            proof {
                lemma_find_sub_is(text@, pat@, i as int);
            }
            return Some(i);
        }
        if i == bound {
            proof {
                lemma_find_sub_none(text@, pat@);
            }
            return None;
        }
        i += 1;
    }
}

// ── Splitting on whitespace ─────────────────────────────────────────────────

/// Length of the leading run of non-whitespace characters.
pub open spec fn token_len(s: Seq<char>) -> nat
    decreases s.len(),
{
    if s.len() == 0 || is_ws(s[0]) {
        0
    } else {
        1 + token_len(s.drop_first())
    }
}

pub proof fn lemma_token_len_is(s: Seq<char>, k: int)
    requires
        0 <= k <= s.len(),
        forall|m: int| 0 <= m < k ==> !is_ws(s[m]),
        k == s.len() || is_ws(s[k]),
    ensures
        token_len(s) == k,
    decreases k,
{
    if k > 0 {
        lemma_token_len_is(s.drop_first(), k - 1);
    }
}

pub proof fn lemma_token_len_le(s: Seq<char>)
    ensures
        token_len(s) <= s.len(),
    decreases s.len(),
{
    if s.len() > 0 && !is_ws(s[0]) {
        lemma_token_len_le(s.drop_first());
    }
}

/// The whitespace-separated tokens of `s`, as `str::split_whitespace` yields
/// them.
pub open spec fn split_ws(s: Seq<char>) -> Seq<Seq<char>>
    decreases s.len(),
    via split_ws_decreases
{
    if s.len() == 0 {
        Seq::empty()
    } else if is_ws(s[0]) {
        split_ws(s.drop_first())
    } else {
        let tl = token_len(s);
        seq![s.take(tl as int)] + split_ws(s.skip(tl as int))
    }
}

#[via_fn]
proof fn split_ws_decreases(s: Seq<char>) {
    if s.len() > 0 && !is_ws(s[0]) {
        lemma_token_len_le(s);
        assert(token_len(s) >= 1);
    }
}

/// Split a string at whitespace runs, as `str::split_whitespace` does.
pub fn split_whitespace(s: &str) -> (r: Vec<String>)
    ensures
        r.deep_view() == split_ws(s@),
{
    let cv = chars_vec(s);
    let n = cv.len();
    let mut toks: Vec<String> = Vec::new();
    let mut i: usize = 0;
    proof {
        assert(s@.skip(0) =~= s@);
    }
    while i < n
        invariant
            cv@ == s@,
            i <= n,
            n == s@.len(),
            split_ws(s@) == toks.deep_view() + split_ws(s@.skip(i as int)),
        decreases n - i,
    {
        let c = cv[i];
        if char_is_ws(c) {
            proof {
                assert(s@.skip(i as int).drop_first() =~= s@.skip(i + 1));
            }
            i += 1;
        } else {
            // Scan to the end of the token.
            let start = i;
            let mut j = i;
            while j < n
                invariant
                    cv@ == s@,
                    start <= j <= n,
                    n == s@.len(),
                    forall|m: int| start <= m < j ==> !is_ws(s@[m]),
                ensures
                    start <= j <= n,
                    forall|m: int| start <= m < j ==> !is_ws(s@[m]),
                    j == n || is_ws(s@[j as int]),
                decreases n - j,
            {
                if char_is_ws(cv[j]) {
                    break ;
                }
                j += 1;
            }
            let ghost rest = s@.skip(start as int);
            proof {
                assert forall|m: int| 0 <= m < j - start implies !is_ws(rest[m]) by {
                    assert(rest[m] == s@[start + m]);
                }
                if j < n {
                    assert(rest[j - start] == s@[j as int]);
                }
                lemma_token_len_is(rest, j - start);
                assert(rest.take(j - start) =~= s@.subrange(start as int, j as int));
                assert(rest.skip(j - start) =~= s@.skip(j as int));
            }
            let tok_slice = s.substring_char(start, j);
            let tok = String::from_str(tok_slice);
            toks.push(tok);
            proof {
                assert(toks.deep_view() =~= toks.deep_view().drop_last().push(tok@));
                assert(split_ws(s@) =~= toks.deep_view() + split_ws(s@.skip(j as int)));
            }
            i = j;
        }
    }
    proof {
        assert(s@.skip(n as int) =~= Seq::<char>::empty());
        assert(split_ws(s@) =~= toks.deep_view());
    }
    toks
}

// ── Splitting into lines ────────────────────────────────────────────────────

/// Strip one trailing carriage return, as `str::lines` does at a `\r\n`.
pub open spec fn strip_tail_cr(l: Seq<char>) -> Seq<char> {
    if l.len() > 0 && l.last() == '\r' {
        l.drop_last()
    } else {
        l
    }
}

/// The lines of `s`, as `str::lines` yields them: split at `\n`, dropping a
/// `\r` that stands just before it; no extra line after a trailing newline.
pub open spec fn split_lines(s: Seq<char>) -> Seq<Seq<char>>
    decreases s.len(),
    via split_lines_decreases
{
    if s.len() == 0 {
        Seq::empty()
    } else {
        match find_char(s, '\n') {
            Some(i) => seq![strip_tail_cr(s.take(i))] + split_lines(s.skip(i + 1)),
            None => seq![s],
        }
    }
}

#[via_fn]
proof fn split_lines_decreases(s: Seq<char>) {
    if s.len() > 0 {
        lemma_find_char_props(s, '\n');
    }
}

/// Split a string into its lines, as `str::lines` does.
pub fn lines_vec(s: &str) -> (r: Vec<String>)
    ensures
        r.deep_view() == split_lines(s@),
{
    let cv = chars_vec(s);
    let n = cv.len();
    let mut out: Vec<String> = Vec::new();
    let mut i: usize = 0;
    proof {
        assert(s@.skip(0) =~= s@);
    }
    while i < n
        invariant
            cv@ == s@,
            i <= n,
            n == s@.len(),
            split_lines(s@) == out.deep_view() + split_lines(s@.skip(i as int)),
        decreases n - i,
    {
        let start = i;
        let mut j = i;
        while j < n
            invariant
                cv@ == s@,
                start <= j <= n,
                n == s@.len(),
                forall|m: int| start <= m < j ==> s@[m] != '\n',
            ensures
                start <= j <= n,
                forall|m: int| start <= m < j ==> s@[m] != '\n',
                j == n || s@[j as int] == '\n',
            decreases n - j,
        {
            if cv[j] == '\n' {
                break ;
            }
            j += 1;
        }
        let ghost rest = s@.skip(start as int);
        proof {
            assert forall|m: int| 0 <= m < j - start implies rest[m] != '\n' by {
                assert(rest[m] == s@[start + m]);
            }
        }
        // A '\r' just before the '\n' is stripped; a final segment keeps it.
        let line_end = if j < n && j > start && cv[j - 1] == '\r' {
            j - 1
        } else {
            j
        };
        let line_slice = s.substring_char(start, line_end);
        let line = String::from_str(line_slice);
        out.push(line);
        if j < n {
            proof {
                assert(rest[j - start] == s@[j as int]);
                lemma_find_char_is(rest, '\n', j - start);
                assert(rest.take(j - start) =~= s@.subrange(start as int, j as int));
                assert(strip_tail_cr(s@.subrange(start as int, j as int)) =~= s@.subrange(
                    start as int,
                    line_end as int,
                ));
                assert(rest.skip(j - start + 1) =~= s@.skip(j + 1));
                assert(out.deep_view() =~= out.deep_view().drop_last().push(line@));
                assert(split_lines(s@) =~= out.deep_view() + split_lines(s@.skip(j + 1)));
            }
            i = j + 1;
        } else {
            proof {
                lemma_find_char_none(rest, '\n');
                assert(line_end == j);
                assert(rest =~= s@.subrange(start as int, j as int));
                assert(out.deep_view() =~= out.deep_view().drop_last().push(line@));
                assert(s@.skip(n as int) =~= Seq::<char>::empty());
                assert(split_lines(s@) =~= out.deep_view() + split_lines(s@.skip(n as int)));
            }
            i = n;
        }
    }
    proof {
        assert(s@.skip(n as int) =~= Seq::<char>::empty());
        assert(split_lines(s@) =~= out.deep_view());
    }
    out
}

/// The fields of `s` separated by `c`, as `str::split(c)` yields them:
/// empty fields are kept, and an empty string is one empty field.
pub open spec fn split_char(s: Seq<char>, c: char) -> Seq<Seq<char>>
    decreases s.len(),
    via split_char_decreases
{
    match find_char(s, c) {
        Some(i) => seq![s.take(i)] + split_char(s.skip(i + 1), c),
        None => seq![s],
    }
}

#[via_fn]
proof fn split_char_decreases(s: Seq<char>, c: char) {
    lemma_find_char_props(s, c);
}

/// Split a string at every occurrence of `c`, as `str::split(c)` does.
pub fn split_char_vec(s: &str, c: char) -> (r: Vec<String>)
    ensures
        r.deep_view() == split_char(s@, c),
{
    let cv = chars_vec(s);
    let n = cv.len();
    let mut out: Vec<String> = Vec::new();
    let mut i: usize = 0;
    proof {
        assert(s@.skip(0) =~= s@);
    }
    loop
        invariant
            cv@ == s@,
            i <= n,
            n == s@.len(),
            split_char(s@, c) == out.deep_view() + split_char(s@.skip(i as int), c),
        decreases n + 1 - i,
    {
        let start = i;
        let mut j = i;
        while j < n
            invariant
                cv@ == s@,
                start <= j <= n,
                n == s@.len(),
                forall|m: int| start <= m < j ==> s@[m] != c,
            ensures
                start <= j <= n,
                forall|m: int| start <= m < j ==> s@[m] != c,
                j == n || s@[j as int] == c,
            decreases n - j,
        {
            if cv[j] == c {
                break ;
            }
            j += 1;
        }
        let ghost rest = s@.skip(start as int);
        proof {
            assert forall|m: int| 0 <= m < j - start implies rest[m] != c by {
                assert(rest[m] == s@[start + m]);
            }
        }
        let field_slice = s.substring_char(start, j);
        let field = String::from_str(field_slice);
        out.push(field);
        if j < n {
            proof {
                assert(rest[j - start] == s@[j as int]);
                lemma_find_char_is(rest, c, j - start);
                assert(rest.take(j - start) =~= s@.subrange(start as int, j as int));
                assert(rest.skip(j - start + 1) =~= s@.skip(j + 1));
                assert(out.deep_view() =~= out.deep_view().drop_last().push(field@));
                assert(split_char(s@, c) =~= out.deep_view() + split_char(s@.skip(j + 1), c));
            }
            i = j + 1;
        } else {
            proof {
                lemma_find_char_none(rest, c);
                assert(rest =~= s@.subrange(start as int, j as int));
                assert(out.deep_view() =~= out.deep_view().drop_last().push(field@));
                assert(split_char(s@, c) =~= out.deep_view());
            }
            return out;
        }
    }
}

/// What stands after the last occurrence of `c`; the whole string if there
/// is none.
pub open spec fn after_last(s: Seq<char>, c: char) -> Seq<char> {
    match rfind_char(s, c) {
        Some(i) => s.skip(i + 1),
        None => s,
    }
}

/// The part of `s` after its last `c`, as `s.rsplit(c).next()` yields it.
pub fn after_last_str(s: &str, c: char) -> (r: String)
    ensures
        r@ == after_last(s@, c),
{
    let n = s.unicode_len();
    match rindex_of_char(s, c) {
        Some(i) => {
            proof {
                lemma_rfind_char_props(s@, c);
            }
            let tail = s.substring_char(i + 1, n);
            proof {
                assert(tail@ =~= s@.skip(i + 1));
            }
            String::from_str(tail)
        },
        None => String::from_str(s),
    }
}

// ── Trimming ────────────────────────────────────────────────────────────────

/// Length of the leading whitespace run.
pub open spec fn ws_prefix_len(s: Seq<char>) -> nat
    decreases s.len(),
{
    if s.len() > 0 && is_ws(s[0]) {
        1 + ws_prefix_len(s.drop_first())
    } else {
        0
    }
}

/// Length of the trailing whitespace run.
pub open spec fn ws_suffix_len(s: Seq<char>) -> nat
    decreases s.len(),
{
    if s.len() > 0 && is_ws(s.last()) {
        1 + ws_suffix_len(s.drop_last())
    } else {
        0
    }
}

/// What `str::trim` returns.
pub open spec fn trim_spec(s: Seq<char>) -> Seq<char> {
    if ws_prefix_len(s) == s.len() {
        Seq::empty()
    } else {
        s.subrange(ws_prefix_len(s) as int, s.len() - ws_suffix_len(s))
    }
}

proof fn lemma_ws_prefix(s: Seq<char>)
    ensures
        ws_prefix_len(s) <= s.len(),
        forall|k: int| 0 <= k < ws_prefix_len(s) ==> is_ws(s[k]),
        ws_prefix_len(s) < s.len() ==> !is_ws(s[ws_prefix_len(s) as int]),
    decreases s.len(),
{
    if s.len() > 0 && is_ws(s[0]) {
        let d = s.drop_first();
        lemma_ws_prefix(d);
        assert forall|k: int| 0 <= k < ws_prefix_len(s) implies is_ws(s[k]) by {
            if k > 0 {
                assert(d[k - 1] == s[k]);
            }
        }
    }
}

proof fn lemma_ws_suffix(s: Seq<char>)
    ensures
        ws_suffix_len(s) <= s.len(),
        forall|k: int| s.len() - ws_suffix_len(s) <= k < s.len() ==> is_ws(s[k]),
        ws_suffix_len(s) < s.len() ==> !is_ws(s[s.len() - ws_suffix_len(s) - 1]),
    decreases s.len(),
{
    if s.len() > 0 && is_ws(s.last()) {
        let d = s.drop_last();
        lemma_ws_suffix(d);
        assert forall|k: int| s.len() - ws_suffix_len(s) <= k < s.len() implies is_ws(s[k]) by {
            if k < s.len() - 1 {
                assert(d[k] == s[k]);
            }
        }
    }
}

proof fn lemma_ws_prefix_is(s: Seq<char>, k: int)
    requires
        0 <= k <= s.len(),
        forall|m: int| 0 <= m < k ==> is_ws(s[m]),
        k == s.len() || !is_ws(s[k]),
    ensures
        ws_prefix_len(s) == k,
    decreases k,
{
    if k > 0 {
        lemma_ws_prefix_is(s.drop_first(), k - 1);
    }
}

proof fn lemma_ws_suffix_is(s: Seq<char>, k: int)
    requires
        0 <= k <= s.len(),
        forall|m: int| s.len() - k <= m < s.len() ==> is_ws(s[m]),
        k == s.len() || !is_ws(s[s.len() - k - 1]),
    ensures
        ws_suffix_len(s) == k,
    decreases k,
{
    if k > 0 {
        assert(s.drop_last().len() == s.len() - 1);
        lemma_ws_suffix_is(s.drop_last(), k - 1);
    }
}

/// Trim leading and trailing whitespace, as `str::trim` does.
pub fn trim(s: &str) -> (r: String)
    ensures
        r@ == trim_spec(s@),
{
    let cv = chars_vec(s);
    let n = cv.len();
    let mut a: usize = 0;
    while a < n && char_is_ws(cv[a])
        invariant
            cv@ == s@,
            a <= n,
            n == s@.len(),
            forall|m: int| 0 <= m < a ==> is_ws(s@[m]),
        ensures
            a <= n,
            forall|m: int| 0 <= m < a ==> is_ws(s@[m]),
            a == n || !is_ws(s@[a as int]),
        decreases n - a,
    {
        a += 1;
    }
    proof {
        lemma_ws_prefix_is(s@, a as int);
    }
    if a == n {
        let r = String::new();
        proof {
            assert(r@ =~= trim_spec(s@));
        }
        return r;
    }
    let mut b: usize = n;
    while b > a && char_is_ws(cv[b - 1])
        invariant
            cv@ == s@,
            a <= b <= n,
            n == s@.len(),
            a < n,
            !is_ws(s@[a as int]),
            forall|m: int| b <= m < n ==> is_ws(s@[m]),
        ensures
            a <= b <= n,
            forall|m: int| b <= m < n ==> is_ws(s@[m]),
            b == a || !is_ws(s@[b - 1]),
        decreases b,
    {
        b -= 1;
    }
    proof {
        assert(b > a) by {
            if b == a {
                assert(is_ws(s@[a as int]));
            }
        }
        lemma_ws_suffix_is(s@, n - b);
    }
    let sl = s.substring_char(a, b);
    let r = String::from_str(sl);
    proof {
        assert(r@ =~= trim_spec(s@));
    }
    r
}

// ── Joining ─────────────────────────────────────────────────────────────────

/// Tokens joined with single spaces, as `Vec::join(" ")` renders them.
pub open spec fn join_sp(toks: Seq<Seq<char>>) -> Seq<char>
    decreases toks.len(),
{
    if toks.len() == 0 {
        Seq::empty()
    } else if toks.len() == 1 {
        toks[0]
    } else {
        join_sp(toks.drop_last()) + seq![' '] + toks.last()
    }
}

/// Join strings with single spaces.
pub fn join_spaces(toks: &Vec<String>) -> (r: String)
    ensures
        r@ == join_sp(toks.deep_view()),
{
    proof {
        reveal_strlit(" ");
    }
    let mut r = String::new();
    let n = toks.len();
    let mut i: usize = 0;
    while i < n
        invariant
            i <= n,
            n == toks.len(),
            r@ == join_sp(toks.deep_view().take(i as int)),
        decreases n - i,
    {
        if i > 0 {
            r.append(" ");
            proof {
                reveal_strlit(" ");
            }
        }
        r.append(toks[i].as_str());
        proof {
            let t = toks.deep_view().take(i + 1);
            assert(t.drop_last() =~= toks.deep_view().take(i as int));
            assert(t.last() == toks.deep_view()[i as int]);
            if i > 0 {
                assert(r@ =~= join_sp(t));
            } else {
                assert(r@ =~= join_sp(t));
            }
        }
        i += 1;
    }
    proof {
        assert(toks.deep_view().take(n as int) =~= toks.deep_view());
    }
    r
}

} // verus!
