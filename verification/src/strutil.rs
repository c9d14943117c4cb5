//! Character and string helpers shared by the parsers: digit classes,
//! big-endian digit folds, substring and prefix tests, and lowercasing.

use vstd::prelude::*;

verus! {

// ── Digit classes ───────────────────────────────────────────────────────────

pub open spec fn is_dec_digit(c: char) -> bool {
    '0' <= c && c <= '9'
}

pub open spec fn dec_digit_val(c: char) -> nat
    recommends
        is_dec_digit(c),
{
    (c as int - 48) as nat
}

pub open spec fn is_hex_digit(c: char) -> bool {
    ('0' <= c && c <= '9') || ('a' <= c && c <= 'f') || ('A' <= c && c <= 'F')
}

pub open spec fn hex_digit_val(c: char) -> nat
    recommends
        is_hex_digit(c),
{
    if '0' <= c && c <= '9' {
        (c as int - 48) as nat
    } else if 'a' <= c && c <= 'f' {
        (c as int - 87) as nat
    } else {
        (c as int - 55) as nat
    }
}

/// Value of a string of decimal digits, most significant first.
pub open spec fn dec_val(s: Seq<char>) -> nat
    decreases s.len(),
{
    if s.len() == 0 {
        0
    } else {
        dec_val(s.drop_last()) * 10 + dec_digit_val(s.last())
    }
}

/// Value of a string of hexadecimal digits, most significant first.
pub open spec fn hex_val(s: Seq<char>) -> nat
    decreases s.len(),
{
    if s.len() == 0 {
        0
    } else {
        hex_val(s.drop_last()) * 16 + hex_digit_val(s.last())
    }
}

pub open spec fn all_dec_digits(s: Seq<char>) -> bool {
    forall|i: int| 0 <= i < s.len() ==> is_dec_digit(#[trigger] s[i])
}

pub open spec fn all_hex_digits(s: Seq<char>) -> bool {
    forall|i: int| 0 <= i < s.len() ==> is_hex_digit(#[trigger] s[i])
}

/// Digit strings only grow in value as digits are appended.
pub proof fn lemma_dec_val_prefix(s: Seq<char>, t: Seq<char>)
    requires
        s.is_prefix_of(t),
    ensures
        dec_val(s) <= dec_val(t),
    decreases t.len(),
{
    if s.len() < t.len() {
        assert(s.is_prefix_of(t.drop_last()));
        lemma_dec_val_prefix(s, t.drop_last());
    } else {
        assert(s =~= t);
    }
}

/// Hex strings only grow in value as digits are appended.
pub proof fn lemma_hex_val_prefix(s: Seq<char>, t: Seq<char>)
    requires
        s.is_prefix_of(t),
    ensures
        hex_val(s) <= hex_val(t),
    decreases t.len(),
{
    if s.len() < t.len() {
        assert(s.is_prefix_of(t.drop_last()));
        lemma_hex_val_prefix(s, t.drop_last());
    } else {
        assert(s =~= t);
    }
}

// ── Character vectors ───────────────────────────────────────────────────────

/// Collect the characters of a string into a vector for O(1) indexing.
pub fn chars_vec(s: &str) -> (v: Vec<char>)
    ensures
        v@ == s@,
{
    let n = s.unicode_len();
    let mut v: Vec<char> = Vec::new();
    let mut i: usize = 0;
    while i < n
        invariant
            i <= n,
            n == s@.len(),
            v@ == s@.subrange(0, i as int),
        decreases n - i,
    {
        let c = s.get_char(i);
        v.push(c);
        proof {
            assert(v@ =~= s@.subrange(0, i + 1));
        }
        i += 1;
    }
    proof {
        assert(v@ =~= s@);
    }
    v
}

// ── Equality, prefix, suffix, substring ─────────────────────────────────────

/// Character-for-character string equality.
pub fn eq_str(a: &str, b: &str) -> (r: bool)
    ensures
        r == (a@ == b@),
{
    let sa = String::from_str(a);
    let sb = String::from_str(b);
    sa == sb
}

pub fn starts_with_str(s: &str, prefix: &str) -> (r: bool)
    ensures
        r == prefix@.is_prefix_of(s@),
{
    let sl = s.unicode_len();
    let pl = prefix.unicode_len();
    if pl > sl {
        return false;
    }
    let head = s.substring_char(0, pl);
    eq_str(head, prefix)
}

pub fn ends_with_str(s: &str, suffix: &str) -> (r: bool)
    ensures
        r == suffix@.is_suffix_of(s@),
{
    let sl = s.unicode_len();
    let pl = suffix.unicode_len();
    if pl > sl {
        return false;
    }
    let tail = s.substring_char(sl - pl, sl);
    eq_str(tail, suffix)
}

/// `pat` occurs somewhere in `text`.
pub open spec fn str_contains(text: Seq<char>, pat: Seq<char>) -> bool {
    exists|i: int|
        0 <= i && i + pat.len() <= text.len() && #[trigger] text.subrange(
            i,
            i + pat.len() as int,
        ) == pat
}

/// Whether `pat` matches `text` at position `i` (both as char vectors).
pub fn match_at(text: &Vec<char>, pat: &Vec<char>, i: usize) -> (r: bool)
    requires
        i + pat@.len() <= text@.len(),
    ensures
        r == (text@.subrange(i as int, i + pat@.len() as int) == pat@),
{
    let tl = text.len();
    let pl = pat.len();
    let mut j: usize = 0;
    while j < pl
        invariant
            j <= pl,
            pl == pat@.len(),
            tl == text@.len(),
            i + pat@.len() <= text@.len(),
            forall|k: int| 0 <= k < j ==> text@[i + k] == pat@[k],
        decreases pl - j,
    {
        if text[i + j] != pat[j] {
            proof {
                assert(text@.subrange(i as int, i + pat@.len() as int)[j as int] != pat@[j as int]);
            }
            return false;
        }
        j += 1;
    }
    proof {
        assert(text@.subrange(i as int, i + pat@.len() as int) =~= pat@);
    }
    true
}

/// Substring search: does `text` contain `pat`?
pub fn contains_str(text: &str, pat: &str) -> (r: bool)
    ensures
        r == str_contains(text@, pat@),
{
    let tc = chars_vec(text);
    let pc = chars_vec(pat);
    if pc.len() > tc.len() {
        return false;
    }
    let bound = tc.len() - pc.len();
    let mut i: usize = 0;
    loop
        invariant
            tc@ == text@,
            pc@ == pat@,
            pc@.len() <= tc@.len(),
            bound == tc@.len() - pc@.len(),
            i <= bound,
            forall|k: int|
                0 <= k < i ==> #[trigger] text@.subrange(k, k + pat@.len() as int) != pat@,
        decreases bound - i,
    {
        if match_at(&tc, &pc, i) {
            proof {
                assert(text@.subrange(i as int, i + pat@.len() as int) == pat@);
            }
            return true;
        }
        if i == bound {
            proof {
                assert(forall|k: int|
                    0 <= k && k + pat@.len() <= text@.len() ==> #[trigger] text@.subrange(
                        k,
                        k + pat@.len() as int,
                    ) != pat@);
            }
            return false;
        }
        i += 1;
    }
}

// ── Lexicographic order on character sequences ──────────────────────────────

/// Code-point lexicographic order; agrees with Rust's `str` ordering.
pub open spec fn lex_le(a: Seq<char>, b: Seq<char>) -> bool
    decreases a.len(),
{
    if a.len() == 0 {
        true
    } else if b.len() == 0 {
        false
    } else if (a[0] as int) < (b[0] as int) {
        true
    } else if (a[0] as int) > (b[0] as int) {
        false
    } else {
        lex_le(a.drop_first(), b.drop_first())
    }
}

pub proof fn lemma_lex_le_total(a: Seq<char>, b: Seq<char>)
    ensures
        lex_le(a, b) || lex_le(b, a),
    decreases a.len(),
{
    if a.len() > 0 && b.len() > 0 && a[0] == b[0] {
        lemma_lex_le_total(a.drop_first(), b.drop_first());
    }
}

pub proof fn lemma_lex_le_trans(a: Seq<char>, b: Seq<char>, c: Seq<char>)
    requires
        lex_le(a, b),
        lex_le(b, c),
    ensures
        lex_le(a, c),
    decreases a.len(),
{
    if a.len() > 0 && b.len() > 0 && c.len() > 0 && a[0] == b[0] && b[0] == c[0] {
        lemma_lex_le_trans(a.drop_first(), b.drop_first(), c.drop_first());
    }
}

/// Compare two strings in lexicographic (code-point) order.
pub fn str_le(a: &str, b: &str) -> (r: bool)
    ensures
        r == lex_le(a@, b@),
{
    let ac = chars_vec(a);
    let bc = chars_vec(b);
    proof {
        assert(a@.skip(0) =~= a@);
        assert(b@.skip(0) =~= b@);
    }
    let mut i: usize = 0;
    loop
        invariant
            ac@ == a@,
            bc@ == b@,
            i <= ac@.len(),
            i <= bc@.len(),
            lex_le(a@, b@) == lex_le(a@.skip(i as int), b@.skip(i as int)),
        decreases ac@.len() - i,
    {
        if i >= ac.len() {
            proof {
                assert(a@.skip(i as int).len() == 0);
            }
            return true;
        }
        if i >= bc.len() {
            proof {
                assert(a@.skip(i as int).len() > 0);
                assert(b@.skip(i as int).len() == 0);
            }
            return false;
        }
        let x = ac[i];
        let y = bc[i];
        proof {
            assert(a@.skip(i as int)[0] == a@[i as int]);
            assert(b@.skip(i as int)[0] == b@[i as int]);
        }
        if x < y {
            return true;
        }
        if x > y {
            return false;
        }
        proof {
            assert(a@.skip(i as int).drop_first() =~= a@.skip(i + 1));
            assert(b@.skip(i as int).drop_first() =~= b@.skip(i + 1));
            assert(lex_le(a@.skip(i as int), b@.skip(i as int)) == lex_le(
                a@.skip(i + 1),
                b@.skip(i + 1),
            ));
        }
        i += 1;
    }
}

// ── Number parsing ──────────────────────────────────────────────────────────

/// An optional leading `+` sign, as the std integer parsers accept.
pub open spec fn strip_plus(s: Seq<char>) -> Seq<char> {
    if s.len() > 0 && s[0] == '+' {
        s.drop_first()
    } else {
        s
    }
}

/// A decimal numeral no larger than `max`: an optional `+`, then digits.
pub open spec fn valid_dec(s: Seq<char>, max: nat) -> bool {
    let d = strip_plus(s);
    d.len() > 0 && all_dec_digits(d) && dec_val(d) <= max
}

/// A hexadecimal numeral no larger than `max`.
pub open spec fn valid_hex(s: Seq<char>, max: nat) -> bool {
    let d = strip_plus(s);
    d.len() > 0 && all_hex_digits(d) && hex_val(d) <= max
}

fn dec_digit_value(c: char) -> (v: u8)
    requires
        is_dec_digit(c),
    ensures
        v as nat == dec_digit_val(c),
{
    (c as u8) - 48
}

fn hex_digit_value(c: char) -> (v: u8)
    requires
        is_hex_digit(c),
    ensures
        v as nat == hex_digit_val(c),
{
    if '0' <= c && c <= '9' {
        (c as u8) - 48
    } else if 'a' <= c && c <= 'f' {
        (c as u8) - 87
    } else {
        (c as u8) - 55
    }
}

/// Parse a decimal numeral as `u64`, as `str::parse::<u64>` does: an optional
/// leading `+`, then one or more digits, rejecting overflow.
pub fn parse_dec_u64(s: &str) -> (r: Option<u64>)
    ensures
        r is Some <==> valid_dec(s@, u64::MAX as nat),
        r matches Some(v) ==> v as nat == dec_val(strip_plus(s@)),
{
    let cv = chars_vec(s);
    let n = cv.len();
    let start: usize = if n > 0 && cv[0] == '+' {
        1
    } else {
        0
    };
    let ghost d = strip_plus(s@);
    proof {
        assert(d =~= s@.subrange(start as int, n as int));
    }
    if n == start {
        return None;
    }
    let mut acc: u64 = 0;
    let mut i: usize = start;
    while i < n
        invariant
            cv@ == s@,
            start <= i <= n,
            n == s@.len(),
            d == strip_plus(s@),
            d == s@.subrange(start as int, n as int),
            all_dec_digits(s@.subrange(start as int, i as int)),
            acc as nat == dec_val(s@.subrange(start as int, i as int)),
        decreases n - i,
    {
        let c = cv[i];
        let ghost pre = s@.subrange(start as int, i as int);
        let ghost cur = s@.subrange(start as int, i + 1);
        proof {
            assert(cur.drop_last() =~= pre);
            assert(cur.last() == s@[i as int]);
        }
        if !(c >= '0' && c <= '9') {
            proof {
                assert(d[i - start] == s@[i as int]);
                assert(!all_dec_digits(d));
            }
            return None;
        }
        let v = dec_digit_value(c);
        if acc > (u64::MAX - v as u64) / 10 {
            proof {
                assert(dec_val(cur) > u64::MAX) by {
                    assert(dec_val(cur) == dec_val(pre) * 10 + dec_digit_val(s@[i as int]));
                };
                assert(cur.is_prefix_of(d));
                lemma_dec_val_prefix(cur, d);
            }
            return None;
        }
        acc = acc * 10 + v as u64;
        i += 1;
    }
    proof {
        assert(s@.subrange(start as int, n as int) =~= d);
    }
    Some(acc)
}

/// Parse a decimal numeral as `u16`, as `str::parse::<u16>` does.
pub fn parse_dec_u16(s: &str) -> (r: Option<u16>)
    ensures
        r is Some <==> valid_dec(s@, u16::MAX as nat),
        r matches Some(v) ==> v as nat == dec_val(strip_plus(s@)),
{
    match parse_dec_u64(s) {
        Some(v) => if v <= 0xFFFF {
            Some(v as u16)
        } else {
            proof {
                lemma_dec_val_prefix(strip_plus(s@), strip_plus(s@));
            }
            None
        },
        None => None,
    }
}

/// Parse a decimal numeral as `u32`, as `str::parse::<u32>` does.
pub fn parse_dec_u32(s: &str) -> (r: Option<u32>)
    ensures
        r is Some <==> valid_dec(s@, u32::MAX as nat),
        r matches Some(v) ==> v as nat == dec_val(strip_plus(s@)),
{
    match parse_dec_u64(s) {
        Some(v) => if v <= 0xFFFF_FFFF {
            Some(v as u32)
        } else {
            None
        },
        None => None,
    }
}

/// Parse a hexadecimal numeral as `u32`, as `u32::from_str_radix(s, 16)`
/// does: an optional leading `+`, then one or more hex digits of either case,
/// rejecting overflow.
pub fn parse_hex_u32(s: &str) -> (r: Option<u32>)
    ensures
        r is Some <==> valid_hex(s@, u32::MAX as nat),
        r matches Some(v) ==> v as nat == hex_val(strip_plus(s@)),
{
    let cv = chars_vec(s);
    let n = cv.len();
    let start: usize = if n > 0 && cv[0] == '+' {
        1
    } else {
        0
    };
    let ghost d = strip_plus(s@);
    proof {
        assert(d =~= s@.subrange(start as int, n as int));
    }
    if n == start {
        return None;
    }
    let mut acc: u32 = 0;
    let mut i: usize = start;
    while i < n
        invariant
            cv@ == s@,
            start <= i <= n,
            n == s@.len(),
            d == strip_plus(s@),
            d == s@.subrange(start as int, n as int),
            all_hex_digits(s@.subrange(start as int, i as int)),
            acc as nat == hex_val(s@.subrange(start as int, i as int)),
        decreases n - i,
    {
        let c = cv[i];
        let ghost pre = s@.subrange(start as int, i as int);
        let ghost cur = s@.subrange(start as int, i + 1);
        proof {
            assert(cur.drop_last() =~= pre);
            assert(cur.last() == s@[i as int]);
        }
        if !((c >= '0' && c <= '9') || (c >= 'a' && c <= 'f') || (c >= 'A' && c <= 'F')) {
            proof {
                assert(d[i - start] == s@[i as int]);
                assert(!all_hex_digits(d));
            }
            return None;
        }
        let v = hex_digit_value(c);
        if acc > (u32::MAX - v as u32) / 16 {
            proof {
                assert(hex_val(cur) > u32::MAX) by {
                    assert(hex_val(cur) == hex_val(pre) * 16 + hex_digit_val(s@[i as int]));
                };
                assert(cur.is_prefix_of(d));
                lemma_hex_val_prefix(cur, d);
            }
            return None;
        }
        acc = acc * 16 + v as u32;
        i += 1;
    }
    proof {
        assert(s@.subrange(start as int, n as int) =~= d);
    }
    Some(acc)
}

/// Parse a hexadecimal numeral as `u16`, as `u16::from_str_radix(s, 16)` does.
pub fn parse_hex_u16(s: &str) -> (r: Option<u16>)
    ensures
        r is Some <==> valid_hex(s@, u16::MAX as nat),
        r matches Some(v) ==> v as nat == hex_val(strip_plus(s@)),
{
    match parse_hex_u32(s) {
        Some(v) => if v <= 0xFFFF {
            Some(v as u16)
        } else {
            None
        },
        None => None,
    }
}

/// Parse a hexadecimal numeral as `u8`, as `u8::from_str_radix(s, 16)` does.
pub fn parse_hex_u8(s: &str) -> (r: Option<u8>)
    ensures
        r is Some <==> valid_hex(s@, u8::MAX as nat),
        r matches Some(v) ==> v as nat == hex_val(strip_plus(s@)),
{
    match parse_hex_u32(s) {
        Some(v) => if v <= 0xFF {
            Some(v as u8)
        } else {
            None
        },
        None => None,
    }
}

// ── Fixed-width hex numerals ────────────────────────────────────────────────

pub open spec fn pow16(w: nat) -> nat
    decreases w,
{
    if w == 0 {
        1
    } else {
        16 * pow16((w - 1) as nat)
    }
}

/// Uppercase hex digit character for a value below sixteen, as the kernel
/// prints its socket-table tokens.
pub open spec fn hex_digit_upper(d: nat) -> char {
    if d < 10 {
        ((d + 48) as u8) as char
    } else {
        ((d + 55) as u8) as char
    }
}

/// The zero-padded uppercase hex numeral of `n`, `width` digits wide.
pub open spec fn hex_pad(n: nat, width: nat) -> Seq<char>
    decreases width,
{
    if width == 0 {
        Seq::empty()
    } else {
        hex_pad(n / 16, (width - 1) as nat).push(hex_digit_upper(n % 16))
    }
}

/// A fixed-width hex numeral of a value in range decodes back to the value.
pub proof fn lemma_hex_pad_val(n: nat, width: nat)
    requires
        n < pow16(width),
    ensures
        hex_pad(n, width).len() == width,
        all_hex_digits(hex_pad(n, width)),
        hex_val(hex_pad(n, width)) == n,
        strip_plus(hex_pad(n, width)) == hex_pad(n, width),
    decreases width,
{
    let s = hex_pad(n, width);
    if width == 0 {
        assert(n == 0);
    } else {
        assert(n / 16 < pow16((width - 1) as nat)) by (nonlinear_arith)
            requires
                n < pow16(width),
                pow16(width) == 16 * pow16((width - 1) as nat),
        ;
        lemma_hex_pad_val(n / 16, (width - 1) as nat);
        let pre = hex_pad(n / 16, (width - 1) as nat);
        assert(s.drop_last() =~= pre);
        assert(s.last() == hex_digit_upper(n % 16));
        assert(is_hex_digit(s.last()) && hex_digit_val(s.last()) == n % 16);
        assert forall|i: int| 0 <= i < s.len() implies is_hex_digit(#[trigger] s[i]) by {
            if i < s.len() - 1 {
                assert(s[i] == pre[i]);
            }
        }
        assert(hex_val(s) == hex_val(pre) * 16 + (n % 16));
        assert(hex_val(pre) * 16 + n % 16 == n) by (nonlinear_arith)
            requires
                hex_val(pre) == n / 16,
        ;
        if width == 1 {
            assert(s[0] == s.last());
        } else {
            assert(s[0] == pre[0]);
        }
        assert(is_hex_digit(s[0]));
        assert(s[0] != '+');
    }
}

// ── Decimal formatting ──────────────────────────────────────────────────────

/// The decimal numeral of `n`, most significant digit first.
pub open spec fn dec_str(n: nat) -> Seq<char>
    decreases n,
{
    if n < 10 {
        seq![((n + 48) as u8) as char]
    } else {
        dec_str(n / 10).push((((n % 10) + 48) as u8) as char)
    }
}

/// The one-character string for a decimal digit value.
pub fn digit_str(d: u8) -> (r: &'static str)
    requires
        d < 10,
    ensures
        r@ =~= seq![((d + 48) as u8) as char],
{
    proof {
        reveal_strlit("0");
        reveal_strlit("1");
        reveal_strlit("2");
        reveal_strlit("3");
        reveal_strlit("4");
        reveal_strlit("5");
        reveal_strlit("6");
        reveal_strlit("7");
        reveal_strlit("8");
        reveal_strlit("9");
    }
    if d == 0 {
        "0"
    } else if d == 1 {
        "1"
    } else if d == 2 {
        "2"
    } else if d == 3 {
        "3"
    } else if d == 4 {
        "4"
    } else if d == 5 {
        "5"
    } else if d == 6 {
        "6"
    } else if d == 7 {
        "7"
    } else if d == 8 {
        "8"
    } else {
        "9"
    }
}

/// Render `n` in decimal.
pub fn u64_to_string(n: u64) -> (r: String)
    ensures
        r@ == dec_str(n as nat),
    decreases n,
{
    let digit: u8 = (n % 10) as u8;
    let ds = digit_str(digit);
    if n < 10 {
        let s = String::from_str(ds);
        proof {
            assert(s@ =~= dec_str(n as nat));
        }
        s
    } else {
        let s = u64_to_string(n / 10);
        let s = s.concat(ds);
        proof {
            assert(s@ =~= dec_str(n as nat));
        }
        s
    }
}

// ── Lowercasing ─────────────────────────────────────────────────────────────

/// The Unicode lowercase mapping of a string; a function of the characters
/// alone, left abstract here.
pub uninterp spec fn lower_of(s: Seq<char>) -> Seq<char>;

/// Relies on str::to_lowercase: the result depends on the characters alone.
#[verifier::external_body]
pub fn to_lowercase(s: &str) -> (r: String)
    ensures
        r@ == lower_of(s@),
{
    s.to_lowercase()
}

} // verus!
