use crate::interp::str_eq;
use crate::outside::parse_float_bits;
use crate::val::{
    dict_from_pairs, spec_dict_insert, spec_dict_of_pairs, DictEditAction, ListEditAction, Val,
};
use vstd::prelude::*;

verus! {

/// A decimal digit.
pub open spec fn is_digit(c: char) -> bool {
    ('0' as u32) <= (c as u32) && (c as u32) <= ('9' as u32)
}

/// The value of one decimal digit.
pub open spec fn digit_val(c: char) -> int {
    c as u32 - '0' as u32
}

pub open spec fn all_digits(s: Seq<char>) -> bool {
    forall|i: int| 0 <= i < s.len() ==> is_digit(#[trigger] s[i])
}

/// The number a digit string denotes.
pub open spec fn digits_value(s: Seq<char>) -> int
    decreases s.len(),
{
    if s.len() == 0 {
        0
    } else {
        digits_value(s.drop_last()) * 10 + digit_val(s.last())
    }
}

/// What an optionally signed decimal integer text denotes, or nothing
/// where the text is not such an integer.
pub open spec fn int_text_value(s: Seq<char>) -> Option<int> {
    let neg = s.len() > 0 && s[0] == '-';
    let d = if s.len() > 0 && (s[0] == '-' || s[0] == '+') {
        s.drop_first()
    } else {
        s
    };
    if d.len() > 0 && all_digits(d) {
        Some(
            if neg {
                -digits_value(d)
            } else {
                digits_value(d)
            },
        )
    } else {
        None
    }
}

proof fn lemma_digits_value_nonneg(s: Seq<char>)
    requires
        all_digits(s),
    ensures
        digits_value(s) >= 0,
    decreases s.len(),
{
    if s.len() > 0 {
        assert(forall|i: int| 0 <= i < s.len() - 1 ==> s.drop_last()[i] == s[i]);
        lemma_digits_value_nonneg(s.drop_last());
    }
}

/// A digit string denotes at least as much as any of its prefixes.
proof fn lemma_digits_value_prefix_le(s: Seq<char>, n: int)
    requires
        0 <= n <= s.len(),
        all_digits(s),
    ensures
        0 <= digits_value(s.take(n)) <= digits_value(s),
    decreases s.len() - n,
{
    assert(forall|i: int| 0 <= i < n ==> s.take(n)[i] == s[i]);
    lemma_digits_value_nonneg(s.take(n));
    if n == s.len() {
        assert(s.take(n) =~= s);
    } else {
        lemma_digits_value_prefix_le(s, n + 1);
        assert(s.take(n + 1).drop_last() =~= s.take(n));
        assert(is_digit(s.take(n + 1).last()));
        lemma_digits_value_nonneg(s.take(n));
    }
}

/// Parses an optionally signed decimal integer; magnitudes outside the
/// 64-bit signed range are rejected.
#[verifier::loop_isolation(false)]
pub fn parse_i64(s: &str) -> (r: Option<i64>)
    ensures
        match r {
            Some(n) => int_text_value(s@) == Some(n as int),
            None => int_text_value(s@) is None || !(i64::MIN <= int_text_value(s@)->Some_0
                <= i64::MAX),
        },
{
    let len = s.unicode_len();
    let mut start: usize = 0;
    let mut neg = false;
    if len > 0 {
        let c0 = s.get_char(0);
        if c0 == '-' {
            neg = true;
            start = 1;
        } else if c0 == '+' {
            start = 1;
        }
    }
    let ghost d = if start == 1 {
        s@.drop_first()
    } else {
        s@
    };
    if start == len {
        return None;
    }
    let mut acc: i64 = 0;
    let mut i = start;
    while i < len
        invariant
            start <= i <= len,
            start <= 1,
            len == s@.len(),
            d.len() == len - start,
            forall|k: int| 0 <= k < d.len() ==> d[k] == s@[k + start],
            all_digits(d.take(i - start)),
            acc <= 0,
            acc as int == -digits_value(d.take(i - start)),
        decreases len - i,
    {
        let c = s.get_char(i);
        let u = c as u32;
        if !(u >= '0' as u32 && u <= '9' as u32) {
            proof {
                assert(d[i - start] == s@[i as int]);
                assert(!is_digit(d[i - start]));
            }
            return None;
        }
        let dv = (u - '0' as u32) as i64;
        let wide: i128 = (acc as i128) * 10 - (dv as i128);
        proof {
            assert(d.take(i + 1 - start).drop_last() =~= d.take(i - start));
            assert(d.take(i + 1 - start).last() == d[i - start]);
            assert(d[i - start] == s@[i as int]);
        }
        if wide < i64::MIN as i128 {
            proof {
                if int_text_value(s@) is Some {
                    assert(all_digits(d));
                    lemma_digits_value_prefix_le(d, i + 1 - start);
                    assert(digits_value(d) >= digits_value(d.take(i + 1 - start)));
                }
            }
            return None;
        }
        acc = wide as i64;
        i = i + 1;
    }
    proof {
        assert(d.take(len - start) =~= d);
    }
    if neg {
        Some(acc)
    } else {
        if acc == i64::MIN {
            return None;
        }
        Some(-acc)
    }
}

/// Whether the text is exactly the keyword for a boolean.
pub fn parse_bool_text(s: &str) -> (r: Option<bool>)
    ensures
        r == Some(true) <==> s@ == "true"@,
        r == Some(false) <==> s@ == "false"@,
{
    proof {
        reveal_strlit("true");
        reveal_strlit("false");
        assert("true"@.len() == 4);
        assert("false"@.len() == 5);
        assert("true"@ != "false"@);
    }
    if str_eq(s, "true") {
        Some(true)
    } else if str_eq(s, "false") {
        Some(false)
    } else {
        None
    }
}

/// Whitespace skipped between tokens of an encoded value.
pub open spec fn is_space(c: char) -> bool {
    c == ' ' || c == '\t' || c == '\n' || c == '\r'
}

fn is_space_exec(c: char) -> (r: bool)
    ensures
        r == is_space(c),
{
    c == ' ' || c == '\t' || c == '\n' || c == '\r'
}

/// The first position at or after `j` holding a non-space (or the end).
pub open spec fn space_run_end(s: Seq<char>, j: int) -> int
    decreases s.len() - j,
{
    if j < 0 || j >= s.len() {
        j
    } else if is_space(s[j]) {
        space_run_end(s, j + 1)
    } else {
        j
    }
}

pub proof fn lemma_space_run_end_bounds(s: Seq<char>, j: int)
    requires
        0 <= j <= s.len(),
    ensures
        j <= space_run_end(s, j) <= s.len(),
    decreases s.len() - j,
{
    if j < s.len() && is_space(s[j]) {
        lemma_space_run_end_bounds(s, j + 1);
    }
}

/// The position of the trimmed text's end, scanning spaces down from `e`
/// but not below `lo`.
pub open spec fn trim_end_from(s: Seq<char>, e: int, lo: int) -> int
    decreases e,
{
    if e > lo && e - 1 < s.len() && e >= 1 && is_space(s[e - 1]) {
        trim_end_from(s, e - 1, lo)
    } else {
        e
    }
}

/// The text with the surrounding whitespace removed.
pub open spec fn spec_trim(s: Seq<char>) -> Seq<char> {
    let start = space_run_end(s, 0);
    s.subrange(start, trim_end_from(s, s.len() as int, start))
}

#[verifier::loop_isolation(false)]
fn skip_ws(s: &str, i: usize) -> (j: usize)
    requires
        i <= s@.len(),
    ensures
        i <= j <= s@.len(),
        j as int == space_run_end(s@, i as int),
{
    let len = s.unicode_len();
    let mut j = i;
    while j < len
        invariant
            i <= j <= len,
            space_run_end(s@, i as int) == space_run_end(s@, j as int),
        decreases len - j,
    {
        if !is_space_exec(s.get_char(j)) {
            return j;
        }
        j = j + 1;
    }
    j
}

/// The slice of `s` between two character positions, as an owned string.
fn slice_owned(s: &str, from: usize, to: usize) -> (r: String)
    requires
        from <= to <= s@.len(),
    ensures
        r@ == s@.subrange(from as int, to as int),
{
    s.substring_char(from, to).to_owned()
}

/// One character of a numeric token.
pub open spec fn spec_is_number_char(c: char) -> bool {
    is_digit(c) || c == '+' || c == '-' || c == '.' || c == 'e' || c == 'E'
}

fn is_number_char(c: char) -> (r: bool)
    ensures
        r == spec_is_number_char(c),
{
    let u = c as u32;
    (u >= '0' as u32 && u <= '9' as u32) || c == '+' || c == '-' || c == '.' || c == 'e' || c
        == 'E'
}

/// The first position at or after `j` that does not hold a numeric token
/// character (or the end).
pub open spec fn number_run_end(s: Seq<char>, j: int) -> int
    decreases s.len() - j,
{
    if j < 0 || j >= s.len() {
        j
    } else if spec_is_number_char(s[j]) {
        number_run_end(s, j + 1)
    } else {
        j
    }
}

pub proof fn lemma_number_run_end_bounds(s: Seq<char>, j: int)
    requires
        0 <= j <= s.len(),
    ensures
        j <= number_run_end(s, j) <= s.len(),
    decreases s.len() - j,
{
    if j < s.len() && spec_is_number_char(s[j]) {
        lemma_number_run_end_bounds(s, j + 1);
    }
}

/// A whitespace run stops at the end or at a non-space character, so
/// skipping whitespace twice is the same as skipping it once.
pub proof fn lemma_space_run_end_stops(s: Seq<char>, j: int)
    requires
        0 <= j <= s.len(),
    ensures
        space_run_end(s, j) == s.len() || !is_space(s[space_run_end(s, j)]),
        space_run_end(s, space_run_end(s, j)) == space_run_end(s, j),
    decreases s.len() - j,
{
    lemma_space_run_end_bounds(s, j);
    if j < s.len() && is_space(s[j]) {
        lemma_space_run_end_stops(s, j + 1);
    }
}

/// The first position at or after `j` holding the closing quote or a
/// backslash (or the end).
pub open spec fn plain_quote_end(b: Seq<char>, q: char, j: int) -> int
    decreases b.len() - j,
{
    if j < 0 || j >= b.len() {
        j
    } else if b[j] == q || b[j] == '\\' {
        j
    } else {
        plain_quote_end(b, q, j + 1)
    }
}

pub proof fn lemma_plain_quote_end_bounds(b: Seq<char>, q: char, j: int)
    requires
        0 <= j <= b.len(),
    ensures
        j <= plain_quote_end(b, q, j) <= b.len(),
    decreases b.len() - j,
{
    if j < b.len() && !(b[j] == q || b[j] == '\\') {
        lemma_plain_quote_end_bounds(b, q, j + 1);
    }
}

/// An integer text holds no point or exponent character.
pub proof fn lemma_int_text_not_float(t: Seq<char>)
    requires
        int_text_value(t) is Some,
    ensures
        !looks_float_spec(t),
{
    let d = if t.len() > 0 && (t[0] == '-' || t[0] == '+') {
        t.drop_first()
    } else {
        t
    };
    assert forall|i: int| 0 <= i < t.len() implies !((t[i] == '.' || t[i] == 'e') || t[i]
        == 'E') by {
        if t.len() > 0 && (t[0] == '-' || t[0] == '+') {
            if i > 0 {
                assert(t[i] == d[i - 1]);
                assert(is_digit(d[i - 1]));
            }
        } else {
            assert(is_digit(d[i]));
        }
    }
}

/// The in-range integer elements of a bracketed list literal, read from
/// position `i` (just inside the bracket): each element is an optionally
/// signed decimal run, elements are comma-separated with optional
/// whitespace and an optional trailing comma; the second component is the
/// position just past the closing bracket.  Lists holding anything else
/// are not described here.
pub open spec fn int_elems(b: Seq<char>, i: int) -> Option<(Seq<int>, int)>
    decreases b.len() - i,
    when 0 <= i <= b.len()
    via int_elems_decreases
{
    let j = space_run_end(b, i);
    if j >= b.len() {
        None
    } else if b[j] == ']' {
        Some((Seq::empty(), j + 1))
    } else {
        let e = number_run_end(b, j);
        if e == j {
            None
        } else {
            let tok = b.subrange(j, e);
            if int_text_value(tok) is Some && i64::MIN <= int_text_value(tok)->Some_0
                <= i64::MAX {
                let n = int_text_value(tok)->Some_0;
                let k = space_run_end(b, e);
                if k < b.len() && b[k] == ',' {
                    match int_elems(b, k + 1) {
                        None => None,
                        Some(rest) => Some((seq![n] + rest.0, rest.1)),
                    }
                } else if k < b.len() && b[k] == ']' {
                    Some((seq![n], k + 1))
                } else {
                    None
                }
            } else {
                None
            }
        }
    }
}

#[via_fn]
proof fn int_elems_decreases(b: Seq<char>, i: int) {
    lemma_space_run_end_bounds(b, i);
    let j = space_run_end(b, i);
    if j < b.len() && b[j] != ']' {
        lemma_number_run_end_bounds(b, j);
        let e = number_run_end(b, j);
        if e > j {
            lemma_space_run_end_bounds(b, e);
        }
    }
}

/// Whether the token holds a point or exponent character, which sends it
/// down the float route.
pub open spec fn looks_float_spec(s: Seq<char>) -> bool {
    exists|i: int| 0 <= i < s.len() && ((s[i] == '.' || s[i] == 'e') || s[i] == 'E')
}

#[verifier::loop_isolation(false)]
fn looks_float(s: &str) -> (r: bool)
    ensures
        r == looks_float_spec(s@),
{
    let len = s.unicode_len();
    let mut i: usize = 0;
    while i < len
        invariant
            i <= len,
            forall|k: int| 0 <= k < i ==> !((s@[k] == '.' || s@[k] == 'e') || s@[k] == 'E'),
        decreases len - i,
    {
        let c = s.get_char(i);
        if c == '.' || c == 'e' || c == 'E' {
            return true;
        }
        i = i + 1;
    }
    false
}

/// A numeric token in strict JSON shape: the leading plus sign dropped and
/// a zero digit beside a bare leading or trailing point.
pub open spec fn spec_norm_float(t: Seq<char>) -> Seq<char> {
    let i: int = if t.len() > 0 && (t[0] == '+' || t[0] == '-') {
        1
    } else {
        0
    };
    let sign = if t.len() > 0 && t[0] == '-' {
        "-"@
    } else {
        Seq::<char>::empty()
    };
    let lead = if i < t.len() && t[i] == '.' {
        "0"@
    } else {
        Seq::<char>::empty()
    };
    let tail = if t.len() > 0 && t.last() == '.' {
        "0"@
    } else {
        Seq::<char>::empty()
    };
    sign + lead + t.skip(i) + tail
}

/// Rewrites a numeric token into strict JSON shape: drops a leading plus
/// sign and puts a zero digit beside a bare leading or trailing point.
#[verifier::loop_isolation(false)]
fn normalize_float_text(s: &str) -> (r: String)
    ensures
        r@ == spec_norm_float(s@),
{
    let len = s.unicode_len();
    let mut out = String::new();
    let mut i: usize = 0;
    if len > 0 && s.get_char(0) == '+' {
        i = 1;
    } else if len > 0 && s.get_char(0) == '-' {
        out.append("-");
        i = 1;
    }
    if i < len && s.get_char(i) == '.' {
        out.append("0");
    }
    let body = slice_owned(s, i, len);
    let mut out2 = out.concat(body.as_str());
    if len > 0 && s.get_char(len - 1) == '.' {
        out2 = out2.concat("0");
    }
    proof {
        assert(s@.subrange(i as int, len as int) =~= s@.skip(i as int));
        assert(out2@ =~= spec_norm_float(s@));
    }
    out2
}

/// Parses a numeric token into an integer or a float value.  A plain
/// in-range integer text yields exactly that integer; any other token goes
/// down the float route, succeeding exactly when its normalized text is a
/// strict JSON number and yielding that number's bit pattern.
fn parse_number_token(tok: &str) -> (r: Result<Val, String>)
    ensures
        !looks_float_spec(tok@) && int_text_value(tok@) is Some && i64::MIN <= int_text_value(
            tok@,
        )->Some_0 <= i64::MAX ==> r == Ok::<Val, String>(
            Val::Int(int_text_value(tok@)->Some_0 as i64),
        ),
        looks_float_spec(tok@) || int_text_value(tok@) is None || !(i64::MIN <= int_text_value(
            tok@,
        )->Some_0 <= i64::MAX) ==> ((r is Ok) == (crate::outside::float_bits_of(
            spec_norm_float(tok@),
        ) is Some) && (r matches Ok(v) ==> v == Val::Float(
            crate::outside::float_bits_of(spec_norm_float(tok@))->Some_0,
        ))),
{
    if !looks_float(tok) {
        match parse_i64(tok) {
            Some(n) => {
                return Ok(Val::Int(n));
            },
            None => {
            },
        }
    }
    let norm = normalize_float_text(tok);
    match parse_float_bits(norm.as_str()) {
        Some(bits) => Ok(Val::Float(bits)),
        None => Err(String::from_str("Invalid number literal: ").concat(tok)),
    }
}

/// How far a run of numeric token characters extends from `i`.
#[verifier::loop_isolation(false)]
fn number_token_end(s: &str, i: usize) -> (e: usize)
    requires
        i <= s@.len(),
    ensures
        i <= e <= s@.len(),
        e as int == number_run_end(s@, i as int),
{
    let len = s.unicode_len();
    let mut e = i;
    while e < len
        invariant
            i <= e <= len,
            number_run_end(s@, i as int) == number_run_end(s@, e as int),
        decreases len - e,
    {
        if !is_number_char(s.get_char(e)) {
            return e;
        }
        e = e + 1;
    }
    e
}

/// Reads a quoted string starting at the quote character `s[i]`, handling
/// the usual backslash escapes; gives the text and the position just past
/// the closing quote.
#[verifier::loop_isolation(false)]
fn parse_quoted(s: &str, i: usize) -> (r: Result<(String, usize), String>)
    requires
        i < s@.len(),
    ensures
        r matches Ok(p) ==> i < p.1 <= s@.len(),
        ({
            let e = plain_quote_end(s@, s@[i as int], i + 1);
            e < s@.len() && s@[e] == s@[i as int] ==> (r matches Ok(p) && p.0@ == s@.subrange(
                i + 1,
                e,
            ) && p.1 as int == e + 1)
        }),
{
    let ghost qe = plain_quote_end(s@, s@[i as int], i + 1);
    let ghost prem = qe < s@.len() && s@[qe] == s@[i as int];
    let len = s.unicode_len();
    let quote = s.get_char(i);
    let mut out = String::new();
    let mut j = i + 1;
    proof {
        lemma_plain_quote_end_bounds(s@, quote, i + 1);
    }
    while j < len
        invariant
            i < j <= len,
            prem ==> ({
                &&& j <= qe
                &&& out@ == s@.subrange(i + 1, j as int)
                &&& plain_quote_end(s@, quote, j as int) == qe
            }),
        decreases len - j,
    {
        proof {
            if prem {
                if j < qe {
                    assert(s@[j as int] != quote && s@[j as int] != '\\');
                }
            }
        }
        let c = s.get_char(j);
        if c == quote {
            proof {
                if prem {
                    assert(j == qe);
                }
            }
            return Ok((out, j + 1));
        }
        if c == '\\' {
            proof {
                assert(!prem);
            }
            if j + 1 >= len {
                return Err(String::from_str("Unterminated escape in string literal"));
            }
            let esc = s.get_char(j + 1);
            if esc == 'n' {
                out.append("\n");
            } else if esc == 't' {
                out.append("\t");
            } else if esc == 'r' {
                out.append("\r");
            } else if esc == '\\' {
                out.append("\\");
            } else if esc == '\'' {
                out.append("'");
            } else if esc == '"' {
                out.append("\"");
            } else {
                return Err(String::from_str("Unsupported escape in string literal"));
            }
            j = j + 2;
        } else {
            let piece = slice_owned(s, j, j + 1);
            out.append(piece.as_str());
            proof {
                if prem {
                    assert(out@ =~= s@.subrange(i + 1, j + 1));
                }
            }
            j = j + 1;
        }
    }
    proof {
        assert(!prem);
    }
    Err(String::from_str("Unterminated string literal"))
}

/// Reads one encoded value starting at position `i`: a quoted string, a
/// bracketed list, a braced table, a boolean keyword, or a number; both
/// strict-JSON-like quoting and the source format's single quotes are
/// accepted.  Gives the value and the position just past it.
#[verifier::loop_isolation(false)]
pub(crate) fn parse_value_at(s: &str, i: usize, fuel: u64) -> (r: Result<(Val, usize), String>)
    requires
        i <= s@.len(),
    ensures
        r matches Ok(p) ==> i < p.1 <= s@.len(),
        ({
            let e = number_run_end(s@, i as int);
            let tok = s@.subrange(i as int, e);
            fuel > 0 && i < s@.len() && e > i && int_text_value(tok) is Some && i64::MIN
                <= int_text_value(tok)->Some_0 <= i64::MAX ==> (r matches Ok(p) && p.0 == Val::Int(
                int_text_value(tok)->Some_0 as i64,
            ) && p.1 as int == e)
        }),
        fuel > 1 && i < s@.len() && s@[i as int] == '[' && int_elems(s@, i + 1) is Some ==> (
        r matches Ok(p) && is_int_list_val(p.0, int_elems(s@, i + 1)->Some_0.0) && p.1 as int
            == int_elems(s@, i + 1)->Some_0.1),
        fuel > 1 && i < s@.len() && s@[i as int] == '{' && int_dict_single(s@, i + 1) is Some ==> (
        r matches Ok(p) && p.0 is Dict && p.0->Dict_0@.len() == 1 && p.0->Dict_0@[0].0@
            == int_dict_single(s@, i + 1)->Some_0.0.0 && p.0->Dict_0@[0].1 == Val::Int(
            int_dict_single(s@, i + 1)->Some_0.0.1 as i64,
        ) && p.1 as int == int_dict_single(s@, i + 1)->Some_0.1),
    decreases fuel, 1int,
{
    proof {
        let e = number_run_end(s@, i as int);
        let tok = s@.subrange(i as int, e);
        if fuel > 0 && (i as int) < s@.len() && e > i && int_text_value(tok) is Some {
            lemma_number_run_end_bounds(s@, i as int);
            lemma_int_text_not_float(tok);
            assert(tok[0] == s@[i as int]);
            assert(is_digit(tok[0]) || tok[0] == '+' || tok[0] == '-') by {
                let d = if tok.len() > 0 && (tok[0] == '-' || tok[0] == '+') {
                    tok.drop_first()
                } else {
                    tok
                };
                if !(tok[0] == '-' || tok[0] == '+') {
                    assert(is_digit(d[0]));
                }
            }
            assert(s@[i as int] != '\'' && s@[i as int] != '"' && s@[i as int] != '[' && s@[
                i as int] != '{');
            assert(spec_is_number_char(s@[i as int]));
        }
    }
    proof {
        reveal_strlit("true");
        reveal_strlit("True");
        reveal_strlit("false");
        reveal_strlit("False");
    }
    let len = s.unicode_len();
    if fuel == 0 {
        return Err(String::from_str("Value literal nested too deeply"));
    }
    if i == len {
        return Err(String::from_str("Expected a value, found the end of the text"));
    }
    let c = s.get_char(i);
    if c == '\'' || c == '"' {
        match parse_quoted(s, i) {
            Ok((text, j)) => Ok((Val::Str(text), j)),
            Err(e) => Err(e),
        }
    } else if c == '[' {
        parse_list_at(s, i, fuel)
    } else if c == '{' {
        parse_dict_at(s, i, fuel)
    } else if is_number_char(c) {
        let e = number_token_end(s, i);
        if e == i {
            return Err(String::from_str("Expected a value"));
        }
        let tok = slice_owned(s, i, e);
        match parse_number_token(tok.as_str()) {
            Ok(v) => Ok((v, e)),
            Err(err) => Err(err),
        }
    } else {
        // boolean keywords, in both JSON and the source format's casing
        if matches_keyword(s, i, "true") {
            Ok((Val::Bool(true), i + 4))
        } else if matches_keyword(s, i, "True") {
            Ok((Val::Bool(true), i + 4))
        } else if matches_keyword(s, i, "false") {
            Ok((Val::Bool(false), i + 5))
        } else if matches_keyword(s, i, "False") {
            Ok((Val::Bool(false), i + 5))
        } else {
            Err(String::from_str("Expected a value"))
        }
    }
}

/// Whether the keyword `kw` stands at position `i` of `s`.
#[verifier::loop_isolation(false)]
fn matches_keyword(s: &str, i: usize, kw: &str) -> (r: bool)
    requires
        i <= s@.len(),
    ensures
        r ==> i + kw@.len() <= s@.len(),
{
    let len = s.unicode_len();
    let klen = kw.unicode_len();
    if klen > len - i {
        return false;
    }
    let mut j: usize = 0;
    while j < klen
        invariant
            0 <= j <= klen,
            i + klen <= len,
        decreases klen - j,
    {
        if s.get_char(i + j) != kw.get_char(j) {
            return false;
        }
        j = j + 1;
    }
    true
}

/// The list value is exactly these integers.
pub open spec fn is_int_list_val(v: Val, ns: Seq<int>) -> bool {
    &&& v is List
    &&& v->List_0.len() == ns.len()
    &&& forall|k: int| 0 <= k < ns.len() ==> v->List_0@[k] == Val::Int(#[trigger] ns[k] as i64)
}

/// Reads a bracketed list starting at `s[i] == '['`.  A list literal of
/// in-range integers always parses, to exactly those integers.
#[verifier::loop_isolation(false)]
fn parse_list_at(s: &str, i: usize, fuel: u64) -> (r: Result<(Val, usize), String>)
    requires
        i < s@.len(),
    ensures
        r matches Ok(p) ==> i < p.1 <= s@.len(),
        fuel > 1 && int_elems(s@, i + 1) is Some ==> (r matches Ok(p) && is_int_list_val(
            p.0,
            int_elems(s@, i + 1)->Some_0.0,
        ) && p.1 as int == int_elems(s@, i + 1)->Some_0.1),
    decreases fuel, 0int,
{
    let ghost prem = fuel > 1 && int_elems(s@, i + 1) is Some;
    let ghost pr = int_elems(s@, i + 1)->Some_0;
    let len = s.unicode_len();
    if fuel == 0 {
        return Err(String::from_str("Value literal nested too deeply"));
    }
    let mut items: Vec<Val> = Vec::new();
    let mut j = skip_ws(s, i + 1);
    proof {
        lemma_space_run_end_stops(s@, i + 1);
    }
    if j < len && s.get_char(j) == ']' {
        return Ok((Val::List(items), j + 1));
    }
    proof {
        assert(space_run_end(s@, j as int) == j as int);
        if prem {
            assert(int_elems(s@, j as int) == Some((pr.0, pr.1)));
            assert(pr.0.skip(0) =~= pr.0);
            if j >= len {
                assert(int_elems(s@, j as int) is None);
            }
        }
    }
    loop
        invariant
            i < j <= len,
            len == s@.len(),
            space_run_end(s@, j as int) == j as int,
            prem ==> j < len && s@[j as int] != ']',
            prem ==> ({
                &&& items.len() <= pr.0.len()
                &&& int_elems(s@, j as int) == Some(
                    (pr.0.skip(items.len() as int), pr.1),
                )
                &&& forall|k: int|
                    0 <= k < items.len() ==> items@[k] == Val::Int(#[trigger] pr.0[k] as i64)
            }),
        decreases len - j,
    {
        let ghost rem = pr.0.skip(items.len() as int);
        proof {
            if prem {
                lemma_number_run_end_bounds(s@, j as int);
                let e = number_run_end(s@, j as int);
                let tok = s@.subrange(j as int, e);
                assert(int_elems(s@, j as int) == Some((rem, pr.1)));
                assert(e > j && int_text_value(tok) is Some && i64::MIN <= int_text_value(
                    tok,
                )->Some_0 <= i64::MAX);
            }
        }
        match parse_value_at(s, j, fuel - 1) {
            Ok((v, j2)) => {
                proof {
                    if prem {
                        let e = number_run_end(s@, j as int);
                        let tok = s@.subrange(j as int, e);
                        assert(v == Val::Int(int_text_value(tok)->Some_0 as i64));
                        assert(j2 as int == e);
                        assert(rem.len() > 0);
                        assert(rem[0] == int_text_value(tok)->Some_0);
                    }
                }
                items.push(v);
                let j3 = skip_ws(s, j2);
                proof {
                    lemma_space_run_end_stops(s@, j2 as int);
                }
                if j3 < len && s.get_char(j3) == ',' {
                    let j4 = skip_ws(s, j3 + 1);
                    proof {
                        lemma_space_run_end_stops(s@, j3 + 1);
                        if prem {
                            assert(int_elems(s@, j3 + 1) == Some(
                                (rem.drop_first(), pr.1),
                            ));
                        }
                    }
                    if j4 < len && s.get_char(j4) == ']' {
                        proof {
                            if prem {
                                assert(rem.drop_first().len() == 0);
                                assert(items.len() == pr.0.len());
                                assert(pr.1 == j4 + 1);
                            }
                        }
                        return Ok((Val::List(items), j4 + 1));
                    }
                    if j4 <= j {
                        proof {
                            assert(!prem);
                        }
                        return Err(String::from_str("Malformed list literal"));
                    }
                    proof {
                        assert(space_run_end(s@, j4 as int) == j4 as int);
                        if prem {
                            assert(int_elems(s@, j4 as int) == Some(
                                (rem.drop_first(), pr.1),
                            ));
                            assert(rem.drop_first() =~= pr.0.skip(items.len() as int));
                            if j4 >= len {
                                assert(int_elems(s@, j4 as int) is None);
                            }
                        }
                    }
                    j = j4;
                } else if j3 < len && s.get_char(j3) == ']' {
                    proof {
                        if prem {
                            assert(rem.len() == 1);
                            assert(items.len() == pr.0.len());
                            assert(pr.1 == j3 + 1);
                        }
                    }
                    return Ok((Val::List(items), j3 + 1));
                } else {
                    proof {
                        if prem {
                            let e = number_run_end(s@, j as int);
                            assert(space_run_end(s@, e) == j3 as int);
                            assert(int_elems(s@, j as int) is None);
                        }
                    }
                    return Err(String::from_str("Expected ',' or ']' in list literal"));
                }
            },
            Err(e) => {
                proof {
                    assert(!prem);
                }
                return Err(e);
            },
        }
    }
}

/// A single-entry braced table literal read from position `i` (just inside
/// the brace): a quoted escape-free key, a colon, and an in-range integer
/// value; the results are the key text, the integer, and the position past
/// the closing brace.  Other tables are not described here.
pub open spec fn int_dict_single(b: Seq<char>, i: int) -> Option<((Seq<char>, int), int)> {
    let j = space_run_end(b, i);
    if !(0 <= j < b.len() && (b[j] == '\'' || b[j] == '"')) {
        None
    } else {
        let q = b[j];
        let e = plain_quote_end(b, q, j + 1);
        if !(e < b.len() && b[e] == q) {
            None
        } else {
            let key = b.subrange(j + 1, e);
            let c = space_run_end(b, e + 1);
            if !(c < b.len() && b[c] == ':') {
                None
            } else {
                let v0 = space_run_end(b, c + 1);
                let ne = number_run_end(b, v0);
                let tok = b.subrange(v0, ne);
                if !(ne > v0 && int_text_value(tok) is Some && i64::MIN <= int_text_value(
                    tok,
                )->Some_0 <= i64::MAX) {
                    None
                } else {
                    let k2 = space_run_end(b, ne);
                    if k2 < b.len() && b[k2] == '}' {
                        Some(((key, int_text_value(tok)->Some_0), k2 + 1))
                    } else {
                        None
                    }
                }
            }
        }
    }
}

/// Reads a braced table starting at `s[i] == '{'`; keys are quoted strings
/// followed by a colon.  A single-entry table with a quoted key and an
/// integer value always parses, to exactly that entry.
#[verifier::loop_isolation(false)]
fn parse_dict_at(s: &str, i: usize, fuel: u64) -> (r: Result<(Val, usize), String>)
    requires
        i < s@.len(),
    ensures
        r matches Ok(p) ==> i < p.1 <= s@.len(),
        fuel > 1 && int_dict_single(s@, i + 1) is Some ==> (r matches Ok(p) && p.0 is Dict
            && p.0->Dict_0@.len() == 1 && p.0->Dict_0@[0].0@ == int_dict_single(
            s@,
            i + 1,
        )->Some_0.0.0 && p.0->Dict_0@[0].1 == Val::Int(
            int_dict_single(s@, i + 1)->Some_0.0.1 as i64,
        ) && p.1 as int == int_dict_single(s@, i + 1)->Some_0.1),
    decreases fuel, 0int,
{
    let ghost premd = fuel > 1 && int_dict_single(s@, i + 1) is Some;
    let ghost pd = int_dict_single(s@, i + 1)->Some_0;
    let len = s.unicode_len();
    if fuel == 0 {
        return Err(String::from_str("Value literal nested too deeply"));
    }
    let mut pairs: Vec<(String, Val)> = Vec::new();
    let mut j = skip_ws(s, i + 1);
    if j < len && s.get_char(j) == '}' {
        proof {
            assert(!premd);
        }
        return Ok((Val::Dict(dict_from_pairs(pairs)), j + 1));
    }
    loop
        invariant
            i < j <= len,
            len == s@.len(),
            premd ==> pairs.len() == 0,
            premd ==> j as int == space_run_end(s@, i + 1),
        decreases len - j,
    {
        proof {
            if premd {
                lemma_plain_quote_end_bounds(s@, s@[j as int], j + 1);
            }
        }
        if !(j < len && (s.get_char(j) == '\'' || s.get_char(j) == '"')) {
            proof {
                assert(!premd);
            }
            return Err(String::from_str("Expected a quoted key in table literal"));
        }
        let (key, jk) = match parse_quoted(s, j) {
            Ok(p) => p,
            Err(e) => {
                proof {
                    assert(!premd);
                }
                return Err(e);
            },
        };
        proof {
            if premd {
                assert(key@ == pd.0.0);
            }
        }
        let jc = skip_ws(s, jk);
        if !(jc < len && s.get_char(jc) == ':') {
            proof {
                assert(!premd);
            }
            return Err(String::from_str("Expected ':' in table literal"));
        }
        let jv = skip_ws(s, jc + 1);
        proof {
            if premd {
                lemma_number_run_end_bounds(s@, jv as int);
            }
        }
        match parse_value_at(s, jv, fuel - 1) {
            Ok((v, j2)) => {
                proof {
                    if premd {
                        assert(v == Val::Int(pd.0.1 as i64));
                    }
                }
                pairs.push((key, v));
                let j3 = skip_ws(s, j2);
                if j3 < len && s.get_char(j3) == ',' {
                    proof {
                        assert(!premd);
                    }
                    let j4 = skip_ws(s, j3 + 1);
                    if j4 < len && s.get_char(j4) == '}' {
                        return Ok((Val::Dict(dict_from_pairs(pairs)), j4 + 1));
                    }
                    if j4 <= j {
                        return Err(String::from_str("Malformed table literal"));
                    }
                    j = j4;
                } else if j3 < len && s.get_char(j3) == '}' {
                    let entries = dict_from_pairs(pairs);
                    proof {
                        if premd {
                            assert(entries@ =~= seq![(key, v)]) by {
                                assert(pairs@.len() == 1);
                                assert(pairs@.drop_last() =~= Seq::<(String, Val)>::empty());
                                assert(pairs@.last() == (key, v));
                                assert(spec_dict_of_pairs(pairs@.drop_last()) =~= Seq::<
                                    (String, Val),
                                >::empty());
                                assert(spec_dict_of_pairs(pairs@) == spec_dict_insert(
                                    spec_dict_of_pairs(pairs@.drop_last()),
                                    key,
                                    v,
                                ));
                                assert(spec_dict_insert(
                                    Seq::<(String, Val)>::empty(),
                                    key,
                                    v,
                                ) =~= seq![(key, v)]);
                            }
                            assert(pd.1 == j3 + 1);
                        }
                    }
                    return Ok((Val::Dict(entries), j3 + 1));
                } else {
                    proof {
                        assert(!premd);
                    }
                    return Err(String::from_str("Expected ',' or '}' in table literal"));
                }
            },
            Err(e) => {
                proof {
                    assert(!premd);
                }
                return Err(e);
            },
        }
    }
}

/// The text with the surrounding whitespace removed.
#[verifier::loop_isolation(false)]
fn trim_owned(s: &str) -> (r: String)
    ensures
        r@ == spec_trim(s@),
{
    let len = s.unicode_len();
    let start = skip_ws(s, 0);
    let mut end = len;
    while end > start
        invariant
            start <= end <= len,
            trim_end_from(s@, len as int, start as int) == trim_end_from(
                s@,
                end as int,
                start as int,
            ),
        decreases end,
    {
        if !is_space_exec(s.get_char(end - 1)) {
            break ;
        }
        end = end - 1;
    }
    proof {
        assert(trim_end_from(s@, end as int, start as int) == end as int);
    }
    slice_owned(s, start, end)
}

/// Whether the trimmed text begins with a plus sign, marking an append.
pub open spec fn is_plus_form(s: Seq<char>) -> bool {
    spec_trim(s).len() > 0 && spec_trim(s)[0] == '+'
}

/// Trims the text and strips one leading `+`, telling whether it was there.
#[verifier::loop_isolation(false)]
pub(crate) fn strip_plus(s: &str) -> (r: (bool, String))
    ensures
        r.0 == is_plus_form(s@),
        r.0 ==> r.1@ == spec_trim(spec_trim(s@).drop_first()),
        !r.0 ==> r.1@ == spec_trim(s@),
{
    let t = trim_owned(s);
    let len = t.as_str().unicode_len();
    if len > 0 && t.as_str().get_char(0) == '+' {
        let rest = slice_owned(t.as_str(), 1, len);
        proof {
            assert(rest@ =~= spec_trim(s@).drop_first());
        }
        (true, trim_owned(rest.as_str()))
    } else {
        (false, t)
    }
}

/// Reads a whole encoded value, demanding that nothing but whitespace
/// follows it.  A bracketed literal of in-range integers always parses,
/// to exactly those integers.
pub(crate) fn parse_full_value(s: &str) -> (r: Result<Val, String>)
    ensures
        ({
            let st = space_run_end(s@, 0);
            st < s@.len() && s@[st] == '[' && int_elems(s@, st + 1) is Some && space_run_end(
                s@,
                int_elems(s@, st + 1)->Some_0.1,
            ) == s@.len() ==> (r matches Ok(v) && is_int_list_val(
                v,
                int_elems(s@, st + 1)->Some_0.0,
            ))
        }),
        ({
            let st = space_run_end(s@, 0);
            st < s@.len() && s@[st] == '{' && int_dict_single(s@, st + 1) is Some
                && space_run_end(s@, int_dict_single(s@, st + 1)->Some_0.1) == s@.len() ==> (
            r matches Ok(v) && v is Dict && v->Dict_0@.len() == 1 && v->Dict_0@[0].0@
                == int_dict_single(s@, st + 1)->Some_0.0.0 && v->Dict_0@[0].1 == Val::Int(
                int_dict_single(s@, st + 1)->Some_0.0.1 as i64,
            ))
        }),
{
    let len = s.unicode_len();
    let start = skip_ws(s, 0);
    match parse_value_at(s, start, 64) {
        Ok((v, j)) => {
            let j2 = skip_ws(s, j);
            if j2 == len {
                Ok(v)
            } else {
                Err(String::from_str("Trailing text after value literal"))
            }
        },
        Err(e) => Err(e),
    }
}

/// Every integer a bracketed list literal holds is within the 64-bit
/// signed range.
pub proof fn lemma_int_elems_in_range(b: Seq<char>, i: int)
    requires
        0 <= i <= b.len(),
        int_elems(b, i) is Some,
    ensures
        forall|k: int|
            0 <= k < int_elems(b, i)->Some_0.0.len() ==> i64::MIN <= #[trigger] int_elems(
                b,
                i,
            )->Some_0.0[k] <= i64::MAX,
    decreases b.len() - i,
{
    lemma_space_run_end_bounds(b, i);
    let j = space_run_end(b, i);
    if j < b.len() && b[j] != ']' {
        lemma_number_run_end_bounds(b, j);
        let e = number_run_end(b, j);
        if e > j {
            let tok = b.subrange(j, e);
            if int_text_value(tok) is Some && i64::MIN <= int_text_value(tok)->Some_0
                <= i64::MAX {
                let k2 = space_run_end(b, e);
                lemma_space_run_end_bounds(b, e);
                if k2 < b.len() && b[k2] == ',' {
                    if int_elems(b, k2 + 1) is Some {
                        lemma_int_elems_in_range(b, k2 + 1);
                    }
                }
            }
        }
    }
}

/// The encoded text is, after the optional leading plus, a bracketed list
/// literal of in-range integers read to its end.
pub open spec fn spec_int_list_form(s: Seq<char>) -> bool {
    let b = if is_plus_form(s) {
        spec_trim(spec_trim(s).drop_first())
    } else {
        spec_trim(s)
    };
    b.len() > 0 && b[0] == '[' && int_elems(b, 1) is Some && space_run_end(
        b,
        int_elems(b, 1)->Some_0.1,
    ) == b.len()
}

/// The integers such a text lists, in order.
pub open spec fn spec_int_list_items(s: Seq<char>) -> Seq<int> {
    let b = if is_plus_form(s) {
        spec_trim(spec_trim(s).drop_first())
    } else {
        spec_trim(s)
    };
    int_elems(b, 1)->Some_0.0
}

/// Turns one encoded list text into a list contribution: a bracketed
/// literal replaces (or, with a leading plus, appends); a lone scalar
/// appends one item.
pub(crate) fn parse_list_string(s: &str) -> (r: Result<(ListEditAction, Vec<Val>), String>)
    ensures
        is_plus_form(s@) ==> (r matches Ok(p) ==> p.0 == ListEditAction::Add),
        !is_plus_form(s@) && spec_trim(s@).len() > 0 && spec_trim(s@)[0] == '[' ==> (r matches Ok(
            p,
        ) ==> p.0 == ListEditAction::Replace),
        ({
            let b = if is_plus_form(s@) {
                spec_trim(spec_trim(s@).drop_first())
            } else {
                spec_trim(s@)
            };
            let t = spec_trim(b);
            !(b.len() > 0 && b[0] == '[') && t != "true"@ && t != "false"@ && !looks_float_spec(t)
                && int_text_value(t) is Some && i64::MIN <= int_text_value(t)->Some_0 <= i64::MAX
                ==> (r matches Ok(p) && p.0 == ListEditAction::Add && p.1@.len() == 1 && p.1@[0]
                == Val::Int(int_text_value(t)->Some_0 as i64))
        }),
        ({
            let ns = spec_int_list_items(s@);
            spec_int_list_form(s@) ==> (r matches Ok(p) && p.0 == (if is_plus_form(s@) {
                ListEditAction::Add
            } else {
                ListEditAction::Replace
            }) && p.1@.len() == ns.len() && (forall|k: int|
                0 <= k < ns.len() ==> p.1@[k] == Val::Int(#[trigger] ns[k] as i64)))
        }),
{
    let (plus, body) = strip_plus(s);
    let blen = body.as_str().unicode_len();
    if blen > 0 && body.as_str().get_char(0) == '[' {
        proof {
            assert(space_run_end(body@, 0) == 0);
        }
        match parse_full_value(body.as_str()) {
            Ok(Val::List(items)) => {
                if plus {
                    Ok((ListEditAction::Add, items))
                } else {
                    Ok((ListEditAction::Replace, items))
                }
            },
            Ok(_) => Err(String::from_str("Expected a list literal")),
            Err(e) => Err(e),
        }
    } else {
        match parse_scalar_text(body.as_str()) {
            Ok(v) => {
                let mut items: Vec<Val> = Vec::new();
                items.push(v);
                return Ok((ListEditAction::Add, items));
            },
            Err(_) => {
            },
        }
        match parse_full_value(body.as_str()) {
            Ok(v) => {
                let mut items: Vec<Val> = Vec::new();
                items.push(v);
                Ok((ListEditAction::Add, items))
            },
            Err(e) => Err(e),
        }
    }
}

/// The encoded text is, after the optional leading plus, a single-entry
/// braced table literal with a quoted key and an integer value, read to
/// its end.
pub open spec fn spec_int_dict_form(s: Seq<char>) -> bool {
    let b = if is_plus_form(s) {
        spec_trim(spec_trim(s).drop_first())
    } else {
        spec_trim(s)
    };
    b.len() > 0 && b[0] == '{' && int_dict_single(b, 1) is Some && space_run_end(
        b,
        int_dict_single(b, 1)->Some_0.1,
    ) == b.len()
}

/// The key text and integer such a text holds.
pub open spec fn spec_int_dict_entry(s: Seq<char>) -> (Seq<char>, int) {
    let b = if is_plus_form(s) {
        spec_trim(spec_trim(s).drop_first())
    } else {
        spec_trim(s)
    };
    int_dict_single(b, 1)->Some_0.0
}

/// Turns one encoded table text into a dict contribution: a braced literal
/// replaces, or appends with a leading plus.
pub(crate) fn parse_dict_string(s: &str) -> (r: Result<
    (DictEditAction, Vec<(String, Val)>),
    String,
>)
    ensures
        is_plus_form(s@) ==> (r matches Ok(p) ==> p.0 == DictEditAction::Add),
        !is_plus_form(s@) ==> (r matches Ok(p) ==> p.0 == DictEditAction::Replace),
        spec_int_dict_form(s@) ==> (r matches Ok(p) && p.0 == (if is_plus_form(s@) {
            DictEditAction::Add
        } else {
            DictEditAction::Replace
        }) && p.1@.len() == 1 && p.1@[0].0@ == spec_int_dict_entry(s@).0 && p.1@[0].1 == Val::Int(
            spec_int_dict_entry(s@).1 as i64,
        )),
{
    let (plus, body) = strip_plus(s);
    proof {
        if spec_int_dict_form(s@) {
            assert(space_run_end(body@, 0) == 0);
        }
    }
    match parse_full_value(body.as_str()) {
        Ok(Val::Dict(entries)) => {
            if plus {
                Ok((DictEditAction::Add, entries))
            } else {
                Ok((DictEditAction::Replace, entries))
            }
        },
        Ok(_) => Err(String::from_str("Expected a table literal")),
        Err(e) => Err(e),
    }
}

/// Converts raw unstructured text to the requested scalar shape: the
/// boolean keywords and in-range integers are read exactly, anything else
/// goes down the float route, succeeding exactly when it normalizes to a
/// strict JSON number.
pub(crate) fn parse_scalar_text(s: &str) -> (r: Result<Val, String>)
    ensures
        spec_trim(s@) == "true"@ ==> r == Ok::<Val, String>(Val::Bool(true)),
        spec_trim(s@) == "false"@ ==> r == Ok::<Val, String>(Val::Bool(false)),
        spec_trim(s@) != "true"@ && spec_trim(s@) != "false"@ && !looks_float_spec(spec_trim(s@))
            && int_text_value(spec_trim(s@)) is Some && i64::MIN <= int_text_value(spec_trim(s@))
            ->Some_0 <= i64::MAX ==> r == Ok::<Val, String>(
            Val::Int(int_text_value(spec_trim(s@))->Some_0 as i64),
        ),
        spec_trim(s@) != "true"@ && spec_trim(s@) != "false"@ && (looks_float_spec(spec_trim(s@))
            || int_text_value(spec_trim(s@)) is None || !(i64::MIN <= int_text_value(
            spec_trim(s@),
        )->Some_0 <= i64::MAX)) ==> ((r is Ok) == (crate::outside::float_bits_of(
            spec_norm_float(spec_trim(s@)),
        ) is Some) && (r matches Ok(v) ==> v == Val::Float(
            crate::outside::float_bits_of(spec_norm_float(spec_trim(s@)))->Some_0,
        ))),
{
    let t = trim_owned(s);
    match parse_bool_text(t.as_str()) {
        Some(b) => {
            return Ok(Val::Bool(b));
        },
        None => {
        },
    }
    match parse_number_token(t.as_str()) {
        Ok(v) => Ok(v),
        Err(e) => Err(e),
    }
}

} // verus!
