//! A verified JSON parser.
//!
//! The grammar is standard JSON: objects, arrays, strings with the usual
//! escapes including `\u` (surrogate pairs combined, lone surrogates
//! rejected), `null`, `true`, `false`, and numbers. A number token is kept
//! as its raw text and never interpreted: test reports only ever read
//! strings. Number tokens are any run of sign, digit, dot and exponent
//! characters that holds at least one digit.

use vstd::prelude::*;

use crate::text::{copy_range, is_digit};

verus! {

/// Relies on `char::from_u32`: it returns the character with the given
/// code point exactly when the value is a Unicode scalar value (no
/// surrogate, at most 0x10FFFF), and `None` otherwise.
pub assume_specification[ char::from_u32 ](v: u32) -> (r: Option<char>)
    ensures
        ((v < 0xD800 || (0xE000 <= v && v <= 0x10FFFF)) <==> r is Some),
        (r matches Some(c) ==> c as u32 == v),
;

/// Mathematical image of one JSON value.
pub enum JsonView {
    Null,
    Boolean(bool),
    Number(Seq<char>),
    Text(Seq<char>),
    Array(Seq<JsonView>),
    Object(Seq<(Seq<char>, JsonView)>),
}

/// One JSON value. Object members are kept in document order, duplicates
/// included; lookups take the last binding of a key, as common JSON maps
/// do.
pub enum JsonValue {
    Null,
    Boolean(bool),
    Number(Vec<char>),
    Text(Vec<char>),
    Array(Vec<JsonValue>),
    Object(Vec<(Vec<char>, JsonValue)>),
}

/// The view of a JSON value, recursively.
pub open spec fn json_view(v: JsonValue) -> JsonView
    decreases v,
    via json_view_decreases
{
    match v {
        JsonValue::Null => JsonView::Null,
        JsonValue::Boolean(b) => JsonView::Boolean(b),
        JsonValue::Number(s) => JsonView::Number(s@),
        JsonValue::Text(s) => JsonView::Text(s@),
        JsonValue::Array(es) => JsonView::Array(
            Seq::new(
                es@.len(),
                |i: int|
                    if 0 <= i < es@.len() {
                        json_view(es@[i])
                    } else {
                        JsonView::Null
                    },
            ),
        ),
        JsonValue::Object(ps) => JsonView::Object(
            Seq::new(
                ps@.len(),
                |i: int|
                    if 0 <= i < ps@.len() {
                        (ps@[i].0@, json_view(ps@[i].1))
                    } else {
                        (Seq::empty(), JsonView::Null)
                    },
            ),
        ),
    }
}

#[via_fn]
proof fn json_view_decreases(v: JsonValue) {
    match v {
        JsonValue::Array(es) => {
            assert forall|i: int| 0 <= i < es@.len() implies (decreases_to!(v => es@[i])) by {
                assert(decreases_to!(v => es));
                vstd::std_specs::vec::axiom_vec_decreases_to_view(es);
                vstd::seq::axiom_seq_index_decreases(es@, i);
            }
        },
        JsonValue::Object(ps) => {
            assert forall|i: int| 0 <= i < ps@.len() implies (decreases_to!(v => ps@[i].1)) by {
                assert(decreases_to!(v => ps));
                vstd::std_specs::vec::axiom_vec_decreases_to_view(ps);
                vstd::seq::axiom_seq_index_decreases(ps@, i);
                assert(decreases_to!(ps@[i] => ps@[i].1));
            }
        },
        _ => {},
    }
}

/// The views of a JSON value list.
pub open spec fn jsons_view(es: Seq<JsonValue>) -> Seq<JsonView> {
    Seq::new(es.len(), |i: int| json_view(es[i]))
}

/// The views of an object member list.
pub open spec fn members_view(ps: Seq<(Vec<char>, JsonValue)>) -> Seq<(Seq<char>, JsonView)> {
    Seq::new(ps.len(), |i: int| (ps[i].0@, json_view(ps[i].1)))
}

/// Mathematical image of one JSON token.
pub enum JsonTokView {
    LBrace,
    RBrace,
    LBrack,
    RBrack,
    Comma,
    Colon,
    Null,
    True,
    False,
    Number(Seq<char>),
    Text(Seq<char>),
}

/// One JSON token.
pub enum JsonTok {
    LBrace,
    RBrace,
    LBrack,
    RBrack,
    Comma,
    Colon,
    Null,
    True,
    False,
    Number(Vec<char>),
    Text(Vec<char>),
}

pub open spec fn jtok_view(t: JsonTok) -> JsonTokView {
    match t {
        JsonTok::LBrace => JsonTokView::LBrace,
        JsonTok::RBrace => JsonTokView::RBrace,
        JsonTok::LBrack => JsonTokView::LBrack,
        JsonTok::RBrack => JsonTokView::RBrack,
        JsonTok::Comma => JsonTokView::Comma,
        JsonTok::Colon => JsonTokView::Colon,
        JsonTok::Null => JsonTokView::Null,
        JsonTok::True => JsonTokView::True,
        JsonTok::False => JsonTokView::False,
        JsonTok::Number(s) => JsonTokView::Number(s@),
        JsonTok::Text(s) => JsonTokView::Text(s@),
    }
}

pub open spec fn jtoks_view(ts: Seq<JsonTok>) -> Seq<JsonTokView> {
    Seq::new(ts.len(), |i: int| jtok_view(ts[i]))
}

pub open spec fn is_json_ws(c: char) -> bool {
    c == ' ' || c == '\t' || c == '\n' || c == '\r'
}

pub open spec fn is_hex(c: char) -> bool {
    is_digit(c) || (97 <= c as u32 && c as u32 <= 102) || (65 <= c as u32 && c as u32 <= 70)
}

/// The value of one hexadecimal digit character.
pub open spec fn hexv(c: char) -> int {
    if is_digit(c) {
        c as u32 - 48
    } else if 97 <= c as u32 && c as u32 <= 102 {
        c as u32 - 87
    } else {
        c as u32 - 55
    }
}

pub open spec fn is_hex4(s: Seq<char>, i: int) -> bool {
    is_hex(s[i]) && is_hex(s[i + 1]) && is_hex(s[i + 2]) && is_hex(s[i + 3])
}

/// The value of the four hexadecimal digits starting at `i`.
pub open spec fn hex4v(s: Seq<char>, i: int) -> int {
    hexv(s[i]) * 4096 + hexv(s[i + 1]) * 256 + hexv(s[i + 2]) * 16 + hexv(s[i + 3])
}

pub open spec fn jscons(c: char, rest: Option<(Seq<char>, int)>) -> Option<(Seq<char>, int)> {
    match rest {
        Some((cs, j)) => Some((seq![c] + cs, j)),
        None => None,
    }
}

/// The decoded content of a JSON string literal that starts (after the
/// opening quote) at `i`, and the position right after the closing quote.
pub open spec fn jstr(s: Seq<char>, i: int) -> Option<(Seq<char>, int)>
    decreases s.len() - i,
{
    if i < 0 || i >= s.len() {
        None
    } else if s[i] == '"' {
        Some((Seq::empty(), i + 1))
    } else if s[i] == '\\' {
        if i + 2 > s.len() {
            None
        } else {
            let e = s[i + 1];
            if e == '"' {
                jscons('"', jstr(s, i + 2))
            } else if e == '\\' {
                jscons('\\', jstr(s, i + 2))
            } else if e == '/' {
                jscons('/', jstr(s, i + 2))
            } else if e == 'b' {
                jscons('\x08', jstr(s, i + 2))
            } else if e == 'f' {
                jscons('\x0c', jstr(s, i + 2))
            } else if e == 'n' {
                jscons('\n', jstr(s, i + 2))
            } else if e == 'r' {
                jscons('\r', jstr(s, i + 2))
            } else if e == 't' {
                jscons('\t', jstr(s, i + 2))
            } else if e == 'u' {
                if i + 6 > s.len() || !is_hex4(s, i + 2) {
                    None
                } else {
                    let cp = hex4v(s, i + 2);
                    if 0xD800 <= cp && cp < 0xDC00 {
                        if i + 12 > s.len() || s[i + 6] != '\\' || s[i + 7] != 'u' || !is_hex4(
                            s,
                            i + 8,
                        ) {
                            None
                        } else {
                            let lo = hex4v(s, i + 8);
                            if !(0xDC00 <= lo && lo < 0xE000) {
                                None
                            } else {
                                jscons(
                                    (0x10000 + (cp - 0xD800) * 0x400 + (lo - 0xDC00)) as char,
                                    jstr(s, i + 12),
                                )
                            }
                        }
                    } else if 0xDC00 <= cp && cp < 0xE000 {
                        None
                    } else {
                        jscons(cp as char, jstr(s, i + 6))
                    }
                }
            } else {
                None
            }
        }
    } else {
        jscons(s[i], jstr(s, i + 1))
    }
}

/// The end of the run of number characters starting at `i`.
pub open spec fn num_end(s: Seq<char>, i: int) -> int
    decreases s.len() - i,
{
    if i < 0 || i >= s.len() {
        s.len() as int
    } else if is_num_char(s[i]) {
        num_end(s, i + 1)
    } else {
        i
    }
}

pub open spec fn is_num_char(c: char) -> bool {
    is_digit(c) || c == '-' || c == '+' || c == '.' || c == 'e' || c == 'E'
}

/// Whether any character of `s` in `[i, e)` is a digit.
pub open spec fn has_digit(s: Seq<char>, i: int, e: int) -> bool
    decreases e - i,
{
    if e <= i {
        false
    } else {
        has_digit(s, i, e - 1) || is_digit(s[e - 1])
    }
}

pub open spec fn jcons(t: JsonTokView, rest: Option<Seq<JsonTokView>>) -> Option<
    Seq<JsonTokView>,
> {
    match rest {
        Some(ts) => Some(seq![t] + ts),
        None => None,
    }
}

/// The tokens of the whole input; `None` when any token is malformed.
pub open spec fn jlex(s: Seq<char>, i: int) -> Option<Seq<JsonTokView>>
    decreases s.len() - i,
{
    if i < 0 {
        None
    } else if i >= s.len() {
        Some(Seq::empty())
    } else {
        let c = s[i];
        if is_json_ws(c) {
            jlex(s, i + 1)
        } else if c == '{' {
            jcons(JsonTokView::LBrace, jlex(s, i + 1))
        } else if c == '}' {
            jcons(JsonTokView::RBrace, jlex(s, i + 1))
        } else if c == '[' {
            jcons(JsonTokView::LBrack, jlex(s, i + 1))
        } else if c == ']' {
            jcons(JsonTokView::RBrack, jlex(s, i + 1))
        } else if c == ',' {
            jcons(JsonTokView::Comma, jlex(s, i + 1))
        } else if c == ':' {
            jcons(JsonTokView::Colon, jlex(s, i + 1))
        } else if c == '"' {
            match jstr(s, i + 1) {
                None => None,
                Some((txt, j)) => {
                    let j2 = if i < j && j <= s.len() {
                        j
                    } else {
                        i + 1
                    };
                    jcons(JsonTokView::Text(txt), jlex(s, j2))
                },
            }
        } else if c == 'n' {
            if i + 4 <= s.len() && s.subrange(i, i + 4) == seq!['n', 'u', 'l', 'l'] {
                jcons(JsonTokView::Null, jlex(s, i + 4))
            } else {
                None
            }
        } else if c == 't' {
            if i + 4 <= s.len() && s.subrange(i, i + 4) == seq!['t', 'r', 'u', 'e'] {
                jcons(JsonTokView::True, jlex(s, i + 4))
            } else {
                None
            }
        } else if c == 'f' {
            if i + 5 <= s.len() && s.subrange(i, i + 5) == seq!['f', 'a', 'l', 's', 'e'] {
                jcons(JsonTokView::False, jlex(s, i + 5))
            } else {
                None
            }
        } else if is_digit(c) || c == '-' {
            let e = num_end(s, i);
            if !has_digit(s, i, e) {
                None
            } else {
                let e2 = if i < e && e <= s.len() {
                    e
                } else {
                    i + 1
                };
                jcons(JsonTokView::Number(s.subrange(i, e2)), jlex(s, e2))
            }
        } else {
            None
        }
    }
}

/// A successful string scan ends past its starting position and within the
/// input.
proof fn jstr_end_bound(s: Seq<char>, i: int)
    ensures
        (match jstr(s, i) {
            Some((cs, j)) => i < j <= s.len(),
            None => true,
        }),
    decreases s.len() - i + 12,
{
    if 0 <= i < s.len() && s[i] != '"' {
        if s[i] == '\\' {
            jstr_end_bound(s, i + 2);
            jstr_end_bound(s, i + 6);
            jstr_end_bound(s, i + 12);
        } else {
            jstr_end_bound(s, i + 1);
        }
    }
}

/// Folds one decoded character into the running invariant of `jstr_exec`.
proof fn jstr_step(s: Seq<char>, cur: int, next: int, c: char, acc: Seq<char>, i: int)
    requires
        jstr(s, cur) == jscons(c, jstr(s, next)),
        (match jstr(s, cur) {
            Some((rest, end)) => jstr(s, i) == Some((acc + rest, end)) && cur < end <= s.len(),
            None => jstr(s, i) is None,
        }) || (jstr(s, cur) is None && jstr(s, i) is None),
    ensures
        (match jstr(s, next) {
            Some((rest, end)) => jstr(s, i) == Some((acc.push(c) + rest, end)) && next < end
                <= s.len(),
            None => jstr(s, i) is None,
        }) || (jstr(s, next) is None && jstr(s, i) is None),
{
    match jstr(s, next) {
        Some((rest, end)) => {
            assert(jstr(s, cur) == Some((seq![c] + rest, end)));
            assert(acc + (seq![c] + rest) =~= acc.push(c) + rest);
            jstr_end_bound(s, next);
        },
        None => {},
    }
}

/// The value of one hexadecimal digit character, or `None` for any other
/// character.
fn hexd(c: char) -> (r: Option<u32>)
    ensures
        (match r {
            Some(d) => is_hex(c) && d == hexv(c) && d < 16,
            None => !is_hex(c),
        }),
{
    let u = c as u32;
    if 48 <= u && u <= 57 {
        Some(u - 48)
    } else if 97 <= u && u <= 102 {
        Some(u - 87)
    } else if 65 <= u && u <= 70 {
        Some(u - 55)
    } else {
        None
    }
}

/// The value of the four hexadecimal digits at `i`, or `None` when any of
/// the four characters is not a hexadecimal digit.
fn hex4_exec(v: &Vec<char>, i: usize) -> (r: Option<u32>)
    requires
        i + 4 <= v@.len(),
    ensures
        (match r {
            Some(val) => is_hex4(v@, i as int) && val == hex4v(v@, i as int) && val < 0x10000,
            None => !is_hex4(v@, i as int),
        }),
{
    let n = v.len();
    proof {
        assert(i + 4 <= n);
    }
    let d0 = hexd(v[i]);
    let d1 = hexd(v[i + 1]);
    let d2 = hexd(v[i + 2]);
    let d3 = hexd(v[i + 3]);
    match (d0, d1, d2, d3) {
        (Some(a), Some(b), Some(c), Some(d)) => Some(a * 4096 + b * 256 + c * 16 + d),
        _ => None,
    }
}

fn jstr_exec(v: &Vec<char>, i: usize) -> (r: Option<(Vec<char>, usize)>)
    requires
        i <= v@.len(),
    ensures
        (match r {
            Some(p) => jstr(v@, i as int) == Some((p.0@, p.1 as int)) && i < p.1 <= v@.len(),
            None => jstr(v@, i as int) is None,
        }),
{
    let mut acc: Vec<char> = Vec::new();
    let mut cur = i;
    proof {
        jstr_end_bound(v@, i as int);
        match jstr(v@, i as int) {
            Some((rest, end)) => {
                assert(acc@ + rest =~= rest);
            },
            None => {},
        }
    }
    loop
        invariant
            i <= cur <= v@.len(),
            (match jstr(v@, cur as int) {
                Some((rest, end)) => jstr(v@, i as int) == Some((acc@ + rest, end)) && cur < end
                    <= v@.len(),
                None => jstr(v@, i as int) is None,
            }) || (jstr(v@, cur as int) is None && jstr(v@, i as int) is None),
        decreases v@.len() - cur,
    {
        if cur >= v.len() {
            return None;
        }
        let c = v[cur];
        if c == '"' {
            proof {
                assert(acc@ + Seq::<char>::empty() =~= acc@);
            }
            return Some((acc, cur + 1));
        }
        if c == '\\' {
            if v.len() - cur < 2 {
                return None;
            }
            let e = v[cur + 1];
            if e == '"' || e == '\\' || e == '/' {
                proof {
                    jstr_step(v@, cur as int, cur + 2, e, acc@, i as int);
                }
                acc.push(e);
                cur = cur + 2;
            } else if e == 'b' {
                proof {
                    jstr_step(v@, cur as int, cur + 2, '\x08', acc@, i as int);
                }
                acc.push('\x08');
                cur = cur + 2;
            } else if e == 'f' {
                proof {
                    jstr_step(v@, cur as int, cur + 2, '\x0c', acc@, i as int);
                }
                acc.push('\x0c');
                cur = cur + 2;
            } else if e == 'n' {
                proof {
                    jstr_step(v@, cur as int, cur + 2, '\n', acc@, i as int);
                }
                acc.push('\n');
                cur = cur + 2;
            } else if e == 'r' {
                proof {
                    jstr_step(v@, cur as int, cur + 2, '\r', acc@, i as int);
                }
                acc.push('\r');
                cur = cur + 2;
            } else if e == 't' {
                proof {
                    jstr_step(v@, cur as int, cur + 2, '\t', acc@, i as int);
                }
                acc.push('\t');
                cur = cur + 2;
            } else if e == 'u' {
                if v.len() - cur < 6 {
                    return None;
                }
                match hex4_exec(v, cur + 2) {
                    None => {
                        return None;
                    },
                    Some(cp) => {
                        if 0xD800 <= cp && cp < 0xDC00 {
                            if v.len() - cur < 12 {
                                return None;
                            }
                            if v[cur + 6] != '\\' || v[cur + 7] != 'u' {
                                return None;
                            }
                            match hex4_exec(v, cur + 8) {
                                None => {
                                    return None;
                                },
                                Some(lo) => {
                                    if !(0xDC00 <= lo && lo < 0xE000) {
                                        return None;
                                    }
                                    let combined: u32 = 0x10000 + (cp - 0xD800) * 0x400 + (lo
                                        - 0xDC00);
                                    match char::from_u32(combined) {
                                        Some(ch) => {
                                            proof {
                                                vstd::utf8::char_u32_cast(ch, combined);
                                                assert(ch == (0x10000 + (hex4v(v@, cur + 2)
                                                    - 0xD800) * 0x400 + (hex4v(v@, cur + 8)
                                                    - 0xDC00)) as char);
                                                jstr_step(
                                                    v@,
                                                    cur as int,
                                                    cur + 12,
                                                    ch,
                                                    acc@,
                                                    i as int,
                                                );
                                            }
                                            acc.push(ch);
                                            cur = cur + 12;
                                        },
                                        None => {
                                            proof {
                                                assert(false);
                                            }
                                            return None;
                                        },
                                    }
                                },
                            }
                        } else if 0xDC00 <= cp && cp < 0xE000 {
                            return None;
                        } else {
                            match char::from_u32(cp) {
                                Some(ch) => {
                                    proof {
                                        vstd::utf8::char_u32_cast(ch, cp);
                                        assert(ch == hex4v(v@, cur + 2) as char);
                                        jstr_step(v@, cur as int, cur + 6, ch, acc@, i as int);
                                    }
                                    acc.push(ch);
                                    cur = cur + 6;
                                },
                                None => {
                                    proof {
                                        assert(false);
                                    }
                                    return None;
                                },
                            }
                        }
                    },
                }
            } else {
                return None;
            }
        } else {
            proof {
                jstr_step(v@, cur as int, cur + 1, c, acc@, i as int);
            }
            acc.push(c);
            cur = cur + 1;
        }
    }
}

fn num_end_exec(v: &Vec<char>, i: usize) -> (j: usize)
    requires
        i <= v@.len(),
    ensures
        j == num_end(v@, i as int),
        i <= j <= v@.len(),
{
    let mut cur = i;
    while cur < v.len() && is_num_char_exec(v[cur])
        invariant
            i <= cur <= v@.len(),
            num_end(v@, i as int) == num_end(v@, cur as int),
        decreases v@.len() - cur,
    {
        cur = cur + 1;
    }
    cur
}

fn is_num_char_exec(c: char) -> (r: bool)
    ensures
        r == is_num_char(c),
{
    let u = c as u32;
    (48 <= u && u <= 57) || c == '-' || c == '+' || c == '.' || c == 'e' || c == 'E'
}

fn has_digit_exec(v: &Vec<char>, i: usize, e: usize) -> (r: bool)
    requires
        i <= e <= v@.len(),
    ensures
        r == has_digit(v@, i as int, e as int),
{
    let mut cur = i;
    while cur < e
        invariant
            i <= cur <= e <= v@.len(),
            !has_digit(v@, i as int, cur as int),
        decreases e - cur,
    {
        let u = v[cur] as u32;
        if 48 <= u && u <= 57 {
            proof {
                lemma_has_digit_sub(v@, i as int, cur as int, e as int);
            }
            return true;
        }
        cur = cur + 1;
    }
    false
}

/// A digit inside a range is a digit of every enclosing range.
proof fn lemma_has_digit_sub(s: Seq<char>, i: int, k: int, e: int)
    requires
        i <= k < e <= s.len(),
        is_digit(s[k]),
    ensures
        has_digit(s, i, e),
    decreases e - k,
{
    if k + 1 < e {
        lemma_has_digit_sub(s, i, k, e - 1);
    }
}

/// Folds one produced token into the running composition: if the tokens
/// from `cur` are `tk` followed by the tokens from `next`, the lexer may
/// emit `tk` and move to `next`.
proof fn jlex_push(s: Seq<char>, cur: int, next: int, tk: JsonTok, toks: Seq<JsonTok>, i: int)
    requires
        jlex(s, cur) == jcons(jtok_view(tk), jlex(s, next)),
        (match jlex(s, cur) {
            Some(rest) => jlex(s, i) == Some(jtoks_view(toks) + rest),
            None => jlex(s, i) is None,
        }),
    ensures
        (match jlex(s, next) {
            Some(rest) => jlex(s, i) == Some(jtoks_view(toks.push(tk)) + rest),
            None => jlex(s, i) is None,
        }),
{
    match jlex(s, next) {
        Some(rest) => {
            assert(jtoks_view(toks.push(tk)) =~= jtoks_view(toks) + seq![jtok_view(tk)]);
            assert(jtoks_view(toks) + (seq![jtok_view(tk)] + rest) =~= jtoks_view(toks.push(tk))
                + rest);
        },
        None => {},
    }
}

/// Lexes the literal `null` at `cur`.
fn lex_null(v: &Vec<char>, cur: usize) -> (r: Option<usize>)
    requires
        cur < v@.len(),
        v@[cur as int] == 'n',
    ensures
        (match r {
            Some(next) => cur < next <= v@.len() && jlex(v@, cur as int) == jcons(
                JsonTokView::Null,
                jlex(v@, next as int),
            ),
            None => jlex(v@, cur as int) is None,
        }),
{
    if v.len() - cur < 4 || v[cur + 1] != 'u' || v[cur + 2] != 'l' || v[cur + 3] != 'l' {
        proof {
            if cur + 4 <= v@.len() && v@.subrange(cur as int, cur + 4) == seq!['n', 'u', 'l', 'l'] {
                assert(v@.subrange(cur as int, cur + 4)[1] == 'u');
                assert(v@.subrange(cur as int, cur + 4)[2] == 'l');
                assert(v@.subrange(cur as int, cur + 4)[3] == 'l');
            }
        }
        return None;
    }
    proof {
        assert(v@.subrange(cur as int, cur + 4) =~= seq!['n', 'u', 'l', 'l']);
    }
    Some(cur + 4)
}

/// Lexes the literal `true` at `cur`.
fn lex_true(v: &Vec<char>, cur: usize) -> (r: Option<usize>)
    requires
        cur < v@.len(),
        v@[cur as int] == 't',
    ensures
        (match r {
            Some(next) => cur < next <= v@.len() && jlex(v@, cur as int) == jcons(
                JsonTokView::True,
                jlex(v@, next as int),
            ),
            None => jlex(v@, cur as int) is None,
        }),
{
    if v.len() - cur < 4 || v[cur + 1] != 'r' || v[cur + 2] != 'u' || v[cur + 3] != 'e' {
        proof {
            if cur + 4 <= v@.len() && v@.subrange(cur as int, cur + 4) == seq!['t', 'r', 'u', 'e'] {
                assert(v@.subrange(cur as int, cur + 4)[1] == 'r');
                assert(v@.subrange(cur as int, cur + 4)[2] == 'u');
                assert(v@.subrange(cur as int, cur + 4)[3] == 'e');
            }
        }
        return None;
    }
    proof {
        assert(v@.subrange(cur as int, cur + 4) =~= seq!['t', 'r', 'u', 'e']);
    }
    Some(cur + 4)
}

/// Lexes the literal `false` at `cur`.
fn lex_false(v: &Vec<char>, cur: usize) -> (r: Option<usize>)
    requires
        cur < v@.len(),
        v@[cur as int] == 'f',
    ensures
        (match r {
            Some(next) => cur < next <= v@.len() && jlex(v@, cur as int) == jcons(
                JsonTokView::False,
                jlex(v@, next as int),
            ),
            None => jlex(v@, cur as int) is None,
        }),
{
    if v.len() - cur < 5 || v[cur + 1] != 'a' || v[cur + 2] != 'l' || v[cur + 3] != 's' || v[cur
        + 4] != 'e' {
        proof {
            if cur + 5 <= v@.len() && v@.subrange(cur as int, cur + 5) == seq![
                'f',
                'a',
                'l',
                's',
                'e',
            ] {
                assert(v@.subrange(cur as int, cur + 5)[1] == 'a');
                assert(v@.subrange(cur as int, cur + 5)[2] == 'l');
                assert(v@.subrange(cur as int, cur + 5)[3] == 's');
                assert(v@.subrange(cur as int, cur + 5)[4] == 'e');
            }
        }
        return None;
    }
    proof {
        assert(v@.subrange(cur as int, cur + 5) =~= seq!['f', 'a', 'l', 's', 'e']);
    }
    Some(cur + 5)
}

/// Lexes a number token at `cur`.
fn lex_number(v: &Vec<char>, cur: usize) -> (r: Option<(Vec<char>, usize)>)
    requires
        cur < v@.len(),
        is_digit(v@[cur as int]) || v@[cur as int] == '-',
        !is_json_ws(v@[cur as int]),
    ensures
        (match r {
            Some(p) => cur < p.1 <= v@.len() && jlex(v@, cur as int) == jcons(
                JsonTokView::Number(p.0@),
                jlex(v@, p.1 as int),
            ),
            None => jlex(v@, cur as int) is None,
        }),
{
    let e = num_end_exec(v, cur);
    if !has_digit_exec(v, cur, e) {
        return None;
    }
    proof {
        assert(is_num_char(v@[cur as int]));
        assert(num_end(v@, cur as int) >= cur + 1);
    }
    let raw = copy_range(v, cur, e);
    Some((raw, e))
}

#[verifier::rlimit(50)]
pub(crate) fn jlex_exec(v: &Vec<char>) -> (r: Option<Vec<JsonTok>>)
    ensures
        (match r {
            Some(ts) => jlex(v@, 0) == Some(jtoks_view(ts@)),
            None => jlex(v@, 0) is None,
        }),
{
    let mut toks: Vec<JsonTok> = Vec::new();
    let mut cur: usize = 0;
    proof {
        match jlex(v@, 0) {
            Some(rest) => {
                assert(jtoks_view(toks@) + rest =~= rest);
            },
            None => {},
        }
    }
    loop
        invariant
            cur <= v@.len(),
            (match jlex(v@, cur as int) {
                Some(rest) => jlex(v@, 0) == Some(jtoks_view(toks@) + rest),
                None => jlex(v@, 0) is None,
            }),
        decreases v@.len() - cur,
    {
        if cur >= v.len() {
            proof {
                assert(jtoks_view(toks@) + Seq::<JsonTokView>::empty() =~= jtoks_view(toks@));
            }
            return Some(toks);
        }
        let c = v[cur];
        let u = c as u32;
        if c == ' ' || c == '\t' || c == '\n' || c == '\r' {
            cur = cur + 1;
        } else if c == '{' || c == '}' || c == '[' || c == ']' || c == ',' || c == ':' {
            let t = if c == '{' {
                JsonTok::LBrace
            } else if c == '}' {
                JsonTok::RBrace
            } else if c == '[' {
                JsonTok::LBrack
            } else if c == ']' {
                JsonTok::RBrack
            } else if c == ',' {
                JsonTok::Comma
            } else {
                JsonTok::Colon
            };
            proof {
                jlex_push(v@, cur as int, cur + 1, t, toks@, 0);
            }
            toks.push(t);
            cur = cur + 1;
        } else if c == '"' {
            match jstr_exec(v, cur + 1) {
                None => {
                    return None;
                },
                Some((txt, j)) => {
                    let t = JsonTok::Text(txt);
                    proof {
                        jlex_push(v@, cur as int, j as int, t, toks@, 0);
                    }
                    toks.push(t);
                    cur = j;
                },
            }
        } else if c == 'n' {
            match lex_null(v, cur) {
                None => {
                    return None;
                },
                Some(next) => {
                    proof {
                        jlex_push(v@, cur as int, next as int, JsonTok::Null, toks@, 0);
                    }
                    toks.push(JsonTok::Null);
                    cur = next;
                },
            }
        } else if c == 't' {
            match lex_true(v, cur) {
                None => {
                    return None;
                },
                Some(next) => {
                    proof {
                        jlex_push(v@, cur as int, next as int, JsonTok::True, toks@, 0);
                    }
                    toks.push(JsonTok::True);
                    cur = next;
                },
            }
        } else if c == 'f' {
            match lex_false(v, cur) {
                None => {
                    return None;
                },
                Some(next) => {
                    proof {
                        jlex_push(v@, cur as int, next as int, JsonTok::False, toks@, 0);
                    }
                    toks.push(JsonTok::False);
                    cur = next;
                },
            }
        } else if (48 <= u && u <= 57) || c == '-' {
            match lex_number(v, cur) {
                None => {
                    return None;
                },
                Some((raw, next)) => {
                    let t = JsonTok::Number(raw);
                    proof {
                        jlex_push(v@, cur as int, next as int, t, toks@, 0);
                    }
                    toks.push(t);
                    cur = next;
                },
            }
        } else {
            return None;
        }
    }
}

/// Mathematical image of one frame of the value stack: an array or object
/// under construction (for an object, together with a key waiting for its
/// value).
pub enum JFrameView {
    Arr(Seq<JsonView>),
    Obj(Seq<(Seq<char>, JsonView)>, Option<Seq<char>>),
}

/// One frame of the value stack.
pub enum JFrame {
    Arr(Vec<JsonValue>),
    Obj(Vec<(Vec<char>, JsonValue)>, Option<Vec<char>>),
}

pub open spec fn jframe_view(f: JFrame) -> JFrameView {
    match f {
        JFrame::Arr(es) => JFrameView::Arr(jsons_view(es@)),
        JFrame::Obj(ps, pk) => JFrameView::Obj(
            members_view(ps@),
            match pk {
                Some(k) => Some(k@),
                None => None,
            },
        ),
    }
}

pub open spec fn jframes_view(fs: Seq<JFrame>) -> Seq<JFrameView> {
    Seq::new(fs.len(), |i: int| jframe_view(fs[i]))
}

pub open spec fn opt_json_view(o: Option<JsonValue>) -> Option<JsonView> {
    match o {
        Some(v) => Some(json_view(v)),
        None => None,
    }
}

/// What the grammar expects next while a token stream is run.
#[derive(Clone, Copy, PartialEq, Eq, Structural, Debug)]
pub enum JMode {
    /// a value
    ExpectValue,
    /// a value, or the immediate end of a just-opened array
    ExpectFirst,
    /// a key, or the immediate end of a just-opened object
    ExpectKey,
    /// a key only (after a comma)
    ExpectKeyStrict,
    /// the colon between a key and its value
    ExpectColon,
    /// a separator or a closing bracket
    AfterValue,
}

/// Where a completed value goes: into the innermost open array, as the
/// value of the innermost object's pending key, or as the document root
/// when nothing is open; `None` when a value appears where none may.
pub open spec fn jattach(
    stack: Seq<JFrameView>,
    root: Option<JsonView>,
    v: JsonView,
) -> Option<(Seq<JFrameView>, Option<JsonView>)> {
    if stack.len() == 0 {
        if root is Some {
            None
        } else {
            Some((stack, Some(v)))
        }
    } else {
        match stack.last() {
            JFrameView::Arr(es) => Some((stack.drop_last().push(JFrameView::Arr(es.push(v))), root)),
            JFrameView::Obj(ps, pk) => match pk {
                Some(k) => Some(
                    (stack.drop_last().push(JFrameView::Obj(ps.push((k, v)), None)), root),
                ),
                None => None,
            },
        }
    }
}

pub open spec fn jstep_attach(
    stack: Seq<JFrameView>,
    root: Option<JsonView>,
    v: JsonView,
) -> Option<(Seq<JFrameView>, Option<JsonView>, JMode)> {
    match jattach(stack, root, v) {
        Some((st, r)) => Some((st, r, JMode::AfterValue)),
        None => None,
    }
}

/// One step of the JSON grammar machine: the new state after reading token
/// `t`, or `None` when the token is not allowed here.
pub open spec fn jstep(
    stack: Seq<JFrameView>,
    root: Option<JsonView>,
    mode: JMode,
    t: JsonTokView,
) -> Option<(Seq<JFrameView>, Option<JsonView>, JMode)> {
    match mode {
        JMode::ExpectValue | JMode::ExpectFirst => match t {
            JsonTokView::Null => jstep_attach(stack, root, JsonView::Null),
            JsonTokView::True => jstep_attach(stack, root, JsonView::Boolean(true)),
            JsonTokView::False => jstep_attach(stack, root, JsonView::Boolean(false)),
            JsonTokView::Number(n) => jstep_attach(stack, root, JsonView::Number(n)),
            JsonTokView::Text(s) => jstep_attach(stack, root, JsonView::Text(s)),
            JsonTokView::LBrack => Some(
                (stack.push(JFrameView::Arr(Seq::empty())), root, JMode::ExpectFirst),
            ),
            JsonTokView::LBrace => Some(
                (stack.push(JFrameView::Obj(Seq::empty(), None)), root, JMode::ExpectKey),
            ),
            JsonTokView::RBrack => {
                if mode == JMode::ExpectFirst && stack.len() > 0 {
                    match stack.last() {
                        JFrameView::Arr(es) => jstep_attach(
                            stack.drop_last(),
                            root,
                            JsonView::Array(es),
                        ),
                        _ => None,
                    }
                } else {
                    None
                }
            },
            _ => None,
        },
        JMode::ExpectKey => {
            if stack.len() == 0 {
                None
            } else {
                match (stack.last(), t) {
                    (JFrameView::Obj(ps, pk), JsonTokView::Text(k)) => {
                        if pk is None {
                            Some(
                                (
                                    stack.drop_last().push(JFrameView::Obj(ps, Some(k))),
                                    root,
                                    JMode::ExpectColon,
                                ),
                            )
                        } else {
                            None
                        }
                    },
                    (JFrameView::Obj(ps, pk), JsonTokView::RBrace) => {
                        if pk is None {
                            jstep_attach(stack.drop_last(), root, JsonView::Object(ps))
                        } else {
                            None
                        }
                    },
                    _ => None,
                }
            }
        },
        JMode::ExpectKeyStrict => {
            if stack.len() == 0 {
                None
            } else {
                match (stack.last(), t) {
                    (JFrameView::Obj(ps, pk), JsonTokView::Text(k)) => {
                        if pk is None {
                            Some(
                                (
                                    stack.drop_last().push(JFrameView::Obj(ps, Some(k))),
                                    root,
                                    JMode::ExpectColon,
                                ),
                            )
                        } else {
                            None
                        }
                    },
                    _ => None,
                }
            }
        },
        JMode::ExpectColon => match t {
            JsonTokView::Colon => Some((stack, root, JMode::ExpectValue)),
            _ => None,
        },
        JMode::AfterValue => {
            if stack.len() == 0 {
                None
            } else {
                match (stack.last(), t) {
                    (JFrameView::Arr(es), JsonTokView::Comma) => Some(
                        (stack, root, JMode::ExpectValue),
                    ),
                    (JFrameView::Arr(es), JsonTokView::RBrack) => jstep_attach(
                        stack.drop_last(),
                        root,
                        JsonView::Array(es),
                    ),
                    (JFrameView::Obj(ps, pk), JsonTokView::Comma) => {
                        if pk is None {
                            Some((stack, root, JMode::ExpectKeyStrict))
                        } else {
                            None
                        }
                    },
                    (JFrameView::Obj(ps, pk), JsonTokView::RBrace) => {
                        if pk is None {
                            jstep_attach(stack.drop_last(), root, JsonView::Object(ps))
                        } else {
                            None
                        }
                    },
                    _ => None,
                }
            }
        },
    }
}

/// Runs the token stream from token `i` on, yielding the document's one
/// value; `None` when the stream does not form exactly one JSON value.
pub open spec fn jrun(
    toks: Seq<JsonTokView>,
    i: int,
    stack: Seq<JFrameView>,
    root: Option<JsonView>,
    mode: JMode,
) -> Option<JsonView>
    decreases toks.len() - i,
{
    if i < 0 || i > toks.len() {
        None
    } else if i == toks.len() {
        if mode == JMode::AfterValue && stack.len() == 0 {
            root
        } else {
            None
        }
    } else {
        match jstep(stack, root, mode, toks[i]) {
            None => None,
            Some((st, r, m)) => jrun(toks, i + 1, st, r, m),
        }
    }
}

/// The JSON value an input denotes, or `None` when it is malformed.
pub open spec fn json_doc(s: Seq<char>) -> Option<JsonView> {
    match jlex(s, 0) {
        None => None,
        Some(toks) => jrun(toks, 0, Seq::empty(), None, JMode::ExpectValue),
    }
}

/// The view of an array or object value, written over the list views.
pub(crate) proof fn lemma_json_view_shape(v: JsonValue)
    ensures
        (v matches JsonValue::Array(es) ==> json_view(v) == JsonView::Array(jsons_view(es@))),
        (v matches JsonValue::Object(ps) ==> json_view(v) == JsonView::Object(members_view(ps@))),
{
    match v {
        JsonValue::Array(es) => {
            assert(json_view(v)->Array_0 =~= jsons_view(es@));
        },
        JsonValue::Object(ps) => {
            assert(json_view(v)->Object_0 =~= members_view(ps@));
        },
        _ => {},
    }
}

fn attach_exec(stack: &mut Vec<JFrame>, root: &mut Option<JsonValue>, v: JsonValue) -> (ok: bool)
    ensures
        ok ==> jattach(jframes_view(old(stack)@), opt_json_view(*old(root)), json_view(v)) == Some(
            (jframes_view(final(stack)@), opt_json_view(*final(root))),
        ),
        !ok ==> jattach(jframes_view(old(stack)@), opt_json_view(*old(root)), json_view(v)) is None,
{
    let ghost st0 = stack@;
    let ghost r0 = *root;
    if stack.len() == 0 {
        if root.is_some() {
            return false;
        }
        *root = Some(v);
        proof {
            assert(jframes_view(st0).len() == 0);
            assert(jattach(jframes_view(st0), opt_json_view(r0), json_view(v)) == Some(
                (jframes_view(stack@), opt_json_view(*root)),
            ));
        }
        return true;
    }
    match stack.pop() {
        None => {
            proof {
                assert(false);
            }
            false
        },
        Some(f) => {
            proof {
                assert(jframes_view(st0).last() == jframe_view(f));
                assert(jframes_view(st0).drop_last() =~= jframes_view(stack@));
            }
            let ghost stpop = stack@;
            match f {
                JFrame::Arr(mut es) => {
                    let ghost es0 = es@;
                    es.push(v);
                    proof {
                        assert(jsons_view(es@) =~= jsons_view(es0).push(json_view(v)));
                    }
                    let f2 = JFrame::Arr(es);
                    stack.push(f2);
                    proof {
                        assert(jframes_view(stack@) =~= jframes_view(stpop).push(jframe_view(f2)));
                        assert(jsons_view(es0).push(json_view(v)) == jsons_view(f2->Arr_0@));
                        assert(jattach(jframes_view(st0), opt_json_view(r0), json_view(v)) == Some(
                            (jframes_view(stack@), opt_json_view(*root)),
                        ));
                    }
                    true
                },
                JFrame::Obj(mut ps, pk) => {
                    match pk {
                        Some(k) => {
                            let ghost ps0 = ps@;
                            let ghost kv = k@;
                            ps.push((k, v));
                            proof {
                                assert(members_view(ps@) =~= members_view(ps0).push(
                                    (kv, json_view(v)),
                                ));
                            }
                            let f2 = JFrame::Obj(ps, None);
                            stack.push(f2);
                            proof {
                                assert(jframes_view(stack@) =~= jframes_view(stpop).push(
                                    jframe_view(f2),
                                ));
                                assert(jattach(jframes_view(st0), opt_json_view(r0), json_view(v))
                                    == Some((jframes_view(stack@), opt_json_view(*root))));
                            }
                            true
                        },
                        None => false,
                    }
                },
            }
        },
    }
}

fn jstep_exec(stack: &mut Vec<JFrame>, root: &mut Option<JsonValue>, mode: &mut JMode, t: JsonTok) -> (ok:
    bool)
    ensures
        ok ==> jstep(
            jframes_view(old(stack)@),
            opt_json_view(*old(root)),
            *old(mode),
            jtok_view(t),
        ) == Some((jframes_view(final(stack)@), opt_json_view(*final(root)), *final(mode))),
        !ok ==> jstep(
            jframes_view(old(stack)@),
            opt_json_view(*old(root)),
            *old(mode),
            jtok_view(t),
        ) is None,
{
    let ghost st0 = stack@;
    let ghost r0 = *root;
    let ghost t0 = jtok_view(t);
    let m = *mode;
    match m {
        JMode::ExpectValue | JMode::ExpectFirst => {
            match t {
                JsonTok::Null => {
                    let ok = attach_exec(stack, root, JsonValue::Null);
                    *mode = JMode::AfterValue;
                    proof {
                        if ok {
                            assert(jstep(jframes_view(st0), opt_json_view(r0), m, t0) == Some(
                                (jframes_view(stack@), opt_json_view(*root), *mode),
                            ));
                        }
                    }
                    ok
                },
                JsonTok::True => {
                    let ok = attach_exec(stack, root, JsonValue::Boolean(true));
                    *mode = JMode::AfterValue;
                    proof {
                        if ok {
                            assert(jstep(jframes_view(st0), opt_json_view(r0), m, t0) == Some(
                                (jframes_view(stack@), opt_json_view(*root), *mode),
                            ));
                        }
                    }
                    ok
                },
                JsonTok::False => {
                    let ok = attach_exec(stack, root, JsonValue::Boolean(false));
                    *mode = JMode::AfterValue;
                    proof {
                        if ok {
                            assert(jstep(jframes_view(st0), opt_json_view(r0), m, t0) == Some(
                                (jframes_view(stack@), opt_json_view(*root), *mode),
                            ));
                        }
                    }
                    ok
                },
                JsonTok::Number(n) => {
                    let ok = attach_exec(stack, root, JsonValue::Number(n));
                    *mode = JMode::AfterValue;
                    proof {
                        if ok {
                            assert(jstep(jframes_view(st0), opt_json_view(r0), m, t0) == Some(
                                (jframes_view(stack@), opt_json_view(*root), *mode),
                            ));
                        }
                    }
                    ok
                },
                JsonTok::Text(s) => {
                    let ok = attach_exec(stack, root, JsonValue::Text(s));
                    *mode = JMode::AfterValue;
                    proof {
                        if ok {
                            assert(jstep(jframes_view(st0), opt_json_view(r0), m, t0) == Some(
                                (jframes_view(stack@), opt_json_view(*root), *mode),
                            ));
                        }
                    }
                    ok
                },
                JsonTok::LBrack => {
                    let f = JFrame::Arr(Vec::new());
                    proof {
                        assert(jframe_view(f) == JFrameView::Arr(Seq::<JsonView>::empty())) by {
                            assert(jsons_view(Seq::<JsonValue>::empty()) =~= Seq::<
                                JsonView,
                            >::empty());
                        }
                    }
                    stack.push(f);
                    *mode = JMode::ExpectFirst;
                    proof {
                        assert(jframes_view(stack@) =~= jframes_view(st0).push(jframe_view(f)));
                        assert(jstep(jframes_view(st0), opt_json_view(r0), m, t0) == Some(
                            (jframes_view(stack@), opt_json_view(*root), *mode),
                        ));
                    }
                    true
                },
                JsonTok::LBrace => {
                    let f = JFrame::Obj(Vec::new(), None);
                    proof {
                        assert(jframe_view(f) == JFrameView::Obj(
                            Seq::<(Seq<char>, JsonView)>::empty(),
                            None,
                        )) by {
                            assert(members_view(Seq::<(Vec<char>, JsonValue)>::empty()) =~= Seq::<
                                (Seq<char>, JsonView),
                            >::empty());
                        }
                    }
                    stack.push(f);
                    *mode = JMode::ExpectKey;
                    proof {
                        assert(jframes_view(stack@) =~= jframes_view(st0).push(jframe_view(f)));
                        assert(jstep(jframes_view(st0), opt_json_view(r0), m, t0) == Some(
                            (jframes_view(stack@), opt_json_view(*root), *mode),
                        ));
                    }
                    true
                },
                JsonTok::RBrack => {
                    if !matches!(m, JMode::ExpectFirst) {
                        return false;
                    }
                    match stack.pop() {
                        None => false,
                        Some(f) => {
                            proof {
                                assert(jframes_view(st0).last() == jframe_view(f));
                                assert(jframes_view(st0).drop_last() =~= jframes_view(stack@));
                            }
                            match f {
                                JFrame::Arr(es) => {
                                    let val = JsonValue::Array(es);
                                    proof {
                                        lemma_json_view_shape(val);
                                    }
                                    let ok = attach_exec(stack, root, val);
                                    *mode = JMode::AfterValue;
                                    proof {
                        if ok {
                            assert(jstep(jframes_view(st0), opt_json_view(r0), m, t0) == Some(
                                (jframes_view(stack@), opt_json_view(*root), *mode),
                            ));
                        }
                    }
                    ok
                                },
                                _ => false,
                            }
                        },
                    }
                },
                _ => false,
            }
        },
        JMode::ExpectKey | JMode::ExpectKeyStrict => {
            match t {
                JsonTok::Text(k) => {
                    match stack.pop() {
                        None => false,
                        Some(f) => {
                            proof {
                                assert(jframes_view(st0).last() == jframe_view(f));
                                assert(jframes_view(st0).drop_last() =~= jframes_view(stack@));
                            }
                            let ghost stpop = stack@;
                            match f {
                                JFrame::Obj(ps, pk) => {
                                    if pk.is_some() {
                                        return false;
                                    }
                                    let f2 = JFrame::Obj(ps, Some(k));
                                    stack.push(f2);
                                    *mode = JMode::ExpectColon;
                                    proof {
                                        assert(jframes_view(stack@) =~= jframes_view(stpop).push(
                                            jframe_view(f2),
                                        ));
                                        assert(jstep(jframes_view(st0), opt_json_view(r0), m, t0)
                                            == Some(
                                            (jframes_view(stack@), opt_json_view(*root), *mode),
                                        ));
                                    }
                                    true
                                },
                                _ => false,
                            }
                        },
                    }
                },
                JsonTok::RBrace => {
                    if !matches!(m, JMode::ExpectKey) {
                        return false;
                    }
                    match stack.pop() {
                        None => false,
                        Some(f) => {
                            proof {
                                assert(jframes_view(st0).last() == jframe_view(f));
                                assert(jframes_view(st0).drop_last() =~= jframes_view(stack@));
                            }
                            match f {
                                JFrame::Obj(ps, pk) => {
                                    if pk.is_some() {
                                        return false;
                                    }
                                    let val = JsonValue::Object(ps);
                                    proof {
                                        lemma_json_view_shape(val);
                                    }
                                    let ok = attach_exec(stack, root, val);
                                    *mode = JMode::AfterValue;
                                    proof {
                        if ok {
                            assert(jstep(jframes_view(st0), opt_json_view(r0), m, t0) == Some(
                                (jframes_view(stack@), opt_json_view(*root), *mode),
                            ));
                        }
                    }
                    ok
                                },
                                _ => false,
                            }
                        },
                    }
                },
                _ => false,
            }
        },
        JMode::ExpectColon => {
            match t {
                JsonTok::Colon => {
                    *mode = JMode::ExpectValue;
                    proof {
                        assert(jstep(jframes_view(st0), opt_json_view(r0), m, t0) == Some(
                            (jframes_view(stack@), opt_json_view(*root), *mode),
                        ));
                    }
                    true
                },
                _ => false,
            }
        },
        JMode::AfterValue => {
            if stack.len() == 0 {
                return false;
            }
            let n = stack.len();
            let is_arr = matches!(&stack[n - 1], JFrame::Arr(_));
            proof {
                assert(jframes_view(st0).last() == jframe_view(st0.last()));
            }
            match t {
                JsonTok::Comma => {
                    match &stack[n - 1] {
                        JFrame::Arr(_) => {
                            *mode = JMode::ExpectValue;
                            proof {
                                assert(jstep(jframes_view(st0), opt_json_view(r0), m, t0) == Some(
                                    (jframes_view(stack@), opt_json_view(*root), *mode),
                                ));
                            }
                            true
                        },
                        JFrame::Obj(_, pk) => {
                            if pk.is_some() {
                                return false;
                            }
                            *mode = JMode::ExpectKeyStrict;
                            proof {
                                assert(jstep(jframes_view(st0), opt_json_view(r0), m, t0) == Some(
                                    (jframes_view(stack@), opt_json_view(*root), *mode),
                                ));
                            }
                            true
                        },
                    }
                },
                JsonTok::RBrack => {
                    match stack.pop() {
                        None => false,
                        Some(f) => {
                            proof {
                                assert(jframes_view(st0).last() == jframe_view(f));
                                assert(jframes_view(st0).drop_last() =~= jframes_view(stack@));
                            }
                            match f {
                                JFrame::Arr(es) => {
                                    let val = JsonValue::Array(es);
                                    proof {
                                        lemma_json_view_shape(val);
                                    }
                                    let ok = attach_exec(stack, root, val);
                                    *mode = JMode::AfterValue;
                                    proof {
                        if ok {
                            assert(jstep(jframes_view(st0), opt_json_view(r0), m, t0) == Some(
                                (jframes_view(stack@), opt_json_view(*root), *mode),
                            ));
                        }
                    }
                    ok
                                },
                                _ => false,
                            }
                        },
                    }
                },
                JsonTok::RBrace => {
                    match stack.pop() {
                        None => false,
                        Some(f) => {
                            proof {
                                assert(jframes_view(st0).last() == jframe_view(f));
                                assert(jframes_view(st0).drop_last() =~= jframes_view(stack@));
                            }
                            match f {
                                JFrame::Obj(ps, pk) => {
                                    if pk.is_some() {
                                        return false;
                                    }
                                    let val = JsonValue::Object(ps);
                                    proof {
                                        lemma_json_view_shape(val);
                                    }
                                    let ok = attach_exec(stack, root, val);
                                    *mode = JMode::AfterValue;
                                    proof {
                        if ok {
                            assert(jstep(jframes_view(st0), opt_json_view(r0), m, t0) == Some(
                                (jframes_view(stack@), opt_json_view(*root), *mode),
                            ));
                        }
                    }
                    ok
                                },
                                _ => false,
                            }
                        },
                    }
                },
                _ => false,
            }
        },
    }
}

fn jparse_exec(toks: Vec<JsonTok>) -> (r: Option<JsonValue>)
    ensures
        (match r {
            Some(val) => jrun(
                jtoks_view(toks@),
                0,
                Seq::empty(),
                None,
                JMode::ExpectValue,
            ) == Some(json_view(val)),
            None => jrun(jtoks_view(toks@), 0, Seq::empty(), None, JMode::ExpectValue) is None,
        }),
{
    let ghost tv = jtoks_view(toks@);
    let mut stack: Vec<JFrame> = Vec::new();
    let mut root: Option<JsonValue> = None;
    let mut mode = JMode::ExpectValue;
    proof {
        assert(jframes_view(stack@) =~= Seq::<JFrameView>::empty());
    }
    for t in it: toks.into_iter()
        invariant
            tv == jtoks_view(it.seq()),
            jrun(tv, it.index() as int, jframes_view(stack@), opt_json_view(root), mode) == jrun(
                tv,
                0,
                Seq::empty(),
                None,
                JMode::ExpectValue,
            ),
        {
            let ghost idx = it.index() as int;
            proof {
                assert(tv[idx] == jtok_view(t));
            }
            if !jstep_exec(&mut stack, &mut root, &mut mode, t) {
                return None;
            }
        }
    if stack.len() > 0 {
        return None;
    }
    if !matches!(mode, JMode::AfterValue) {
        return None;
    }
    root
}

/// Parses a whole input into its one JSON value, exactly as `json_doc`
/// describes.
pub(crate) fn parse_json(v: &Vec<char>) -> (r: Option<JsonValue>)
    ensures
        (match r {
            Some(val) => json_doc(v@) == Some(json_view(val)),
            None => json_doc(v@) is None,
        }),
{
    match jlex_exec(v) {
        None => None,
        Some(toks) => jparse_exec(toks),
    }
}

} // verus!
