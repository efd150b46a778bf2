//! A verified parser for the XML subset that JUnit-style reports use.
//!
//! The grammar covers declarations and processing instructions, comments,
//! CDATA sections, and nested elements with attributes whose values may use
//! the five predefined entities and numeric character references. Text
//! content is skipped: the reports' data lives in element names and
//! attributes. Documents with a doctype, with mismatched tags, or with
//! none or several root elements are rejected.

use vstd::prelude::*;

use crate::text::copy_range;

verus! {

/// Mathematical image of one parsed element.
pub struct XmlElemView {
    pub name: Seq<char>,
    pub attrs: Seq<(Seq<char>, Seq<char>)>,
    pub children: Seq<XmlElemView>,
}

/// One parsed element: its tag name, its attributes in document order, and
/// its child elements in document order.
pub struct XmlElem {
    pub name: Vec<char>,
    pub attrs: Vec<(Vec<char>, Vec<char>)>,
    pub children: Vec<XmlElem>,
}

/// The views of an attribute list.
pub open spec fn attrs_view(a: Seq<(Vec<char>, Vec<char>)>) -> Seq<(Seq<char>, Seq<char>)> {
    Seq::new(a.len(), |i: int| (a[i].0@, a[i].1@))
}

/// The view of an element, recursively.
pub open spec fn elem_view(e: XmlElem) -> XmlElemView
    decreases e,
    via elem_view_decreases
{
    XmlElemView {
        name: e.name@,
        attrs: attrs_view(e.attrs@),
        children: Seq::new(
            e.children@.len(),
            |i: int|
                if 0 <= i < e.children@.len() {
                    elem_view(e.children@[i])
                } else {
                    XmlElemView { name: Seq::empty(), attrs: Seq::empty(), children: Seq::empty() }
                },
        ),
    }
}

#[via_fn]
proof fn elem_view_decreases(e: XmlElem) {
    assert forall|i: int| 0 <= i < e.children@.len() implies (decreases_to!(e
        => e.children@[i])) by {
        assert(decreases_to!(e => e.children));
        vstd::std_specs::vec::axiom_vec_decreases_to_view(e.children);
        vstd::seq::axiom_seq_index_decreases(e.children@, i);
    }
}

/// The views of an element list.
pub open spec fn elems_view(es: Seq<XmlElem>) -> Seq<XmlElemView> {
    Seq::new(es.len(), |i: int| elem_view(es[i]))
}

/// Mathematical image of one markup token.
pub enum XmlTokView {
    Open(Seq<char>, Seq<(Seq<char>, Seq<char>)>),
    SelfClose(Seq<char>, Seq<(Seq<char>, Seq<char>)>),
    Close(Seq<char>),
}

/// One markup token: an opening tag with its attributes, a self-closing
/// tag, or a closing tag.
pub enum XmlTok {
    Open(Vec<char>, Vec<(Vec<char>, Vec<char>)>),
    SelfClose(Vec<char>, Vec<(Vec<char>, Vec<char>)>),
    Close(Vec<char>),
}

pub open spec fn tok_view(t: XmlTok) -> XmlTokView {
    match t {
        XmlTok::Open(n, a) => XmlTokView::Open(n@, attrs_view(a@)),
        XmlTok::SelfClose(n, a) => XmlTokView::SelfClose(n@, attrs_view(a@)),
        XmlTok::Close(n) => XmlTokView::Close(n@),
    }
}

pub open spec fn toks_view(ts: Seq<XmlTok>) -> Seq<XmlTokView> {
    Seq::new(ts.len(), |i: int| tok_view(ts[i]))
}

pub open spec fn is_ws(c: char) -> bool {
    c == ' ' || c == '\t' || c == '\n' || c == '\r'
}

/// Characters accepted in tag and attribute names: ASCII letters and
/// digits, `:`, `_`, `-`, `.`, and anything beyond ASCII.
pub open spec fn is_name_char(c: char) -> bool {
    (48 <= c as u32 && c as u32 <= 57) || (65 <= c as u32 && c as u32 <= 90) || (97 <= c as u32
        && c as u32 <= 122) || c == ':' || c == '_' || c == '-' || c == '.' || c as u32 > 127
}

/// The first non-whitespace position at or after `i`.
pub open spec fn skip_ws(s: Seq<char>, i: int) -> int
    decreases s.len() - i,
{
    if i < 0 || i >= s.len() {
        s.len() as int
    } else if is_ws(s[i]) {
        skip_ws(s, i + 1)
    } else {
        i
    }
}

/// The first non-name-character position at or after `i`.
pub open spec fn scan_name(s: Seq<char>, i: int) -> int
    decreases s.len() - i,
{
    if i < 0 || i >= s.len() {
        s.len() as int
    } else if is_name_char(s[i]) {
        scan_name(s, i + 1)
    } else {
        i
    }
}

/// The position right after the first occurrence of `pat` at or after `i`,
/// or `None` if the pattern does not occur.
pub open spec fn scan_past(s: Seq<char>, i: int, pat: Seq<char>) -> Option<int>
    decreases s.len() - i + 1,
{
    if i < 0 || i + pat.len() > s.len() {
        None
    } else if s.subrange(i, i + pat.len() as int) == pat {
        Some(i + pat.len() as int)
    } else {
        scan_past(s, i + 1, pat)
    }
}

pub open spec fn is_hex_char(c: char) -> bool {
    crate::text::is_digit(c) || (97 <= c as u32 && c as u32 <= 102) || (65 <= c as u32 && c as u32
        <= 70)
}

/// The value of one hexadecimal digit character.
pub open spec fn hex_char_val(c: char) -> int {
    if crate::text::is_digit(c) {
        c as u32 - 48
    } else if 97 <= c as u32 && c as u32 <= 102 {
        c as u32 - 87
    } else {
        c as u32 - 55
    }
}

/// The value of a string of hexadecimal digit characters.
pub open spec fn hexs_val(s: Seq<char>) -> nat
    decreases s.len(),
{
    if s.len() == 0 {
        0
    } else {
        hexs_val(s.drop_last()) * 16 + hex_char_val(s.last()) as nat
    }
}

/// The first non-decimal-digit position at or after `i`.
pub open spec fn digits_end(s: Seq<char>, i: int) -> int
    decreases s.len() - i,
{
    if i < 0 || i >= s.len() {
        s.len() as int
    } else if crate::text::is_digit(s[i]) {
        digits_end(s, i + 1)
    } else {
        i
    }
}

/// The first non-hexadecimal-digit position at or after `i`.
pub open spec fn hex_end(s: Seq<char>, i: int) -> int
    decreases s.len() - i,
{
    if i < 0 || i >= s.len() {
        s.len() as int
    } else if is_hex_char(s[i]) {
        hex_end(s, i + 1)
    } else {
        i
    }
}

/// Whether a code point is a Unicode scalar value, the values a character
/// reference may denote.
pub open spec fn is_scalar_value(cp: int) -> bool {
    0 <= cp && (cp < 0xD800 || (0xE000 <= cp && cp <= 0x10FFFF))
}

/// The decoded content of an attribute value that starts at `i` and runs to
/// the next quote `q`, together with the position right after that quote.
/// The five predefined entities and decimal and hexadecimal character
/// references to Unicode scalar values are decoded; any other use of `&`,
/// or a value that never closes, is an error.
pub open spec fn scan_value(s: Seq<char>, i: int, q: char) -> Option<(Seq<char>, int)>
    decreases s.len() - i,
{
    if i < 0 || i >= s.len() {
        None
    } else if s[i] == q {
        Some((Seq::empty(), i + 1))
    } else if s[i] == '&' {
        if i + 1 < s.len() && s[i + 1] == '#' {
            if i + 2 < s.len() && s[i + 2] == 'x' {
                let he = hex_end(s, i + 3);
                if he <= i + 3 || he >= s.len() || s[he] != ';' {
                    None
                } else {
                    let cp = hexs_val(s.subrange(i + 3, he)) as int;
                    if is_scalar_value(cp) {
                        let j2 = if i < he + 1 && he + 1 <= s.len() {
                            he + 1
                        } else {
                            i + 1
                        };
                        scan_value_cons(cp as char, scan_value(s, j2, q))
                    } else {
                        None
                    }
                }
            } else {
                let de = digits_end(s, i + 2);
                if de <= i + 2 || de >= s.len() || s[de] != ';' {
                    None
                } else {
                    let cp = crate::text::digits_val(s.subrange(i + 2, de)) as int;
                    if is_scalar_value(cp) {
                        let j2 = if i < de + 1 && de + 1 <= s.len() {
                            de + 1
                        } else {
                            i + 1
                        };
                        scan_value_cons(cp as char, scan_value(s, j2, q))
                    } else {
                        None
                    }
                }
            }
        } else if i + 4 <= s.len() && s.subrange(i, i + 4) == seq!['&', 'l', 't', ';'] {
            scan_value_cons('<', scan_value(s, i + 4, q))
        } else if i + 4 <= s.len() && s.subrange(i, i + 4) == seq!['&', 'g', 't', ';'] {
            scan_value_cons('>', scan_value(s, i + 4, q))
        } else if i + 5 <= s.len() && s.subrange(i, i + 5) == seq!['&', 'a', 'm', 'p', ';'] {
            scan_value_cons('&', scan_value(s, i + 5, q))
        } else if i + 6 <= s.len() && s.subrange(i, i + 6) == seq!['&', 'q', 'u', 'o', 't', ';'] {
            scan_value_cons('"', scan_value(s, i + 6, q))
        } else if i + 6 <= s.len() && s.subrange(i, i + 6) == seq!['&', 'a', 'p', 'o', 's', ';'] {
            scan_value_cons('\'', scan_value(s, i + 6, q))
        } else {
            None
        }
    } else {
        scan_value_cons(s[i], scan_value(s, i + 1, q))
    }
}

pub open spec fn scan_value_cons(c: char, rest: Option<(Seq<char>, int)>) -> Option<
    (Seq<char>, int),
> {
    match rest {
        Some((cs, j)) => Some((seq![c] + cs, j)),
        None => None,
    }
}

pub(crate) fn skip_ws_exec(v: &Vec<char>, i: usize) -> (j: usize)
    requires
        i <= v@.len(),
    ensures
        j == skip_ws(v@, i as int),
        i <= j <= v@.len(),
{
    let mut cur = i;
    while cur < v.len() && (v[cur] == ' ' || v[cur] == '\t' || v[cur] == '\n' || v[cur] == '\r')
        invariant
            i <= cur <= v@.len(),
            skip_ws(v@, i as int) == skip_ws(v@, cur as int),
        decreases v@.len() - cur,
    {
        cur = cur + 1;
    }
    cur
}

pub(crate) fn scan_name_exec(v: &Vec<char>, i: usize) -> (j: usize)
    requires
        i <= v@.len(),
    ensures
        j == scan_name(v@, i as int),
        i <= j <= v@.len(),
{
    let mut cur = i;
    while cur < v.len() && is_name_char_exec(v[cur])
        invariant
            i <= cur <= v@.len(),
            scan_name(v@, i as int) == scan_name(v@, cur as int),
        decreases v@.len() - cur,
    {
        cur = cur + 1;
    }
    cur
}

fn is_name_char_exec(c: char) -> (r: bool)
    ensures
        r == is_name_char(c),
{
    let u = c as u32;
    (48 <= u && u <= 57) || (65 <= u && u <= 90) || (97 <= u && u <= 122) || c == ':' || c == '_'
        || c == '-' || c == '.' || u > 127
}

/// Scans past the next occurrence of the two-character pattern `[a, b]`.
pub(crate) fn scan_past2_exec(v: &Vec<char>, i: usize, a: char, b: char) -> (r: Option<usize>)
    requires
        i <= v@.len(),
    ensures
        (match r {
            Some(j) => scan_past(v@, i as int, seq![a, b]) == Some(j as int) && i < j <= v@.len(),
            None => scan_past(v@, i as int, seq![a, b]) is None,
        }),
{
    let mut cur = i;
    loop
        invariant
            i <= cur <= v@.len(),
            scan_past(v@, i as int, seq![a, b]) == scan_past(v@, cur as int, seq![a, b]),
        decreases v@.len() - cur,
    {
        if v.len() - cur < 2 {
            return None;
        }
        if v[cur] == a && v[cur + 1] == b {
            proof {
                assert(v@.subrange(cur as int, cur + 2) =~= seq![a, b]);
            }
            return Some(cur + 2);
        }
        proof {
            assert(v@.subrange(cur as int, cur + 2) != seq![a, b]) by {
                if v@.subrange(cur as int, cur + 2) == seq![a, b] {
                    assert(v@.subrange(cur as int, cur + 2)[0] == a);
                    assert(v@.subrange(cur as int, cur + 2)[1] == b);
                }
            }
        }
        cur = cur + 1;
    }
}

/// Scans past the next occurrence of the three-character pattern
/// `[a, b, c]`.
pub(crate) fn scan_past3_exec(v: &Vec<char>, i: usize, a: char, b: char, c: char) -> (r: Option<
    usize,
>)
    requires
        i <= v@.len(),
    ensures
        (match r {
            Some(j) => scan_past(v@, i as int, seq![a, b, c]) == Some(j as int) && i < j
                <= v@.len(),
            None => scan_past(v@, i as int, seq![a, b, c]) is None,
        }),
{
    let mut cur = i;
    loop
        invariant
            i <= cur <= v@.len(),
            scan_past(v@, i as int, seq![a, b, c]) == scan_past(v@, cur as int, seq![a, b, c]),
        decreases v@.len() - cur,
    {
        if v.len() - cur < 3 {
            return None;
        }
        if v[cur] == a && v[cur + 1] == b && v[cur + 2] == c {
            proof {
                assert(v@.subrange(cur as int, cur + 3) =~= seq![a, b, c]);
            }
            return Some(cur + 3);
        }
        proof {
            assert(v@.subrange(cur as int, cur + 3) != seq![a, b, c]) by {
                if v@.subrange(cur as int, cur + 3) == seq![a, b, c] {
                    assert(v@.subrange(cur as int, cur + 3)[0] == a);
                    assert(v@.subrange(cur as int, cur + 3)[1] == b);
                    assert(v@.subrange(cur as int, cur + 3)[2] == c);
                }
            }
        }
        cur = cur + 1;
    }
}

fn is_dec_digit_exec(c: char) -> (r: bool)
    ensures
        r == crate::text::is_digit(c),
{
    let u = c as u32;
    48 <= u && u <= 57
}

fn is_hex_char_exec(c: char) -> (r: bool)
    ensures
        r == is_hex_char(c),
{
    let u = c as u32;
    (48 <= u && u <= 57) || (97 <= u && u <= 102) || (65 <= u && u <= 70)
}

fn hex_char_val_exec(c: char) -> (r: u32)
    requires
        is_hex_char(c),
    ensures
        r as int == hex_char_val(c),
        r < 16,
{
    let u = c as u32;
    if 48 <= u && u <= 57 {
        u - 48
    } else if 97 <= u && u <= 102 {
        u - 87
    } else {
        u - 55
    }
}

/// Decodes the character reference that starts with the `&#` at `cur`:
/// the denoted character and the position right after the closing `;`.
/// The code point accumulator saturates just above the scalar-value range,
/// so an overlong reference is refused exactly as its true value would be.
fn scan_char_ref(v: &Vec<char>, cur: usize, q: char) -> (r: Option<(char, usize)>)
    requires
        cur < v@.len(),
        v@[cur as int] == '&',
        v@[cur as int] != q,
        cur + 1 < v@.len(),
        v@[cur + 1] == '#',
    ensures
        (match r {
            Some(p) => scan_value(v@, cur as int, q) == scan_value_cons(
                p.0,
                scan_value(v@, p.1 as int, q),
            ) && cur < p.1 <= v@.len(),
            None => scan_value(v@, cur as int, q) is None,
        }),
{
    let n = v.len();
    if n - cur >= 3 && v[cur + 2] == 'x' {
        let mut h = cur + 3;
        let mut cp: u32 = 0;
        while h < n && is_hex_char_exec(v[h])
            invariant
                cur + 3 <= h <= n,
                n == v@.len(),
                hex_end(v@, cur + 3) == hex_end(v@, h as int),
                ((hexs_val(v@.subrange(cur + 3, h as int)) < 0x110000 && cp as nat == hexs_val(
                    v@.subrange(cur + 3, h as int),
                )) || (hexs_val(v@.subrange(cur + 3, h as int)) >= 0x110000 && cp == 0x110000)),
            decreases n - h,
        {
            proof {
                assert(v@.subrange(cur + 3, h + 1).drop_last() =~= v@.subrange(cur + 3, h as int));
                assert(v@.subrange(cur + 3, h + 1).last() == v@[h as int]);
                assert(hexs_val(v@.subrange(cur + 3, h as int)) <= hexs_val(
                    v@.subrange(cur + 3, h as int),
                ) * 16) by (nonlinear_arith);
            }
            let d = hex_char_val_exec(v[h]);
            if cp >= 0x110000 {
                cp = 0x110000;
            } else {
                cp = cp * 16 + d;
                if cp > 0x110000 {
                    cp = 0x110000;
                }
            }
            h = h + 1;
        }
        proof {
            assert(hex_end(v@, cur + 3) == h as int);
        }
        if h == cur + 3 {
            return None;
        }
        if h >= n {
            return None;
        }
        if v[h] != ';' {
            return None;
        }
        let ghost val = hexs_val(v@.subrange(cur + 3, h as int));
        if !(cp < 0xD800 || (0xE000 <= cp && cp <= 0x10FFFF)) {
            proof {
                if cp == 0x110000 && val >= 0x110000 {
                    assert(!is_scalar_value(val as int));
                } else {
                    assert(cp as nat == val);
                    assert(!is_scalar_value(val as int));
                }
            }
            return None;
        }
        proof {
            assert(cp as nat == val);
            assert(is_scalar_value(val as int));
        }
        match char::from_u32(cp) {
            Some(ch) => {
                proof {
                    vstd::utf8::char_u32_cast(ch, cp);
                    assert(ch == (val as int) as char);
                }
                Some((ch, h + 1))
            },
            None => {
                proof {
                    assert(false);
                }
                None
            },
        }
    } else {
        let mut h = cur + 2;
        let mut cp: u32 = 0;
        while h < n && is_dec_digit_exec(v[h])
            invariant
                cur + 2 <= h <= n,
                n == v@.len(),
                digits_end(v@, cur + 2) == digits_end(v@, h as int),
                ((crate::text::digits_val(v@.subrange(cur + 2, h as int)) < 0x110000 && cp as nat
                    == crate::text::digits_val(v@.subrange(cur + 2, h as int)))
                    || (crate::text::digits_val(v@.subrange(cur + 2, h as int)) >= 0x110000 && cp
                    == 0x110000)),
            decreases n - h,
        {
            proof {
                assert(v@.subrange(cur + 2, h + 1).drop_last() =~= v@.subrange(cur + 2, h as int));
                assert(v@.subrange(cur + 2, h + 1).last() == v@[h as int]);
                assert(crate::text::is_digit(v@[h as int]));
                assert(crate::text::digits_val(v@.subrange(cur + 2, h as int))
                    <= crate::text::digits_val(v@.subrange(cur + 2, h as int)) * 10)
                    by (nonlinear_arith);
            }
            let d = v[h] as u32 - 48;
            if cp >= 0x110000 {
                cp = 0x110000;
            } else {
                cp = cp * 10 + d;
                if cp > 0x110000 {
                    cp = 0x110000;
                }
            }
            h = h + 1;
        }
        proof {
            assert(digits_end(v@, cur + 2) == h as int);
        }
        if h == cur + 2 {
            return None;
        }
        if h >= n {
            return None;
        }
        if v[h] != ';' {
            return None;
        }
        let ghost val = crate::text::digits_val(v@.subrange(cur + 2, h as int));
        if !(cp < 0xD800 || (0xE000 <= cp && cp <= 0x10FFFF)) {
            proof {
                if cp == 0x110000 && val >= 0x110000 {
                    assert(!is_scalar_value(val as int));
                } else {
                    assert(cp as nat == val);
                    assert(!is_scalar_value(val as int));
                }
            }
            return None;
        }
        proof {
            assert(cp as nat == val);
            assert(is_scalar_value(val as int));
        }
        match char::from_u32(cp) {
            Some(ch) => {
                proof {
                    vstd::utf8::char_u32_cast(ch, cp);
                    assert(ch == (val as int) as char);
                }
                Some((ch, h + 1))
            },
            None => {
                proof {
                    assert(false);
                }
                None
            },
        }
    }
}

pub(crate) fn scan_value_exec(v: &Vec<char>, i: usize, q: char) -> (r: Option<(Vec<char>, usize)>)
    requires
        i <= v@.len(),
    ensures
        (match r {
            Some(p) => scan_value(v@, i as int, q) == Some((p.0@, p.1 as int)) && i < p.1
                <= v@.len(),
            None => scan_value(v@, i as int, q) is None,
        }),
{
    let mut acc: Vec<char> = Vec::new();
    let mut cur = i;
    proof {
        scan_value_end_bound(v@, i as int, q);
        match scan_value(v@, i as int, q) {
            Some((rest, end)) => {
                assert(acc@ + rest =~= rest);
            },
            None => {},
        }
    }
    loop
        invariant
            i <= cur <= v@.len(),
            (match scan_value(v@, cur as int, q) {
                Some((rest, end)) => scan_value(v@, i as int, q) == Some((acc@ + rest, end)) && cur
                    < end <= v@.len(),
                None => scan_value(v@, i as int, q) is None,
            }) || (scan_value(v@, cur as int, q) is None && scan_value(v@, i as int, q) is None),
        decreases v@.len() - cur,
    {
        if cur >= v.len() {
            return None;
        }
        let c = v[cur];
        if c == q {
            proof {
                assert(acc@ + Seq::<char>::empty() =~= acc@);
            }
            return Some((acc, cur + 1));
        }
        if c == '&' {
            let n = v.len();
            if n - cur >= 2 && v[cur + 1] == '#' {
                match scan_char_ref(v, cur, q) {
                    None => {
                        return None;
                    },
                    Some((ch, j)) => {
                        proof {
                            scan_value_step(v@, cur as int, j as int, q, ch, acc@, i as int);
                        }
                        acc.push(ch);
                        cur = j;
                    },
                }
            } else if n - cur >= 4 && v[cur + 1] == 'l' && v[cur + 2] == 't' && v[cur + 3] == ';' {
                proof {
                    assert(v@.subrange(cur as int, cur + 4) =~= seq!['&', 'l', 't', ';']);
                    scan_value_step(v@, cur as int, cur + 4, q, '<', acc@, i as int);
                }
                acc.push('<');
                cur = cur + 4;
            } else if n - cur >= 4 && v[cur + 1] == 'g' && v[cur + 2] == 't' && v[cur + 3] == ';' {
                proof {
                    assert(v@.subrange(cur as int, cur + 4) != seq!['&', 'l', 't', ';']) by {
                        if v@.subrange(cur as int, cur + 4) == seq!['&', 'l', 't', ';'] {
                            assert(v@.subrange(cur as int, cur + 4)[1] == 'l');
                        }
                    }
                    assert(v@.subrange(cur as int, cur + 4) =~= seq!['&', 'g', 't', ';']);
                    scan_value_step(v@, cur as int, cur + 4, q, '>', acc@, i as int);
                }
                acc.push('>');
                cur = cur + 4;
            } else if n - cur >= 5 && v[cur + 1] == 'a' && v[cur + 2] == 'm' && v[cur + 3] == 'p'
                && v[cur + 4] == ';' {
                proof {
                    assert(v@.subrange(cur as int, cur + 4) != seq!['&', 'l', 't', ';']) by {
                        if v@.subrange(cur as int, cur + 4) == seq!['&', 'l', 't', ';'] {
                            assert(v@.subrange(cur as int, cur + 4)[1] == 'l');
                        }
                    }
                    assert(v@.subrange(cur as int, cur + 4) != seq!['&', 'g', 't', ';']) by {
                        if v@.subrange(cur as int, cur + 4) == seq!['&', 'g', 't', ';'] {
                            assert(v@.subrange(cur as int, cur + 4)[2] == 't');
                        }
                    }
                    assert(v@.subrange(cur as int, cur + 5) =~= seq!['&', 'a', 'm', 'p', ';']);
                    scan_value_step(v@, cur as int, cur + 5, q, '&', acc@, i as int);
                }
                acc.push('&');
                cur = cur + 5;
            } else if n - cur >= 6 && v[cur + 1] == 'q' && v[cur + 2] == 'u' && v[cur + 3] == 'o'
                && v[cur + 4] == 't' && v[cur + 5] == ';' {
                proof {
                    scan_value_no4(v@, cur as int);
                    assert(v@.subrange(cur as int, cur + 5) != seq!['&', 'a', 'm', 'p', ';']) by {
                        if v@.subrange(cur as int, cur + 5) == seq!['&', 'a', 'm', 'p', ';'] {
                            assert(v@.subrange(cur as int, cur + 5)[1] == 'a');
                        }
                    }
                    assert(v@.subrange(cur as int, cur + 6) =~= seq!['&', 'q', 'u', 'o', 't', ';']);
                    scan_value_step(v@, cur as int, cur + 6, q, '"', acc@, i as int);
                }
                acc.push('"');
                cur = cur + 6;
            } else if n - cur >= 6 && v[cur + 1] == 'a' && v[cur + 2] == 'p' && v[cur + 3] == 'o'
                && v[cur + 4] == 's' && v[cur + 5] == ';' {
                proof {
                    scan_value_no4(v@, cur as int);
                    assert(v@.subrange(cur as int, cur + 5) != seq!['&', 'a', 'm', 'p', ';']) by {
                        if v@.subrange(cur as int, cur + 5) == seq!['&', 'a', 'm', 'p', ';'] {
                            assert(v@.subrange(cur as int, cur + 5)[2] == 'm');
                        }
                    }
                    assert(v@.subrange(cur as int, cur + 6) != seq!['&', 'q', 'u', 'o', 't', ';'])
                        by {
                        if v@.subrange(cur as int, cur + 6) == seq!['&', 'q', 'u', 'o', 't', ';'] {
                            assert(v@.subrange(cur as int, cur + 6)[1] == 'q');
                        }
                    }
                    assert(v@.subrange(cur as int, cur + 6) =~= seq!['&', 'a', 'p', 'o', 's', ';']);
                    scan_value_step(v@, cur as int, cur + 6, q, '\'', acc@, i as int);
                }
                acc.push('\'');
                cur = cur + 6;
            } else {
                proof {
                    scan_value_entity_fail(v@, cur as int, q);
                }
                return None;
            }
        } else {
            proof {
                scan_value_step(v@, cur as int, cur + 1, q, c, acc@, i as int);
            }
            acc.push(c);
            cur = cur + 1;
        }
    }
}

/// Folds one decoded character into the running invariant of
/// `scan_value_exec`: if scanning from `next` relates `i` to the
/// accumulator extended by `c`, the loop may push `c` and move to `next`.
proof fn scan_value_step(s: Seq<char>, cur: int, next: int, q: char, c: char, acc: Seq<char>, i: int)
    requires
        scan_value(s, cur, q) == scan_value_cons(c, scan_value(s, next, q)),
        (match scan_value(s, cur, q) {
            Some((rest, end)) => scan_value(s, i, q) == Some((acc + rest, end)) && cur < end
                <= s.len(),
            None => scan_value(s, i, q) is None,
        }) || (scan_value(s, cur, q) is None && scan_value(s, i, q) is None),
    ensures
        (match scan_value(s, next, q) {
            Some((rest, end)) => scan_value(s, i, q) == Some((acc.push(c) + rest, end)) && next
                < end <= s.len(),
            None => scan_value(s, i, q) is None,
        }) || (scan_value(s, next, q) is None && scan_value(s, i, q) is None),
{
    match scan_value(s, next, q) {
        Some((rest, end)) => {
            assert(scan_value(s, cur, q) == Some((seq![c] + rest, end)));
            assert(acc + (seq![c] + rest) =~= acc.push(c) + rest);
            scan_value_end_bound(s, next, q);
        },
        None => {},
    }
}

/// A successful value scan ends past its starting position and within the
/// input.
proof fn scan_value_end_bound(s: Seq<char>, i: int, q: char)
    ensures
        (match scan_value(s, i, q) {
            Some((rest, end)) => i < end <= s.len(),
            None => true,
        }),
    decreases s.len() - i + 6,
{
    if 0 <= i < s.len() && s[i] != q {
        if s[i] == '&' {
            if i + 1 < s.len() && s[i + 1] == '#' {
                if i + 2 < s.len() && s[i + 2] == 'x' {
                    let he = hex_end(s, i + 3);
                    let j2 = if i < he + 1 && he + 1 <= s.len() {
                        he + 1
                    } else {
                        i + 1
                    };
                    scan_value_end_bound(s, j2, q);
                } else {
                    let de = digits_end(s, i + 2);
                    let j2 = if i < de + 1 && de + 1 <= s.len() {
                        de + 1
                    } else {
                        i + 1
                    };
                    scan_value_end_bound(s, j2, q);
                }
            } else {
                scan_value_end_bound(s, i + 4, q);
                scan_value_end_bound(s, i + 5, q);
                scan_value_end_bound(s, i + 6, q);
            }
        } else {
            scan_value_end_bound(s, i + 1, q);
        }
    }
}

/// At a position where neither four-character entity matches, the
/// four-character branches of `scan_value` are both refused.
proof fn scan_value_no4(s: Seq<char>, i: int)
    requires
        0 <= i,
        i + 5 <= s.len(),
        s[i + 1] == 'q' || s[i + 1] == 'a',
        s[i + 2] == 'u' || s[i + 2] == 'p',
    ensures
        s.subrange(i, i + 4) != seq!['&', 'l', 't', ';'],
        s.subrange(i, i + 4) != seq!['&', 'g', 't', ';'],
{
    if s.subrange(i, i + 4) == seq!['&', 'l', 't', ';'] {
        assert(s.subrange(i, i + 4)[1] == 'l');
    }
    if s.subrange(i, i + 4) == seq!['&', 'g', 't', ';'] {
        assert(s.subrange(i, i + 4)[1] == 'g');
    }
}

/// When the executable entity matching has refused every entity at an `&`,
/// the specification refuses the position too.
proof fn scan_value_entity_fail(s: Seq<char>, i: int, q: char)
    requires
        0 <= i < s.len(),
        s[i] == '&',
        s[i] != q,
        !(i + 1 < s.len() && s[i + 1] == '#'),
        !(i + 4 <= s.len() && s[i + 1] == 'l' && s[i + 2] == 't' && s[i + 3] == ';'),
        !(i + 4 <= s.len() && s[i + 1] == 'g' && s[i + 2] == 't' && s[i + 3] == ';'),
        !(i + 5 <= s.len() && s[i + 1] == 'a' && s[i + 2] == 'm' && s[i + 3] == 'p' && s[i + 4]
            == ';'),
        !(i + 6 <= s.len() && s[i + 1] == 'q' && s[i + 2] == 'u' && s[i + 3] == 'o' && s[i + 4]
            == 't' && s[i + 5] == ';'),
        !(i + 6 <= s.len() && s[i + 1] == 'a' && s[i + 2] == 'p' && s[i + 3] == 'o' && s[i + 4]
            == 's' && s[i + 5] == ';'),
    ensures
        scan_value(s, i, q) is None,
{
    if i + 4 <= s.len() && s.subrange(i, i + 4) == seq!['&', 'l', 't', ';'] {
        assert(s[i + 1] == 'l' && s[i + 2] == 't' && s[i + 3] == ';') by {
            assert(s.subrange(i, i + 4)[1] == 'l');
            assert(s.subrange(i, i + 4)[2] == 't');
            assert(s.subrange(i, i + 4)[3] == ';');
        }
    }
    if i + 4 <= s.len() && s.subrange(i, i + 4) == seq!['&', 'g', 't', ';'] {
        assert(s[i + 1] == 'g' && s[i + 2] == 't' && s[i + 3] == ';') by {
            assert(s.subrange(i, i + 4)[1] == 'g');
            assert(s.subrange(i, i + 4)[2] == 't');
            assert(s.subrange(i, i + 4)[3] == ';');
        }
    }
    if i + 5 <= s.len() && s.subrange(i, i + 5) == seq!['&', 'a', 'm', 'p', ';'] {
        assert(s[i + 1] == 'a' && s[i + 2] == 'm' && s[i + 3] == 'p' && s[i + 4] == ';') by {
            assert(s.subrange(i, i + 5)[1] == 'a');
            assert(s.subrange(i, i + 5)[2] == 'm');
            assert(s.subrange(i, i + 5)[3] == 'p');
            assert(s.subrange(i, i + 5)[4] == ';');
        }
    }
    if i + 6 <= s.len() && s.subrange(i, i + 6) == seq!['&', 'q', 'u', 'o', 't', ';'] {
        assert(s[i + 1] == 'q' && s[i + 2] == 'u' && s[i + 3] == 'o' && s[i + 4] == 't' && s[i + 5]
            == ';') by {
            assert(s.subrange(i, i + 6)[1] == 'q');
            assert(s.subrange(i, i + 6)[2] == 'u');
            assert(s.subrange(i, i + 6)[3] == 'o');
            assert(s.subrange(i, i + 6)[4] == 't');
            assert(s.subrange(i, i + 6)[5] == ';');
        }
    }
    if i + 6 <= s.len() && s.subrange(i, i + 6) == seq!['&', 'a', 'p', 'o', 's', ';'] {
        assert(s[i + 1] == 'a' && s[i + 2] == 'p' && s[i + 3] == 'o' && s[i + 4] == 's' && s[i + 5]
            == ';') by {
            assert(s.subrange(i, i + 6)[1] == 'a');
            assert(s.subrange(i, i + 6)[2] == 'p');
            assert(s.subrange(i, i + 6)[3] == 'o');
            assert(s.subrange(i, i + 6)[4] == 's');
            assert(s.subrange(i, i + 6)[5] == ';');
        }
    }
}

/// The attribute list from `i` up to (but not including) the `>` or `/`
/// that ends the tag, with each value decoded; `None` when anything about
/// the attributes is malformed or the tag never ends.
pub open spec fn scan_attrs(s: Seq<char>, i: int) -> Option<(Seq<(Seq<char>, Seq<char>)>, int)>
    decreases s.len() - i,
{
    if i < 0 || i > s.len() {
        None
    } else {
        let j = skip_ws(s, i);
        if j >= s.len() {
            None
        } else if s[j] == '>' || s[j] == '/' {
            Some((Seq::empty(), j))
        } else {
            let e = scan_name(s, j);
            if e <= j {
                None
            } else {
                let name = s.subrange(j, e);
                let eq = skip_ws(s, e);
                if eq >= s.len() || s[eq] != '=' {
                    None
                } else {
                    let vq = skip_ws(s, eq + 1);
                    if vq >= s.len() || (s[vq] != '"' && s[vq] != '\'') {
                        None
                    } else {
                        match scan_value(s, vq + 1, s[vq]) {
                            None => None,
                            Some((val, k)) => {
                                let k2 = if i < k && k <= s.len() {
                                    k
                                } else {
                                    i + 1
                                };
                                match scan_attrs(s, k2) {
                                    None => None,
                                    Some((rest, end)) => Some((seq![(name, val)] + rest, end)),
                                }
                            },
                        }
                    }
                }
            }
        }
    }
}

pub(crate) fn scan_attrs_exec(v: &Vec<char>, i: usize) -> (r: Option<
    (Vec<(Vec<char>, Vec<char>)>, usize),
>)
    requires
        i <= v@.len(),
    ensures
        (match r {
            Some(p) => scan_attrs(v@, i as int) == Some((attrs_view(p.0@), p.1 as int)) && i <= p.1
                < v@.len() && (v@[p.1 as int] == '>' || v@[p.1 as int] == '/'),
            None => scan_attrs(v@, i as int) is None,
        }),
{
    let mut acc: Vec<(Vec<char>, Vec<char>)> = Vec::new();
    let mut cur = i;
    proof {
        match scan_attrs(v@, i as int) {
            Some((rest, end)) => {
                assert(attrs_view(acc@) + rest =~= rest);
            },
            None => {},
        }
    }
    loop
        invariant
            i <= cur <= v@.len(),
            (match scan_attrs(v@, cur as int) {
                Some((rest, end)) => scan_attrs(v@, i as int) == Some(
                    (attrs_view(acc@) + rest, end),
                ),
                None => scan_attrs(v@, i as int) is None,
            }),
        decreases v@.len() - cur,
    {
        let j = skip_ws_exec(v, cur);
        if j >= v.len() {
            return None;
        }
        let c = v[j];
        if c == '>' || c == '/' {
            proof {
                assert(scan_attrs(v@, cur as int) == Some(
                    (Seq::<(Seq<char>, Seq<char>)>::empty(), j as int),
                ));
                assert(attrs_view(acc@) + Seq::<(Seq<char>, Seq<char>)>::empty() =~= attrs_view(
                    acc@,
                ));
            }
            return Some((acc, j));
        }
        let e = scan_name_exec(v, j);
        if e <= j {
            return None;
        }
        let name = copy_range(v, j, e);
        let eq = skip_ws_exec(v, e);
        if eq >= v.len() {
            return None;
        }
        if v[eq] != '=' {
            return None;
        }
        let vq = skip_ws_exec(v, eq + 1);
        if vq >= v.len() {
            return None;
        }
        let q = v[vq];
        if q != '"' && q != '\'' {
            return None;
        }
        match scan_value_exec(v, vq + 1, q) {
            None => {
                return None;
            },
            Some((val, k)) => {
                proof {
                    let ghost rest0 = scan_attrs(v@, k as int);
                    assert(scan_attrs(v@, cur as int) == (match rest0 {
                        None => None::<(Seq<(Seq<char>, Seq<char>)>, int)>,
                        Some((rest, end)) => Some((seq![(name@, val@)] + rest, end)),
                    }));
                    match rest0 {
                        Some((rest, end)) => {
                            assert(attrs_view(acc@.push((name, val))) =~= attrs_view(acc@) + seq![
                                (name@, val@),
                            ]);
                            assert(attrs_view(acc@) + (seq![(name@, val@)] + rest) =~= attrs_view(
                                acc@.push((name, val)),
                            ) + rest);
                        },
                        None => {},
                    }
                }
                acc.push((name, val));
                cur = k;
            },
        }
    }
}

/// The token denoted by the markup that starts with the `<` at `i`, and the
/// position right after it. Comments, CDATA sections and processing
/// instructions carry no token. `None` when the markup is malformed or a
/// doctype appears.
pub open spec fn scan_lt(s: Seq<char>, i: int) -> Option<(Option<XmlTokView>, int)> {
    if i < 0 || i + 1 >= s.len() {
        None
    } else {
        let c = s[i + 1];
        if c == '/' {
            let e = scan_name(s, i + 2);
            if e <= i + 2 {
                None
            } else {
                let j = skip_ws(s, e);
                if j >= s.len() || s[j] != '>' {
                    None
                } else {
                    Some((Some(XmlTokView::Close(s.subrange(i + 2, e))), j + 1))
                }
            }
        } else if c == '!' {
            if i + 4 <= s.len() && s.subrange(i, i + 4) == seq!['<', '!', '-', '-'] {
                match scan_past(s, i + 4, seq!['-', '-', '>']) {
                    None => None,
                    Some(j) => Some((None, j)),
                }
            } else if i + 9 <= s.len() && s.subrange(i, i + 9) == seq![
                '<',
                '!',
                '[',
                'C',
                'D',
                'A',
                'T',
                'A',
                '[',
            ] {
                match scan_past(s, i + 9, seq![']', ']', '>']) {
                    None => None,
                    Some(j) => Some((None, j)),
                }
            } else {
                None
            }
        } else if c == '?' {
            match scan_past(s, i + 2, seq!['?', '>']) {
                None => None,
                Some(j) => Some((None, j)),
            }
        } else {
            let e = scan_name(s, i + 1);
            if e <= i + 1 {
                None
            } else {
                let name = s.subrange(i + 1, e);
                match scan_attrs(s, e) {
                    None => None,
                    Some((attrs, p)) => {
                        if p < s.len() && s[p] == '>' {
                            Some((Some(XmlTokView::Open(name, attrs)), p + 1))
                        } else if p + 1 < s.len() && s[p] == '/' && s[p + 1] == '>' {
                            Some((Some(XmlTokView::SelfClose(name, attrs)), p + 2))
                        } else {
                            None
                        }
                    },
                }
            }
        }
    }
}

pub(crate) fn scan_lt_exec(v: &Vec<char>, i: usize) -> (r: Option<(Option<XmlTok>, usize)>)
    requires
        i < v@.len(),
        v@[i as int] == '<',
    ensures
        (match r {
            Some((tok, j)) => scan_lt(v@, i as int) == Some(
                (
                    match tok {
                        Some(t) => Some(tok_view(t)),
                        None => None,
                    },
                    j as int,
                ),
            ) && i < j <= v@.len(),
            None => scan_lt(v@, i as int) is None,
        }),
{
    let n = v.len();
    if n - i < 2 {
        return None;
    }
    let c = v[i + 1];
    if c == '/' {
        let e = scan_name_exec(v, i + 2);
        if e <= i + 2 {
            return None;
        }
        let j = skip_ws_exec(v, e);
        if j >= n {
            return None;
        }
        if v[j] != '>' {
            return None;
        }
        let name = copy_range(v, i + 2, e);
        return Some((Some(XmlTok::Close(name)), j + 1));
    }
    if c == '!' {
        if n - i >= 4 && v[i + 2] == '-' && v[i + 3] == '-' {
            proof {
                assert(v@.subrange(i as int, i + 4) =~= seq!['<', '!', '-', '-']);
            }
            match scan_past3_exec(v, i + 4, '-', '-', '>') {
                None => {
                    return None;
                },
                Some(j) => {
                    return Some((None, j));
                },
            }
        }
        if n - i >= 9 && v[i + 2] == '[' && v[i + 3] == 'C' && v[i + 4] == 'D' && v[i + 5] == 'A'
            && v[i + 6] == 'T' && v[i + 7] == 'A' && v[i + 8] == '[' {
            proof {
                assert(v@.subrange(i as int, i + 4) != seq!['<', '!', '-', '-']) by {
                    if v@.subrange(i as int, i + 4) == seq!['<', '!', '-', '-'] {
                        assert(v@.subrange(i as int, i + 4)[2] == '-');
                    }
                }
                assert(v@.subrange(i as int, i + 9) =~= seq![
                    '<',
                    '!',
                    '[',
                    'C',
                    'D',
                    'A',
                    'T',
                    'A',
                    '[',
                ]);
            }
            match scan_past3_exec(v, i + 9, ']', ']', '>') {
                None => {
                    return None;
                },
                Some(j) => {
                    return Some((None, j));
                },
            }
        }
        proof {
            if i + 4 <= v@.len() && v@.subrange(i as int, i + 4) == seq!['<', '!', '-', '-'] {
                assert(v@.subrange(i as int, i + 4)[2] == '-');
                assert(v@.subrange(i as int, i + 4)[3] == '-');
            }
            if i + 9 <= v@.len() && v@.subrange(i as int, i + 9) == seq![
                '<',
                '!',
                '[',
                'C',
                'D',
                'A',
                'T',
                'A',
                '[',
            ] {
                assert(v@.subrange(i as int, i + 9)[2] == '[');
                assert(v@.subrange(i as int, i + 9)[3] == 'C');
                assert(v@.subrange(i as int, i + 9)[4] == 'D');
                assert(v@.subrange(i as int, i + 9)[5] == 'A');
                assert(v@.subrange(i as int, i + 9)[6] == 'T');
                assert(v@.subrange(i as int, i + 9)[7] == 'A');
                assert(v@.subrange(i as int, i + 9)[8] == '[');
            }
        }
        return None;
    }
    if c == '?' {
        match scan_past2_exec(v, i + 2, '?', '>') {
            None => {
                return None;
            },
            Some(j) => {
                return Some((None, j));
            },
        }
    }
    let e = scan_name_exec(v, i + 1);
    if e <= i + 1 {
        return None;
    }
    let name = copy_range(v, i + 1, e);
    match scan_attrs_exec(v, e) {
        None => {
            return None;
        },
        Some((attrs, p)) => {
            if v[p] == '>' {
                return Some((Some(XmlTok::Open(name, attrs)), p + 1));
            }
            if p + 1 < n && v[p + 1] == '>' {
                return Some((Some(XmlTok::SelfClose(name, attrs)), p + 2));
            }
            return None;
        },
    }
}

/// The markup tokens of the whole input, text content skipped; `None` when
/// any markup is malformed.
pub open spec fn lex_from(s: Seq<char>, i: int) -> Option<Seq<XmlTokView>>
    decreases s.len() - i,
{
    if i < 0 {
        None
    } else if i >= s.len() {
        Some(Seq::empty())
    } else if s[i] != '<' {
        lex_from(s, i + 1)
    } else {
        match scan_lt(s, i) {
            None => None,
            Some((tok, j)) => {
                let j2 = if i < j && j <= s.len() {
                    j
                } else {
                    i + 1
                };
                match lex_from(s, j2) {
                    None => None,
                    Some(rest) => Some(
                        match tok {
                            Some(t) => seq![t] + rest,
                            None => rest,
                        },
                    ),
                }
            },
        }
    }
}

pub(crate) fn lex_exec(v: &Vec<char>) -> (r: Option<Vec<XmlTok>>)
    ensures
        (match r {
            Some(ts) => lex_from(v@, 0) == Some(toks_view(ts@)),
            None => lex_from(v@, 0) is None,
        }),
{
    let mut toks: Vec<XmlTok> = Vec::new();
    let mut cur: usize = 0;
    proof {
        match lex_from(v@, 0) {
            Some(rest) => {
                assert(toks_view(toks@) + rest =~= rest);
            },
            None => {},
        }
    }
    loop
        invariant
            cur <= v@.len(),
            (match lex_from(v@, cur as int) {
                Some(rest) => lex_from(v@, 0) == Some(toks_view(toks@) + rest),
                None => lex_from(v@, 0) is None,
            }),
        decreases v@.len() - cur,
    {
        if cur >= v.len() {
            proof {
                assert(toks_view(toks@) + Seq::<XmlTokView>::empty() =~= toks_view(toks@));
            }
            return Some(toks);
        }
        if v[cur] != '<' {
            cur = cur + 1;
        } else {
            match scan_lt_exec(v, cur) {
                None => {
                    return None;
                },
                Some((tok, j)) => {
                    proof {
                        let ghost rest0 = lex_from(v@, j as int);
                        match rest0 {
                            Some(rest) => {
                                match &tok {
                                    Some(t) => {
                                        assert(lex_from(v@, cur as int) == Some(
                                            seq![tok_view(*t)] + rest,
                                        ));
                                        assert(toks_view(toks@.push(*t)) =~= toks_view(toks@)
                                            + seq![tok_view(*t)]);
                                        assert(toks_view(toks@) + (seq![tok_view(*t)] + rest)
                                            =~= toks_view(toks@.push(*t)) + rest);
                                    },
                                    None => {},
                                }
                            },
                            None => {},
                        }
                    }
                    match tok {
                        Some(t) => {
                            toks.push(t);
                        },
                        None => {},
                    }
                    cur = j;
                },
            }
        }
    }
}

/// Mathematical image of one frame of the element stack: a tag that has
/// been opened and not yet closed, with the children completed so far.
pub struct XmlFrameView {
    pub name: Seq<char>,
    pub attrs: Seq<(Seq<char>, Seq<char>)>,
    pub children: Seq<XmlElemView>,
}

/// One frame of the element stack.
pub struct XmlFrame {
    pub name: Vec<char>,
    pub attrs: Vec<(Vec<char>, Vec<char>)>,
    pub children: Vec<XmlElem>,
}

pub open spec fn frame_view(f: XmlFrame) -> XmlFrameView {
    XmlFrameView { name: f.name@, attrs: attrs_view(f.attrs@), children: elems_view(f.children@) }
}

pub open spec fn frames_view(fs: Seq<XmlFrame>) -> Seq<XmlFrameView> {
    Seq::new(fs.len(), |i: int| frame_view(fs[i]))
}

/// Where a completed element goes: into the children of the innermost open
/// tag, or among the roots when no tag is open.
pub open spec fn xput(
    stack: Seq<XmlFrameView>,
    roots: Seq<XmlElemView>,
    e: XmlElemView,
) -> (Seq<XmlFrameView>, Seq<XmlElemView>) {
    if stack.len() == 0 {
        (stack, roots.push(e))
    } else {
        let top = stack.last();
        (
            stack.drop_last().push(XmlFrameView { children: top.children.push(e), ..top }),
            roots,
        )
    }
}

/// Runs the token stream against the element stack from token `i` on,
/// yielding the root elements; `None` on a stray or mismatched closing tag
/// or a tag left open at the end.
pub open spec fn xrun(
    toks: Seq<XmlTokView>,
    i: int,
    stack: Seq<XmlFrameView>,
    roots: Seq<XmlElemView>,
) -> Option<Seq<XmlElemView>>
    decreases toks.len() - i,
{
    if i < 0 || i > toks.len() {
        None
    } else if i == toks.len() {
        if stack.len() == 0 {
            Some(roots)
        } else {
            None
        }
    } else {
        match toks[i] {
            XmlTokView::Open(n, a) => xrun(
                toks,
                i + 1,
                stack.push(XmlFrameView { name: n, attrs: a, children: Seq::empty() }),
                roots,
            ),
            XmlTokView::SelfClose(n, a) => {
                let sr = xput(
                    stack,
                    roots,
                    XmlElemView { name: n, attrs: a, children: Seq::empty() },
                );
                xrun(toks, i + 1, sr.0, sr.1)
            },
            XmlTokView::Close(n) => {
                if stack.len() == 0 {
                    None
                } else if stack.last().name != n {
                    None
                } else {
                    let top = stack.last();
                    let sr = xput(
                        stack.drop_last(),
                        roots,
                        XmlElemView { name: top.name, attrs: top.attrs, children: top.children },
                    );
                    xrun(toks, i + 1, sr.0, sr.1)
                }
            },
        }
    }
}

/// The document an input denotes: its single root element, or `None` when
/// the markup is malformed or there is no root, or more than one.
pub open spec fn xml_doc(s: Seq<char>) -> Option<XmlElemView> {
    match lex_from(s, 0) {
        None => None,
        Some(toks) => match xrun(toks, 0, Seq::empty(), Seq::empty()) {
            None => None,
            Some(roots) => if roots.len() == 1 {
                Some(roots[0])
            } else {
                None
            },
        },
    }
}

fn put_exec(stack: &mut Vec<XmlFrame>, roots: &mut Vec<XmlElem>, e: XmlElem)
    ensures
        (frames_view(final(stack)@), elems_view(final(roots)@)) == xput(
            frames_view(old(stack)@),
            elems_view(old(roots)@),
            elem_view(e),
        ),
{
    let ghost st0 = stack@;
    let ghost r0 = roots@;
    match stack.pop() {
        Some(mut top) => {
            let ghost top0 = top;
            top.children.push(e);
            stack.push(top);
            proof {
                assert(frames_view(st0).last() == frame_view(top0));
                assert(elems_view(top.children@) =~= elems_view(top0.children@).push(elem_view(e)));
                assert(frames_view(stack@) =~= frames_view(st0).drop_last().push(
                    XmlFrameView {
                        children: frames_view(st0).last().children.push(elem_view(e)),
                        ..frames_view(st0).last()
                    },
                ));
            }
        },
        None => {
            roots.push(e);
            proof {
                assert(frames_view(st0).len() == 0);
                assert(elems_view(roots@) =~= elems_view(r0).push(elem_view(e)));
            }
        },
    }
}

fn build_tree(toks: Vec<XmlTok>) -> (r: Option<Vec<XmlElem>>)
    ensures
        (match r {
            Some(roots) => xrun(toks_view(toks@), 0, Seq::empty(), Seq::empty()) == Some(
                elems_view(roots@),
            ),
            None => xrun(toks_view(toks@), 0, Seq::empty(), Seq::empty()) is None,
        }),
{
    let ghost tv = toks_view(toks@);
    let mut stack: Vec<XmlFrame> = Vec::new();
    let mut roots: Vec<XmlElem> = Vec::new();
    proof {
        assert(frames_view(stack@) =~= Seq::<XmlFrameView>::empty());
        assert(elems_view(roots@) =~= Seq::<XmlElemView>::empty());
    }
    for t in it: toks.into_iter()
        invariant
            tv == toks_view(it.seq()),
            xrun(tv, it.index() as int, frames_view(stack@), elems_view(roots@)) == xrun(
                tv,
                0,
                Seq::empty(),
                Seq::empty(),
            ),
        {
            let ghost idx = it.index() as int;
            let ghost st0 = stack@;
            let ghost r0 = roots@;
            proof {
                assert(tv[idx] == tok_view(t));
            }
            match t {
                XmlTok::Open(n, a) => {
                    let f = XmlFrame { name: n, attrs: a, children: Vec::new() };
                    proof {
                        assert(elems_view(f.children@) =~= Seq::<XmlElemView>::empty());
                        assert(frame_view(f) == (XmlFrameView {
                            name: f.name@,
                            attrs: attrs_view(f.attrs@),
                            children: Seq::<XmlElemView>::empty(),
                        }));
                    }
                    stack.push(f);
                    proof {
                        assert(frames_view(stack@) =~= frames_view(st0).push(frame_view(f)));
                        assert(xrun(tv, idx, frames_view(st0), elems_view(r0)) == xrun(
                            tv,
                            idx + 1,
                            frames_view(stack@),
                            elems_view(roots@),
                        ));
                    }
                },
                XmlTok::SelfClose(n, a) => {
                    let e = XmlElem { name: n, attrs: a, children: Vec::new() };
                    proof {
                        assert(elem_view(e).children =~= Seq::<XmlElemView>::empty());
                        assert(elem_view(e) == (XmlElemView {
                            name: e.name@,
                            attrs: attrs_view(e.attrs@),
                            children: Seq::<XmlElemView>::empty(),
                        }));
                    }
                    put_exec(&mut stack, &mut roots, e);
                    proof {
                        assert(xrun(tv, idx, frames_view(st0), elems_view(r0)) == xrun(
                            tv,
                            idx + 1,
                            frames_view(stack@),
                            elems_view(roots@),
                        ));
                    }
                },
                XmlTok::Close(n) => {
                    match stack.pop() {
                        None => {
                            proof {
                                assert(frames_view(st0).len() == 0);
                                assert(xrun(tv, idx, frames_view(st0), elems_view(r0)) is None);
                            }
                            return None;
                        },
                        Some(top) => {
                            let ghost stpop = stack@;
                            proof {
                                assert(st0 == stpop.push(top));
                                assert(frames_view(st0).last() == frame_view(top));
                                assert(frames_view(st0).drop_last() =~= frames_view(stpop));
                            }
                            if !crate::text::chars_eq(&top.name, &n) {
                                proof {
                                    assert(frames_view(st0).last().name != n@);
                                    assert(xrun(tv, idx, frames_view(st0), elems_view(r0)) is None);
                                }
                                return None;
                            }
                            let e = XmlElem {
                                name: top.name,
                                attrs: top.attrs,
                                children: top.children,
                            };
                            proof {
                                assert(elem_view(e).children =~= elems_view(e.children@));
                                assert(elem_view(e) == (XmlElemView {
                                    name: frame_view(top).name,
                                    attrs: frame_view(top).attrs,
                                    children: frame_view(top).children,
                                }));
                            }
                            put_exec(&mut stack, &mut roots, e);
                            proof {
                                assert(xrun(tv, idx, frames_view(st0), elems_view(r0)) == xrun(
                                    tv,
                                    idx + 1,
                                    frames_view(stack@),
                                    elems_view(roots@),
                                ));
                            }
                        },
                    }
                },
            }
        }
    if stack.len() > 0 {
        return None;
    }
    Some(roots)
}

/// Parses a whole input into its single root element, exactly as `xml_doc`
/// describes.
pub(crate) fn parse_document(v: &Vec<char>) -> (r: Option<XmlElem>)
    ensures
        (match r {
            Some(e) => xml_doc(v@) == Some(elem_view(e)),
            None => xml_doc(v@) is None,
        }),
{
    match lex_exec(v) {
        None => None,
        Some(toks) => {
            match build_tree(toks) {
                None => None,
                Some(mut roots) => {
                    if roots.len() == 1 {
                        let e = roots.pop().unwrap();
                        proof {
                            assert(elems_view(roots@.push(e))[0] == elem_view(e));
                        }
                        Some(e)
                    } else {
                        None
                    }
                },
            }
        },
    }
}

} // verus!
