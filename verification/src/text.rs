use vstd::prelude::*;
use vstd::string::StrSliceExecFns;

verus! {

broadcast use vstd::string::group_string_axioms;

/// Relies on `String: FromIterator<&char>`: collecting characters yields a
/// string whose characters are exactly those of the vector, in order.
#[verifier::external_body]
pub(crate) fn chars_to_string(v: &Vec<char>) -> (r: String)
    ensures
        r@ == v@,
{
    v.iter().collect()
}

/// The characters of a string slice, in order, as a vector.
pub(crate) fn str_to_chars(s: &str) -> (r: Vec<char>)
    ensures
        r@ == s@,
{
    let mut r: Vec<char> = Vec::new();
    for c in it: s.chars()
        invariant
            it.seq() == s@,
            r@ == it.seq().take(it.index() as int),
    {
        r.push(c);
    }
    proof {
        assert(r@ =~= s@);
    }
    r
}

/// Whether the vector holds exactly the characters of the given string slice.
pub(crate) fn chars_eq_str(v: &Vec<char>, s: &str) -> (r: bool)
    ensures
        r == (v@ == s@),
{
    let n = s.unicode_len();
    if v.len() != n {
        return false;
    }
    let mut i: usize = 0;
    while i < n
        invariant
            0 <= i <= n,
            n == s@.len(),
            v@.len() == n,
            forall|j: int| 0 <= j < i ==> v@[j] == s@[j],
        decreases n - i,
    {
        if v[i] != s.get_char(i) {
            return false;
        }
        i = i + 1;
    }
    proof {
        assert(v@ =~= s@);
    }
    true
}

/// Whether two character vectors hold the same characters.
pub(crate) fn chars_eq(a: &Vec<char>, b: &Vec<char>) -> (r: bool)
    ensures
        r == (a@ == b@),
{
    if a.len() != b.len() {
        return false;
    }
    let mut i: usize = 0;
    while i < a.len()
        invariant
            0 <= i <= a@.len(),
            a@.len() == b@.len(),
            forall|j: int| 0 <= j < i ==> a@[j] == b@[j],
        decreases a@.len() - i,
    {
        if a[i] != b[i] {
            return false;
        }
        i = i + 1;
    }
    proof {
        assert(a@ =~= b@);
    }
    true
}

/// A copy of the characters of `v` from `a` (inclusive) to `b` (exclusive).
pub(crate) fn copy_range(v: &Vec<char>, a: usize, b: usize) -> (r: Vec<char>)
    requires
        a <= b <= v@.len(),
    ensures
        r@ == v@.subrange(a as int, b as int),
{
    let mut r: Vec<char> = Vec::new();
    let mut i = a;
    while i < b
        invariant
            a <= i <= b <= v@.len(),
            r@ == v@.subrange(a as int, i as int),
        decreases b - i,
    {
        r.push(v[i]);
        proof {
            assert(r@ =~= v@.subrange(a as int, i + 1));
        }
        i = i + 1;
    }
    r
}

/// A copy of a whole character vector.
pub(crate) fn copy_chars(v: &Vec<char>) -> (r: Vec<char>)
    ensures
        r@ == v@,
{
    let r = copy_range(v, 0, v.len());
    proof {
        assert(v@.subrange(0, v@.len() as int) =~= v@);
    }
    r
}

/// Whether `f` ends with the characters of `t`.
pub(crate) fn ends_with_chars(f: &Vec<char>, t: &Vec<char>) -> (r: bool)
    ensures
        r == (f@.len() >= t@.len() && f@.subrange(f@.len() - t@.len(), f@.len() as int) == t@),
{
    if f.len() < t.len() {
        return false;
    }
    let off = f.len() - t.len();
    let mut j: usize = 0;
    while j < t.len()
        invariant
            0 <= j <= t@.len(),
            off == f@.len() - t@.len(),
            f@.len() >= t@.len(),
            f@.len() <= usize::MAX,
            forall|q: int| 0 <= q < j ==> f@[off + q] == t@[q],
        decreases t@.len() - j,
    {
        if f[off + j] != t[j] {
            proof {
                assert(f@.subrange(off as int, f@.len() as int)[j as int] == f@[off + j]);
            }
            return false;
        }
        j = j + 1;
    }
    proof {
        assert(f@.subrange(off as int, f@.len() as int) =~= t@);
    }
    true
}

/// A `String` with exactly the characters of the given string slice.
pub(crate) fn string_from(s: &str) -> (r: String)
    ensures
        r@ == s@,
{
    let cs = str_to_chars(s);
    chars_to_string(&cs)
}

/// Appends the characters of a string slice to a character vector.
pub(crate) fn append_str(out: &mut Vec<char>, s: &str)
    ensures
        final(out)@ == old(out)@ + s@,
{
    let mut cs = str_to_chars(s);
    out.append(&mut cs);
}

/// The decimal digit character for `d` (`0 <= d <= 9`).
pub open spec fn dec_digit(d: int) -> char {
    if d == 0 {
        '0'
    } else if d == 1 {
        '1'
    } else if d == 2 {
        '2'
    } else if d == 3 {
        '3'
    } else if d == 4 {
        '4'
    } else if d == 5 {
        '5'
    } else if d == 6 {
        '6'
    } else if d == 7 {
        '7'
    } else if d == 8 {
        '8'
    } else {
        '9'
    }
}

pub(crate) fn dec_digit_char(d: u64) -> (c: char)
    requires
        d < 10,
    ensures
        c == dec_digit(d as int),
{
    match d {
        0 => '0',
        1 => '1',
        2 => '2',
        3 => '3',
        4 => '4',
        5 => '5',
        6 => '6',
        7 => '7',
        8 => '8',
        _ => '9',
    }
}

/// The usual decimal rendering of a non-negative integer, without leading
/// zeros (except for the number zero itself, rendered as `0`).
pub open spec fn dec_str(n: nat) -> Seq<char>
    decreases n,
{
    if n < 10 {
        seq![dec_digit(n as int)]
    } else {
        dec_str(n / 10).push(dec_digit((n % 10) as int))
    }
}

pub(crate) fn u64_dec_chars(n: u64) -> (r: Vec<char>)
    ensures
        r@ == dec_str(n as nat),
    decreases n,
{
    if n < 10 {
        let mut r: Vec<char> = Vec::new();
        r.push(dec_digit_char(n));
        proof {
            assert(r@ =~= dec_str(n as nat));
        }
        r
    } else {
        let mut r = u64_dec_chars(n / 10);
        r.push(dec_digit_char(n % 10));
        r
    }
}

/// The six decimal digits of a microsecond remainder `0 <= fr < 1_000_000`,
/// most significant first.
pub open spec fn frac6(fr: int) -> Seq<char> {
    seq![
        dec_digit(fr / 100000 % 10),
        dec_digit(fr / 10000 % 10),
        dec_digit(fr / 1000 % 10),
        dec_digit(fr / 100 % 10),
        dec_digit(fr / 10 % 10),
        dec_digit(fr % 10),
    ]
}

/// `s` with every trailing `'0'` removed.
pub open spec fn trim_zeros(s: Seq<char>) -> Seq<char>
    decreases s.len(),
{
    if s.len() > 0 && s.last() == '0' {
        trim_zeros(s.drop_last())
    } else {
        s
    }
}

/// Rendering of a duration in whole microseconds as decimal seconds: the
/// integer part, then a fractional part only when it is not zero, with
/// trailing zeros trimmed (`982_000 -> 0.982`, `2_000_000 -> 2`).
pub open spec fn secs_str(micros: nat) -> Seq<char> {
    let ip = micros / 1000000;
    let fr = micros % 1000000;
    if fr == 0 {
        dec_str(ip)
    } else {
        dec_str(ip) + seq!['.'] + trim_zeros(frac6(fr as int))
    }
}

pub(crate) fn seconds_chars(micros: u64) -> (r: Vec<char>)
    ensures
        r@ == secs_str(micros as nat),
{
    let ip = micros / 1000000;
    let fr = micros % 1000000;
    let mut out = u64_dec_chars(ip);
    if fr != 0 {
        out.push('.');
        let mut digs: Vec<char> = Vec::new();
        digs.push(dec_digit_char(fr / 100000 % 10));
        digs.push(dec_digit_char(fr / 10000 % 10));
        digs.push(dec_digit_char(fr / 1000 % 10));
        digs.push(dec_digit_char(fr / 100 % 10));
        digs.push(dec_digit_char(fr / 10 % 10));
        digs.push(dec_digit_char(fr % 10));
        proof {
            assert(digs@ =~= frac6(fr as int));
        }
        while digs.len() > 0 && digs[digs.len() - 1] == '0'
            invariant
                trim_zeros(digs@) == trim_zeros(frac6(fr as int)),
            decreases digs.len(),
        {
            digs.pop();
        }
        proof {
            assert(trim_zeros(digs@) == digs@);
        }
        out.append(&mut digs);
        proof {
            assert(out@ =~= secs_str(micros as nat));
        }
    }
    out
}

/// The hexadecimal digit character for `d` (`0 <= d <= 15`), lower case.
pub open spec fn hex_digit(d: int) -> char {
    if d < 10 {
        dec_digit(d)
    } else if d == 10 {
        'a'
    } else if d == 11 {
        'b'
    } else if d == 12 {
        'c'
    } else if d == 13 {
        'd'
    } else if d == 14 {
        'e'
    } else {
        'f'
    }
}

pub(crate) fn hex_digit_char(d: u32) -> (c: char)
    requires
        d < 16,
    ensures
        c == hex_digit(d as int),
{
    match d {
        0 => '0',
        1 => '1',
        2 => '2',
        3 => '3',
        4 => '4',
        5 => '5',
        6 => '6',
        7 => '7',
        8 => '8',
        9 => '9',
        10 => 'a',
        11 => 'b',
        12 => 'c',
        13 => 'd',
        14 => 'e',
        _ => 'f',
    }
}

/// How one character appears inside a JSON string literal: quote and
/// backslash are escaped, the common control characters get their short
/// escapes, the remaining control characters a `\u00..` escape, and every
/// other character stands for itself.
pub open spec fn esc_char(c: char) -> Seq<char> {
    if c == '"' {
        seq!['\\', '"']
    } else if c == '\\' {
        seq!['\\', '\\']
    } else if c == '\x08' {
        seq!['\\', 'b']
    } else if c == '\t' {
        seq!['\\', 't']
    } else if c == '\n' {
        seq!['\\', 'n']
    } else if c == '\x0c' {
        seq!['\\', 'f']
    } else if c == '\r' {
        seq!['\\', 'r']
    } else if (c as u32) < 0x20 {
        seq!['\\', 'u', '0', '0', hex_digit(c as int / 16), hex_digit(c as int % 16)]
    } else {
        seq![c]
    }
}

/// The JSON-escaped form of a whole character sequence.
pub open spec fn esc_seq(s: Seq<char>) -> Seq<char>
    decreases s.len(),
{
    if s.len() == 0 {
        Seq::empty()
    } else {
        esc_seq(s.drop_last()) + esc_char(s.last())
    }
}

pub(crate) fn push_escaped(out: &mut Vec<char>, c: char)
    ensures
        final(out)@ == old(out)@ + esc_char(c),
{
    if c == '"' {
        out.push('\\');
        out.push('"');
    } else if c == '\\' {
        out.push('\\');
        out.push('\\');
    } else if c == '\x08' {
        out.push('\\');
        out.push('b');
    } else if c == '\t' {
        out.push('\\');
        out.push('t');
    } else if c == '\n' {
        out.push('\\');
        out.push('n');
    } else if c == '\x0c' {
        out.push('\\');
        out.push('f');
    } else if c == '\r' {
        out.push('\\');
        out.push('r');
    } else if (c as u32) < 0x20 {
        let v = c as u32;
        out.push('\\');
        out.push('u');
        out.push('0');
        out.push('0');
        out.push(hex_digit_char(v / 16));
        out.push(hex_digit_char(v % 16));
    } else {
        out.push(c);
    }
    proof {
        assert(out@ =~= old(out)@ + esc_char(c));
    }
}

/// Appends the JSON-escaped form of a string slice's characters.
pub(crate) fn append_escaped(out: &mut Vec<char>, s: &str)
    ensures
        final(out)@ == old(out)@ + esc_seq(s@),
{
    let cs = str_to_chars(s);
    let mut i: usize = 0;
    while i < cs.len()
        invariant
            0 <= i <= cs.len(),
            cs@ == s@,
            out@ == old(out)@ + esc_seq(s@.take(i as int)),
        decreases cs.len() - i,
    {
        push_escaped(out, cs[i]);
        proof {
            assert(s@.take(i + 1).drop_last() =~= s@.take(i as int));
            assert(s@.take(i + 1).last() == s@[i as int]);
        }
        i = i + 1;
    }
    proof {
        assert(s@.take(cs.len() as int) =~= s@);
    }
}

/// Whether `c` is a decimal digit.
pub open spec fn is_digit(c: char) -> bool {
    48 <= (c as u32) && (c as u32) <= 57
}

pub open spec fn all_digits(s: Seq<char>) -> bool {
    forall|i: int| 0 <= i < s.len() ==> is_digit(s[i])
}

/// The value of a sequence of decimal digit characters.
pub open spec fn digits_val(s: Seq<char>) -> nat
    decreases s.len(),
{
    if s.len() == 0 {
        0
    } else {
        digits_val(s.drop_last()) * 10 + (s.last() as u32 - 48) as nat
    }
}

/// The index of the first `'.'` at or after `i`, or the length if there is
/// none.
pub open spec fn first_dot(s: Seq<char>, i: int) -> int
    decreases s.len() - i,
{
    if i < 0 || i >= s.len() {
        s.len() as int
    } else if s[i] == '.' {
        i
    } else {
        first_dot(s, i + 1)
    }
}

/// The index of the first `'e'` or `'E'` at or after `i`, or the length if
/// there is none.
pub open spec fn first_exp(s: Seq<char>, i: int) -> int
    decreases s.len() - i,
{
    if i < 0 || i >= s.len() {
        s.len() as int
    } else if s[i] == 'e' || s[i] == 'E' {
        i
    } else {
        first_exp(s, i + 1)
    }
}

pub open spec fn pow10(n: nat) -> nat
    decreases n,
{
    if n == 0 {
        1
    } else {
        10 * pow10((n - 1) as nat)
    }
}

/// A digit-string value shifted by a signed power of ten, fractions
/// truncated.
pub open spec fn scaled_total(m: nat, net: int) -> nat {
    if net >= 0 {
        m * pow10(net as nat)
    } else {
        m / pow10((-net) as nat)
    }
}

/// The value of a decimal-seconds attribute in whole microseconds.
///
/// The accepted forms mirror the usual floating point syntax for
/// non-negative values: an optional leading `+`, digits with at most one
/// dot among them (at least one digit in all), and an optional exponent
/// part introduced by `e` or `E`, with an optional sign and at least one
/// digit. Fractional microseconds are truncated. A negative value, a value
/// that does not fit in a `u64` count of microseconds (infinities
/// included), or a string of any other shape (`nan`, anything non-numeric)
/// yields `None`.
pub open spec fn time_micros(s0: Seq<char>) -> Option<u64> {
    let s = if s0.len() > 0 && s0[0] == '+' {
        s0.drop_first()
    } else {
        s0
    };
    let ep = first_exp(s, 0);
    let mant = s.take(ep);
    let d = first_dot(mant, 0);
    let ip = mant.take(d);
    let fp = if d == mant.len() {
        Seq::<char>::empty()
    } else {
        mant.subrange(d + 1, mant.len() as int)
    };
    let esect = if ep == s.len() {
        Seq::<char>::empty()
    } else {
        s.subrange(ep + 1, s.len() as int)
    };
    let eneg = esect.len() > 0 && esect[0] == '-';
    let edigits = if esect.len() > 0 && (esect[0] == '-' || esect[0] == '+') {
        esect.drop_first()
    } else {
        esect
    };
    let exp_ok = ep == s.len() || (edigits.len() > 0 && all_digits(edigits));
    if !(all_digits(ip) && all_digits(fp) && ip.len() + fp.len() > 0 && exp_ok) {
        None
    } else {
        let e: int = if ep == s.len() {
            0
        } else if eneg {
            -(digits_val(edigits) as int)
        } else {
            digits_val(edigits) as int
        };
        let m = digits_val(ip + fp);
        let net = 6 + e - fp.len();
        let total = scaled_total(m, net);
        if total > u64::MAX {
            None
        } else {
            Some(total as u64)
        }
    }
}

/// A digit string's value never shrinks when the string is extended.
proof fn lemma_digits_val_prefix(s: Seq<char>, k: int)
    requires
        0 <= k <= s.len(),
    ensures
        digits_val(s.take(k)) <= digits_val(s),
    decreases s.len(),
{
    if k < s.len() {
        lemma_digits_val_prefix(s.drop_last(), k);
        assert(s.drop_last().take(k) =~= s.take(k));
        assert(digits_val(s.drop_last()) <= digits_val(s.drop_last()) * 10) by (nonlinear_arith);
    } else {
        assert(s.take(k) =~= s);
    }
}

proof fn lemma_pow10_pos(n: nat)
    ensures
        pow10(n) >= 1,
    decreases n,
{
    if n > 0 {
        lemma_pow10_pos((n - 1) as nat);
    }
}

proof fn lemma_pow10_monotone(a: nat, b: nat)
    requires
        a <= b,
    ensures
        pow10(a) <= pow10(b),
    decreases b,
{
    if a < b {
        lemma_pow10_monotone(a, (b - 1) as nat);
        lemma_pow10_pos((b - 1) as nat);
    }
}

/// A string of digits has a value below `10^len`.
proof fn lemma_digits_val_bound(s: Seq<char>)
    requires
        all_digits(s),
    ensures
        digits_val(s) < pow10(s.len()),
    decreases s.len(),
{
    if s.len() > 0 {
        lemma_digits_val_bound(s.drop_last());
        assert(is_digit(s.last()));
        assert(digits_val(s.drop_last()) * 10 + 10 <= pow10((s.len() - 1) as nat) * 10)
            by (nonlinear_arith)
            requires
                digits_val(s.drop_last()) < pow10((s.len() - 1) as nat),
        ;
    }
}

/// The value of a concatenation of digit strings.
proof fn lemma_digits_val_concat(a: Seq<char>, b: Seq<char>)
    ensures
        digits_val(a + b) == digits_val(a) * pow10(b.len()) + digits_val(b),
    decreases b.len(),
{
    if b.len() == 0 {
        assert(a + b =~= a);
        assert(digits_val(b) == 0);
        assert(pow10(b.len()) == 1);
        assert(digits_val(a) * pow10(b.len()) == digits_val(a)) by (nonlinear_arith)
            requires
                pow10(b.len()) == 1,
        ;
    } else {
        lemma_digits_val_concat(a, b.drop_last());
        assert((a + b).drop_last() =~= a + b.drop_last());
        assert((a + b).last() == b.last());
        let dva = digits_val(a);
        let dvbdl = digits_val(b.drop_last());
        let p1 = pow10((b.len() - 1) as nat);
        let lastd = (b.last() as u32 - 48) as nat;
        assert(digits_val(a + b) == (dva * p1 + dvbdl) * 10 + lastd);
        assert(digits_val(b) == dvbdl * 10 + lastd);
        assert(pow10(b.len()) == 10 * p1);
        assert((dva * p1 + dvbdl) * 10 + lastd == dva * (10 * p1) + (dvbdl * 10 + lastd))
            by (nonlinear_arith);
        assert(dva * pow10(b.len()) == dva * (10 * p1)) by (nonlinear_arith)
            requires
                pow10(b.len()) == 10 * p1,
        ;
        assert(digits_val(a + b) == dva * pow10(b.len()) + digits_val(b));
    }
}

/// Dropping the last `k` digits of a digit string floors its value by
/// `10^k`.
proof fn lemma_digits_val_truncate(s: Seq<char>, keep: int)
    requires
        all_digits(s),
        0 <= keep <= s.len(),
    ensures
        digits_val(s) / pow10((s.len() - keep) as nat) == digits_val(s.take(keep)),
{
    let a = s.take(keep);
    let b = s.skip(keep);
    assert(s =~= a + b);
    lemma_digits_val_concat(a, b);
    assert(all_digits(b)) by {
        assert(forall|i: int| 0 <= i < b.len() ==> b[i] == s[keep + i]);
    }
    lemma_digits_val_bound(b);
    lemma_pow10_pos(b.len());
    vstd::arithmetic::div_mod::lemma_fundamental_div_mod_converse(
        digits_val(s) as int,
        pow10(b.len()) as int,
        digits_val(a) as int,
        digits_val(b) as int,
    );
}

fn pow10_u64(k: u64) -> (r: u64)
    requires
        k <= 19,
    ensures
        r as nat == pow10(k as nat),
        r >= 1,
{
    let mut r: u64 = 1;
    let mut i: u64 = 0;
    while i < k
        invariant
            0 <= i <= k <= 19,
            r as nat == pow10(i as nat),
        decreases k - i,
    {
        proof {
            reveal_with_fuel(pow10, 21);
            lemma_pow10_monotone(i as nat, 18);
            assert(pow10(18nat) == 1_000_000_000_000_000_000);
        }
        r = r * 10;
        i = i + 1;
    }
    proof {
        lemma_pow10_pos(k as nat);
    }
    r
}

/// Any value below the divisor divides to zero.
proof fn lemma_small_div_is_zero(a: nat, b: nat)
    requires
        a < b,
    ensures
        a / b == 0,
{
    vstd::arithmetic::div_mod::lemma_fundamental_div_mod_converse(
        a as int,
        b as int,
        0,
        a as int,
    );
}

/// The first `e` or `E` of `sub`, which lies in `v` from `off` to the end.
fn find_exp(v: &Vec<char>, off: usize, sub: Ghost<Seq<char>>) -> (r: usize)
    requires
        off <= v@.len(),
        sub@ =~= v@.subrange(off as int, v@.len() as int),
    ensures
        r as int == first_exp(sub@, 0),
        r <= sub@.len(),
{
    let n = v.len();
    let mut cur: usize = 0;
    while off + cur < n && v[off + cur] != 'e' && v[off + cur] != 'E'
        invariant
            off <= v@.len(),
            n == v@.len(),
            sub@ =~= v@.subrange(off as int, v@.len() as int),
            0 <= cur <= sub@.len(),
            first_exp(sub@, 0) == first_exp(sub@, cur as int),
        decreases n - off - cur,
    {
        cur = cur + 1;
    }
    cur
}

/// The first `.` of `mant`, which lies in `v` from `off` to `off + end`.
fn find_dot(v: &Vec<char>, off: usize, end: usize, mant: Ghost<Seq<char>>) -> (r: usize)
    requires
        off + end <= v@.len(),
        mant@ =~= v@.subrange(off as int, off + end),
    ensures
        r as int == first_dot(mant@, 0),
        r <= end,
{
    let n = v.len();
    let mut cur: usize = 0;
    while cur < end && v[off + cur] != '.'
        invariant
            n == v@.len(),
            off + end <= v@.len(),
            mant@ =~= v@.subrange(off as int, off + end),
            0 <= cur <= end,
            mant@.len() == end,
            first_dot(mant@, 0) == first_dot(mant@, cur as int),
        decreases end - cur,
    {
        cur = cur + 1;
    }
    cur
}

/// Whether `sub`, which lies in `v` from `from` to `to`, is all digits.
fn range_all_digits(v: &Vec<char>, from: usize, to: usize, sub: Ghost<Seq<char>>) -> (r: bool)
    requires
        from <= to <= v@.len(),
        sub@ =~= v@.subrange(from as int, to as int),
    ensures
        r == all_digits(sub@),
{
    let mut j: usize = 0;
    while j < to - from
        invariant
            from <= to <= v@.len(),
            sub@ =~= v@.subrange(from as int, to as int),
            sub@.len() == to - from,
            0 <= j <= to - from,
            forall|t: int| 0 <= t < j ==> is_digit(#[trigger] sub@[t]),
        decreases to - from - j,
    {
        let cv = v[from + j] as u32;
        if cv < 48 || cv > 57 {
            proof {
                assert(sub@[j as int] == v@[from + j]);
                assert(!is_digit(sub@[j as int]));
            }
            return false;
        }
        proof {
            assert(sub@[j as int] == v@[from + j]);
            assert(is_digit(sub@[j as int]));
        }
        j = j + 1;
    }
    true
}

/// The value of the digit string `ed`, which lies in `v` from `from` to
/// `to`, saturated at `10^30`: high enough that a saturated exponent
/// decides a time value exactly as the true one would.
fn exp_value_saturated(v: &Vec<char>, from: usize, to: usize, ed: Ghost<Seq<char>>) -> (r: u128)
    requires
        from <= to <= v@.len(),
        ed@ =~= v@.subrange(from as int, to as int),
        all_digits(ed@),
    ensures
        (digits_val(ed@) < pow10(30) && r as nat == digits_val(ed@)) || (digits_val(ed@) >= pow10(
            30,
        ) && r == 1_000_000_000_000_000_000_000_000_000_000u128),
        r <= 1_000_000_000_000_000_000_000_000_000_000u128,
        (r == 1_000_000_000_000_000_000_000_000_000_000u128) == (digits_val(ed@) >= pow10(30)),
{
    proof {
        reveal_with_fuel(pow10, 31);
        assert(pow10(30nat) == 1_000_000_000_000_000_000_000_000_000_000);
    }
    let mut e_val: u128 = 0;
    let mut w: usize = 0;
    while w < to - from
        invariant
            from <= to <= v@.len(),
            ed@ =~= v@.subrange(from as int, to as int),
            ed@.len() == to - from,
            all_digits(ed@),
            0 <= w <= to - from,
            pow10(30nat) == 1_000_000_000_000_000_000_000_000_000_000,
            (digits_val(ed@.take(w as int)) < pow10(30) && e_val as nat == digits_val(
                ed@.take(w as int),
            )) || (digits_val(ed@.take(w as int)) >= pow10(30) && e_val
                == 1_000_000_000_000_000_000_000_000_000_000u128),
        decreases to - from - w,
    {
        let cv = v[from + w] as u32;
        proof {
            assert(ed@[w as int] == v@[from + w]);
            assert(is_digit(ed@[w as int]));
            assert(ed@.take(w + 1).drop_last() =~= ed@.take(w as int));
            assert(ed@.take(w + 1).last() == ed@[w as int]);
            assert(digits_val(ed@.take(w as int)) <= digits_val(ed@.take(w as int)) * 10)
                by (nonlinear_arith);
        }
        let dv = (cv - 48) as u128;
        if e_val >= 1_000_000_000_000_000_000_000_000_000_000u128 {
            e_val = 1_000_000_000_000_000_000_000_000_000_000u128;
        } else {
            e_val = e_val * 10 + dv;
            if e_val > 1_000_000_000_000_000_000_000_000_000_000u128 {
                e_val = 1_000_000_000_000_000_000_000_000_000_000u128;
            }
        }
        w = w + 1;
    }
    proof {
        assert(ed@.take((to - from) as int) =~= ed@);
    }
    e_val
}

/// The value of the first `count` digits of the mantissa digit string,
/// which lies in `v` as the `ip_len` characters from `ip_start` followed
/// by the `fp_len` characters from `fp_start`; `None` when that value
/// exceeds `u64::MAX`.
fn digits_value_prefix(
    v: &Vec<char>,
    ip_start: usize,
    ip_len: usize,
    fp_start: usize,
    fp_len: usize,
    count: usize,
    dseq: Ghost<Seq<char>>,
) -> (r: Option<u64>)
    requires
        dseq@.len() == ip_len + fp_len,
        count <= ip_len + fp_len,
        ip_start + ip_len <= v@.len(),
        fp_start + fp_len <= v@.len(),
        forall|k: int| 0 <= k < ip_len ==> #[trigger] dseq@[k] == v@[ip_start + k],
        forall|k: int| 0 <= k < fp_len ==> #[trigger] dseq@[ip_len + k] == v@[fp_start + k],
        all_digits(dseq@),
    ensures
        (match r {
            Some(m) => m as nat == digits_val(dseq@.take(count as int)),
            None => digits_val(dseq@.take(count as int)) > u64::MAX,
        }),
{
    let n = v.len();
    let mut acc: u64 = 0;
    let mut k: usize = 0;
    proof {
        assert(dseq@.take(0) =~= Seq::<char>::empty());
    }
    while k < count
        invariant
            0 <= k <= count <= ip_len + fp_len,
            dseq@.len() == ip_len + fp_len,
            n == v@.len(),
            ip_start + ip_len <= v@.len(),
            fp_start + fp_len <= v@.len(),
            forall|q: int| 0 <= q < ip_len ==> #[trigger] dseq@[q] == v@[ip_start + q],
            forall|q: int| 0 <= q < fp_len ==> #[trigger] dseq@[ip_len + q] == v@[fp_start + q],
            all_digits(dseq@),
            acc as nat == digits_val(dseq@.take(k as int)),
        decreases count - k,
    {
        let c = if k < ip_len {
            v[ip_start + k]
        } else {
            v[fp_start + (k - ip_len)]
        };
        proof {
            if k < ip_len {
                assert(dseq@[k as int] == v@[ip_start + k as int]);
            } else {
                assert(dseq@[ip_len + (k - ip_len)] == v@[fp_start + (k as int - ip_len)]);
                assert(ip_len + (k - ip_len) == k as int);
            }
            assert(c == dseq@[k as int]);
            assert(is_digit(dseq@[k as int]));
            assert(dseq@.take(k + 1).drop_last() =~= dseq@.take(k as int));
            assert(dseq@.take(k + 1).last() == dseq@[k as int]);
        }
        let dv = (c as u32 - 48) as u64;
        if acc > (u64::MAX - dv) / 10 {
            proof {
                assert(acc * 10 + dv > u64::MAX) by (nonlinear_arith)
                    requires
                        acc > (u64::MAX - dv) / 10,
                        dv <= 9,
                ;
                lemma_digits_val_prefix(dseq@.take(count as int), k + 1);
                assert(dseq@.take(count as int).take(k + 1) =~= dseq@.take(k + 1));
            }
            return None;
        }
        acc = acc * 10 + dv;
        k = k + 1;
    }
    Some(acc)
}

/// The scaled value for an exponent whose magnitude reaches `10^30`: far
/// beyond both representable values and values distinguishable from zero.
fn huge_exponent_result(
    v: &Vec<char>,
    ip_start: usize,
    ip_len: usize,
    fp_start: usize,
    fp_len: usize,
    eneg: bool,
    dseq: Ghost<Seq<char>>,
    net_true: Ghost<int>,
) -> (r: Option<u64>)
    requires
        dseq@.len() == ip_len + fp_len,
        ip_start + ip_len <= v@.len(),
        fp_start + fp_len <= v@.len(),
        forall|k: int| 0 <= k < ip_len ==> #[trigger] dseq@[k] == v@[ip_start + k],
        forall|k: int| 0 <= k < fp_len ==> #[trigger] dseq@[ip_len + k] == v@[fp_start + k],
        all_digits(dseq@),
        ip_len + fp_len <= usize::MAX,
        eneg ==> net_true@ < 0 && dseq@.len() <= -net_true@,
        !eneg ==> net_true@ >= 20,
    ensures
        (match r {
            Some(t) => scaled_total(digits_val(dseq@), net_true@) == t as nat,
            None => scaled_total(digits_val(dseq@), net_true@) > u64::MAX,
        }),
{
    let lt = ip_len + fp_len;
    proof {
        lemma_digits_val_bound(dseq@);
    }
    if eneg {
        proof {
            lemma_pow10_monotone(dseq@.len(), (-net_true@) as nat);
            lemma_small_div_is_zero(digits_val(dseq@), pow10((-net_true@) as nat));
        }
        return Some(0);
    }
    match digits_value_prefix(v, ip_start, ip_len, fp_start, fp_len, lt, dseq) {
        Some(m) => {
            proof {
                assert(dseq@.take(lt as int) =~= dseq@);
            }
            if m == 0 {
                proof {
                    assert(digits_val(dseq@) * pow10(net_true@ as nat) == 0) by (nonlinear_arith)
                        requires
                            digits_val(dseq@) == 0,
                    ;
                }
                return Some(0);
            }
            proof {
                lemma_pow10_monotone(20, net_true@ as nat);
                reveal_with_fuel(pow10, 21);
                assert(pow10(20nat) > u64::MAX);
                assert(digits_val(dseq@) * pow10(net_true@ as nat) >= pow10(net_true@ as nat))
                    by (nonlinear_arith)
                    requires
                        digits_val(dseq@) >= 1,
                        pow10(net_true@ as nat) >= 0,
                ;
            }
            return None;
        },
        None => {
            proof {
                assert(dseq@.take(lt as int) =~= dseq@);
                lemma_pow10_pos(net_true@ as nat);
                assert(digits_val(dseq@) * pow10(net_true@ as nat) >= digits_val(dseq@))
                    by (nonlinear_arith)
                    requires
                        pow10(net_true@ as nat) >= 1,
                ;
            }
            return None;
        },
    }
}

/// The mantissa digit string's value scaled by `10^net`, fractions
/// truncated; `None` when the scaled value exceeds `u64::MAX`.
fn scaled_result(
    v: &Vec<char>,
    ip_start: usize,
    ip_len: usize,
    fp_start: usize,
    fp_len: usize,
    net: i128,
    dseq: Ghost<Seq<char>>,
) -> (r: Option<u64>)
    requires
        dseq@.len() == ip_len + fp_len,
        ip_start + ip_len <= v@.len(),
        fp_start + fp_len <= v@.len(),
        forall|k: int| 0 <= k < ip_len ==> #[trigger] dseq@[k] == v@[ip_start + k],
        forall|k: int| 0 <= k < fp_len ==> #[trigger] dseq@[ip_len + k] == v@[fp_start + k],
        all_digits(dseq@),
        ip_len + fp_len <= usize::MAX,
        net > i128::MIN,
    ensures
        (match r {
            Some(t) => scaled_total(digits_val(dseq@), net as int) == t as nat,
            None => scaled_total(digits_val(dseq@), net as int) > u64::MAX,
        }),
{
    let lt = ip_len + fp_len;
    proof {
        lemma_digits_val_bound(dseq@);
    }
    if net >= 0 {
        match digits_value_prefix(v, ip_start, ip_len, fp_start, fp_len, lt, dseq) {
            None => {
                proof {
                    assert(dseq@.take(lt as int) =~= dseq@);
                    lemma_pow10_pos(net as nat);
                    assert(digits_val(dseq@) * pow10(net as nat) >= digits_val(dseq@))
                        by (nonlinear_arith)
                        requires
                            pow10(net as nat) >= 1,
                    ;
                }
                return None;
            },
            Some(m) => {
                proof {
                    assert(dseq@.take(lt as int) =~= dseq@);
                }
                if m == 0 {
                    proof {
                        assert(digits_val(dseq@) * pow10(net as nat) == 0) by (nonlinear_arith)
                            requires
                                digits_val(dseq@) == 0,
                        ;
                    }
                    return Some(0);
                }
                if net > 19 {
                    proof {
                        lemma_pow10_monotone(20, net as nat);
                        reveal_with_fuel(pow10, 21);
                        assert(pow10(20nat) > u64::MAX);
                        assert(digits_val(dseq@) * pow10(net as nat) >= pow10(net as nat))
                            by (nonlinear_arith)
                            requires
                                digits_val(dseq@) >= 1,
                                pow10(net as nat) >= 0,
                        ;
                    }
                    return None;
                }
                let p = pow10_u64(net as u64);
                proof {
                    assert((m as int) * (p as int) <= (u64::MAX as int) * (u64::MAX as int))
                        by (nonlinear_arith)
                        requires
                            0 <= m <= u64::MAX,
                            0 <= p <= u64::MAX,
                    ;
                }
                let prod: u128 = (m as u128) * (p as u128);
                if prod > u64::MAX as u128 {
                    return None;
                }
                return Some(prod as u64);
            },
        }
    }
    let negnet: i128 = -net;
    let keep: usize = if negnet >= lt as i128 {
        0
    } else {
        lt - (negnet as usize)
    };
    proof {
        lemma_digits_val_truncate(dseq@, keep as int);
        if negnet >= lt as i128 {
            lemma_pow10_monotone(lt as nat, negnet as nat);
            lemma_small_div_is_zero(digits_val(dseq@), pow10(negnet as nat));
            assert(dseq@.take(0) =~= Seq::<char>::empty());
        }
    }
    digits_value_prefix(v, ip_start, ip_len, fp_start, fp_len, keep, dseq)
}

/// Parses a decimal-seconds string into whole microseconds, exactly as
/// `time_micros` describes.
#[verifier::rlimit(100)]
pub fn parse_time(v: &Vec<char>) -> (r: Option<u64>)
    ensures
        r == time_micros(v@),
{
    let n = v.len();
    let start: usize = if n > 0 && v[0] == '+' {
        1
    } else {
        0
    };
    let ghost s = if v@.len() > 0 && v@[0] == '+' {
        v@.drop_first()
    } else {
        v@
    };
    proof {
        assert(s =~= v@.subrange(start as int, n as int));
    }
    let ns = n - start;
    let ep = find_exp(v, start, Ghost(s));
    let ghost mant = s.take(ep as int);
    proof {
        assert(mant =~= v@.subrange(start as int, (start + ep) as int));
    }
    let d = find_dot(v, start, ep, Ghost(mant));
    let ghost ip = mant.take(d as int);
    let ghost fp = if d == ep {
        Seq::<char>::empty()
    } else {
        mant.subrange(d as int + 1, ep as int)
    };
    let ip_len = d;
    let fp_len: usize = if d < ep {
        ep - d - 1
    } else {
        0
    };
    let fp_start: usize = if d < ep {
        start + d + 1
    } else {
        0
    };
    proof {
        assert(ip =~= v@.subrange(start as int, (start + d) as int));
        if d < ep {
            assert(fp =~= v@.subrange(fp_start as int, (start + ep) as int));
        }
    }
    if ip_len + fp_len == 0 {
        return None;
    }
    if !range_all_digits(v, start, start + d, Ghost(ip)) {
        return None;
    }
    if fp_len > 0 {
        if !range_all_digits(v, fp_start, start + ep, Ghost(fp)) {
            return None;
        }
    }
    // the exponent part, saturated at 10^30: high enough that a saturated
    // exponent decides the result exactly as the true one would
    let ghost esect = if ep as int == s.len() {
        Seq::<char>::empty()
    } else {
        s.subrange(ep as int + 1, s.len() as int)
    };
    let ghost edigits = (if esect.len() > 0 && (esect[0] == '-' || esect[0] == '+') {
        esect.drop_first()
    } else {
        esect
    });
    let mut eneg = false;
    let mut e_val: u128 = 0;
    let mut saturated = false;
    if ep < ns {
        let mut q = start + ep + 1;
        proof {
            assert(esect =~= v@.subrange((start + ep + 1) as int, n as int));
        }
        if q < n && (v[q] == '-' || v[q] == '+') {
            proof {
                assert(esect[0] == v@[q as int]);
            }
            eneg = v[q] == '-';
            q = q + 1;
        }
        proof {
            assert(edigits =~= v@.subrange(q as int, n as int));
        }
        if q >= n {
            proof {
                assert(edigits.len() == 0);
            }
            return None;
        }
        if !range_all_digits(v, q, n, Ghost(edigits)) {
            return None;
        }
        e_val = exp_value_saturated(v, q, n, Ghost(edigits));
        saturated = e_val == 1_000_000_000_000_000_000_000_000_000_000u128;
    }
    // the value itself
    let ghost dseq = ip + fp;
    let ghost e_true: int = if ep as int == s.len() {
        0
    } else if eneg {
        -(digits_val(edigits) as int)
    } else {
        digits_val(edigits) as int
    };
    let ghost net_true: int = 6 + e_true - fp.len();
    let lt = ip_len + fp_len;
    proof {
        reveal_with_fuel(pow10, 31);
        assert(pow10(30nat) == 1_000_000_000_000_000_000_000_000_000_000);
        assert(dseq.len() == lt);
        assert forall|t: int| 0 <= t < lt implies is_digit(#[trigger] dseq[t]) by {
            if t < ip_len {
                assert(dseq[t] == ip[t]);
            } else {
                assert(dseq[t] == fp[t - ip_len]);
            }
        }
        assert forall|t: int| 0 <= t < ip_len implies #[trigger] dseq[t] == v@[start + t] by {
            assert(dseq[t] == ip[t]);
        }
        assert forall|t: int| 0 <= t < fp_len implies #[trigger] dseq[ip_len + t] == v@[fp_start
            + t] by {
            assert(dseq[ip_len + t] == fp[t]);
        }
        if ep < ns && !saturated {
            assert(e_val as nat == digits_val(edigits));
        }
    }
    if saturated {
        proof {
            assert(digits_val(edigits) >= pow10(30nat));
            if eneg {
                assert(net_true < 0);
                assert(dseq.len() <= -net_true);
            } else {
                assert(net_true >= 20);
            }
        }
        return huge_exponent_result(
            v,
            start,
            ip_len,
            fp_start,
            fp_len,
            eneg,
            Ghost(dseq),
            Ghost(net_true),
        );
    }
    let e_i: i128 = if ep >= ns {
        0
    } else if eneg {
        -(e_val as i128)
    } else {
        e_val as i128
    };
    let net: i128 = 6 + e_i - (fp_len as i128);
    proof {
        assert(net == net_true);
    }
    scaled_result(v, start, ip_len, fp_start, fp_len, net, Ghost(dseq))
}

} // verus!
