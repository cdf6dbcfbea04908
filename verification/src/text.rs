//! Verified text building: decimal rendering of integers, fixed-point
//! rendering of milli-unit quantities, and JSON string escaping. The
//! descriptor writers state their contracts over the spec functions here.

use vstd::prelude::*;

verus! {

/// Relies on `String::push` from std: appends the given char to the end of
/// the string.
pub assume_specification[ String::push ](s: &mut String, c: char)
    ensures
        final (s)@ == old(s)@ + seq![c],
;

pub open spec fn spec_digit_char(d: int) -> char {
    if d == 0 {
        '0'
    } else if d == 1 {
        '1'
    } else if d == 2 {
        '2'
    } else if d == 3 {
        '3'
    } else if d == 4 {
        '4'
    } else if d == 5 {
        '5'
    } else if d == 6 {
        '6'
    } else if d == 7 {
        '7'
    } else if d == 8 {
        '8'
    } else {
        '9'
    }
}

/// Decimal digit sequence of `n`, most significant digit first, no sign and
/// no leading zeros (a single `'0'` for zero).
pub open spec fn spec_dec_u64(n: nat) -> Seq<char>
    decreases n,
{
    if n < 10 {
        seq![spec_digit_char(n as int)]
    } else {
        spec_dec_u64(n / 10) + seq![spec_digit_char((n % 10) as int)]
    }
}

/// Decimal rendering of a signed value: a leading `'-'` for negatives.
pub open spec fn spec_dec_i64(n: int) -> Seq<char> {
    if n < 0 {
        seq!['-'] + spec_dec_u64((-n) as nat)
    } else {
        spec_dec_u64(n as nat)
    }
}

fn digit_char(d: u64) -> (c: char)
    requires
        d < 10,
    ensures
        c == spec_digit_char(d as int),
{
    match d {
        0 => '0',
        1 => '1',
        2 => '2',
        3 => '3',
        4 => '4',
        5 => '5',
        6 => '6',
        7 => '7',
        8 => '8',
        _ => '9',
    }
}

/// Appends the decimal digits of `n` to `s`.
pub fn push_u64_dec(s: &mut String, n: u64)
    ensures
        final (s)@ == old(s)@ + spec_dec_u64(n as nat),
    decreases n,
{
    if n < 10 {
        let c = digit_char(n);
        s.push(c);
    } else {
        push_u64_dec(s, n / 10);
        let c = digit_char(n % 10);
        s.push(c);
        assert(s@ =~= old(s)@ + spec_dec_u64(n as nat));
    }
}

/// Magnitude of `n` as an unsigned value, total on all of `i64`.
pub fn abs_u64(n: i64) -> (m: u64)
    ensures
        m == if n >= 0 {
            n as int
        } else {
            -(n as int)
        },
{
    if n >= 0 {
        n as u64
    } else {
        let t: i64 = -(n + 1);
        (t as u64) + 1
    }
}

/// Appends the signed decimal rendering of `n` to `s`.
pub fn push_i64_dec(s: &mut String, n: i64)
    ensures
        final (s)@ == old(s)@ + spec_dec_i64(n as int),
{
    let m = abs_u64(n);
    if n < 0 {
        proof {
            reveal_strlit("-");
        }
        s.append("-");
    }
    push_u64_dec(s, m);
    assert(s@ =~= old(s)@ + spec_dec_i64(n as int));
}

/// Up to three fractional digits of a milli-unit remainder, with trailing
/// zeros trimmed. Only meaningful for `0 < r < 1000`.
pub open spec fn spec_frac3(r: nat) -> Seq<char> {
    if r % 10 != 0 {
        seq![
            spec_digit_char((r / 100) as int),
            spec_digit_char(((r / 10) % 10) as int),
            spec_digit_char((r % 10) as int),
        ]
    } else if r % 100 != 0 {
        seq![spec_digit_char((r / 100) as int), spec_digit_char(((r / 10) % 10) as int)]
    } else {
        seq![spec_digit_char((r / 100) as int)]
    }
}

/// Decimal rendering of a quantity held in thousandths of a unit: the whole
/// part, then a `'.'` and the trimmed fraction when the value is not whole.
pub open spec fn spec_milli(m: int) -> Seq<char> {
    let a = if m < 0 {
        -m
    } else {
        m
    };
    let sign: Seq<char> = if m < 0 {
        seq!['-']
    } else {
        Seq::empty()
    };
    if a % 1000 == 0 {
        sign + spec_dec_u64((a / 1000) as nat)
    } else {
        sign + spec_dec_u64((a / 1000) as nat) + seq!['.'] + spec_frac3((a % 1000) as nat)
    }
}

/// Appends the decimal rendering of `m` thousandths of a unit to `s`.
pub fn push_milli(s: &mut String, m: i64)
    ensures
        final (s)@ == old(s)@ + spec_milli(m as int),
{
    let a = abs_u64(m);
    if m < 0 {
        proof {
            reveal_strlit("-");
        }
        s.append("-");
    }
    push_u64_dec(s, a / 1000);
    let r = a % 1000;
    if r != 0 {
        s.push('.');
        let d0 = digit_char(r / 100);
        let d1 = digit_char((r / 10) % 10);
        let d2 = digit_char(r % 10);
        if r % 10 != 0 {
            s.push(d0);
            s.push(d1);
            s.push(d2);
        } else if r % 100 != 0 {
            s.push(d0);
            s.push(d1);
        } else {
            s.push(d0);
        }
    }
    assert(s@ =~= old(s)@ + spec_milli(m as int));
}

/// Decimal rendering of a quantity held in tenths of a unit, with the one
/// fractional digit trimmed when zero.
pub open spec fn spec_tenths(t: nat) -> Seq<char> {
    spec_dec_u64(t / 10) + if t % 10 == 0 {
        Seq::<char>::empty()
    } else {
        seq!['.', spec_digit_char((t % 10) as int)]
    }
}

/// Appends the decimal rendering of `t` tenths of a unit to `s`.
pub fn push_tenths(s: &mut String, t: u64)
    ensures
        final (s)@ == old(s)@ + spec_tenths(t as nat),
{
    push_u64_dec(s, t / 10);
    if t % 10 != 0 {
        s.push('.');
        let d = digit_char(t % 10);
        s.push(d);
    }
    assert(s@ =~= old(s)@ + spec_tenths(t as nat));
}

/// Decimal rendering of half of a quantity held in tenths of a unit, exact
/// to the hundredth, with trailing fractional zeros trimmed.
pub open spec fn spec_half_tenths(t: nat) -> Seq<char> {
    spec_dec_u64(t / 20) + if t % 20 == 0 {
        Seq::<char>::empty()
    } else if t % 2 == 0 {
        seq!['.', spec_digit_char(((t % 20) / 2) as int)]
    } else {
        seq!['.', spec_digit_char(((t % 20) / 2) as int), '5']
    }
}

/// Appends the decimal rendering of half of `t` tenths of a unit to `s`.
pub fn push_half_tenths(s: &mut String, t: u64)
    ensures
        final (s)@ == old(s)@ + spec_half_tenths(t as nat),
{
    push_u64_dec(s, t / 20);
    let r = t % 20;
    if r != 0 {
        s.push('.');
        let d = digit_char(r / 2);
        s.push(d);
        if t % 2 != 0 {
            s.push('5');
        }
    }
    assert(s@ =~= old(s)@ + spec_half_tenths(t as nat));
}

pub open spec fn spec_hex_digit(d: int) -> char {
    if d < 10 {
        spec_digit_char(d)
    } else if d == 10 {
        'a'
    } else if d == 11 {
        'b'
    } else if d == 12 {
        'c'
    } else if d == 13 {
        'd'
    } else if d == 14 {
        'e'
    } else {
        'f'
    }
}

fn hex_digit(d: u32) -> (c: char)
    requires
        d < 16,
    ensures
        c == spec_hex_digit(d as int),
{
    match d {
        0 => '0',
        1 => '1',
        2 => '2',
        3 => '3',
        4 => '4',
        5 => '5',
        6 => '6',
        7 => '7',
        8 => '8',
        9 => '9',
        10 => 'a',
        11 => 'b',
        12 => 'c',
        13 => 'd',
        14 => 'e',
        _ => 'f',
    }
}

/// JSON escape of one character: quotes and backslashes get a backslash
/// escape, control characters a `\u00XX` escape, everything else stands as
/// itself.
pub open spec fn spec_escape_char(c: char) -> Seq<char> {
    if c == '"' {
        seq!['\\', '"']
    } else if c == '\\' {
        seq!['\\', '\\']
    } else if (c as int) < 32 {
        seq!['\\', 'u', '0', '0', spec_hex_digit(c as int / 16), spec_hex_digit(c as int % 16)]
    } else {
        seq![c]
    }
}

/// JSON escape of a whole character sequence.
pub open spec fn spec_escape(s: Seq<char>) -> Seq<char>
    decreases s.len(),
{
    if s.len() == 0 {
        Seq::empty()
    } else {
        spec_escape_char(s[0]) + spec_escape(s.drop_first())
    }
}

pub proof fn lemma_escape_push(s: Seq<char>, c: char)
    ensures
        spec_escape(s.push(c)) == spec_escape(s) + spec_escape_char(c),
    decreases s.len(),
{
    if s.len() == 0 {
        assert(s.push(c)[0] == c);
        assert(s.push(c).drop_first() =~= s);
        assert(spec_escape(s.push(c)) =~= spec_escape(s) + spec_escape_char(c));
    } else {
        assert(s.push(c).drop_first() =~= s.drop_first().push(c));
        lemma_escape_push(s.drop_first(), c);
        assert(spec_escape(s.push(c)) =~= spec_escape(s) + spec_escape_char(c));
    }
}

/// A double-quoted, escaped JSON string literal for `s`.
pub open spec fn spec_json_str(s: Seq<char>) -> Seq<char> {
    seq!['"'] + spec_escape(s) + seq!['"']
}

/// Appends the JSON string literal form of `t` (quotes included) to `s`.
pub fn push_json_str(s: &mut String, t: &str)
    ensures
        final (s)@ == old(s)@ + spec_json_str(t@),
{
    s.push('"');
    let n = t.unicode_len();
    let mut i: usize = 0;
    while i < n
        invariant
            n == t@.len(),
            i <= n,
            s@ == old(s)@ + seq!['"'] + spec_escape(t@.take(i as int)),
        decreases n - i,
    {
        let c = t.get_char(i);
        if c == '"' {
            s.push('\\');
            s.push('"');
        } else if c == '\\' {
            s.push('\\');
            s.push('\\');
        } else if (c as u32) < 32 {
            s.push('\\');
            s.push('u');
            s.push('0');
            s.push('0');
            let h0 = hex_digit((c as u32) / 16);
            let h1 = hex_digit((c as u32) % 16);
            s.push(h0);
            s.push(h1);
        } else {
            s.push(c);
        }
        proof {
            lemma_escape_push(t@.take(i as int), c);
            assert(t@.take(i as int).push(c) =~= t@.take(i + 1));
            assert(s@ =~= old(s)@ + seq!['"'] + spec_escape(t@.take(i + 1)));
        }
        i = i + 1;
    }
    s.push('"');
    proof {
        assert(t@.take(n as int) =~= t@);
        assert(s@ =~= old(s)@ + spec_json_str(t@));
    }
}

/// Equality of two string slices by their character sequences.
pub fn str_is(a: &str, b: &str) -> (r: bool)
    ensures
        r == (a@ == b@),
{
    let x = a.to_owned();
    let y = b.to_owned();
    x == y
}

} // verus!
