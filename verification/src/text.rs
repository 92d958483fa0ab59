//! Small string helpers shared by the subscriber's channel naming and
//! the client's command parsing: character-level prefix and trim
//! operations, decimal formatting and parsing.

use vstd::prelude::*;
use vstd::string::StrSliceExecFns;

verus! {

/// Relies on String::push: appends exactly the one character.
#[verifier::external_body]
pub fn push_char(s: &mut String, c: char)
    ensures
        final(s)@ == old(s)@.push(c),
{
    s.push(c)
}

/// The decimal digit characters for 0 through 9.
pub open spec fn spec_digit_char(d: int) -> char {
    if d == 0 {
        '0'
    } else if d == 1 {
        '1'
    } else if d == 2 {
        '2'
    } else if d == 3 {
        '3'
    } else if d == 4 {
        '4'
    } else if d == 5 {
        '5'
    } else if d == 6 {
        '6'
    } else if d == 7 {
        '7'
    } else if d == 8 {
        '8'
    } else {
        '9'
    }
}

/// The decimal numeral of a non-negative number, most significant
/// digit first, without leading zeros (except for zero itself).
pub open spec fn spec_udecimal(n: int) -> Seq<char>
    decreases n,
{
    if n < 10 {
        seq![spec_digit_char(n)]
    } else {
        spec_udecimal(n / 10).push(spec_digit_char(n % 10))
    }
}

/// The decimal numeral of a signed 32-bit number, as `format!` and
/// `to_string` write it.
pub open spec fn spec_decimal_i32(x: i32) -> Seq<char> {
    if x >= 0 {
        spec_udecimal(x as int)
    } else {
        seq!['-'] + spec_udecimal(-(x as int))
    }
}

fn digit_char(d: u32) -> (c: char)
    requires
        d < 10,
    ensures
        c == spec_digit_char(d as int),
{
    match d {
        0 => '0',
        1 => '1',
        2 => '2',
        3 => '3',
        4 => '4',
        5 => '5',
        6 => '6',
        7 => '7',
        8 => '8',
        _ => '9',
    }
}

fn push_udecimal(out: &mut String, n: u32)
    ensures
        final(out)@ == old(out)@ + spec_udecimal(n as int),
    decreases n,
{
    if n < 10 {
        push_char(out, digit_char(n));
        proof {
            assert(old(out)@ + spec_udecimal(n as int) =~= old(out)@.push(
                spec_digit_char(n as int),
            ));
        }
    } else {
        push_udecimal(out, n / 10);
        push_char(out, digit_char(n % 10));
        proof {
            assert(old(out)@ + spec_udecimal(n as int) =~= (old(out)@ + spec_udecimal(
                n as int / 10,
            )).push(spec_digit_char(n as int % 10)));
        }
    }
}

/// The decimal text of a signed 32-bit number.
pub fn format_i32(x: i32) -> (r: String)
    ensures
        r@ == spec_decimal_i32(x),
{
    let mut out = String::new();
    if x >= 0 {
        push_udecimal(&mut out, x as u32);
    } else {
        push_char(&mut out, '-');
        let mag: u32 = if x == i32::MIN {
            0x8000_0000u32
        } else {
            (-x) as u32
        };
        push_udecimal(&mut out, mag);
        proof {
            assert(Seq::<char>::empty().push('-') =~= seq!['-']);
            assert(seq!['-'] + spec_udecimal(-(x as int)) =~= spec_decimal_i32(x));
        }
    }
    out
}

/// Whether `s` begins with `p`.
pub open spec fn has_prefix(s: Seq<char>, p: Seq<char>) -> bool {
    s.len() >= p.len() && s.subrange(0, p.len() as int) == p
}

/// Whether `s` begins with `prefix`.
pub fn str_starts_with(s: &str, prefix: &str) -> (r: bool)
    ensures
        r == has_prefix(s@, prefix@),
{
    let sl = s.unicode_len();
    let pl = prefix.unicode_len();
    if sl < pl {
        return false;
    }
    let mut i: usize = 0;
    while i < pl
        invariant
            i <= pl,
            pl == prefix@.len(),
            sl == s@.len(),
            pl <= sl,
            forall|j: int| 0 <= j < i ==> s@[j] == prefix@[j],
        decreases pl - i,
    {
        if s.get_char(i) != prefix.get_char(i) {
            proof {
                assert(s@.subrange(0, pl as int)[i as int] != prefix@[i as int]);
            }
            return false;
        }
        i = i + 1;
    }
    proof {
        assert(s@.subrange(0, pl as int) =~= prefix@);
    }
    true
}

/// Whitespace as the trim operations here understand it.
pub open spec fn is_space(c: char) -> bool {
    c == ' ' || c == '\t' || c == '\n' || c == '\r'
}

/// `s` without its leading whitespace.
pub open spec fn spec_trim_start(s: Seq<char>) -> Seq<char>
    decreases s.len(),
{
    if s.len() > 0 && is_space(s.first()) {
        spec_trim_start(s.drop_first())
    } else {
        s
    }
}

/// `s` without its trailing whitespace.
pub open spec fn spec_trim_end(s: Seq<char>) -> Seq<char>
    decreases s.len(),
{
    if s.len() > 0 && is_space(s.last()) {
        spec_trim_end(s.drop_last())
    } else {
        s
    }
}

/// `s` without leading or trailing whitespace.
pub open spec fn spec_trim(s: Seq<char>) -> Seq<char> {
    spec_trim_end(spec_trim_start(s))
}

/// `s` with every leading repetition of `p` removed.
pub open spec fn spec_strip_all(s: Seq<char>, p: Seq<char>) -> Seq<char>
    decreases s.len(),
{
    if p.len() > 0 && s.len() >= p.len() && s.subrange(0, p.len() as int) == p {
        spec_strip_all(s.subrange(p.len() as int, s.len() as int), p)
    } else {
        s
    }
}

/// A decimal digit character.
pub open spec fn is_digit(c: char) -> bool {
    48 <= c as u32 <= 57
}

pub open spec fn all_digits(s: Seq<char>) -> bool {
    forall|i: int| 0 <= i < s.len() ==> is_digit(#[trigger] s[i])
}

/// The numeric value of a digit string, most significant digit first.
pub open spec fn spec_digits_val(s: Seq<char>) -> int
    decreases s.len(),
{
    if s.len() == 0 {
        0
    } else {
        spec_digits_val(s.drop_last()) * 10 + (s.last() as u32 - 48)
    }
}

/// Parsing a signed decimal: an optional sign, then at least one
/// digit, and a value within `[min, max]`; anything else fails.
pub open spec fn spec_parse_signed(s: Seq<char>, min: int, max: int) -> Option<int> {
    let neg = s.len() > 0 && s[0] == '-';
    let d = if s.len() > 0 && (s[0] == '-' || s[0] == '+') {
        s.drop_first()
    } else {
        s
    };
    if d.len() == 0 || !all_digits(d) {
        None
    } else {
        let v = if neg {
            -spec_digits_val(d)
        } else {
            spec_digits_val(d)
        };
        if min <= v <= max {
            Some(v)
        } else {
            None
        }
    }
}

proof fn lemma_digits_val_nonneg(s: Seq<char>)
    requires
        all_digits(s),
    ensures
        spec_digits_val(s) >= 0,
    decreases s.len(),
{
    if s.len() > 0 {
        assert(all_digits(s.drop_last())) by {
            assert(forall|i: int|
                0 <= i < s.len() - 1 ==> #[trigger] s.drop_last()[i] == s[i]);
        };
        lemma_digits_val_nonneg(s.drop_last());
    }
}

/// Parses a signed 64-bit decimal, as `str::parse::<i64>` does.
#[verifier::loop_isolation(false)]
pub fn parse_i64(s: &str) -> (r: Option<i64>)
    ensures
        r == match spec_parse_signed(s@, -0x8000_0000_0000_0000, 0x7fff_ffff_ffff_ffff) {
            Some(v) => Some(v as i64),
            None => None::<i64>,
        },
{
    let n = s.unicode_len();
    let mut start: usize = 0;
    let mut neg = false;
    if n > 0 {
        let c0 = s.get_char(0);
        if c0 == '-' {
            neg = true;
            start = 1;
        } else if c0 == '+' {
            start = 1;
        }
    }
    let ghost d = s@.subrange(start as int, n as int);
    proof {
        if s@.len() > 0 && (s@[0] == '-' || s@[0] == '+') {
            assert(s@.drop_first() =~= s@.subrange(1, s@.len() as int));
        } else {
            assert(s@.subrange(0, s@.len() as int) =~= s@);
        }
    }
    if start >= n {
        return None;
    }
    let mut acc: u128 = 0;
    let mut over = false;
    let mut i: usize = start;
    while i < n
        invariant
            start <= i <= n,
            n == s@.len(),
            start < n,
            d == s@.subrange(start as int, n as int),
            forall|j: int| 0 <= j < i - start ==> is_digit(#[trigger] d[j]),
            !over ==> acc == spec_digits_val(d.subrange(0, i - start)) && acc
                <= 0x8000_0000_0000_0000,
            over ==> spec_digits_val(d.subrange(0, i - start)) > 0x8000_0000_0000_0000,
        decreases n - i,
    {
        let c = s.get_char(i);
        let cv = c as u32;
        proof {
            let k = i - start;
            assert(d.subrange(0, k + 1).drop_last() =~= d.subrange(0, k));
            assert(d.subrange(0, k + 1).last() == d[k]);
            assert(d[k] == s@[i as int]);
        }
        if cv < 48 || cv > 57 {
            proof {
                assert(!is_digit(d[i - start]));
            }
            return None;
        }
        let dv = (cv - 48) as u128;
        if !over {
            let next: u128 = acc * 10 + dv;
            if next > 0x8000_0000_0000_0000 {
                over = true;
            } else {
                acc = next;
            }
        } else {
            proof {
                let k = i - start;
                let prev = spec_digits_val(d.subrange(0, k));
                assert(spec_digits_val(d.subrange(0, k + 1)) == prev * 10 + (d[k] as u32 - 48));
            }
        }
        i = i + 1;
    }
    proof {
        assert(d.subrange(0, n - start) =~= d);
        assert(all_digits(d));
    }
    if over {
        return None;
    }
    if neg {
        if acc == 0x8000_0000_0000_0000 {
            Some(i64::MIN)
        } else {
            Some(-(acc as i64))
        }
    } else {
        if acc > 0x7fff_ffff_ffff_ffff {
            None
        } else {
            Some(acc as i64)
        }
    }
}

/// Parses a signed 32-bit decimal, as `str::parse::<i32>` does.
pub fn parse_i32(s: &str) -> (r: Option<i32>)
    ensures
        r == match spec_parse_signed(s@, -0x8000_0000, 0x7fff_ffff) {
            Some(v) => Some(v as i32),
            None => None::<i32>,
        },
{
    match parse_i64(s) {
        None => None,
        Some(v) => {
            if -0x8000_0000i64 <= v && v <= 0x7fff_ffffi64 {
                proof {
                    if spec_parse_signed(s@, -0x8000_0000_0000_0000, 0x7fff_ffff_ffff_ffff)
                        is Some {
                        let neg = s@.len() > 0 && s@[0] == '-';
                        let d = if s@.len() > 0 && (s@[0] == '-' || s@[0] == '+') {
                            s@.drop_first()
                        } else {
                            s@
                        };
                        lemma_digits_val_nonneg(d);
                    }
                }
                Some(v as i32)
            } else {
                None
            }
        },
    }
}

fn exec_is_space(c: char) -> (r: bool)
    ensures
        r == is_space(c),
{
    c == ' ' || c == '\t' || c == '\n' || c == '\r'
}

/// Trims leading and trailing whitespace.
pub fn trim_str(s: &str) -> (r: String)
    ensures
        r@ == spec_trim(s@),
{
    let n = s.unicode_len();
    proof {
        assert(s@.subrange(0, n as int) =~= s@);
    }
    let mut a: usize = 0;
    while a < n && exec_is_space(s.get_char(a))
        invariant
            a <= n,
            n == s@.len(),
            spec_trim_start(s@) == spec_trim_start(s@.subrange(a as int, n as int)),
        decreases n - a,
    {
        proof {
            assert(s@.subrange(a as int, n as int).drop_first() =~= s@.subrange(
                a + 1,
                n as int,
            ));
        }
        a = a + 1;
    }
    proof {
        assert(spec_trim_start(s@) == s@.subrange(a as int, n as int));
    }
    let mut b: usize = n;
    while b > a && exec_is_space(s.get_char(b - 1))
        invariant
            a <= b <= n,
            n == s@.len(),
            spec_trim_start(s@) == s@.subrange(a as int, n as int),
            spec_trim_end(s@.subrange(a as int, n as int)) == spec_trim_end(
                s@.subrange(a as int, b as int),
            ),
        decreases b,
    {
        proof {
            assert(s@.subrange(a as int, b as int).drop_last() =~= s@.subrange(
                a as int,
                b - 1,
            ));
            assert(s@.subrange(a as int, b as int).last() == s@[b - 1]);
        }
        b = b - 1;
    }
    proof {
        if b > a {
            assert(s@.subrange(a as int, b as int).last() == s@[b - 1]);
        }
        assert(spec_trim_end(s@.subrange(a as int, b as int)) == s@.subrange(a as int, b as int));
    }
    let out = s.substring_char(a, b);
    out.to_owned()
}

/// Removes every leading repetition of `p`, then trims whitespace —
/// the shape every command parser step uses.
pub fn strip_all_then_trim(s: &str, p: &str) -> (r: String)
    requires
        p@.len() > 0,
    ensures
        r@ == spec_trim(spec_strip_all(s@, p@)),
{
    let pl = p.unicode_len();
    let mut start: usize = 0;
    let n = s.unicode_len();
    proof {
        assert(s@.subrange(0, n as int) =~= s@);
    }
    loop
        invariant
            start <= n,
            n == s@.len(),
            pl == p@.len(),
            pl > 0,
            spec_strip_all(s@, p@) == spec_strip_all(s@.subrange(start as int, n as int), p@),
        decreases n - start,
    {
        let rest = s.substring_char(start, n);
        if n - start >= pl && str_starts_with(rest, p) {
            proof {
                assert(s@.subrange(start as int, n as int).subrange(0, pl as int) == p@);
                assert(s@.subrange(start as int, n as int).subrange(
                    pl as int,
                    (n - start) as int,
                ) =~= s@.subrange(start + pl, n as int));
            }
            start = start + pl;
        } else {
            proof {
                if s@.subrange(start as int, n as int).len() >= pl {
                    assert(rest@.subrange(0, pl as int) == s@.subrange(start as int, n as int).subrange(0, pl as int));
                }
                assert(spec_strip_all(s@.subrange(start as int, n as int), p@) == s@.subrange(
                    start as int,
                    n as int,
                ));
            }
            let tail = s.substring_char(start, n);
            return trim_str(tail);
        }
    }
}

} // verus!
