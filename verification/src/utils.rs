//! Character-level helpers: printability, cell-value rendering for the
//! write protocol, and line parsing for the read protocol.

use vstd::prelude::*;
use vstd::std_specs::iter::IteratorSpec;
use crate::tape::pow16;
use crate::tape::TapeCell;
use crate::tape::TapeWord;

verus! {

broadcast use vstd::string::group_string_axioms;

/// How a cell value is shown by the write protocol.
#[derive(Clone, Copy, Default, PartialEq, Eq, Structural, Debug)]
pub enum DisplayMode {
    ASCII,
    #[default]
    Numeric,
}

/// Collects the characters of a string slice into a vector, so that
/// callers can index them in constant time.
pub fn to_char_vec(s: &str) -> (r: Vec<char>)
    ensures
        r@ == s@,
{
    let mut it = s.chars();
    let mut v: Vec<char> = Vec::new();
    loop
        invariant
            it.obeys_prophetic_iter_laws(),
            it.decrease() is Some,
            v@ + it.remaining() == s@,
        decreases it.decrease()->0,
    {
        match it.next() {
            Some(c) => v.push(c),
            None => {
                proof {
                    assert(v@ =~= s@);
                }
                return v;
            },
        }
    }
}

/// Whether a cell value can be shown directly as one ASCII byte: a
/// printable character, or a tab, newline or space.
pub open spec fn printable(v: nat) -> bool {
    9 <= v <= 10 || 32 <= v <= 126
}

/// Whether a cell value can be shown directly as one ASCII byte.
pub fn is_ascii_printable<T: TapeCell>(value: T) -> (r: bool)
    ensures
        r == printable(value.as_nat()),
{
    let v = value.to_u64();
    (9 <= v && v <= 10) || (32 <= v && v <= 126)
}

/// The decimal digits of `v`, most significant first, as ASCII bytes.
pub open spec fn dec_digits(v: nat) -> Seq<u8>
    decreases v,
{
    if v < 10 {
        seq![(48 + v) as u8]
    } else {
        dec_digits(v / 10).push((48 + v % 10) as u8)
    }
}

/// The `n` low hexadecimal digits of `v`, uppercase, most significant
/// first, as ASCII bytes.
pub open spec fn hex_digits(v: nat, n: nat) -> Seq<u8>
    decreases n,
{
    if n == 0 {
        Seq::empty()
    } else {
        hex_digits(v / 16, (n - 1) as nat).push(hex_digit(v % 16))
    }
}

/// The ASCII byte of one hexadecimal digit, uppercase.
pub open spec fn hex_digit(d: nat) -> u8 {
    if d < 10 {
        (48 + d) as u8
    } else {
        (55 + d) as u8
    }
}

/// The bytes the write protocol emits for a cell value of the given
/// byte width: the bare byte for a printable value in ASCII mode, a
/// zero-padded uppercase hexadecimal literal for any other value in
/// ASCII mode, and the decimal digits in numeric mode.
pub open spec fn render_cell(v: nat, width: nat, mode: DisplayMode) -> Seq<u8> {
    match mode {
        DisplayMode::ASCII => if printable(v) {
            seq![v as u8]
        } else {
            seq![48u8, 120u8] + hex_digits(v, 2 * width)
        },
        DisplayMode::Numeric => dec_digits(v),
    }
}

/// Appends the decimal digits of `v`.
fn push_dec_digits(v: u64, out: &mut Vec<u8>)
    ensures
        final(out)@ == old(out)@ + dec_digits(v as nat),
    decreases v,
{
    if v < 10 {
        out.push(48 + v as u8);
    } else {
        push_dec_digits(v / 10, out);
        out.push(48 + (v % 10) as u8);
        proof {
            assert(out@ =~= old(out)@ + dec_digits(v as nat));
        }
    }
}

/// Appends the `n` low hexadecimal digits of `v`.
fn push_hex_digits(v: u64, n: usize, out: &mut Vec<u8>)
    ensures
        final(out)@ == old(out)@ + hex_digits(v as nat, n as nat),
    decreases n,
{
    if n > 0 {
        push_hex_digits(v / 16, n - 1, out);
        let d = (v % 16) as u8;
        if d < 10 {
            out.push(48 + d);
        } else {
            out.push(55 + d);
        }
        proof {
            assert(out@ =~= old(out)@ + hex_digits(v as nat, n as nat));
        }
    } else {
        proof {
            assert(out@ =~= old(out)@ + hex_digits(v as nat, 0));
        }
    }
}

/// The bytes the write protocol emits for a cell value.
pub fn render_cell_bytes<T: TapeCell>(value: T, mode: DisplayMode) -> (r: Vec<u8>)
    ensures
        r@ == render_cell(value.as_nat(), T::byte_width(), mode),
{
    let mut out: Vec<u8> = Vec::new();
    match mode {
        DisplayMode::ASCII => {
            if is_ascii_printable(value) {
                out.push(value.to_u64() as u8);
            } else {
                out.push(48);
                out.push(120);
                let w = T::width_bytes();
                proof {
                    T::lemma_byte_width();
                }
                push_hex_digits(value.to_u64(), 2 * w, &mut out);
                proof {
                    assert(out@ =~= seq![48u8, 120u8] + hex_digits(
                        value.as_nat(),
                        2 * T::byte_width(),
                    ));
                }
            }
        },
        DisplayMode::Numeric => {
            push_dec_digits(value.to_u64(), &mut out);
            proof {
                assert(out@ =~= dec_digits(value.as_nat()));
            }
        },
    }
    out
}

/// Whether a character is a decimal digit.
pub open spec fn is_dec_digit(c: char) -> bool {
    48 <= c as u32 <= 57
}

/// The numeric value of a run of decimal digits, most significant first.
pub open spec fn digits_value(s: Seq<char>) -> nat
    decreases s.len(),
{
    if s.len() == 0 {
        0
    } else {
        digits_value(s.drop_last()) * 10 + (if s.last() as u32 >= 48 {
            (s.last() as u32 - 48) as nat
        } else {
            0
        })
    }
}

/// The value a line stands for under the read protocol: either a single
/// character quoted by apostrophes, whose value is its byte, or an
/// unsigned decimal integer (with an optional leading plus sign) that
/// fits below `modulus`.
pub open spec fn parse_spec(s: Seq<char>, modulus: nat) -> Option<nat> {
    if s.len() == 3 && s[0] == '\'' && s[2] == '\'' && (s[1] as u32) < 128 {
        Some(s[1] as u32 as nat)
    } else {
        parse_uint_spec(s, modulus)
    }
}

/// Whether every character is a decimal digit.
pub open spec fn all_dec_digits(s: Seq<char>) -> bool {
    forall|i: int| 0 <= i < s.len() ==> is_dec_digit(#[trigger] s[i])
}

/// The value of a line parsed as an unsigned decimal integer below
/// `modulus`, if it is one.
pub open spec fn parse_uint_spec(s: Seq<char>, modulus: nat) -> Option<nat> {
    let digits = if s.len() > 0 && s[0] == '+' {
        s.drop_first()
    } else {
        s
    };
    if digits.len() > 0 && all_dec_digits(digits) && digits_value(digits) < modulus {
        Some(digits_value(digits))
    } else {
        None
    }
}

/// A longer run of digits never stands for a smaller value.
proof fn lemma_digits_value_prefix(s: Seq<char>, j: int)
    requires
        0 <= j <= s.len(),
    ensures
        digits_value(s) >= digits_value(s.take(j)),
    decreases s.len() - j,
{
    if j < s.len() {
        lemma_digits_value_prefix(s, j + 1);
        assert(s.take(j + 1).drop_last() =~= s.take(j));
        assert(s.take(j + 1).last() == s[j]);
        assert(digits_value(s.take(j + 1)) >= digits_value(s.take(j)));
    } else {
        assert(s.take(j) =~= s);
    }
}

/// Parses a written input line as a cell value: a quoted character
/// yields its byte, anything else must be an unsigned decimal integer
/// in the cell's range. Leading or trailing spaces are not accepted.
pub fn parse_cell_value<T: TapeCell>(buf: &str) -> (r: Option<T>)
    ensures
        match r {
            Some(v) => parse_spec(buf@, T::modulus()) == Some(v.as_nat()),
            None => parse_spec(buf@, T::modulus()) is None,
        },
{
    let chars = to_char_vec(buf);
    parse_chars(&chars)
}

/// As [`parse_cell_value`], over a list of characters.
pub fn parse_chars<T: TapeCell>(chars: &Vec<char>) -> (r: Option<T>)
    ensures
        match r {
            Some(v) => parse_spec(chars@, T::modulus()) == Some(v.as_nat()),
            None => parse_spec(chars@, T::modulus()) is None,
        },
{
    let ghost s = chars@;
    let n = chars.len();
    proof {
        T::lemma_modulus();
    }

    if n == 3 && chars[0] == '\'' && chars[2] == '\'' {
        let code = chars[1] as u32;
        if code < 128 {
            return Some(T::from_byte(code as u8));
        }
    }

    let start: usize = if n > 0 && chars[0] == '+' {
        1
    } else {
        0
    };
    let ghost digits = if s.len() > 0 && s[0] == '+' {
        s.drop_first()
    } else {
        s
    };
    proof {
        assert(digits =~= s.subrange(start as int, n as int));
    }
    if start == n {
        return None;
    }

    let max = T::max_u64();
    let mut acc: u64 = 0;
    let mut i: usize = start;
    while i < n
        invariant
            chars@ == s,
            n == s.len(),
            start <= i <= n,
            digits == s.subrange(start as int, n as int),
            digits == (if s.len() > 0 && s[0] == '+' {
                s.drop_first()
            } else {
                s
            }),
            acc <= max,
            max as nat + 1 == T::modulus(),
            T::modulus() <= 0x1_0000_0000,
            acc as nat == digits_value(s.subrange(start as int, i as int)),
            forall|k: int| start <= k < i ==> is_dec_digit(#[trigger] s[k]),
            !(s.len() == 3 && s[0] == '\'' && s[2] == '\'' && (s[1] as u32) < 128),
        decreases n - i,
    {
        let code = chars[i] as u32;
        if code < 48 || code > 57 {
            proof {
                assert(digits[i - start as int] == s[i as int]);
                assert(!all_dec_digits(digits));
            }
            return None;
        }
        let d = (code - 48) as u64;
        let next = acc * 10 + d;
        proof {
            assert(s.subrange(start as int, i + 1).drop_last() =~= s.subrange(
                start as int,
                i as int,
            ));
            assert(s.subrange(start as int, i + 1).last() == s[i as int]);
        }
        if next > max {
            proof {
                assert(digits_value(s.subrange(start as int, i + 1)) == acc * 10 + d);
                assert(digits.take(i + 1 - start) =~= s.subrange(start as int, i + 1));
                lemma_digits_value_prefix(digits, i + 1 - start);
                assert(digits_value(digits) >= T::modulus());
            }
            return None;
        }
        acc = next;
        i = i + 1;
    }
    proof {
        assert forall|k: int| 0 <= k < digits.len() implies is_dec_digit(
            #[trigger] digits[k],
        ) by {
            assert(digits[k] == s[start + k]);
        }
        assert(all_dec_digits(digits));
    }
    Some(T::from_u64(acc))
}

/// ASCII whitespace, as the read protocol trims it from a line.
pub open spec fn is_space(c: char) -> bool {
    c == ' ' || c == '\t' || c == '\n' || c == '\r'
}

/// A line with its leading whitespace removed.
pub open spec fn trim_front(s: Seq<char>) -> Seq<char>
    decreases s.len(),
{
    if s.len() > 0 && is_space(s[0]) {
        trim_front(s.drop_first())
    } else {
        s
    }
}

/// A line with its trailing whitespace removed.
pub open spec fn trim_back(s: Seq<char>) -> Seq<char>
    decreases s.len(),
{
    if s.len() > 0 && is_space(s.last()) {
        trim_back(s.drop_last())
    } else {
        s
    }
}

/// A line with whitespace removed from both ends.
pub open spec fn trimmed(s: Seq<char>) -> Seq<char> {
    trim_back(trim_front(s))
}

/// Skipping every leading space at once is the same as one at a time.
proof fn lemma_trim_front_skip(s: Seq<char>, lo: int)
    requires
        0 <= lo <= s.len(),
        forall|k: int| 0 <= k < lo ==> is_space(#[trigger] s[k]),
        lo == s.len() || !is_space(s[lo]),
    ensures
        trim_front(s) == s.subrange(lo, s.len() as int),
    decreases lo,
{
    if lo > 0 {
        lemma_trim_front_skip(s.drop_first(), lo - 1);
        assert(s.drop_first().subrange(lo - 1, s.drop_first().len() as int) =~= s.subrange(
            lo,
            s.len() as int,
        ));
    } else {
        assert(s.subrange(0, s.len() as int) =~= s);
    }
}

/// Dropping every trailing space at once is the same as one at a time.
proof fn lemma_trim_back_skip(s: Seq<char>, hi: int)
    requires
        0 <= hi <= s.len(),
        forall|k: int| hi <= k < s.len() ==> is_space(#[trigger] s[k]),
        hi == 0 || !is_space(s[hi - 1]),
    ensures
        trim_back(s) == s.subrange(0, hi),
    decreases s.len(),
{
    if hi < s.len() {
        lemma_trim_back_skip(s.drop_last(), hi);
        assert(s.drop_last().subrange(0, hi) =~= s.subrange(0, hi));
    } else {
        assert(s.subrange(0, s.len() as int) =~= s);
    }
}

/// Removes leading and trailing whitespace from a list of characters.
pub fn trim_chars(chars: &Vec<char>) -> (r: Vec<char>)
    ensures
        r@ == trimmed(chars@),
{
    let ghost s = chars@;
    let n = chars.len();
    let mut lo: usize = 0;
    while lo < n && (chars[lo] == ' ' || chars[lo] == '\t' || chars[lo] == '\n' || chars[lo]
        == '\r')
        invariant
            chars@ == s,
            n == s.len(),
            0 <= lo <= n,
            forall|k: int| 0 <= k < lo ==> is_space(#[trigger] s[k]),
        decreases n - lo,
    {
        lo = lo + 1;
    }
    let mut hi: usize = n;
    while hi > lo && (chars[hi - 1] == ' ' || chars[hi - 1] == '\t' || chars[hi - 1] == '\n'
        || chars[hi - 1] == '\r')
        invariant
            chars@ == s,
            n == s.len(),
            lo <= hi <= n,
            forall|k: int| 0 <= k < lo ==> is_space(#[trigger] s[k]),
            forall|k: int| hi <= k < n ==> is_space(#[trigger] s[k]),
        decreases hi,
    {
        hi = hi - 1;
    }
    let mut out: Vec<char> = Vec::new();
    let mut i: usize = lo;
    while i < hi
        invariant
            chars@ == s,
            n == s.len(),
            lo <= i <= hi <= n,
            out@ == s.subrange(lo as int, i as int),
        decreases hi - i,
    {
        out.push(chars[i]);
        proof {
            assert(out@ =~= s.subrange(lo as int, i + 1));
        }
        i = i + 1;
    }
    proof {
        lemma_trim_front_skip(s, lo as int);
        let front = s.subrange(lo as int, n as int);
        lemma_trim_back_skip(front, hi - lo as int);
        assert(front.subrange(0, hi - lo as int) =~= s.subrange(lo as int, hi as int));
        assert(out@ =~= s.subrange(lo as int, hi as int));
    }
    out
}

} // verus!
