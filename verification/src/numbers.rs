//! Whole numbers in decimal text, which are read and written, and numbers with a
//! point, which are compared by their bits.

use vstd::prelude::*;
use vstd::string::*;

use crate::text::chars;

verus! {

/// `c` is one of `0` to `9`.
pub open spec fn is_digit(c: char) -> bool {
    '0' <= c <= '9'
}

/// What a digit counts.
pub open spec fn digit_value(c: char) -> nat {
    (c as int - '0' as int) as nat
}

/// The digit that counts `d`.
pub open spec fn digit_char(d: nat) -> char {
    ('0' as int + d) as char
}

/// `s` is a digit or more, and nothing else.
pub open spec fn all_digits(s: Seq<char>) -> bool {
    s.len() > 0 && forall|i: int| 0 <= i < s.len() ==> is_digit(#[trigger] s[i])
}

/// The number that a row of digits stands for.
pub open spec fn digits_value(s: Seq<char>) -> nat
    decreases s.len(),
{
    if s.len() == 0 {
        0
    } else {
        digits_value(s.drop_last()) * 10 + digit_value(s.last())
    }
}

/// The number that `s` spells: digits behind an optional `+`.
pub open spec fn unsigned_text(s: Seq<char>) -> Option<int> {
    let body = if s.len() > 0 && s[0] == '+' {
        s.drop_first()
    } else {
        s
    };
    if all_digits(body) {
        Some(digits_value(body) as int)
    } else {
        None
    }
}

/// The number that `s` spells: digits behind an optional `+` or `-`.
pub open spec fn signed_text(s: Seq<char>) -> Option<int> {
    if s.len() > 0 && s[0] == '-' {
        if all_digits(s.drop_first()) {
            Some(-digits_value(s.drop_first()))
        } else {
            None
        }
    } else {
        unsigned_text(s)
    }
}

/// `n` if it lies between `lo` and `hi`.
pub open spec fn in_range(n: Option<int>, lo: int, hi: int) -> Option<int> {
    match n {
        Some(v) if lo <= v <= hi => Some(v),
        _ => None,
    }
}

/// The decimal digits of `n`, without leading zeros.
pub open spec fn digits(n: nat) -> Seq<char>
    decreases n,
{
    if n < 10 {
        seq![digit_char(n)]
    } else {
        digits(n / 10).push(digit_char(n % 10))
    }
}

/// `n` in decimal, with a `-` before a negative number.
pub open spec fn int_text(n: int) -> Seq<char> {
    if n < 0 {
        seq!['-'] + digits((-n) as nat)
    } else {
        digits(n as nat)
    }
}

proof fn lemma_digits_value_grows(s: Seq<char>, i: int)
    requires
        0 <= i <= s.len(),
    ensures
        digits_value(s.take(i)) <= digits_value(s),
    decreases s.len(),
{
    if i == s.len() {
        assert(s.take(i) =~= s);
    } else {
        lemma_digits_value_grows(s.drop_last(), i);
        assert(s.drop_last().take(i) =~= s.take(i));
    }
}

/// Reading the digits of a number gives the number back.
pub proof fn lemma_digits_round_trip(n: nat)
    ensures
        all_digits(digits(n)),
        digits_value(digits(n)) == n,
    decreases n,
{
    if n < 10 {
        let s = digits(n);
        assert(s.drop_last() =~= Seq::<char>::empty());
        assert(digits_value(s.drop_last()) == 0);
    } else {
        lemma_digits_round_trip(n / 10);
        let s = digits(n);
        assert(s.drop_last() =~= digits(n / 10));
        assert forall|i: int| 0 <= i < s.len() implies is_digit(#[trigger] s[i]) by {
            if i < s.len() - 1 {
                assert(s[i] == digits(n / 10)[i]);
            }
        }
    }
}

/// Writing a number and reading the text gives the number back.
pub proof fn law_int_text_reads_back(n: int)
    ensures
        signed_text(int_text(n)) == Some(n),
        n >= 0 ==> unsigned_text(int_text(n)) == Some(n),
{
    let m: nat = if n < 0 {
        (-n) as nat
    } else {
        n as nat
    };
    lemma_digits_round_trip(m);
    if n < 0 {
        assert(int_text(n).drop_first() =~= digits(m));
    } else {
        assert(is_digit(digits(m)[0]));
    }
}

/// A number is read digit by digit: a digit behind others counts ten times them
/// and itself, and any other character there is an error. A plus in front does
/// not count, and a minus turns the number round where it is allowed.
pub proof fn law_digit_behind_counts_ten_times(s: Seq<char>, c: char)
    requires
        s.len() > 0 ==> '0' <= s[0] <= '9',
    ensures
        ({
            let more = s.push(c);
            let is_number = '0' <= c <= '9' && (s.len() == 0 || unsigned_text(s) is Some);
            let value = (if s.len() == 0 {
                0
            } else {
                unsigned_text(s).unwrap()
            }) * 10 + (c as int - '0' as int);
            &&& unsigned_text(more) is Some <==> is_number
            &&& is_number ==> {
                &&& unsigned_text(more) == Some(value)
                &&& signed_text(more) == Some(value)
                &&& unsigned_text(seq!['+'] + more) == Some(value)
                &&& signed_text(seq!['+'] + more) == Some(value)
                &&& signed_text(seq!['-'] + more) == Some(-value)
                &&& unsigned_text(seq!['-'] + more) is None
            }
        }),
        unsigned_text(Seq::empty()) is None,
        signed_text(Seq::empty()) is None,
{
    let more = s.push(c);
    assert(more.drop_last() =~= s);
    assert((seq!['+'] + more).drop_first() =~= more);
    assert((seq!['-'] + more).drop_first() =~= more);
    assert((seq!['-'] + more)[0] == '-');
    if s.len() == 0 {
        assert(digits_value(s) == 0);
        if all_digits(more) {
            assert(is_digit(more[0]));
        }
    } else {
        assert(more[0] == s[0]);
        if all_digits(more) {
            assert(is_digit(more[s.len() as int]));
            assert forall|i: int| 0 <= i < s.len() implies is_digit(#[trigger] s[i]) by {
                assert(more[i] == s[i]);
            }
        }
    }
}

/// The number that the characters from `from` on spell, if they are digits
/// and it fits.
fn magnitude(cs: &Vec<char>, from: usize) -> (r: Option<u128>)
    requires
        from <= cs@.len(),
    ensures
        ({
            let body = cs@.skip(from as int);
            match r {
                Some(v) => all_digits(body) && digits_value(body) == v,
                None => !all_digits(body) || digits_value(body) > u128::MAX,
            }
        }),
{
    let ghost body = cs@.skip(from as int);
    if from == cs.len() {
        return None;
    }
    let mut value: u128 = 0;
    let mut i: usize = from;
    while i < cs.len()
        invariant
            body == cs@.skip(from as int),
            from <= i <= cs@.len(),
            forall|k: int| 0 <= k < i - from ==> is_digit(#[trigger] body[k]),
            value == digits_value(body.take(i - from)),
        decreases cs@.len() - i,
    {
        let c: char = cs[i];
        assert(c == body[i - from]);
        if c < '0' || c > '9' {
            return None;
        }
        let d: u128 = (c as u32 - '0' as u32) as u128;
        assert(body.take(i + 1 - from).drop_last() =~= body.take(i - from));
        assert(digits_value(body.take(i + 1 - from)) == value * 10 + d);
        proof {
            lemma_digits_value_grows(body, i + 1 - from);
        }
        if value > (u128::MAX - d) / 10 {
            return None;
        }
        value = value * 10 + d;
        i = i + 1;
    }
    assert(body.take(body.len() as int) =~= body);
    Some(value)
}

/// Reads a signed number: digits behind an optional sign, between
/// `i128::MIN` and `i128::MAX`.
pub fn parse_i128(s: &str) -> (r: Option<i128>)
    ensures
        (match r {
            Some(v) => Some(v as int),
            None => None::<int>,
        }) == in_range(signed_text(s@), i128::MIN as int, i128::MAX as int),
{
    let cs: Vec<char> = chars(s);
    if cs.len() > 0 && cs[0] == '-' {
        assert(cs@.skip(1) =~= s@.drop_first());
        match magnitude(&cs, 1) {
            Some(m) => {
                let limit: u128 = 0x8000_0000_0000_0000_0000_0000_0000_0000;
                if m < limit {
                    Some(-(m as i128))
                } else if m == limit {
                    Some(i128::MIN)
                } else {
                    None
                }
            },
            None => None,
        }
    } else {
        match unsigned(&cs) {
            Some(m) => {
                if m <= 0x7fff_ffff_ffff_ffff_ffff_ffff_ffff_ffff {
                    Some(m as i128)
                } else {
                    None
                }
            },
            None => None,
        }
    }
}

fn unsigned(cs: &Vec<char>) -> (r: Option<u128>)
    ensures
        (match r {
            Some(v) => Some(v as int),
            None => None::<int>,
        }) == in_range(unsigned_text(cs@), 0, u128::MAX as int),
{
    if cs.len() > 0 && cs[0] == '+' {
        assert(cs@.skip(1) =~= cs@.drop_first());
        magnitude(cs, 1)
    } else {
        assert(cs@.skip(0) =~= cs@);
        magnitude(cs, 0)
    }
}

/// Reads a signed number that fits in 64 bits.
pub fn parse_i64(s: &str) -> (r: Option<i64>)
    ensures
        (match r {
            Some(v) => Some(v as int),
            None => None::<int>,
        }) == in_range(signed_text(s@), i64::MIN as int, i64::MAX as int),
{
    match parse_i128(s) {
        Some(v) => {
            if -0x8000_0000_0000_0000 <= v && v <= 0x7fff_ffff_ffff_ffff {
                Some(v as i64)
            } else {
                None
            }
        },
        None => None,
    }
}

/// Reads an unsigned number of at most `max`.
pub fn parse_unsigned(s: &str, max: u64) -> (r: Option<u64>)
    ensures
        (match r {
            Some(v) => Some(v as int),
            None => None::<int>,
        }) == in_range(unsigned_text(s@), 0, max as int),
{
    let cs: Vec<char> = chars(s);
    match unsigned(&cs) {
        Some(v) => {
            if v <= max as u128 {
                Some(v as u64)
            } else {
                None
            }
        },
        None => None,
    }
}

fn push_digits(out: &mut String, n: u128)
    ensures
        final(out)@ == old(out)@ + digits(n as nat),
    decreases n,
{
    if n < 10 {
        let c: char = (48u8 + n as u8) as char;
        out.push(c);
    } else {
        push_digits(out, n / 10);
        let c: char = (48u8 + (n % 10) as u8) as char;
        out.push(c);
    }
    assert(out@ =~= old(out)@ + digits(n as nat));
}

/// Adds `n` in decimal at the end of `out`.
pub fn push_int(out: &mut String, n: i128)
    ensures
        final(out)@ == old(out)@ + int_text(n as int),
{
    if n < 0 {
        out.push('-');
        let m: u128 = if n == i128::MIN {
            0x8000_0000_0000_0000_0000_0000_0000_0000
        } else {
            (-n) as u128
        };
        push_digits(out, m);
    } else {
        push_digits(out, n as u128);
    }
    assert(out@ =~= old(out)@ + int_text(n as int));
}

// ── Numbers with a point, by their order ────────────────────────────────────

/// The bits of a 64-bit number with a point without the sign.
pub open spec fn without_sign(bits: u64) -> int {
    if bits >= 0x8000_0000_0000_0000 {
        bits - 0x8000_0000_0000_0000
    } else {
        bits as int
    }
}

/// The bits of infinity.
pub const INFINITY_BITS: u64 = 0x7ff0_0000_0000_0000;

/// A whole number that orders 64-bit numbers with a point by their bits: the
/// magnitude, with the sign. `None` for what is no number.
pub open spec fn key_of(bits: u64) -> Option<int> {
    if without_sign(bits) > INFINITY_BITS {
        None
    } else if bits >= 0x8000_0000_0000_0000 {
        Some(-without_sign(bits))
    } else {
        Some(without_sign(bits))
    }
}

/// A whole number that orders 64-bit numbers with a point by their bits; `None`
/// for what is no number.
pub fn order_key(bits: u64) -> (r: Option<i64>)
    ensures
        (match r {
            Some(k) => Some(k as int),
            None => None,
        }) == key_of(bits),
{
    if bits >= 0x8000_0000_0000_0000 {
        let m: u64 = bits - 0x8000_0000_0000_0000;
        if m > INFINITY_BITS {
            None
        } else {
            Some(-(m as i64))
        }
    } else if bits > INFINITY_BITS {
        None
    } else {
        Some(bits as i64)
    }
}

/// The bits are those of a number that is more than zero and less than infinity.
pub open spec fn positive(bits: u64) -> bool {
    match key_of(bits) {
        Some(k) => 0 < k < INFINITY_BITS,
        None => false,
    }
}

/// Numbers with a point are ordered as whole numbers are: those that are not
/// negative by their bits, a sign turns the order round, and what lies beyond
/// infinity is no number.
pub proof fn law_bits_order_numbers(bits: u64)
    requires
        bits < 0x8000_0000_0000_0000,
    ensures
        bits <= 0x7ff0_0000_0000_0000 ==> key_of(bits) == Some(bits as int) && key_of(
            (bits + 0x8000_0000_0000_0000) as u64,
        ) == Some(-(bits as int)),
        bits > 0x7ff0_0000_0000_0000 ==> key_of(bits) is None && key_of(
            (bits + 0x8000_0000_0000_0000) as u64,
        ) is None,
        positive(bits) == (0 < bits < 0x7ff0_0000_0000_0000),
        !positive((bits + 0x8000_0000_0000_0000) as u64),
{
}

/// Whether the bits are those of a number that is more than zero and less than
/// infinity.
pub fn is_positive(bits: u64) -> (r: bool)
    ensures
        r == positive(bits),
{
    match order_key(bits) {
        Some(k) => 0 < k && k < INFINITY_BITS as i64,
        None => false,
    }
}

} // verus!
