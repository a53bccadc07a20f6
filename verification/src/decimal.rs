//! Decimal numbers as exchanges write them: a whole number and the count of
//! its digits behind the point.

use std::str::FromStr;

use vstd::arithmetic::div_mod::lemma_fundamental_div_mod;
use vstd::arithmetic::power::{lemma_pow0, lemma_pow1, lemma_pow_adds, lemma_pow_positive, pow};
use vstd::prelude::*;
use vstd::std_specs::cmp::PartialEqSpecImpl;

use crate::numbers::{
    all_digits, digit_char, digit_value, digits, digits_value, is_digit, lemma_digits_round_trip,
    signed_text,
};

verus! {

/// The largest whole number that a decimal can hold: 96 bits.
pub const MAX_MANTISSA: i128 = 0xffff_ffff_ffff_ffff_ffff_ffff;

/// The most digits that a decimal can hold behind the point.
pub const MAX_SCALE: u32 = 28;

/// What a decimal number is: `magnitude` divided by ten to the `scale`, with a
/// minus in front where it is `negative`. A zero can have a minus too.
pub struct DecimalView {
    pub negative: bool,
    pub magnitude: nat,
    pub scale: nat,
}

impl DecimalView {
    /// The number fits in 96 bits and has at most 28 digits behind the point.
    pub open spec fn wf(self) -> bool {
        self.magnitude <= MAX_MANTISSA && self.scale <= MAX_SCALE
    }

    /// The digits of the number as a whole number, without the point.
    pub open spec fn mantissa(self) -> int {
        if self.negative {
            -(self.magnitude as int)
        } else {
            self.magnitude as int
        }
    }

    /// The number counted in units of the last digit that a decimal can have.
    pub open spec fn value(self) -> int {
        self.mantissa() * pow(10, (MAX_SCALE - self.scale) as nat)
    }
}

/// Zeros behind the point do not change a number: ten times the digits with one
/// more of them behind the point are the same number. Of two numbers with as many
/// digits behind the point, the one with the larger digits is larger, unless
/// they have a minus.
pub proof fn law_numbers_by_their_digits(a: DecimalView, b: DecimalView)
    requires
        a.scale < 28,
        b.scale == a.scale,
    ensures
        ({
            let longer = DecimalView {
                negative: a.negative,
                magnitude: a.magnitude * 10,
                scale: a.scale + 1,
            };
            &&& longer.value() == a.value()
            &&& !a.negative && !b.negative ==> (a.value() < b.value() <==> a.magnitude
                < b.magnitude)
            &&& a.negative && b.negative ==> (a.value() < b.value() <==> a.magnitude > b.magnitude)
            &&& a.negative && !b.negative ==> a.value() <= b.value() && (a.value() == b.value()
                <==> a.magnitude == 0 && b.magnitude == 0)
        }),
{
    let unit = pow(10, (28 - a.scale) as nat);
    let less = pow(10, (27 - a.scale) as nat);
    lemma_pow_positive(10, (27 - a.scale) as nat);
    lemma_pow_adds(10, 1, (27 - a.scale) as nat);
    lemma_pow1(10);
    assert(unit == 10 * less);
    let m = a.magnitude as int;
    let n = b.magnitude as int;
    assert(m * unit == (m * 10) * less && (-m) * unit == (-(m * 10)) * less) by (nonlinear_arith)
        requires
            unit == 10 * less,
    ;
    assert((m * unit < n * unit) == (m < n)) by (nonlinear_arith)
        requires
            unit > 0,
    ;
    assert(((-m) * unit < (-n) * unit) == (m > n)) by (nonlinear_arith)
        requires
            unit > 0,
    ;
    assert((-m) * unit <= n * unit && (((-m) * unit == n * unit) == (m == 0 && n == 0)))
        by (nonlinear_arith)
        requires
            unit > 0,
            m >= 0,
            n >= 0,
    ;
}

/// An exact decimal number. Two of them are `==` when they are the same
/// number, however many zeros stand behind the point, and a zero is a zero with
/// or without a minus.
#[derive(Clone, Copy, Debug)]
pub struct Decimal {
    negative: bool,
    magnitude: u128,
    scale: u32,
}

impl View for Decimal {
    type V = DecimalView;

    closed spec fn view(&self) -> DecimalView {
        DecimalView {
            negative: self.negative,
            magnitude: self.magnitude as nat,
            scale: self.scale as nat,
        }
    }
}

/// The view of a [`Decimal`] shows each field under its own name.
proof fn law_view_of_decimal(v: Decimal)
    ensures
        v@.negative == v.negative,
        v@.magnitude == v.magnitude as nat,
        v@.scale == v.scale as nat,
{
}

/// `mantissa` divided by ten to the `scale`; a zero without a minus.
pub open spec fn number(mantissa: int, scale: nat) -> DecimalView {
    DecimalView {
        negative: mantissa < 0,
        magnitude: if mantissa < 0 {
            (-mantissa) as nat
        } else {
            mantissa as nat
        },
        scale,
    }
}

/// The number without the minus that a zero may have.
pub open spec fn without_minus_zero(d: DecimalView) -> DecimalView {
    DecimalView { negative: d.negative && d.magnitude > 0, ..d }
}

/// The number zero, written `0`.
pub open spec fn zero() -> DecimalView {
    number(0, 0)
}

/// The number two, written `2`.
pub open spec fn two() -> DecimalView {
    number(2, 0)
}

/// The numbers that are used here, by their parts.
pub proof fn law_numbers_that_are_used()
    ensures
        zero() == (DecimalView { negative: false, magnitude: 0, scale: 0 }),
        two() == (DecimalView { negative: false, magnitude: 2, scale: 0 }),
        e18() == (DecimalView { negative: false, magnitude: 1_000_000_000_000_000_000, scale: 0 }),
{
}

/// A decimal holds at most 96 bits, of which at most 28 digits stand behind the
/// point; a whole number that fits is held as it is.
pub proof fn law_what_a_decimal_holds(d: DecimalView, n: int)
    ensures
        d.wf() <==> d.magnitude < 79_228_162_514_264_337_593_543_950_336 && d.scale <= 28,
        whole_number(n) is Some <==> -79_228_162_514_264_337_593_543_950_336 < n
            < 79_228_162_514_264_337_593_543_950_336,
        whole_number(n) matches Some(w) ==> w.scale == 0 && w.mantissa() == n && (n == 0
            ==> !w.negative),
{
}

/// The parts of a decimal that may be missing.
pub open spec fn parts(d: Option<Decimal>) -> Option<DecimalView> {
    match d {
        Some(v) => Some(v@),
        None => None,
    }
}

// ── Text ────────────────────────────────────────────────────────────────────

/// `n` in exactly `width` digits.
pub open spec fn padded(n: nat, width: nat) -> Seq<char>
    decreases width,
{
    if width == 0 {
        Seq::empty()
    } else {
        padded(n / 10, (width - 1) as nat).push(digit_char(n % 10))
    }
}

/// The digits of a number that is not negative, with a point before the last
/// `scale` of them.
pub open spec fn unsigned_print(n: nat, scale: nat) -> Seq<char> {
    let unit = pow(10, scale) as nat;
    if scale == 0 {
        digits(n)
    } else {
        digits(n / unit).push('.') + padded(n % unit, scale)
    }
}

/// A decimal in text: every digit behind the point is kept, and a minus in front
/// of a zero too.
pub open spec fn decimal_print(d: DecimalView) -> Seq<char> {
    if d.negative {
        seq!['-'] + unsigned_print(d.magnitude, d.scale)
    } else {
        unsigned_print(d.magnitude, d.scale)
    }
}

/// The number that `whole`, a point and `frac` spell; a minus in front of a zero
/// says nothing.
pub open spec fn spelled(negative: bool, whole: Seq<char>, frac: Seq<char>) -> DecimalView {
    let n = digits_value(whole + frac) as int;
    number(
        if negative {
            -n
        } else {
            n
        },
        frac.len(),
    )
}

/// `s` is an optional `-`, the digits `whole` and, unless `frac` is empty, a
/// point and the digits `frac`.
pub open spec fn spells(s: Seq<char>, negative: bool, whole: Seq<char>, frac: Seq<char>) -> bool {
    &&& all_digits(whole)
    &&& frac.len() == 0 || all_digits(frac)
    &&& s == (if negative {
        seq!['-']
    } else {
        Seq::empty()
    }) + whole + (if frac.len() == 0 {
        Seq::empty()
    } else {
        seq!['.'] + frac
    })
}

/// The whole part and the part behind the point that a number is written in.
spec fn print_parts(d: DecimalView) -> (Seq<char>, Seq<char>) {
    let n = d.magnitude;
    let unit = pow(10, d.scale) as nat;
    if d.scale == 0 {
        (digits(n), Seq::empty())
    } else {
        (digits(n / unit), padded(n % unit, d.scale))
    }
}

proof fn lemma_padded(n: nat, width: nat)
    ensures
        padded(n, width).len() == width,
        forall|i: int| 0 <= i < width ==> is_digit(#[trigger] padded(n, width)[i]),
    decreases width,
{
    if width > 0 {
        lemma_padded(n / 10, (width - 1) as nat);
        let s = padded(n, width);
        assert forall|i: int| 0 <= i < width implies is_digit(#[trigger] s[i]) by {
            if i < width - 1 {
                assert(s[i] == padded(n / 10, (width - 1) as nat)[i]);
            }
        }
    }
}

proof fn lemma_padded_value(whole: Seq<char>, n: nat, width: nat)
    requires
        n < pow(10, width),
    ensures
        digits_value(whole + padded(n, width)) == digits_value(whole) * pow(10, width) + n,
    decreases width,
{
    if width == 0 {
        lemma_pow0(10);
        assert(whole + padded(n, width) =~= whole);
    } else {
        let w = (width - 1) as nat;
        lemma_pow_adds(10, 1, w);
        lemma_pow1(10);
        let unit = pow(10, w);
        assert(pow(10, width) == 10 * unit);
        assert(n / 10 < unit);
        lemma_padded_value(whole, n / 10, w);
        let s = whole + padded(n, width);
        assert(s.drop_last() =~= whole + padded(n / 10, w));
        assert(s.last() == digit_char(n % 10));
        let v = digits_value(whole) as int;
        assert(digits_value(s) == (v * unit + n / 10) * 10 + n % 10);
        assert((v * unit + n / 10) * 10 + n % 10 == v * (10 * unit) + n) by (nonlinear_arith)
            requires
                n == 10 * (n / 10) + n % 10,
        ;
    }
}

/// A number's text spells the number: no digit is lost, neither before nor
/// behind the point. All that is lost is the minus of a zero.
pub proof fn law_text_keeps_every_digit(d: DecimalView)
    ensures
        exists|negative: bool, whole: Seq<char>, frac: Seq<char>|
            #[trigger] spells(decimal_print(d), negative, whole, frac) && spelled(
                negative,
                whole,
                frac,
            ) == without_minus_zero(d),
{
    let negative = d.negative;
    let n = d.magnitude;
    let unit = pow(10, d.scale);
    lemma_pow_positive(10, d.scale);
    let (whole, frac) = print_parts(d);
    if d.scale == 0 {
        lemma_digits_round_trip(n);
        assert(whole + frac =~= whole);
    } else {
        let u = unit as nat;
        lemma_digits_round_trip(n / u);
        lemma_padded(n % u, d.scale);
        lemma_padded_value(whole, n % u, d.scale);
        lemma_fundamental_div_mod(n as int, unit);
        assert(digits_value(whole + frac) == n) by {
            assert(unit * (n as int / unit) == (n as int / unit) * unit) by (nonlinear_arith);
        }
    }
    let sign = if negative {
        seq!['-']
    } else {
        Seq::empty()
    };
    let tail = if frac.len() == 0 {
        Seq::empty()
    } else {
        seq!['.'] + frac
    };
    assert(decimal_print(d) =~= sign + whole + tail);
    assert(spells(decimal_print(d), negative, whole, frac));
}

/// The whole part of a number as it is usually written: without zeros in front.
pub open spec fn is_usual(whole: Seq<char>) -> bool {
    all_digits(whole) && (whole.len() == 1 || whole[0] != '0')
}

proof fn lemma_digit_char(c: char)
    requires
        is_digit(c),
    ensures
        digit_char(digit_value(c)) == c,
        digit_value(c) < 10,
{
}

proof fn lemma_value_of_longer(whole: Seq<char>, frac: Seq<char>)
    requires
        forall|i: int| 0 <= i < frac.len() ==> is_digit(#[trigger] frac[i]),
    ensures
        digits_value(whole + frac) == digits_value(whole) * pow(10, frac.len()) + digits_value(
            frac,
        ),
        digits_value(frac) < pow(10, frac.len()),
        padded(digits_value(frac), frac.len()) == frac,
    decreases frac.len(),
{
    if frac.len() == 0 {
        lemma_pow0(10);
        assert(whole + frac =~= whole);
        assert(frac =~= Seq::empty());
    } else {
        let head = frac.drop_last();
        let c = frac.last();
        assert(c == frac[frac.len() - 1]);
        lemma_digit_char(c);
        assert forall|i: int| 0 <= i < head.len() implies is_digit(#[trigger] head[i]) by {
            assert(head[i] == frac[i]);
        }
        lemma_value_of_longer(whole, head);
        lemma_pow_adds(10, 1, head.len());
        lemma_pow1(10);
        let unit = pow(10, head.len());
        assert(pow(10, frac.len()) == 10 * unit);
        assert((whole + frac).drop_last() =~= whole + head);
        assert((whole + frac).last() == c);
        let v = digits_value(whole) as int;
        let h = digits_value(head) as int;
        let d = digit_value(c) as int;
        assert((v * unit + h) * 10 + d == v * (10 * unit) + (h * 10 + d)) by (nonlinear_arith);
        let n = digits_value(frac);
        assert(n == h * 10 + d);
        assert(n / 10 == digits_value(head));
        assert(n % 10 == digit_value(c));
        assert(padded(n, frac.len()) =~= padded(n / 10, head.len()).push(c));
        assert(head.push(c) =~= frac);
    }
}

proof fn lemma_usual_digits(whole: Seq<char>)
    requires
        is_usual(whole),
    ensures
        digits(digits_value(whole)) == whole,
        whole.len() > 1 ==> digits_value(whole) >= 10,
    decreases whole.len(),
{
    let head = whole.drop_last();
    let c = whole.last();
    assert(c == whole[whole.len() - 1]);
    lemma_digit_char(c);
    let n = digits_value(whole);
    if whole.len() == 1 {
        assert(head =~= Seq::empty());
        assert(digits_value(head) == 0);
        assert(digits(n) =~= whole);
    } else {
        assert forall|i: int| 0 <= i < head.len() implies is_digit(#[trigger] head[i]) by {
            assert(head[i] == whole[i]);
        }
        assert(head[0] == whole[0]);
        lemma_usual_digits(head);
        if head.len() == 1 {
            assert(head.drop_last() =~= Seq::empty());
            assert(digits_value(head.drop_last()) == 0);
            assert(digits_value(head) == digit_value(head[0]));
            assert(digit_value(head[0]) > 0);
        }
        assert(n == digits_value(head) * 10 + digit_value(c));
        assert(n / 10 == digits_value(head));
        assert(n % 10 == digit_value(c));
        assert(digits(n) == digits(n / 10).push(digit_char(n % 10)));
        assert(head.push(c) =~= whole);
    }
}

/// A price comes out as it came in: what spells a number in the usual way is
/// written, after it was read, with the same characters, the zeros at its end
/// included.
pub proof fn law_text_survives(s: Seq<char>, negative: bool, whole: Seq<char>, frac: Seq<char>)
    requires
        spells(s, negative, whole, frac),
        is_usual(whole),
        negative ==> digits_value(whole + frac) > 0,
    ensures
        decimal_print(spelled(negative, whole, frac)) == s,
{
    lemma_value_of_longer(whole, frac);
    lemma_usual_digits(whole);
    lemma_pow_positive(10, frac.len());
    let d = spelled(negative, whole, frac);
    let n = digits_value(whole + frac);
    let unit = pow(10, frac.len());
    if frac.len() == 0 {
        assert(whole + frac =~= whole);
        assert(decimal_print(d) =~= s);
    } else {
        let w = digits_value(whole) as int;
        let f = digits_value(frac) as int;
        vstd::arithmetic::div_mod::lemma_fundamental_div_mod_converse(n as int, unit, w, f);
        assert(n / (unit as nat) == digits_value(whole));
        assert(n % (unit as nat) == digits_value(frac));
        assert(decimal_print(d) =~= s);
    }
}

/// A text spells one number in one way only.
pub proof fn law_text_spells_one_number(
    s: Seq<char>,
    negative: bool,
    whole: Seq<char>,
    frac: Seq<char>,
    other_negative: bool,
    other_whole: Seq<char>,
    other_frac: Seq<char>,
)
    requires
        spells(s, negative, whole, frac),
        spells(s, other_negative, other_whole, other_frac),
    ensures
        negative == other_negative,
        whole == other_whole,
        frac == other_frac,
{
    let sign = |n: bool|
        if n {
            seq!['-']
        } else {
            Seq::<char>::empty()
        };
    assert(is_digit(whole[0]) && is_digit(other_whole[0]));
    let d: int = sign(negative).len() as int;
    let e: int = sign(other_negative).len() as int;
    assert(s[d] == whole[0]);
    assert(s[e] == other_whole[0]);
    assert(negative ==> s[0] == '-');
    assert(other_negative ==> s[0] == '-');
    assert(negative == other_negative);
    assert forall|i: int| 0 <= i < whole.len() implies s[d + i] == whole[i] by {}
    assert forall|i: int| 0 <= i < other_whole.len() implies s[d + i] == other_whole[i] by {}
    let n = whole.len() as int;
    let m = other_whole.len() as int;
    if n < m {
        assert(is_digit(other_whole[n]));
        if frac.len() > 0 {
            assert(s[d + n] == '.');
        }
    }
    if m < n {
        assert(is_digit(whole[m]));
        if other_frac.len() > 0 {
            assert(s[d + m] == '.');
        }
    }
    assert(n == m);
    assert(whole =~= other_whole);
    assert forall|i: int| 0 <= i < frac.len() implies s[d + n + 1 + i] == frac[i] by {}
    assert forall|i: int| 0 <= i < other_frac.len() implies s[d + n + 1 + i] == other_frac[i] by {}
    assert(s.len() == d + n + (if frac.len() == 0 {
        0
    } else {
        1 + frac.len() as int
    }));
    assert(s.len() == d + n + (if other_frac.len() == 0 {
        0
    } else {
        1 + other_frac.len() as int
    }));
    assert(frac.len() == other_frac.len());
    assert(frac =~= other_frac);
}

/// No two numbers are written alike: the text tells the number, the zeros at its
/// end and the minus of a zero included.
pub proof fn law_text_tells_the_number(a: DecimalView, b: DecimalView)
    requires
        decimal_print(a) == decimal_print(b),
    ensures
        a == b,
{
    law_text_keeps_every_digit(a);
    law_text_keeps_every_digit(b);
    let (n1, w1, f1) = choose|negative: bool, whole: Seq<char>, frac: Seq<char>|
        #[trigger] spells(decimal_print(a), negative, whole, frac) && spelled(
            negative,
            whole,
            frac,
        ) == without_minus_zero(a);
    let (n2, w2, f2) = choose|negative: bool, whole: Seq<char>, frac: Seq<char>|
        #[trigger] spells(decimal_print(b), negative, whole, frac) && spelled(
            negative,
            whole,
            frac,
        ) == without_minus_zero(b);
    law_text_spells_one_number(decimal_print(a), n1, w1, f1, n2, w2, f2);
    lemma_minus_shows(a);
    lemma_minus_shows(b);
}

proof fn lemma_minus_shows(d: DecimalView)
    ensures
        d.negative <==> decimal_print(d)[0] == '-',
{
    let (whole, frac) = print_parts(d);
    let unit = pow(10, d.scale) as nat;
    lemma_pow_positive(10, d.scale);
    if d.scale == 0 {
        lemma_digits_round_trip(d.magnitude);
    } else {
        lemma_digits_round_trip(d.magnitude / unit);
    }
    assert(is_digit(whole[0]));
    assert(unsigned_print(d.magnitude, d.scale)[0] == whole[0]);
}

/// Two numbers of 64 bits, with scales not more than 19 apart, whose sum or
/// difference `result` fits in 96 bits at the larger of the scales.
pub open spec fn short(a: DecimalView, b: DecimalView, result: int) -> bool {
    let unit = pow(10, (MAX_SCALE - longer_scale(a, b)) as nat);
    &&& a.magnitude <= u64::MAX
    &&& b.magnitude <= u64::MAX
    &&& a.scale <= b.scale + 19 && b.scale <= a.scale + 19
    &&& -MAX_MANTISSA * unit <= result <= MAX_MANTISSA * unit
}

/// The larger number of digits behind the point.
pub open spec fn longer_scale(a: DecimalView, b: DecimalView) -> nat {
    if a.scale < b.scale {
        b.scale
    } else {
        a.scale
    }
}

/// Half of `a` can be written out: `a` is a number of 64 bits with at most 19
/// digits behind the point.
pub open spec fn halves(a: DecimalView) -> bool {
    a.magnitude <= u64::MAX && a.scale <= 19
}

/// Ten to the 18.
pub open spec fn e18() -> DecimalView {
    number(1_000_000_000_000_000_000, 0)
}

/// The whole number `n`, where a decimal can hold it.
pub open spec fn whole_number(n: int) -> Option<DecimalView> {
    if -MAX_MANTISSA <= n <= MAX_MANTISSA {
        Some(number(n, 0))
    } else {
        None
    }
}

/// What `rust_decimal::Decimal::from_str` reads from a text.
pub uninterp spec fn decimal_text(s: Seq<char>) -> Option<DecimalView>;

/// What `rust_decimal::Decimal::checked_add` gives for two numbers.
pub uninterp spec fn decimal_sum(a: DecimalView, b: DecimalView) -> Option<DecimalView>;

/// What `rust_decimal::Decimal::checked_sub` gives for two numbers.
pub uninterp spec fn decimal_difference(a: DecimalView, b: DecimalView) -> Option<DecimalView>;

/// What `rust_decimal::Decimal::checked_div` gives for two numbers.
pub uninterp spec fn decimal_quotient(a: DecimalView, b: DecimalView) -> Option<DecimalView>;

impl Decimal {
    #[verifier::type_invariant]
    pub closed spec fn fits(self) -> bool {
        self@.wf()
    }

    /// The number zero.
    pub fn zero() -> (r: Decimal)
        ensures
            r@ == zero(),
    {
        Decimal { negative: false, magnitude: 0, scale: 0 }
    }

    /// The number two.
    pub fn two() -> (r: Decimal)
        ensures
            r@ == two(),
    {
        Decimal { negative: false, magnitude: 2, scale: 0 }
    }

    /// `mantissa` divided by ten to the `scale`, if a decimal can hold it.
    pub fn from_parts(mantissa: i128, scale: u32) -> (r: Option<Decimal>)
        ensures
            parts(r) == (if number(mantissa as int, scale as nat).wf() {
                Some(number(mantissa as int, scale as nat))
            } else {
                None
            }),
    {
        if -MAX_MANTISSA <= mantissa && mantissa <= MAX_MANTISSA && scale <= MAX_SCALE {
            let magnitude: u128 = if mantissa < 0 {
                (-mantissa) as u128
            } else {
                mantissa as u128
            };
            Some(Decimal { negative: mantissa < 0, magnitude, scale })
        } else {
            None
        }
    }

    /// The digits of the number, without the point.
    pub fn mantissa(&self) -> (r: i128)
        ensures
            r == self@.mantissa(),
            self@.wf(),
    {
        proof {
            use_type_invariant(self);
        }
        if self.negative {
            -(self.magnitude as i128)
        } else {
            self.magnitude as i128
        }
    }

    /// Whether the number has a minus in front. A zero can have one too.
    pub fn is_sign_negative(&self) -> (r: bool)
        ensures
            r == self@.negative,
    {
        self.negative
    }

    /// How many digits stand behind the point.
    pub fn scale(&self) -> (r: u32)
        ensures
            r == self@.scale,
            self@.wf(),
    {
        proof {
            use_type_invariant(self);
        }
        self.scale
    }

    /// Whether the number is zero.
    pub fn is_zero(&self) -> (r: bool)
        ensures
            r == (self@.magnitude == 0),
    {
        self.magnitude == 0
    }

    /// Reads a number from text.
    ///
    /// Besides what `rust_decimal` reads from any text: plain digits with a
    /// point are read digit by digit, so that a number in the usual spelling is
    /// written again as it came, and what [`Decimal::text`] writes is read back
    /// as the number it was, with the same digits behind the point; only the
    /// minus of a zero is not read back. A whole
    /// number, with or without a sign, is read if it fits in 96 bits and refused
    /// if it does not.
    pub fn parse(text: &str) -> (r: Option<Decimal>)
        ensures
            parts(r) == decimal_text(text@),
            signed_text(text@) is Some ==> parts(r) == whole_number(signed_text(text@).unwrap()),
            forall|negative: bool, whole: Seq<char>, frac: Seq<char>|
                #[trigger] spells(text@, negative, whole, frac) && spelled(negative, whole, frac).wf()
                    ==> parts(r) == Some(spelled(negative, whole, frac)),
            forall|negative: bool, whole: Seq<char>, frac: Seq<char>|
                #[trigger] spells(text@, negative, whole, frac) && spelled(negative, whole, frac).wf()
                    && is_usual(whole) && (negative ==> digits_value(whole + frac) > 0) ==> r is Some
                    && decimal_print(r.unwrap()@) == text@,
            forall|d: DecimalView|
                d.wf() && text@ == #[trigger] decimal_print(d) ==> parts(r) == Some(
                    without_minus_zero(d),
                ),
    {
        let r: Option<Decimal> = Self::read(text);
        proof {
            assert forall|negative: bool, whole: Seq<char>, frac: Seq<char>|
                #[trigger] spells(text@, negative, whole, frac) && spelled(negative, whole, frac).wf()
                    && is_usual(whole) && (negative ==> digits_value(whole + frac)
                    > 0) implies r is Some && decimal_print(r.unwrap()@) == text@ by {
                law_text_survives(text@, negative, whole, frac);
            }
            assert forall|d: DecimalView| d.wf() && text@ == #[trigger] decimal_print(d) implies parts(
                r,
            ) == Some(without_minus_zero(d)) by {
                law_text_keeps_every_digit(d);
            }
        }
        r
    }

    /// Reads a number from text with `rust_decimal::Decimal::from_str`.
    ///
    /// The result depends on the text alone. Taken on trust beyond that: a
    /// text of an optional `-`, digits and at most 28 more digits behind a
    /// point, which together fit in 96 bits, is read digit by digit, a zero
    /// without a minus; digits behind an optional `+` or `-` are read as the
    /// whole number that they spell if it fits in 96 bits, and are an error if
    /// it does not; and every number read fits in 96 bits with at most 28 digits
    /// behind the point. The minus of a zero that comes of rounding a number
    /// with an exponent is kept.
    #[verifier::external_body]
    fn read(text: &str) -> (r: Option<Decimal>)
        ensures
            parts(r) == decimal_text(text@),
            signed_text(text@) is Some ==> parts(r) == whole_number(signed_text(text@).unwrap()),
            forall|negative: bool, whole: Seq<char>, frac: Seq<char>|
                #[trigger] spells(text@, negative, whole, frac) && spelled(negative, whole, frac).wf()
                    ==> parts(r) == Some(spelled(negative, whole, frac)),
    {
        let d = rust_decimal::Decimal::from_str(text).ok()?;
        Some(
            Decimal {
                negative: d.is_sign_negative(),
                magnitude: d.mantissa().unsigned_abs(),
                scale: d.scale(),
            },
        )
    }

    /// Writes the number with `rust_decimal`'s `Display`: its digits, with a
    /// point before the last `scale` of them and a `-` in front where the sign
    /// of the number is negative, that of a zero too.
    #[verifier::external_body]
    fn print(&self) -> (r: String)
        ensures
            r@ == decimal_print(self@),
    {
        let mut d = rust_decimal::Decimal::from_i128_with_scale(self.magnitude as i128, self.scale);
        d.set_sign_negative(self.negative);
        d.to_string()
    }

    /// The number in text: its digits, with a point before the last `scale` of
    /// them and a `-` in front where the number has a minus.
    pub fn text(&self) -> (r: String)
        ensures
            r@ == decimal_print(self@),
    {
        self.print()
    }

    /// Whether `self` is the smaller number: the `<` of `rust_decimal`
    /// compares the numbers, not their digits.
    #[verifier::external_body]
    pub(crate) fn less(&self, other: &Decimal) -> (r: bool)
        ensures
            r == (self@.value() < other@.value()),
    {
        let mut a = rust_decimal::Decimal::from_i128_with_scale(self.magnitude as i128, self.scale);
        a.set_sign_negative(self.negative);
        let mut b = rust_decimal::Decimal::from_i128_with_scale(other.magnitude as i128, other.scale);
        b.set_sign_negative(other.negative);
        a < b
    }

    /// The sum as `rust_decimal::Decimal::checked_add` gives it: `None` where
    /// it does not fit. The sum of two numbers of 64 bits is exact where it
    /// fits without rounding, and has no more digits behind the point than the
    /// numbers have; how other sums are rounded is left to that function.
    #[verifier::external_body]
    pub(crate) fn plus(&self, other: &Decimal) -> (r: Option<Decimal>)
        ensures
            parts(r) == decimal_sum(self@, other@),
            short(self@, other@, self@.value() + other@.value()) ==> r is Some
                && r.unwrap()@.value() == self@.value() + other@.value() && r.unwrap()@.scale
                <= longer_scale(self@, other@),
    {
        let mut a = rust_decimal::Decimal::from_i128_with_scale(self.magnitude as i128, self.scale);
        a.set_sign_negative(self.negative);
        let mut b = rust_decimal::Decimal::from_i128_with_scale(other.magnitude as i128, other.scale);
        b.set_sign_negative(other.negative);
        let d = a.checked_add(b)?;
        Some(
            Decimal {
                negative: d.is_sign_negative(),
                magnitude: d.mantissa().unsigned_abs(),
                scale: d.scale(),
            },
        )
    }

    /// The difference as `rust_decimal::Decimal::checked_sub` gives it: `None`
    /// where it does not fit. The difference of two numbers of 64 bits is exact
    /// where it fits without rounding, and has no more digits behind the point
    /// than the numbers have; how others are rounded is left to that function.
    #[verifier::external_body]
    pub(crate) fn minus(&self, other: &Decimal) -> (r: Option<Decimal>)
        ensures
            parts(r) == decimal_difference(self@, other@),
            short(self@, other@, self@.value() - other@.value()) ==> r is Some
                && r.unwrap()@.value() == self@.value() - other@.value() && r.unwrap()@.scale
                <= longer_scale(self@, other@),
    {
        let mut a = rust_decimal::Decimal::from_i128_with_scale(self.magnitude as i128, self.scale);
        a.set_sign_negative(self.negative);
        let mut b = rust_decimal::Decimal::from_i128_with_scale(other.magnitude as i128, other.scale);
        b.set_sign_negative(other.negative);
        let d = a.checked_sub(b)?;
        Some(
            Decimal {
                negative: d.is_sign_negative(),
                magnitude: d.mantissa().unsigned_abs(),
                scale: d.scale(),
            },
        )
    }

    /// The quotient as `rust_decimal::Decimal::checked_div` gives it: `None`
    /// for a divisor of zero, or where it does not fit. Half of a number of 64
    /// bits is exact, and so is every whole number over ten to the 18: the
    /// division goes on until nothing is left over, and the digits of the
    /// quotient are those of the number. How other quotients are rounded is
    /// left to that function.
    #[verifier::external_body]
    pub(crate) fn over(&self, other: &Decimal) -> (r: Option<Decimal>)
        ensures
            parts(r) == decimal_quotient(self@, other@),
            other@.magnitude == 0 ==> r is None,
            other@ == two() && halves(self@) ==> r is Some && 2 * r.unwrap()@.value()
                == self@.value(),
            other@ == e18() && self@.scale == 0 ==> r is Some && r.unwrap()@.value()
                * e18().magnitude == self@.value(),
    {
        let mut a = rust_decimal::Decimal::from_i128_with_scale(self.magnitude as i128, self.scale);
        a.set_sign_negative(self.negative);
        let mut b = rust_decimal::Decimal::from_i128_with_scale(other.magnitude as i128, other.scale);
        b.set_sign_negative(other.negative);
        let d = a.checked_div(b)?;
        Some(
            Decimal {
                negative: d.is_sign_negative(),
                magnitude: d.mantissa().unsigned_abs(),
                scale: d.scale(),
            },
        )
    }
}

impl PartialEq for Decimal {
    fn eq(&self, other: &Decimal) -> (r: bool) {
        !self.less(other) && !other.less(self)
    }
}

impl PartialEqSpecImpl for Decimal {
    open spec fn obeys_eq_spec() -> bool {
        true
    }

    open spec fn eq_spec(&self, other: &Decimal) -> bool {
        self@.value() == other@.value()
    }
}

impl Eq for Decimal {

}

} // verus!
