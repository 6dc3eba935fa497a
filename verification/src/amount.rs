//! Amounts: decimal numbers, with or without a power of ten, kept exactly as
//! they were written, and the two writings that stand for no number.

use crate::text::{
    all_digits, append_chars, chars_of, copy_range, digit_value, digits_in, is_digit,
    lemma_number_prefix, number, same_text,
};
use vstd::arithmetic::div_mod::{
    lemma_fundamental_div_mod, lemma_fundamental_div_mod_converse, lemma_mod_bound,
};
use vstd::prelude::*;

verus! {

/// Ten to the power `k`.
pub open spec fn pow10(k: nat) -> nat
    decreases k,
{
    if k == 0 {
        1
    } else {
        10 * pow10((k - 1) as nat)
    }
}

/// How many characters stand before the first `a` or `b` of `s`: all of
/// them where `s` holds neither.
pub open spec fn count_before(s: Seq<char>, a: char, b: char) -> nat
    decreases s.len(),
{
    if s.len() == 0 || s[0] == a || s[0] == b {
        0
    } else {
        1 + count_before(s.drop_first(), a, b)
    }
}

/// `s` without the zeros it begins with.
pub open spec fn without_leading_zeros(s: Seq<char>) -> Seq<char>
    decreases s.len(),
{
    if s.len() > 0 && s[0] == '0' {
        without_leading_zeros(s.drop_first())
    } else {
        s
    }
}

/// `s` without the zeros it ends with.
pub open spec fn without_trailing_zeros(s: Seq<char>) -> Seq<char>
    decreases s.len(),
{
    if s.len() > 0 && s.last() == '0' {
        without_trailing_zeros(s.drop_last())
    } else {
        s
    }
}

/// What an amount is: a number, or one of the two writings that stand for
/// no number.
#[derive(Clone, Copy, Debug, PartialEq, Eq, Structural)]
pub enum Kind {
    /// A decimal number.
    Finite,
    /// More than any number: written `inf` or `infinity`.
    Infinite,
    /// Not a number: written `nan`.
    NotANumber,
}

/// The small letter for a capital ASCII letter, and any other character as
/// it is.
pub open spec fn lower(c: char) -> char {
    if 'A' <= c <= 'Z' {
        ((c as u32) + 32) as char
    } else {
        c
    }
}

/// `s` with its capital ASCII letters made small.
pub open spec fn lowered(s: Seq<char>) -> Seq<char> {
    Seq::new(s.len(), |i: int| lower(s[i]))
}

/// The kind that a word stands for, whatever the case of its letters: `inf`
/// and `infinity` for the infinite, `nan` for what is not a number. `None`
/// for any other text.
pub open spec fn special_text(s: Seq<char>) -> Option<Kind> {
    let word = lowered(s);
    if word == "inf"@ || word == "infinity"@ {
        Some(Kind::Infinite)
    } else if word == "nan"@ {
        Some(Kind::NotANumber)
    } else {
        None
    }
}

/// An amount over plain values. A finite one is a decimal number as a sign,
/// the digits before the point, the digits after it, and the power of ten
/// that scales it, as a sign and digits: it stands for
/// `numerator / denominator`, negated where `negative`. The other kinds have
/// a sign and no digits.
pub struct Decimal {
    pub kind: Kind,
    pub negative: bool,
    pub whole: Seq<char>,
    pub fraction: Seq<char>,
    pub exponent_negative: bool,
    pub exponent_digits: Seq<char>,
}

impl Decimal {
    /// All three parts hold digits only.
    pub open spec fn wf(self) -> bool {
        all_digits(self.whole) && all_digits(self.fraction) && all_digits(self.exponent_digits)
    }

    /// All the digits of the figure read as one number.
    pub open spec fn mantissa(self) -> nat {
        number(self.whole + self.fraction)
    }

    /// The power of ten that the number is written with; 0 where it is
    /// written with none.
    pub open spec fn exponent(self) -> int {
        if self.exponent_negative {
            -(number(self.exponent_digits) as int)
        } else {
            number(self.exponent_digits) as int
        }
    }

    /// The power of ten that takes the mantissa to the number: the exponent
    /// less the number of digits after the point.
    pub open spec fn shift(self) -> int {
        self.exponent() - self.fraction.len()
    }

    /// The mantissa times ten to the shift, where the shift is above zero.
    pub open spec fn numerator(self) -> nat {
        self.mantissa() * pow10(
            if self.shift() > 0 {
                self.shift() as nat
            } else {
                0
            },
        )
    }

    /// Ten to the shift turned round, where the shift is below zero; else 1.
    pub open spec fn denominator(self) -> nat {
        pow10(
            if self.shift() < 0 {
                (-self.shift()) as nat
            } else {
                0
            },
        )
    }

    /// Whether the amount is the number one.
    pub open spec fn is_one(self) -> bool {
        self.kind == Kind::Finite && !self.negative && self.numerator() == self.denominator()
    }

    /// Whether the amount times `factor` is greater than `limit`. The
    /// infinite is, but for the factor 0; what is not a number is greater
    /// than nothing.
    pub open spec fn times_exceeds(self, factor: nat, limit: nat) -> bool {
        match self.kind {
            Kind::Finite => !self.negative && self.numerator() * factor > limit
                * self.denominator(),
            Kind::Infinite => !self.negative && factor > 0,
            Kind::NotANumber => false,
        }
    }

    /// The amount times `factor`, with the fraction cut off; 0 for a negative
    /// amount and for one that is no number.
    pub open spec fn times_floor(self, factor: nat) -> nat {
        if self.kind == Kind::Finite && !self.negative {
            (self.numerator() * factor / self.denominator()) as nat
        } else {
            0
        }
    }

    /// The sign as it is written out: a `-` for a negative number.
    pub open spec fn sign_text(self) -> Seq<char> {
        if self.negative {
            seq!['-']
        } else {
            Seq::empty()
        }
    }

    /// The whole part without zeros in front; `0` where nothing is left.
    pub open spec fn whole_text(self) -> Seq<char> {
        let whole = without_leading_zeros(self.whole);
        if whole.len() == 0 {
            seq!['0']
        } else {
            whole
        }
    }

    /// A point and the fraction without zeros at its end; nothing where the
    /// fraction is zero.
    pub open spec fn fraction_text(self) -> Seq<char> {
        let fraction = without_trailing_zeros(self.fraction);
        if fraction.len() == 0 {
            Seq::empty()
        } else {
            seq!['.'] + fraction
        }
    }

    /// An `e` and the exponent, with its `-` and without zeros in front;
    /// nothing where the exponent is zero.
    pub open spec fn power_text(self) -> Seq<char> {
        let power = without_leading_zeros(self.exponent_digits);
        if power.len() == 0 {
            Seq::empty()
        } else if self.exponent_negative {
            seq!['e', '-'] + power
        } else {
            seq!['e'] + power
        }
    }

    /// The amount in its shortest writing: for a number its sign, whole
    /// part, fraction and power of ten; `inf` after its sign for the
    /// infinite; `NaN` for what is not a number.
    pub open spec fn text(self) -> Seq<char> {
        match self.kind {
            Kind::Finite => self.sign_text() + self.whole_text() + self.fraction_text()
                + self.power_text(),
            Kind::Infinite => self.sign_text() + "inf"@,
            Kind::NotANumber => "NaN"@,
        }
    }
}

/// The amount of one of the two special kinds, with its sign.
pub open spec fn special(kind: Kind, negative: bool) -> Decimal {
    Decimal {
        kind,
        negative,
        whole: Seq::empty(),
        fraction: Seq::empty(),
        exponent_negative: false,
        exponent_digits: Seq::empty(),
    }
}

/// What an amount in text stands for. The text is an optional `+` or `-`,
/// and then either one of the words `inf`, `infinity` and `nan` in any case,
/// or a number.
pub open spec fn decimal_text(s: Seq<char>) -> Option<Decimal> {
    let signed = s.len() > 0 && (s[0] == '+' || s[0] == '-');
    let negative = signed && s[0] == '-';
    let body = if signed {
        s.drop_first()
    } else {
        s
    };
    match special_text(body) {
        Some(kind) => Some(special(kind, negative)),
        None => number_text(body, negative),
    }
}

/// What a number in text stands for, after its sign. The text is a figure
/// and optionally a power of ten. The figure is digits, optionally with a
/// point among them, before them or after them, and holds one digit at
/// least. The power is `e` or `E`, an optional `+` or `-`, and one digit or
/// more. `None` for any other text.
pub open spec fn number_text(body: Seq<char>, negative: bool) -> Option<Decimal> {
    let m = count_before(body, 'e', 'E') as int;
    let figure = body.take(m);
    let k = count_before(figure, '.', '.') as int;
    let whole = figure.take(k);
    let fraction = if k < figure.len() {
        figure.skip(k + 1)
    } else {
        Seq::empty()
    };
    let marked = m < body.len();
    let power = if marked {
        body.skip(m + 1)
    } else {
        Seq::empty()
    };
    let power_signed = power.len() > 0 && (power[0] == '+' || power[0] == '-');
    let power_digits = if power_signed {
        power.drop_first()
    } else {
        power
    };
    if whole.len() + fraction.len() > 0 && all_digits(whole) && all_digits(fraction) && all_digits(
        power_digits,
    ) && (marked ==> power_digits.len() > 0) {
        Some(
            Decimal {
                kind: Kind::Finite,
                negative,
                whole,
                fraction,
                exponent_negative: power_signed && power[0] == '-',
                exponent_digits: power_digits,
            },
        )
    } else {
        None
    }
}

/// Powers of ten are positive.
pub proof fn lemma_pow10_positive(k: nat)
    ensures
        pow10(k) >= 1,
    decreases k,
{
    if k > 0 {
        lemma_pow10_positive((k - 1) as nat);
    }
}

/// Digits written one after the other: the first part counts for as many
/// powers of ten as the second part has digits.
pub proof fn lemma_number_concat(a: Seq<char>, b: Seq<char>)
    ensures
        number(a + b) == number(a) * pow10(b.len()) + number(b),
    decreases b.len(),
{
    if b.len() == 0 {
        assert(a + b =~= a);
        assert(pow10(0) == 1);
        assert(number(a) * 1 == number(a)) by (nonlinear_arith);
    } else {
        let b0 = b.drop_last();
        lemma_number_concat(a, b0);
        assert((a + b).drop_last() =~= a + b0);
        assert((a + b).last() == b.last());
        let p = pow10(b0.len());
        let x = number(a);
        let y = number(b0);
        let d = digit_value(b.last());
        assert(pow10(b.len()) == 10 * p);
        assert(number(a + b) == (x * p + y) * 10 + d);
        assert(number(b) == y * 10 + d);
        assert((x * p + y) * 10 + d == x * (10 * p) + (y * 10 + d)) by (nonlinear_arith);
    }
}

/// The algebra of one step of a multiplication carried from the last digit
/// to the first.
proof fn lemma_carry_step(d: nat, f: nat, c: nat, p: nat, r: nat, tail: nat)
    requires
        tail * f == c * p + r,
    ensures
        (d * p + tail) * f == ((d * f + c) / 10) * (10 * p) + (((d * f + c) % 10) * p + r),
{
    let t = d * f + c;
    let q = t / 10;
    let m = t % 10;
    assert(t == 10 * q + m);
    assert((d * p + tail) * f == (d * f) * p + tail * f) by (nonlinear_arith);
    assert((d * f) * p + c * p == (d * f + c) * p) by (nonlinear_arith);
    assert((10 * q + m) * p == q * (10 * p) + m * p) by (nonlinear_arith);
}

/// The product of the whole number and the factor, from the products of its
/// two parts.
proof fn lemma_product_parts(w: nat, fr: nat, f: nat, c: nat, r: nat, p: nat)
    requires
        fr * f == c * p + r,
    ensures
        (w * p + fr) * f == (w * f + c) * p + r,
{
    assert((w * p + fr) * f == (w * f) * p + fr * f) by (nonlinear_arith);
    assert((w * f) * p + c * p == (w * f + c) * p) by (nonlinear_arith);
}

/// A quotient with a remainder, held against a limit.
proof fn lemma_against_limit(total: nat, r: nat, p: nat, limit: nat)
    requires
        r < p,
    ensures
        (total * p + r > limit * p) <==> (total > limit || (total == limit && r > 0)),
        (total * p + r) / p == total,
{
    if total > limit {
        assert(total * p >= (limit + 1) * p) by (nonlinear_arith)
            requires
                total >= limit + 1,
        ;
        assert((limit + 1) * p == limit * p + p) by (nonlinear_arith);
    } else if total < limit {
        assert((total + 1) * p <= limit * p) by (nonlinear_arith)
            requires
                total + 1 <= limit,
        ;
        assert((total + 1) * p == total * p + p) by (nonlinear_arith);
    }
    lemma_fundamental_div_mod_converse((total * p + r) as int, p as int, total as int, r as int);
}

/// A greater power of ten is no smaller.
pub proof fn lemma_pow10_grows(a: nat, b: nat)
    requires
        a <= b,
    ensures
        pow10(a) <= pow10(b),
        pow10(a) >= 1,
    decreases b - a,
{
    lemma_pow10_positive(a);
    if a < b {
        lemma_pow10_grows(a, (b - 1) as nat);
    }
}

/// Ten to the tenth is more than 32 bits hold.
proof fn lemma_pow10_ten()
    ensures
        pow10(10) == 10_000_000_000,
{
    reveal_with_fuel(pow10, 11);
}

/// The size from which two exponents are no longer told apart: far above
/// the number of digits that any text holds.
const EXPONENT_CAP: u128 = 0x10_0000_0000_0000_0000_0000_0000;

/// Where the first `a` or `b` stands in `v[from..to]`; `to` where it holds
/// neither.
fn find_first(v: &Vec<char>, from: usize, to: usize, a: char, b: char) -> (at: usize)
    requires
        from <= to <= v.len(),
    ensures
        from <= at <= to,
        at - from == count_before(v@.subrange(from as int, to as int), a, b),
{
    let ghost part = v@.subrange(from as int, to as int);
    let mut at: usize = from;
    assert(part.skip(0) =~= part);
    while at < to && v[at] != a && v[at] != b
        invariant
            from <= at <= to <= v.len(),
            part == v@.subrange(from as int, to as int),
            count_before(part, a, b) == (at - from) + count_before(part.skip(at - from), a, b),
        decreases to - at,
    {
        assert(part.skip(at - from).drop_first() =~= part.skip(at + 1 - from));
        at += 1;
    }
    at
}

/// The number that the digits `v[..to]` write, where it fits in 32 bits.
fn small_number(v: &Vec<char>, to: usize) -> (r: Option<u32>)
    requires
        to <= v.len(),
        all_digits(v@),
    ensures
        match r {
            Some(w) => w == number(v@.take(to as int)),
            None => number(v@.take(to as int)) > u32::MAX,
        },
{
    let ghost part = v@.take(to as int);
    let mut acc: u64 = 0;
    let mut i: usize = 0;
    while i < to
        invariant
            i <= to <= v.len(),
            all_digits(v@),
            part == v@.take(to as int),
            acc == number(part.take(i as int)),
            acc <= u32::MAX,
        decreases to - i,
    {
        let c = v[i];
        assert(is_digit(v@[i as int]));
        let d: u64 = (c as u32 - 48) as u64;
        assert(part.take(i + 1).drop_last() =~= part.take(i as int));
        assert(part.take(i + 1).last() == c);
        acc = acc * 10 + d;
        if acc > 0xFFFF_FFFF {
            proof {
                lemma_number_prefix(part, i + 1);
            }
            return None;
        }
        i += 1;
    }
    assert(part.take(to as int) =~= part);
    Some(acc as u32)
}

/// The number that the digits of `v` write, or the cap where it is the cap
/// or more.
fn capped_number(v: &Vec<char>) -> (r: u128)
    requires
        all_digits(v@),
    ensures
        r == if number(v@) < EXPONENT_CAP {
            number(v@)
        } else {
            EXPONENT_CAP as nat
        },
{
    let n = v.len();
    let mut acc: u128 = 0;
    let mut i: usize = 0;
    while i < n
        invariant
            i <= n == v.len(),
            all_digits(v@),
            acc == number(v@.take(i as int)),
            acc < EXPONENT_CAP,
        decreases n - i,
    {
        let c = v[i];
        assert(is_digit(v@[i as int]));
        let d: u128 = (c as u32 - 48) as u128;
        assert(v@.take(i + 1).drop_last() =~= v@.take(i as int));
        assert(v@.take(i + 1).last() == c);
        acc = acc * 10 + d;
        if acc >= EXPONENT_CAP {
            proof {
                lemma_number_prefix(v@, i + 1);
            }
            return EXPONENT_CAP;
        }
        i += 1;
    }
    assert(v@.take(n as int) =~= v@);
    acc
}

/// The small letter for a capital ASCII letter, and any other character as
/// it is.
fn lower_of(c: char) -> (l: char)
    ensures
        l == lower(c),
{
    if c >= 'A' && c <= 'Z' {
        (c as u8 + 32) as char
    } else {
        c
    }
}

/// The special kind that the word `v[start..]` stands for, if it is one.
fn special_kind(v: &Vec<char>, start: usize) -> (r: Option<Kind>)
    requires
        start <= v.len(),
    ensures
        r == special_text(v@.subrange(start as int, v.len() as int)),
{
    let n = v.len();
    let ghost body = v@.subrange(start as int, n as int);
    let mut word = String::new();
    let mut i: usize = start;
    assert(word@ =~= lowered(body.take(0)));
    while i < n
        invariant
            start <= i <= n == v.len(),
            body == v@.subrange(start as int, n as int),
            word@ == lowered(body.take(i - start)),
        decreases n - i,
    {
        word.push(lower_of(v[i]));
        assert(lowered(body.take(i + 1 - start)) =~= lowered(body.take(i - start)).push(
            lower(v@[i as int]),
        ));
        i += 1;
    }
    assert(body.take(n - start) =~= body);
    if same_text(word.as_str(), "inf") || same_text(word.as_str(), "infinity") {
        Some(Kind::Infinite)
    } else if same_text(word.as_str(), "nan") {
        Some(Kind::NotANumber)
    } else {
        None
    }
}

/// An amount, held as it was written: for a number its digits.
#[derive(Debug)]
pub struct Amount {
    kind: Kind,
    negative: bool,
    whole: Vec<char>,
    fraction: Vec<char>,
    exponent_negative: bool,
    exponent_digits: Vec<char>,
}

impl View for Amount {
    type V = Decimal;

    closed spec fn view(&self) -> Decimal {
        Decimal {
            kind: self.kind,
            negative: self.negative,
            whole: self.whole@,
            fraction: self.fraction@,
            exponent_negative: self.exponent_negative,
            exponent_digits: self.exponent_digits@,
        }
    }
}

impl Amount {
    #[verifier::type_invariant]
    spec fn digits_only(self) -> bool {
        all_digits(self.whole@) && all_digits(self.fraction@) && all_digits(self.exponent_digits@)
    }

    /// Reads an amount: an optional sign, and then one of the words `inf`,
    /// `infinity` and `nan` in any case, or a number. A number is a figure
    /// and optionally a power of ten. The figure is digits with at most one
    /// point, and holds a digit on one side of the point at least. The power
    /// is `e` or `E`, an optional sign and digits. Nothing else is accepted,
    /// and no white space.
    pub fn parse(s: &str) -> (r: Option<Amount>)
        ensures
            match r {
                Some(a) => decimal_text(s@) == Some(a@) && a@.wf(),
                None => decimal_text(s@) is None,
            },
    {
        let v = chars_of(s);
        let n = v.len();
        let signed = n > 0 && (v[0] == '+' || v[0] == '-');
        let negative = signed && v[0] == '-';
        let start: usize = if signed {
            1
        } else {
            0
        };
        assert(v@.subrange(start as int, n as int) =~= if signed {
            v@.drop_first()
        } else {
            v@
        });
        match special_kind(&v, start) {
            Some(kind) => Some(
                Amount {
                    kind,
                    negative,
                    whole: Vec::new(),
                    fraction: Vec::new(),
                    exponent_negative: false,
                    exponent_digits: Vec::new(),
                },
            ),
            None => Self::parse_number(&v, start, negative),
        }
    }

    /// Reads the number that stands in `v` from `start` on.
    #[verifier::rlimit(60)]
    fn parse_number(v: &Vec<char>, start: usize, negative: bool) -> (r: Option<Amount>)
        requires
            start <= v.len(),
        ensures
            match r {
                Some(a) => number_text(v@.subrange(start as int, v.len() as int), negative)
                    == Some(a@) && a@.wf(),
                None => number_text(v@.subrange(start as int, v.len() as int), negative) is None,
            },
    {
        let n = v.len();
        let ghost body = v@.subrange(start as int, n as int);
        let mark = find_first(v, start, n, 'e', 'E');
        let ghost figure = body.take(mark - start);
        assert(figure =~= v@.subrange(start as int, mark as int));
        let point = find_first(v, start, mark, '.', '.');
        let after: usize = if point < mark {
            point + 1
        } else {
            mark
        };
        assert(figure.take(point - start) =~= v@.subrange(start as int, point as int));
        assert((if point - start < figure.len() {
            figure.skip(point - start + 1)
        } else {
            Seq::empty()
        }) =~= v@.subrange(after as int, mark as int));
        let marked = mark < n;
        let power_start: usize = if marked {
            mark + 1
        } else {
            n
        };
        let ghost power = v@.subrange(power_start as int, n as int);
        assert(power =~= if marked {
            body.skip(mark - start + 1)
        } else {
            Seq::empty()
        });
        let power_signed = power_start < n && (v[power_start] == '+' || v[power_start] == '-');
        let exponent_negative = power_signed && v[power_start] == '-';
        let digits_start: usize = if power_signed {
            power_start + 1
        } else {
            power_start
        };
        assert(v@.subrange(digits_start as int, n as int) =~= if power_signed {
            power.drop_first()
        } else {
            power
        });
        if (point - start) + (mark - after) == 0 {
            return None;
        }
        if marked && digits_start == n {
            return None;
        }
        if !digits_in(v, start, point) {
            return None;
        }
        if !digits_in(v, after, mark) {
            return None;
        }
        if !digits_in(v, digits_start, n) {
            return None;
        }
        let whole = copy_range(v, start, point);
        let fraction = copy_range(v, after, mark);
        let exponent_digits = copy_range(v, digits_start, n);
        Some(
            Amount { kind: Kind::Finite, negative, whole, fraction, exponent_negative, exponent_digits },
        )
    }

    /// Whether the amount was written with a `-`.
    pub fn is_negative(&self) -> (b: bool)
        ensures
            b == self@.negative,
    {
        self.negative
    }

    /// Whether the amount is a number, the infinite, or no number.
    pub fn kind(&self) -> (kind: Kind)
        ensures
            kind == self@.kind,
    {
        self.kind
    }

    /// The digits of the figure, those before the point and those after it.
    fn figure(&self) -> (digits: Vec<char>)
        ensures
            digits@ == self@.whole + self@.fraction,
            all_digits(digits@),
    {
        proof {
            use_type_invariant(self);
        }
        let mut digits = copy_range(&self.whole, 0, self.whole.len());
        assert(digits@ =~= self.whole@);
        let mut i: usize = 0;
        while i < self.fraction.len()
            invariant
                i <= self.fraction.len(),
                digits@ == self.whole@ + self.fraction@.take(i as int),
            decreases self.fraction.len() - i,
        {
            digits.push(self.fraction[i]);
            assert(self.whole@ + self.fraction@.take(i + 1) =~= (self.whole@
                + self.fraction@.take(i as int)).push(self.fraction@[i as int]));
            i += 1;
        }
        assert(self.fraction@.take(self.fraction@.len() as int) =~= self.fraction@);
        assert forall|j: int| 0 <= j < digits@.len() implies is_digit(#[trigger] digits@[j]) by {
            if j < self.whole@.len() {
                assert(digits@[j] == self.whole@[j]);
            } else {
                assert(digits@[j] == self.fraction@[j - self.whole@.len()]);
            }
        }
        digits
    }

    /// The amount's size times `factor`: the whole of the product where it
    /// fits in 32 bits, and whether anything was cut off.
    #[verifier::rlimit(40)]
    fn scaled(&self, factor: u32) -> (r: Option<(u32, bool)>)
        requires
            factor >= 1,
        ensures
            match r {
                Some((q, inexact)) => q == self@.numerator() * (factor as nat)
                    / self@.denominator() && inexact == (self@.numerator() * (factor as nat)
                    % self@.denominator() != 0),
                None => self@.numerator() * (factor as nat) >= 0x1_0000_0000
                    * self@.denominator(),
            },
    {
        proof {
            use_type_invariant(self);
        }
        let f: u64 = factor as u64;
        let wl = self.whole.len();
        let k = self.fraction.len();
        let digits = self.figure();
        let n = digits.len();
        let e: u128 = capped_number(&self.exponent_digits);
        let ghost sh = self@.shift();
        let ghost up: nat = if sh > 0 {
            sh as nat
        } else {
            0
        };
        let ghost down: nat = if sh < 0 {
            (-sh) as nat
        } else {
            0
        };
        let ghost m = number(digits@);
        assert(self@.numerator() == m * pow10(up));
        assert(self@.denominator() == pow10(down));
        // How many digits of the figure stand after the shifted point, how
        // many zeros stand before them, and by how many places the figure
        // is moved up; the last two told apart up to ten only.
        let tl: usize;
        let zs: u128;
        let ups: u128;
        if !self.exponent_negative {
            if e >= k as u128 {
                tl = 0;
                zs = 0;
                ups = if e - k as u128 > 10 {
                    11
                } else {
                    e - k as u128
                };
            } else {
                tl = k - e as usize;
                zs = 0;
                ups = 0;
            }
        } else {
            if e <= wl as u128 {
                tl = k + e as usize;
                zs = 0;
                ups = 0;
            } else {
                tl = n;
                zs = if e - wl as u128 > 10 {
                    11
                } else {
                    e - wl as u128
                };
                ups = 0;
            }
        }
        assert(tl <= n);
        assert(up > 0 ==> down == 0 && tl == 0 && zs == 0);
        assert(up == 0 ==> ups == 0);
        assert(ups == if up > 10 {
            11
        } else {
            up
        });
        assert(up == 0 ==> down >= tl);
        assert(up == 0 ==> zs == if down - tl > 10 {
            11
        } else {
            down - tl
        });
        assert(zs > 0 ==> tl == n);
        let s: usize = n - tl;
        let mut i: usize = n;
        let mut carry: u64 = 0;
        let mut sticky: bool = false;
        let ghost mut rem: nat = 0;
        proof {
            assert(digits@.skip(n as int) =~= Seq::<char>::empty());
            assert(0 * f == 0) by (nonlinear_arith);
            assert(0 * pow10(0) == 0) by (nonlinear_arith);
        }
        while i > s
            invariant
                s <= i <= n == digits.len(),
                all_digits(digits@),
                1 <= f <= u32::MAX,
                carry < f,
                number(digits@.skip(i as int)) * f == carry * pow10((n - i) as nat) + rem,
                rem < pow10((n - i) as nat),
                sticky == (rem != 0),
            decreases i,
        {
            let ghost tail = digits@.skip(i as int);
            let ghost pt = pow10((n - i) as nat);
            i -= 1;
            let c = digits[i];
            assert(is_digit(digits@[i as int]));
            let d: u64 = (c as u32 - 48) as u64;
            assert(d * f <= 9 * f) by (nonlinear_arith)
                requires
                    d <= 9,
            ;
            let t: u64 = d * f + carry;
            proof {
                let one = seq![c];
                assert(number(Seq::<char>::empty()) == 0);
                assert(digits@.skip(i as int) =~= one + tail);
                lemma_number_concat(one, tail);
                assert(one.drop_last() =~= Seq::<char>::empty());
                assert(number(one) == d);
                lemma_carry_step(d as nat, f as nat, carry as nat, pt, rem, number(tail));
                assert(pow10((n - i) as nat) == 10 * pt);
                assert(((t % 10) as nat) * pt + rem < 10 * pt) by (nonlinear_arith)
                    requires
                        (t % 10) as nat <= 9,
                        rem < pt,
                ;
                lemma_pow10_positive((n - i - 1) as nat);
                assert((((t % 10) as nat) * pt + rem != 0) <==> (t % 10 != 0 || rem != 0))
                    by (nonlinear_arith)
                    requires
                        pt >= 1,
                ;
                rem = ((t % 10) as nat) * pt + rem;
            }
            carry = t / 10;
            sticky = sticky || t % 10 != 0;
        }
        let ghost nt = number(digits@.skip(s as int));
        let mut j: u128 = 0;
        proof {
            assert(pow10(0) == 1);
            assert(carry * 1 == carry) by (nonlinear_arith);
        }
        while j < zs && j < 10
            invariant
                j <= 10,
                j <= zs,
                1 <= f <= u32::MAX,
                carry < f,
                carry * pow10(j as nat) < f,
                nt * f == carry * pow10((tl + j) as nat) + rem,
                rem < pow10((tl + j) as nat),
                sticky == (rem != 0),
            decreases 10 - j,
        {
            proof {
                let pt = pow10((tl + j) as nat);
                let pj = pow10(j as nat);
                lemma_carry_step(0, f as nat, carry as nat, pt, rem, nt);
                assert(0 * pt + nt == nt) by (nonlinear_arith);
                assert(0 * f + carry == carry) by (nonlinear_arith);
                assert(pow10((tl + j + 1) as nat) == 10 * pt);
                assert(pow10((j + 1) as nat) == 10 * pj);
                assert(((carry % 10) as nat) * pt + rem < 10 * pt) by (nonlinear_arith)
                    requires
                        (carry % 10) as nat <= 9,
                        rem < pt,
                ;
                lemma_pow10_positive((tl + j) as nat);
                assert((((carry % 10) as nat) * pt + rem != 0) <==> (carry % 10 != 0 || rem != 0))
                    by (nonlinear_arith)
                    requires
                        pt >= 1,
                ;
                assert((carry / 10) * (10 * pj) <= carry * pj) by (nonlinear_arith)
                    requires
                        (carry / 10) * 10 <= carry,
                        pj >= 0,
                ;
                rem = ((carry % 10) as nat) * pt + rem;
            }
            sticky = sticky || carry % 10 != 0;
            carry = carry / 10;
            j += 1;
        }
        proof {
            if up == 0 {
                if zs == 11 {
                    lemma_pow10_ten();
                    assert(carry == 0) by (nonlinear_arith)
                        requires
                            carry * 10_000_000_000 < f,
                            f <= 0xFFFF_FFFF,
                            carry >= 0,
                    ;
                    lemma_pow10_grows((tl + 10) as nat, down);
                    assert(0 * pow10((tl + 10) as nat) == 0) by (nonlinear_arith);
                    assert(0 * pow10(down) == 0) by (nonlinear_arith);
                }
            }
            if up > 0 {
                assert(digits@.skip(n as int) =~= Seq::<char>::empty());
            }
        }
        assert(nt * f == carry * pow10(down) + rem);
        assert(rem < pow10(down));
        let w: u64 = match small_number(&digits, s) {
            Some(w) => w as u64,
            None => {
                proof {
                    let head = digits@.take(s as int);
                    let tail = digits@.skip(s as int);
                    assert(head + tail =~= digits@);
                    lemma_number_concat(head, tail);
                    assert(number(Seq::<char>::empty()) == 0);
                    assert(s > 0);
                    assert(zs == 0);
                    let p = pow10(tl as nat);
                    let wn = number(head);
                    let u = pow10(up);
                    lemma_pow10_positive(up);
                    lemma_pow10_positive(tl as nat);
                    assert(down == tl);
                    assert(wn * p >= 0x1_0000_0000 * p) by (nonlinear_arith)
                        requires
                            wn >= 0x1_0000_0000,
                            p >= 1,
                    ;
                    assert(m * u * f >= wn * p) by (nonlinear_arith)
                        requires
                            m >= wn * p,
                            u >= 1,
                            f >= 1,
                    ;
                }
                return None;
            },
        };
        proof {
            let head = digits@.take(s as int);
            let tail = digits@.skip(s as int);
            assert(head + tail =~= digits@);
            lemma_number_concat(head, tail);
            assert(number(Seq::<char>::empty()) == 0);
            if zs > 0 {
                assert(head =~= Seq::<char>::empty());
                assert(0 * pow10(tl as nat) == 0) by (nonlinear_arith);
                assert(0 * pow10(down) == 0) by (nonlinear_arith);
            }
            if up > 0 {
                assert(tail =~= Seq::<char>::empty());
                assert(pow10(0) == 1);
                assert(w * 1 == w) by (nonlinear_arith);
            }
        }
        assert(up == 0 ==> m == w * pow10(down) + nt);
        assert(up > 0 ==> m == w && nt == 0 && carry == 0 && rem == 0);
        let mut acc: u64 = w;
        if ups > 0 && w > 0 {
            let mut h: u128 = 0;
            proof {
                assert(pow10(0) == 1);
                assert(w * 1 == w) by (nonlinear_arith);
            }
            while h < ups && h < 10
                invariant
                    h <= 10,
                    h <= ups,
                    1 <= w <= u32::MAX,
                    1 <= f <= u32::MAX,
                    f == factor,
                    acc == w * pow10(h as nat),
                    acc <= u32::MAX,
                    pow10(h as nat) <= acc,
                    up > 0,
                    ups == if up > 10 {
                        11
                    } else {
                        up
                    },
                    m == w,
                    down == 0,
                    self@.numerator() == m * pow10(up),
                    self@.denominator() == pow10(down),
                decreases 10 - h,
            {
                proof {
                    let ph = pow10(h as nat);
                    assert(pow10((h + 1) as nat) == 10 * ph);
                    assert(w * (10 * ph) == (w * ph) * 10) by (nonlinear_arith);
                }
                acc = acc * 10;
                h += 1;
                if acc > 0xFFFF_FFFF {
                    proof {
                        lemma_pow10_grows(h as nat, up);
                        let ph = pow10(h as nat);
                        let pu = pow10(up);
                        assert(pow10(0) == 1);
                        assert(w * pu * f >= w * ph) by (nonlinear_arith)
                            requires
                                pu >= ph,
                                f >= 1,
                                w >= 1,
                                ph >= 0,
                        ;
                    }
                    return None;
                }
            }
            proof {
                if ups == 11 {
                    lemma_pow10_ten();
                }
            }
            assert(h == up);
        }
        proof {
            if up > 0 && w == 0 {
                assert(0 * pow10(up) == 0) by (nonlinear_arith);
            }
            if up == 0 {
                assert(pow10(0) == 1);
                assert(m * 1 == m) by (nonlinear_arith);
            }
        }
        assert(up > 0 ==> acc == self@.numerator());
        assert(up == 0 ==> acc == w && self@.numerator() == m);
        assert(acc * f <= 0xFFFF_FFFF * 0xFFFF_FFFF) by (nonlinear_arith)
            requires
                acc <= 0xFFFF_FFFF,
                f <= 0xFFFF_FFFF,
        ;
        let total: u64 = acc * f + carry;
        let ghost x = self@.numerator() * (factor as nat);
        let ghost dn = pow10(down);
        proof {
            lemma_pow10_positive(down);
            if up > 0 {
                assert(pow10(0) == 1);
                assert(total * 1 + 0 == acc * f) by (nonlinear_arith)
                    requires
                        total == acc * f,
                ;
            } else {
                lemma_product_parts(w as nat, nt, f as nat, carry as nat, rem, dn);
            }
            assert(x == total * dn + rem);
        }
        if total > 0xFFFF_FFFF {
            proof {
                assert(total * dn >= 0x1_0000_0000 * dn) by (nonlinear_arith)
                    requires
                        total >= 0x1_0000_0000,
                        dn >= 1,
                ;
            }
            None
        } else {
            proof {
                lemma_fundamental_div_mod_converse(x as int, dn as int, total as int, rem as int);
            }
            Some((total as u32, sticky))
        }
    }

    /// Whether the amount is exactly one.
    pub fn is_one(&self) -> (b: bool)
        ensures
            b == self@.is_one(),
    {
        if self.negative {
            return false;
        }
        match self.kind {
            Kind::Finite => {},
            _ => {
                return false;
            },
        }
        let ghost nu = self@.numerator();
        let ghost dn = self@.denominator();
        proof {
            if self@.shift() < 0 {
                lemma_pow10_positive((-self@.shift()) as nat);
            } else {
                lemma_pow10_positive(0);
            }
            assert(nu * 1 == nu) by (nonlinear_arith);
            lemma_fundamental_div_mod(nu as int, dn as int);
            lemma_mod_bound(nu as int, dn as int);
            if nu == dn {
                lemma_fundamental_div_mod_converse(nu as int, dn as int, 1, 0);
            }
            assert(dn * 1 == dn) by (nonlinear_arith);
            assert(0x1_0000_0000 * dn > dn) by (nonlinear_arith)
                requires
                    dn >= 1,
            ;
        }
        match self.scaled(1) {
            Some((q, inexact)) => q == 1 && !inexact,
            None => false,
        }
    }

    /// The amount times `factor`, with the fraction cut off, where that fits
    /// in 32 bits; 0 for a negative amount and for one that is no number.
    /// The product is exact, however many digits the amount has and however
    /// great its exponent is.
    pub fn times(&self, factor: u32) -> (r: Option<u32>)
        ensures
            match r {
                Some(n) => !self@.times_exceeds(factor as nat, u32::MAX as nat) && n
                    == self@.times_floor(factor as nat),
                None => self@.times_exceeds(factor as nat, u32::MAX as nat),
            },
    {
        let ghost nu = self@.numerator();
        let ghost dn = self@.denominator();
        proof {
            if self@.shift() < 0 {
                lemma_pow10_positive((-self@.shift()) as nat);
            } else {
                lemma_pow10_positive(0);
            }
        }
        if self.negative {
            return Some(0);
        }
        match self.kind {
            Kind::Finite => {},
            Kind::Infinite => {
                return if factor == 0 {
                    Some(0)
                } else {
                    None
                };
            },
            Kind::NotANumber => {
                return Some(0);
            },
        }
        if factor == 0 {
            proof {
                assert(nu * 0 == 0) by (nonlinear_arith);
                lemma_against_limit(0, 0, dn, u32::MAX as nat);
                assert(0 * dn + 0 == 0) by (nonlinear_arith);
            }
            return Some(0);
        }
        match self.scaled(factor) {
            None => {
                proof {
                    assert(0x1_0000_0000 * dn > 0xFFFF_FFFF * dn) by (nonlinear_arith)
                        requires
                            dn >= 1,
                    ;
                }
                None
            },
            Some((q, inexact)) => {
                proof {
                    let x = nu * (factor as nat);
                    lemma_fundamental_div_mod(x as int, dn as int);
                    lemma_mod_bound(x as int, dn as int);
                    let r = x % dn;
                    assert(dn * q == q * dn) by (nonlinear_arith);
                    lemma_against_limit(q as nat, r, dn, u32::MAX as nat);
                }
                if q == 0xFFFF_FFFF && inexact {
                    None
                } else {
                    Some(q)
                }
            },
        }
    }

    fn append_sign(&self, out: &mut String)
        ensures
            final(out)@ == old(out)@ + self@.sign_text(),
    {
        if self.negative {
            out.push('-');
            assert(out@ =~= old(out)@ + seq!['-']);
        } else {
            assert(out@ =~= old(out)@ + Seq::<char>::empty());
        }
    }

    fn append_whole(&self, out: &mut String)
        ensures
            final(out)@ == old(out)@ + self@.whole_text(),
    {
        let n = self.whole.len();
        let a = zeros_in_front(&self.whole);
        if a == n {
            out.push('0');
            assert(out@ =~= old(out)@ + seq!['0']);
        } else {
            append_chars(out, &self.whole, a, n);
        }
    }

    fn append_fraction(&self, out: &mut String)
        ensures
            final(out)@ == old(out)@ + self@.fraction_text(),
    {
        let b = zeros_at_end(&self.fraction);
        if b > 0 {
            out.push('.');
            append_chars(out, &self.fraction, 0, b);
            assert(out@ =~= old(out)@ + (seq!['.'] + self.fraction@.subrange(0, b as int)));
        } else {
            assert(out@ =~= old(out)@ + Seq::<char>::empty());
        }
    }

    fn append_power(&self, out: &mut String)
        ensures
            final(out)@ == old(out)@ + self@.power_text(),
    {
        let n = self.exponent_digits.len();
        let p = zeros_in_front(&self.exponent_digits);
        let ghost power = self.exponent_digits@.subrange(p as int, n as int);
        if p < n {
            out.push('e');
            if self.exponent_negative {
                out.push('-');
                append_chars(out, &self.exponent_digits, p, n);
                assert(out@ =~= old(out)@ + (seq!['e', '-'] + power));
            } else {
                append_chars(out, &self.exponent_digits, p, n);
                assert(out@ =~= old(out)@ + (seq!['e'] + power));
            }
        } else {
            assert(out@ =~= old(out)@ + Seq::<char>::empty());
        }
    }

    /// The amount in its shortest writing.
    pub fn to_text(&self) -> (s: String)
        ensures
            s@ == self@.text(),
    {
        let mut out = String::new();
        match self.kind {
            Kind::Finite => {
                self.append_sign(&mut out);
                self.append_whole(&mut out);
                self.append_fraction(&mut out);
                self.append_power(&mut out);
            },
            Kind::Infinite => {
                self.append_sign(&mut out);
                out.append("inf");
            },
            Kind::NotANumber => {
                out.append("NaN");
            },
        }
        assert(out@ =~= self@.text());
        out
    }
}

/// Where the zeros that `v` ends with begin.
fn zeros_at_end(v: &Vec<char>) -> (b: usize)
    ensures
        b <= v.len(),
        without_trailing_zeros(v@) == v@.subrange(0, b as int),
{
    let mut b: usize = v.len();
    assert(v@.take(b as int) =~= v@);
    while b > 0 && v[b - 1] == '0'
        invariant
            b <= v.len(),
            without_trailing_zeros(v@) == without_trailing_zeros(v@.take(b as int)),
        decreases b,
    {
        assert(v@.take(b as int).drop_last() =~= v@.take(b - 1));
        b -= 1;
    }
    assert(v@.take(b as int) =~= v@.subrange(0, b as int));
    b
}

/// How many zeros `v` begins with.
fn zeros_in_front(v: &Vec<char>) -> (a: usize)
    ensures
        a <= v.len(),
        without_leading_zeros(v@) == v@.subrange(a as int, v.len() as int),
{
    let n = v.len();
    let mut a: usize = 0;
    assert(v@.skip(0) =~= v@);
    while a < n && v[a] == '0'
        invariant
            a <= n == v.len(),
            without_leading_zeros(v@) == without_leading_zeros(v@.skip(a as int)),
        decreases n - a,
    {
        assert(v@.skip(a as int).drop_first() =~= v@.skip(a + 1));
        a += 1;
    }
    assert(v@.skip(a as int) =~= v@.subrange(a as int, n as int));
    a
}

} // verus!
