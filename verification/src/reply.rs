//! The reply to a data query: one line holding a brace-delimited list of
//! comma-separated decimal samples, such as `{0.12,0.08,-0.01}`.
//!
//! Samples are kept as exact decimals, digit by digit, so that nothing is
//! rounded between the wire and the caller.

use crate::text::{find, find_either, first_index, first_of, to_chars};
use vstd::prelude::*;
use vstd::string::*;

verus! {

/// A decimal number as it is written: its sign, all of its digits, how many
/// of those digits stand behind the decimal point, and its exponent.
///
/// The number is the digits, read as one integer, times ten to the power of
/// the exponent less `scale`, and negated where `negative` holds. A decimal
/// without exponent digits has none written and counts with exponent zero.
pub struct Decimal {
    pub negative: bool,
    pub digits: Seq<u8>,
    pub scale: nat,
    pub exponent_negative: bool,
    pub exponent_digits: Seq<u8>,
}

impl Decimal {
    /// At least one digit, every digit below ten, no more fractional digits
    /// than digits, and no sign on an exponent that is not written.
    pub open spec fn wf(self) -> bool {
        &&& self.digits.len() >= 1
        &&& self.scale <= self.digits.len()
        &&& forall|i: int| 0 <= i < self.digits.len() ==> self.digits[i] < 10
        &&& forall|i: int| 0 <= i < self.exponent_digits.len() ==> self.exponent_digits[i] < 10
        &&& self.exponent_digits.len() == 0 ==> !self.exponent_negative
    }

    /// A decimal without exponent.
    pub open spec fn plain(negative: bool, digits: Seq<u8>, scale: nat) -> Decimal {
        Decimal { negative, digits, scale, exponent_negative: false, exponent_digits: Seq::empty() }
    }
}

/// Whether `c` is one of the ten digits.
pub open spec fn is_digit(c: char) -> bool {
    '0' <= c && c <= '9'
}

/// The value of a digit character.
pub open spec fn digit_value(c: char) -> u8 {
    (c as u8 - 48) as u8
}

/// The character of a digit value.
pub open spec fn digit_char(d: u8) -> char {
    (d + 48) as char
}

/// Whether `s` holds digits only.
pub open spec fn all_digits(s: Seq<char>) -> bool {
    forall|i: int| 0 <= i < s.len() ==> is_digit(#[trigger] s[i])
}

/// The values of the digits of `s`, in order.
pub open spec fn digit_values(s: Seq<char>) -> Seq<u8> {
    Seq::new(s.len(), |i: int| digit_value(s[i]))
}

/// The characters of `digits`, in order.
pub open spec fn digit_chars(digits: Seq<u8>) -> Seq<char> {
    Seq::new(digits.len(), |i: int| digit_char(digits[i]))
}

/// Whether `text` opens with a sign.
pub open spec fn is_signed(text: Seq<char>) -> bool {
    text.len() > 0 && (text[0] == '-' || text[0] == '+')
}

/// Whether `text` opens with a minus sign.
pub open spec fn is_minus(text: Seq<char>) -> bool {
    text.len() > 0 && text[0] == '-'
}

/// `text` without its sign, where it has one.
pub open spec fn unsigned_part(text: Seq<char>) -> Seq<char> {
    if is_signed(text) {
        text.skip(1)
    } else {
        text
    }
}

/// What stands in `s` behind the first `a` or `b`; nothing where neither
/// occurs.
pub open spec fn behind(s: Seq<char>, a: char, b: char) -> Seq<char> {
    let mark = first_of(s, a, b);
    if 0 <= mark < s.len() {
        s.skip(mark + 1)
    } else {
        Seq::empty()
    }
}

/// The part of an unsigned decimal before its exponent: everything up to
/// the first `e` or `E`.
pub open spec fn mantissa_part(body: Seq<char>) -> Seq<char> {
    body.take(first_of(body, 'e', 'E'))
}

/// Whether an unsigned decimal has an exponent written.
pub open spec fn has_exponent(body: Seq<char>) -> bool {
    first_of(body, 'e', 'E') < body.len()
}

/// The exponent of an unsigned decimal, sign included: everything behind
/// the first `e` or `E`.
pub open spec fn exponent_part(body: Seq<char>) -> Seq<char> {
    behind(body, 'e', 'E')
}

/// The digits of a mantissa before its first decimal point.
pub open spec fn whole_part(mantissa: Seq<char>) -> Seq<char> {
    mantissa.take(first_index(mantissa, '.'))
}

/// The digits of a mantissa behind its first decimal point.
pub open spec fn fraction_part(mantissa: Seq<char>) -> Seq<char> {
    behind(mantissa, '.', '.')
}

/// Whether `mantissa` is digits with at most one decimal point among them,
/// before them or behind them, and at least one digit in all.
pub open spec fn is_mantissa(mantissa: Seq<char>) -> bool {
    &&& all_digits(whole_part(mantissa))
    &&& all_digits(fraction_part(mantissa))
    &&& whole_part(mantissa).len() + fraction_part(mantissa).len() >= 1
}

/// Whether `exponent` is an optional sign and at least one digit.
pub open spec fn is_power(exponent: Seq<char>) -> bool {
    all_digits(unsigned_part(exponent)) && unsigned_part(exponent).len() >= 1
}

/// Whether `text` is a well-formed decimal: an optional sign; then digits
/// with at most one decimal point among them, before them or behind them,
/// and at least one digit in all; then, optionally, `e` or `E`, an optional
/// sign and at least one digit.
pub open spec fn is_decimal(text: Seq<char>) -> bool {
    let body = unsigned_part(text);
    is_mantissa(mantissa_part(body)) && (has_exponent(body) ==> is_power(exponent_part(body)))
}

/// The decimal that `text` denotes, where `text` is a well-formed decimal.
pub open spec fn decimal_of(text: Seq<char>) -> Option<Decimal> {
    let body = unsigned_part(text);
    let mantissa = mantissa_part(body);
    if is_decimal(text) {
        Some(
            Decimal {
                negative: is_minus(text),
                digits: digit_values(whole_part(mantissa) + fraction_part(mantissa)),
                scale: fraction_part(mantissa).len(),
                exponent_negative: is_minus(exponent_part(body)),
                exponent_digits: digit_values(unsigned_part(exponent_part(body))),
            },
        )
    } else {
        None
    }
}

/// A minus sign where `negative` holds, nothing else.
pub open spec fn sign_text(negative: bool) -> Seq<char> {
    if negative {
        seq!['-']
    } else {
        Seq::empty()
    }
}

/// The point and the fractional digits, where there are any.
pub open spec fn fraction_text(fraction: Seq<u8>) -> Seq<char> {
    if fraction.len() > 0 {
        seq!['.'] + digit_chars(fraction)
    } else {
        Seq::empty()
    }
}

/// The letter `e`, the exponent's sign and its digits, where it has any.
pub open spec fn exponent_text(negative: bool, digits: Seq<u8>) -> Seq<char> {
    if digits.len() > 0 {
        seq!['e'] + sign_text(negative) + digit_chars(digits)
    } else {
        Seq::empty()
    }
}

/// The canonical text of a decimal: a minus sign where it is negative; the
/// digits before the point; where there are fractional digits, the point and
/// those digits; where there is an exponent, `e`, a minus sign where the
/// exponent is negative, and the exponent's digits.
pub open spec fn decimal_text(d: Decimal) -> Seq<char> {
    let whole = d.digits.len() - d.scale;
    sign_text(d.negative) + digit_chars(d.digits.take(whole)) + fraction_text(
        d.digits.skip(whole),
    ) + exponent_text(d.exponent_negative, d.exponent_digits)
}

/// One sample of a reply: an exact decimal.
#[derive(Debug, PartialEq, Eq)]
pub struct Sample {
    negative: bool,
    digits: Vec<u8>,
    scale: usize,
    exponent_negative: bool,
    exponent_digits: Vec<u8>,
}

impl View for Sample {
    type V = Decimal;

    closed spec fn view(&self) -> Decimal {
        Decimal {
            negative: self.negative,
            digits: self.digits@,
            scale: self.scale as nat,
            exponent_negative: self.exponent_negative,
            exponent_digits: self.exponent_digits@,
        }
    }
}

impl Clone for Sample {
    fn clone(&self) -> (copy: Self)
        ensures
            copy@ == self@,
    {
        proof {
            use_type_invariant(self);
        }
        Sample {
            negative: self.negative,
            digits: self.digits.clone(),
            scale: self.scale,
            exponent_negative: self.exponent_negative,
            exponent_digits: self.exponent_digits.clone(),
        }
    }
}

/// The digit value of `c`, where `c` is a digit.
fn digit_of(c: char) -> (digit: Option<u8>)
    ensures
        digit == (if is_digit(c) {
            Some(digit_value(c))
        } else {
            None
        }),
        digit matches Some(d) ==> d < 10,
{
    if '0' <= c && c <= '9' {
        Some(c as u8 - 48u8)
    } else {
        None
    }
}

/// The one-character text of a digit.
fn digit_text(d: u8) -> (text: &'static str)
    requires
        d < 10,
    ensures
        text@ == seq![digit_char(d)],
{
    proof {
        reveal_strlit("0");
        reveal_strlit("1");
        reveal_strlit("2");
        reveal_strlit("3");
        reveal_strlit("4");
        reveal_strlit("5");
        reveal_strlit("6");
        reveal_strlit("7");
        reveal_strlit("8");
        reveal_strlit("9");
    }
    let text = match d {
        0 => "0",
        1 => "1",
        2 => "2",
        3 => "3",
        4 => "4",
        5 => "5",
        6 => "6",
        7 => "7",
        8 => "8",
        _ => "9",
    };
    assert(text@ =~= seq![digit_char(d)]);
    text
}

/// Whether every one of `digits` is below ten.
fn are_digits(digits: &Vec<u8>) -> (ok: bool)
    ensures
        ok == forall|i: int| 0 <= i < digits@.len() ==> digits@[i] < 10,
{
    let mut at: usize = 0;
    while at < digits.len()
        invariant
            at <= digits.len(),
            forall|i: int| 0 <= i < at ==> digits@[i] < 10,
        decreases digits.len() - at,
    {
        if digits[at] >= 10 {
            return false;
        }
        at += 1;
    }
    true
}

/// Appends the values of the digits `chars[from..to]` to `digits`, unless one
/// of those characters is no digit.
fn push_digits(chars: &Vec<char>, from: usize, to: usize, digits: &mut Vec<u8>) -> (ok: bool)
    requires
        from <= to <= chars.len(),
    ensures
        ok == all_digits(chars@.subrange(from as int, to as int)),
        ok ==> final(digits)@ == old(digits)@ + digit_values(
            chars@.subrange(from as int, to as int),
        ),
{
    let ghost window = chars@.subrange(from as int, to as int);
    let mut at: usize = from;
    while at < to
        invariant
            from <= at <= to <= chars.len(),
            window == chars@.subrange(from as int, to as int),
            all_digits(window.take(at - from)),
            digits@ == old(digits)@ + digit_values(window.take(at - from)),
        decreases to - at,
    {
        match digit_of(chars[at]) {
            Some(d) => {
                digits.push(d);
            },
            None => {
                assert(!is_digit(window[at - from]));
                return false;
            },
        }
        proof {
            let before = window.take(at - from);
            let after = window.take(at + 1 - from);
            assert(after =~= before.push(window[at - from]));
            assert(digit_values(after) =~= digit_values(before).push(digit_value(chars@[at as int])));
        }
        at += 1;
    }
    proof {
        assert(window.take(to - from) =~= window);
    }
    true
}

/// Appends the characters of `digits` to `out`.
fn write_digits(digits: &Vec<u8>, from: usize, to: usize, out: &mut String)
    requires
        from <= to <= digits.len(),
        forall|i: int| 0 <= i < digits@.len() ==> digits@[i] < 10,
    ensures
        final(out)@ == old(out)@ + digit_chars(digits@.subrange(from as int, to as int)),
{
    let ghost window = digits@.subrange(from as int, to as int);
    let mut at: usize = from;
    proof {
        assert(out@ =~= old(out)@ + digit_chars(window.take(0)));
    }
    while at < to
        invariant
            from <= at <= to <= digits.len(),
            forall|i: int| 0 <= i < digits@.len() ==> digits@[i] < 10,
            window == digits@.subrange(from as int, to as int),
            out@ == old(out)@ + digit_chars(window.take(at - from)),
        decreases to - at,
    {
        out.append(digit_text(digits[at]));
        proof {
            let before = window.take(at - from);
            let after = window.take(at + 1 - from);
            assert(after =~= before.push(digits@[at as int]));
            assert(digit_chars(after) =~= digit_chars(before) + seq![digit_char(digits@[at as int])]);
        }
        at += 1;
    }
    proof {
        assert(window.take(to - from) =~= window);
    }
}

impl Sample {
    #[verifier::type_invariant]
    spec fn well_formed(&self) -> bool {
        self@.wf()
    }

    /// A sample without exponent from its parts, where they form a decimal:
    /// `digits` holds at least one digit, each below ten, and `scale` of
    /// them, no more than there are, stand behind the decimal point.
    pub fn new(negative: bool, digits: Vec<u8>, scale: usize) -> (sample: Option<Sample>)
        ensures
            match sample {
                Some(s) => s@ == Decimal::plain(negative, digits@, scale as nat),
                None => !Decimal::plain(negative, digits@, scale as nat).wf(),
            },
            sample matches Some(s) ==> s@.wf(),
    {
        if digits.len() == 0 || scale > digits.len() || !are_digits(&digits) {
            return None;
        }
        Some(
            Sample {
                negative,
                digits,
                scale,
                exponent_negative: false,
                exponent_digits: Vec::new(),
            },
        )
    }

    /// The sample with the given exponent in place of its own, where
    /// `digits` holds at least one digit, each below ten.
    pub fn with_exponent(self, negative: bool, digits: Vec<u8>) -> (sample: Option<Sample>)
        ensures
            match sample {
                Some(s) => s@ == (Decimal {
                    exponent_negative: negative,
                    exponent_digits: digits@,
                    ..self@
                }) && s@.wf(),
                None => digits@.len() == 0 || exists|i: int|
                    0 <= i < digits@.len() && digits@[i] >= 10,
            },
    {
        proof {
            use_type_invariant(&self);
        }
        if digits.len() == 0 || !are_digits(&digits) {
            return None;
        }
        Some(
            Sample {
                negative: self.negative,
                digits: self.digits,
                scale: self.scale,
                exponent_negative: negative,
                exponent_digits: digits,
            },
        )
    }

    /// Reads one well-formed decimal.
    pub fn parse(text: &str) -> (sample: Option<Sample>)
        ensures
            match sample {
                Some(s) => decimal_of(text@) == Some(s@),
                None => decimal_of(text@) is None,
            },
            sample matches Some(s) ==> s@.wf(),
    {
        let chars = to_chars(text);
        proof {
            assert(chars@.subrange(0, chars.len() as int) =~= text@);
        }
        parse_decimal(&chars, 0, chars.len())
    }

    pub fn is_negative(&self) -> (negative: bool)
        ensures
            negative == self@.negative,
    {
        self.negative
    }

    /// All digits, those before the decimal point and those behind it.
    pub fn digits(&self) -> (digits: &Vec<u8>)
        ensures
            digits@ == self@.digits,
            self@.wf(),
    {
        proof {
            use_type_invariant(self);
        }
        &self.digits
    }

    /// How many of the digits stand behind the decimal point.
    pub fn scale(&self) -> (scale: usize)
        ensures
            scale == self@.scale,
    {
        self.scale
    }

    pub fn exponent_is_negative(&self) -> (negative: bool)
        ensures
            negative == self@.exponent_negative,
    {
        self.exponent_negative
    }

    /// The digits of the exponent; none where no exponent is written.
    pub fn exponent_digits(&self) -> (digits: &Vec<u8>)
        ensures
            digits@ == self@.exponent_digits,
            self@.wf(),
    {
        proof {
            use_type_invariant(self);
        }
        &self.exponent_digits
    }

    /// The canonical text of the sample.
    pub fn to_text(&self) -> (text: String)
        ensures
            text@ == decimal_text(self@),
            self@.wf(),
    {
        let mut text = String::new();
        self.write_to(&mut text);
        proof {
            assert(Seq::<char>::empty() + decimal_text(self@) =~= decimal_text(self@));
        }
        text
    }

    /// Appends the canonical text of the sample to `out`.
    fn write_to(&self, out: &mut String)
        ensures
            final(out)@ == old(out)@ + decimal_text(self@),
            self@.wf(),
    {
        proof {
            use_type_invariant(self);
        }
        let whole: usize = self.digits.len() - self.scale;
        let ghost d = self@;
        let ghost sign = sign_text(d.negative);
        let ghost number = digit_chars(d.digits.take(whole as int));
        let ghost fraction = fraction_text(d.digits.skip(whole as int));
        let ghost power = exponent_text(d.exponent_negative, d.exponent_digits);
        write_sign(self.negative, out);
        write_digits(&self.digits, 0, whole, out);
        proof {
            assert(d.digits.subrange(0, whole as int) =~= d.digits.take(whole as int));
            assert(out@ =~= old(out)@ + (sign + number));
        }
        write_fraction(&self.digits, whole, out);
        proof {
            assert(out@ =~= old(out)@ + (sign + number + fraction));
        }
        write_exponent(self.exponent_negative, &self.exponent_digits, out);
        proof {
            assert(out@ =~= old(out)@ + (sign + number + fraction + power));
        }
    }
}

/// Appends a minus sign to `out` where `negative` holds.
fn write_sign(negative: bool, out: &mut String)
    ensures
        final(out)@ == old(out)@ + sign_text(negative),
{
    if negative {
        proof {
            reveal_strlit("-");
        }
        out.append("-");
    }
    assert(out@ =~= old(out)@ + sign_text(negative));
}

/// Appends the point and the digits from `whole` on to `out`, where there
/// are such digits.
fn write_fraction(digits: &Vec<u8>, whole: usize, out: &mut String)
    requires
        whole <= digits.len(),
        forall|i: int| 0 <= i < digits@.len() ==> digits@[i] < 10,
    ensures
        final(out)@ == old(out)@ + fraction_text(digits@.skip(whole as int)),
{
    if whole < digits.len() {
        proof {
            reveal_strlit(".");
        }
        out.append(".");
        write_digits(digits, whole, digits.len(), out);
        proof {
            assert(digits@.subrange(whole as int, digits@.len() as int) =~= digits@.skip(
                whole as int,
            ));
            assert(out@ =~= old(out)@ + (seq!['.'] + digit_chars(digits@.skip(whole as int))));
        }
    } else {
        assert(out@ =~= old(out)@ + fraction_text(digits@.skip(whole as int)));
    }
}

/// Appends the exponent to `out`, where it has digits.
fn write_exponent(negative: bool, digits: &Vec<u8>, out: &mut String)
    requires
        forall|i: int| 0 <= i < digits@.len() ==> digits@[i] < 10,
    ensures
        final(out)@ == old(out)@ + exponent_text(negative, digits@),
{
    if digits.len() > 0 {
        proof {
            reveal_strlit("e");
        }
        out.append("e");
        write_sign(negative, out);
        write_digits(digits, 0, digits.len(), out);
        proof {
            assert(digits@.subrange(0, digits@.len() as int) =~= digits@);
            assert(out@ =~= old(out)@ + (seq!['e'] + sign_text(negative) + digit_chars(digits@)));
        }
    } else {
        assert(out@ =~= old(out)@ + exponent_text(negative, digits@));
    }
}

/// Reads the mantissa `chars[from..to]`: its digits, and how many of them
/// stand behind the point.
fn parse_mantissa(chars: &Vec<char>, from: usize, to: usize) -> (mantissa: Option<(Vec<u8>, usize)>)
    requires
        from <= to <= chars.len(),
    ensures
        match mantissa {
            Some((digits, scale)) => {
                let text = chars@.subrange(from as int, to as int);
                &&& is_mantissa(text)
                &&& digits@ == digit_values(whole_part(text) + fraction_part(text))
                &&& scale == fraction_part(text).len()
                &&& digits@.len() >= 1
                &&& scale <= digits@.len()
                &&& forall|i: int| 0 <= i < digits@.len() ==> digits@[i] < 10
            },
            None => !is_mantissa(chars@.subrange(from as int, to as int)),
        },
{
    let ghost text = chars@.subrange(from as int, to as int);
    let point: usize = find(chars, from, to, '.');
    proof {
        assert(whole_part(text) =~= chars@.subrange(from as int, point as int));
        if point < to {
            assert(fraction_part(text) =~= chars@.subrange(point + 1, to as int));
        }
    }
    let mut digits: Vec<u8> = Vec::new();
    if !push_digits(chars, from, point, &mut digits) {
        return None;
    }
    if point < to {
        if !push_digits(chars, point + 1, to, &mut digits) {
            return None;
        }
    }
    if digits.len() == 0 {
        return None;
    }
    let scale: usize = if point < to {
        to - point - 1
    } else {
        0
    };
    proof {
        let all = whole_part(text) + fraction_part(text);
        assert(digits@ =~= digit_values(all));
        assert forall|i: int| 0 <= i < digits@.len() implies digits@[i] < 10 by {
            assert(is_digit(all[i]));
        }
    }
    Some((digits, scale))
}

/// Reads the exponent `chars[from..to]`: whether it is negative, and its
/// digits.
fn parse_power(chars: &Vec<char>, from: usize, to: usize) -> (power: Option<(bool, Vec<u8>)>)
    requires
        from <= to <= chars.len(),
    ensures
        match power {
            Some((negative, digits)) => {
                let text = chars@.subrange(from as int, to as int);
                &&& is_power(text)
                &&& negative == is_minus(text)
                &&& digits@ == digit_values(unsigned_part(text))
                &&& digits@.len() >= 1
                &&& forall|i: int| 0 <= i < digits@.len() ==> digits@[i] < 10
            },
            None => !is_power(chars@.subrange(from as int, to as int)),
        },
{
    let ghost text = chars@.subrange(from as int, to as int);
    let signed = from < to && (chars[from] == '-' || chars[from] == '+');
    let negative = from < to && chars[from] == '-';
    let start: usize = if signed {
        from + 1
    } else {
        from
    };
    proof {
        assert(signed == is_signed(text));
        assert(unsigned_part(text) =~= chars@.subrange(start as int, to as int));
    }
    let mut digits: Vec<u8> = Vec::new();
    if !push_digits(chars, start, to, &mut digits) {
        return None;
    }
    if digits.len() == 0 {
        return None;
    }
    proof {
        assert(digits@ =~= digit_values(unsigned_part(text)));
        assert forall|i: int| 0 <= i < digits@.len() implies digits@[i] < 10 by {
            assert(is_digit(unsigned_part(text)[i]));
        }
    }
    Some((negative, digits))
}

/// Reads the decimal `chars[from..to]`.
fn parse_decimal(chars: &Vec<char>, from: usize, to: usize) -> (sample: Option<Sample>)
    requires
        from <= to <= chars.len(),
    ensures
        match sample {
            Some(s) => decimal_of(chars@.subrange(from as int, to as int)) == Some(s@),
            None => decimal_of(chars@.subrange(from as int, to as int)) is None,
        },
        sample matches Some(s) ==> s@.wf(),
{
    let ghost text = chars@.subrange(from as int, to as int);
    let signed = from < to && (chars[from] == '-' || chars[from] == '+');
    let negative = from < to && chars[from] == '-';
    let start: usize = if signed {
        from + 1
    } else {
        from
    };
    let mark: usize = find_either(chars, start, to, 'e', 'E');
    let ghost body = unsigned_part(text);
    proof {
        assert(signed == is_signed(text));
        assert(body =~= chars@.subrange(start as int, to as int));
        assert(mantissa_part(body) =~= chars@.subrange(start as int, mark as int));
        if mark < to {
            assert(exponent_part(body) =~= chars@.subrange(mark + 1, to as int));
        } else {
            assert(exponent_part(body) =~= Seq::<char>::empty());
        }
    }
    let (digits, scale) = match parse_mantissa(chars, start, mark) {
        Some(mantissa) => mantissa,
        None => {
            return None;
        },
    };
    if mark == to {
        proof {
            assert(digit_values(unsigned_part(exponent_part(body))) =~= Seq::<u8>::empty());
        }
        return Some(
            Sample {
                negative,
                digits,
                scale,
                exponent_negative: false,
                exponent_digits: Vec::new(),
            },
        );
    }
    match parse_power(chars, mark + 1, to) {
        Some((exponent_negative, exponent_digits)) => Some(
            Sample { negative, digits, scale, exponent_negative, exponent_digits },
        ),
        None => None,
    }
}

/// Why a reply line could not be decoded.
#[derive(Debug, Clone, Copy, PartialEq, Eq)]
pub enum ParseError {
    /// The line does not open with `{` and close with `}`.
    NotDelimited,
    /// Nothing stands between the braces.
    Empty,
    /// The field with this index, counted from zero, is no well-formed
    /// decimal; every field before it is one.
    InvalidSample(usize),
}

/// The comma-separated fields of `s`. There is always at least one: the
/// empty text has one empty field.
pub open spec fn fields(s: Seq<char>) -> Seq<Seq<char>>
    decreases s.len(),
{
    let comma = first_index(s, ',');
    if 0 <= comma < s.len() {
        seq![s.take(comma)] + fields(s.skip(comma + 1))
    } else {
        seq![s]
    }
}

/// The texts, with a comma between each two neighbours.
pub open spec fn joined(texts: Seq<Seq<char>>) -> Seq<char>
    decreases texts.len(),
{
    if texts.len() == 0 {
        Seq::empty()
    } else if texts.len() == 1 {
        texts[0]
    } else {
        texts[0] + seq![','] + joined(texts.skip(1))
    }
}

/// A reply line that lists the given texts.
pub open spec fn reply_text(texts: Seq<Seq<char>>) -> Seq<char> {
    seq!['{'] + joined(texts) + seq!['}']
}

/// Whether `line` opens with `{` and closes with `}`.
pub open spec fn is_delimited(line: Seq<char>) -> bool {
    line.len() >= 2 && line[0] == '{' && line[line.len() - 1] == '}'
}

/// The index of the first field that is no decimal, or the number of fields
/// where each is one.
pub open spec fn first_invalid(texts: Seq<Seq<char>>) -> nat
    decreases texts.len(),
{
    if texts.len() == 0 || decimal_of(texts[0]) is None {
        0
    } else {
        1 + first_invalid(texts.skip(1))
    }
}

/// The decimals that the texts denote, in the order of the texts.
pub open spec fn decimals_of(texts: Seq<Seq<char>>) -> Seq<Decimal> {
    Seq::new(texts.len(), |i: int| decimal_of(texts[i]).unwrap())
}

/// The canonical texts of the decimals, in the order of the decimals.
pub open spec fn texts_of(decimals: Seq<Decimal>) -> Seq<Seq<char>> {
    Seq::new(decimals.len(), |i: int| decimal_text(decimals[i]))
}

/// What a reply line holds: the samples between its braces, in the order in
/// which they stand, or the reason why it is no list of samples.
pub open spec fn decode(line: Seq<char>) -> Result<Seq<Decimal>, ParseError> {
    if !is_delimited(line) {
        Err(ParseError::NotDelimited)
    } else if line.len() == 2 {
        Err(ParseError::Empty)
    } else {
        let texts = fields(line.subrange(1, line.len() - 1));
        let invalid = first_invalid(texts);
        if invalid < texts.len() {
            Err(ParseError::InvalidSample(invalid as usize))
        } else {
            Ok(decimals_of(texts))
        }
    }
}

/// The reply line that lists the given samples in their canonical texts.
pub open spec fn encode(samples: Seq<Decimal>) -> Seq<char> {
    reply_text(texts_of(samples))
}

/// The decimals of a sequence of samples.
pub open spec fn views(samples: Seq<Sample>) -> Seq<Decimal> {
    Seq::new(samples.len(), |i: int| samples[i]@)
}

/// The first field that is no decimal is the one that follows only decimals.
pub proof fn lemma_first_invalid_is(texts: Seq<Seq<char>>, k: nat)
    requires
        k <= texts.len(),
        forall|j: int| 0 <= j < k ==> decimal_of(#[trigger] texts[j]) is Some,
        k < texts.len() ==> decimal_of(texts[k as int]) is None,
    ensures
        first_invalid(texts) == k,
    decreases texts.len(),
{
    if texts.len() == 0 || decimal_of(texts[0]) is None {
    } else {
        let rest = texts.skip(1);
        assert forall|j: int| 0 <= j < k - 1 implies decimal_of(#[trigger] rest[j]) is Some by {
            assert(rest[j] == texts[j + 1]);
        }
        lemma_first_invalid_is(rest, (k - 1) as nat);
    }
}

/// Decodes a reply line into its samples, in the order in which they stand.
///
/// The line must open with `{`, close with `}` and hold, between the braces,
/// one or more well-formed decimals separated by commas, with nothing else
/// among them. Any other line is reported, with the reason.
pub fn parse_samples(line: &str) -> (result: Result<Vec<Sample>, ParseError>)
    ensures
        match result {
            Ok(samples) => decode(line@) == Ok::<Seq<Decimal>, ParseError>(views(samples@)),
            Err(error) => decode(line@) == Err::<Seq<Decimal>, ParseError>(error),
        },
{
    let chars = to_chars(line);
    let n: usize = chars.len();
    if n < 2 || chars[0] != '{' || chars[n - 1] != '}' {
        return Err(ParseError::NotDelimited);
    }
    if n == 2 {
        return Err(ParseError::Empty);
    }
    let end: usize = n - 1;
    let ghost inner = chars@.subrange(1, end as int);
    let ghost mut done: Seq<Seq<char>> = Seq::empty();
    let mut samples: Vec<Sample> = Vec::new();
    let mut from: usize = 1;
    proof {
        assert(inner.skip(0) =~= inner);
        assert(done + fields(inner) =~= fields(inner));
    }
    loop
        invariant
            1 <= from <= end < chars.len(),
            chars@ == line@,
            is_delimited(line@),
            end == chars.len() - 1,
            end >= 2,
            inner == chars@.subrange(1, end as int),
            fields(inner) == done + fields(inner.skip(from - 1)),
            done.len() == samples.len(),
            forall|j: int| 0 <= j < done.len() ==> decimal_of(#[trigger] done[j]) == Some(samples@[j]@),
        decreases end - from,
    {
        let stop: usize = find(&chars, from, end, ',');
        let ghost rest = inner.skip(from - 1);
        let ghost field = chars@.subrange(from as int, stop as int);
        proof {
            assert(rest =~= chars@.subrange(from as int, end as int));
            assert(rest.take(stop - from) =~= field);
            if stop < end {
                assert(rest.skip(stop - from + 1) =~= inner.skip(stop as int));
            } else {
                assert(field =~= rest);
            }
            assert(fields(inner)[done.len() as int] == field);
        }
        match parse_decimal(&chars, from, stop) {
            None => {
                proof {
                    let texts = fields(inner);
                    assert forall|j: int| 0 <= j < done.len() implies decimal_of(
                        #[trigger] texts[j],
                    ) is Some by {
                        assert(texts[j] == done[j]);
                    }
                    lemma_first_invalid_is(texts, done.len());
                }
                return Err(ParseError::InvalidSample(samples.len()));
            },
            Some(sample) => {
                samples.push(sample);
            },
        }
        proof {
            done = done.push(field);
        }
        if stop == end {
            proof {
                let texts = fields(inner);
                assert(texts =~= done);
                lemma_first_invalid_is(texts, texts.len());
                assert(decimals_of(texts) =~= views(samples@));
            }
            return Ok(samples);
        }
        proof {
            assert(fields(inner) =~= done + fields(inner.skip(stop as int)));
        }
        from = stop + 1;
    }
}

/// Encodes samples as a reply line, each in its canonical text.
pub fn format_samples(samples: &Vec<Sample>) -> (line: String)
    ensures
        line@ == encode(views(samples@)),
{
    proof {
        reveal_strlit("{");
        reveal_strlit("}");
    }
    let ghost texts = texts_of(views(samples@));
    let mut line = String::from_str("{");
    let mut at: usize = 0;
    proof {
        assert(line@ =~= seq!['{'] + joined(texts.take(0)));
    }
    while at < samples.len()
        invariant
            at <= samples.len(),
            texts == texts_of(views(samples@)),
            line@ == seq!['{'] + joined(texts.take(at as int)),
        decreases samples.len() - at,
    {
        let ghost before = line@;
        if at > 0 {
            proof {
                reveal_strlit(",");
            }
            line.append(",");
        }
        samples[at].write_to(&mut line);
        proof {
            let text = texts[at as int];
            assert(text == decimal_text(samples@[at as int]@));
            lemma_joined_push(texts.take(at as int), text);
            assert(texts.take(at + 1) =~= texts.take(at as int).push(text));
            if at > 0 {
                assert(line@ =~= before + seq![','] + text);
                assert(line@ =~= seq!['{'] + (joined(texts.take(at as int)) + seq![','] + text));
            } else {
                assert(joined(texts.take(0)) =~= Seq::<char>::empty());
                assert(line@ =~= seq!['{'] + text);
            }
        }
        at += 1;
    }
    line.append("}");
    proof {
        assert(texts.take(samples.len() as int) =~= texts);
    }
    line
}

/// Joining one more text puts a comma before it, unless it is the first.
pub proof fn lemma_joined_push(texts: Seq<Seq<char>>, last: Seq<char>)
    ensures
        joined(texts.push(last)) == if texts.len() == 0 {
            last
        } else {
            joined(texts) + seq![','] + last
        },
    decreases texts.len(),
{
    let all = texts.push(last);
    if texts.len() == 0 {
    } else {
        let rest = texts.skip(1);
        assert(all.skip(1) =~= rest.push(last));
        lemma_joined_push(rest, last);
        if rest.len() == 0 {
            assert(joined(texts) == texts[0]);
        } else {
            assert(joined(all) =~= texts[0] + seq![','] + (joined(rest) + seq![','] + last));
        }
        assert(joined(all) =~= joined(texts) + seq![','] + last);
    }
}

} // verus!
