//! Laws of the reply format: which lines decode, what they decode to, and
//! that encoding and decoding undo each other.

use crate::reply::{
    all_digits, decimal_of, decimal_text, decimals_of, decode, digit_chars, digit_values, encode,
    exponent_part, exponent_text, fields, first_invalid, fraction_part, fraction_text, is_digit,
    is_mantissa, is_minus, is_power, is_signed, joined, lemma_first_invalid_is, mantissa_part,
    reply_text, sign_text, texts_of, unsigned_part, whole_part, Decimal, ParseError,
};
use crate::text::{first_index, first_of, lemma_first_of, lemma_first_of_is};
use vstd::prelude::*;

verus! {

/// The characters of digits are digits and have the digits as their values.
pub proof fn lemma_digit_chars(digits: Seq<u8>)
    requires
        forall|i: int| 0 <= i < digits.len() ==> digits[i] < 10,
    ensures
        digit_chars(digits).len() == digits.len(),
        all_digits(digit_chars(digits)),
        digit_values(digit_chars(digits)) == digits,
{
    let chars = digit_chars(digits);
    assert forall|i: int| 0 <= i < chars.len() implies is_digit(#[trigger] chars[i]) by {
        assert(digits[i] < 10);
    }
    assert(digit_values(chars) =~= digits) by {
        assert forall|i: int| 0 <= i < digits.len() implies digit_values(chars)[i] == digits[i] by {
            assert(digits[i] < 10);
        }
    }
}

/// The text of a mantissa falls apart into the digits it was made of, and
/// holds nothing that could be taken for a sign or an exponent.
pub proof fn lemma_mantissa_round_trip(whole_digits: Seq<u8>, fraction_digits: Seq<u8>)
    requires
        whole_digits.len() + fraction_digits.len() >= 1,
        forall|i: int| 0 <= i < whole_digits.len() ==> whole_digits[i] < 10,
        forall|i: int| 0 <= i < fraction_digits.len() ==> fraction_digits[i] < 10,
    ensures
        ({
            let mantissa = digit_chars(whole_digits) + fraction_text(fraction_digits);
            &&& is_mantissa(mantissa)
            &&& whole_part(mantissa) == digit_chars(whole_digits)
            &&& fraction_part(mantissa) == digit_chars(fraction_digits)
            &&& mantissa.len() >= 1
            &&& is_digit(mantissa[0]) || mantissa[0] == '.'
            &&& forall|j: int| 0 <= j < mantissa.len() ==> mantissa[j] != 'e' && mantissa[j] != 'E'
        }),
{
    let split = whole_digits.len() as int;
    let mantissa = digit_chars(whole_digits) + fraction_text(fraction_digits);
    lemma_digit_chars(whole_digits);
    lemma_digit_chars(fraction_digits);
    assert forall|j: int| 0 <= j < mantissa.len() implies (if j == split {
        mantissa[j] == '.'
    } else {
        is_digit(mantissa[j])
    }) by {
        if j < split {
            assert(is_digit(digit_chars(whole_digits)[j]));
        } else if j > split {
            assert(is_digit(digit_chars(fraction_digits)[j - split - 1]));
        }
    }
    assert forall|j: int| 0 <= j < split implies mantissa[j] != '.' by {
        assert(is_digit(mantissa[j]));
    }
    lemma_first_of_is(mantissa, '.', '.', split);
    assert(whole_part(mantissa) =~= digit_chars(whole_digits));
    assert(fraction_part(mantissa) =~= digit_chars(fraction_digits));
    assert forall|j: int| 0 <= j < mantissa.len() implies mantissa[j] != 'e' && mantissa[j]
        != 'E' by {
        if j != split {
            assert(is_digit(mantissa[j]));
        }
    }
}

/// The text of an exponent falls apart into the sign and the digits it was
/// made of.
pub proof fn lemma_power_round_trip(negative: bool, digits: Seq<u8>)
    requires
        digits.len() >= 1,
        forall|i: int| 0 <= i < digits.len() ==> digits[i] < 10,
    ensures
        ({
            let exponent = sign_text(negative) + digit_chars(digits);
            &&& is_power(exponent)
            &&& is_minus(exponent) == negative
            &&& unsigned_part(exponent) == digit_chars(digits)
        }),
{
    let exponent = sign_text(negative) + digit_chars(digits);
    lemma_digit_chars(digits);
    assert(is_digit(digit_chars(digits)[0]));
    if negative {
        assert(exponent[0] == '-');
        assert(exponent.skip(1) =~= digit_chars(digits));
    } else {
        assert(exponent =~= digit_chars(digits));
    }
}

/// A well-formed decimal is what its canonical text denotes.
pub proof fn lemma_decimal_round_trip(d: Decimal)
    requires
        d.wf(),
    ensures
        decimal_of(decimal_text(d)) == Some(d),
{
    let split = d.digits.len() - d.scale;
    let whole_digits = d.digits.take(split);
    let fraction_digits = d.digits.skip(split);
    let text = decimal_text(d);
    let number = digit_chars(whole_digits) + fraction_text(fraction_digits);
    let power = exponent_text(d.exponent_negative, d.exponent_digits);
    lemma_mantissa_round_trip(whole_digits, fraction_digits);
    assert(text =~= sign_text(d.negative) + (number + power));

    // The sign comes off.
    assert((number + power)[0] == number[0]);
    assert(is_minus(text) == d.negative);
    let body = unsigned_part(text);
    assert(body =~= number + power);

    // The exponent comes off at the first `e`.
    assert forall|j: int| 0 <= j < number.len() implies body[j] != 'e' && body[j] != 'E' by {
        assert(body[j] == number[j]);
    }
    lemma_first_of_is(body, 'e', 'E', number.len() as int);
    assert(mantissa_part(body) =~= number);
    let exponent = exponent_part(body);
    if d.exponent_digits.len() > 0 {
        lemma_power_round_trip(d.exponent_negative, d.exponent_digits);
        assert(exponent =~= sign_text(d.exponent_negative) + digit_chars(d.exponent_digits));
    } else {
        assert(exponent =~= Seq::<char>::empty());
        assert(digit_values(unsigned_part(exponent)) =~= d.exponent_digits);
    }

    // The digits are those of the two parts of the mantissa.
    lemma_digit_chars(whole_digits);
    lemma_digit_chars(fraction_digits);
    lemma_digit_chars(d.exponent_digits);
    let all = digit_chars(whole_digits) + digit_chars(fraction_digits);
    assert(digit_values(all) =~= d.digits) by {
        assert forall|i: int| 0 <= i < d.digits.len() implies digit_values(all)[i] == d.digits[i] by {
            if i < split {
                assert(digit_values(digit_chars(whole_digits))[i] == whole_digits[i]);
            } else {
                assert(digit_values(digit_chars(fraction_digits))[i - split] == fraction_digits[i
                    - split]);
            }
        }
    }
}

/// What a text denotes, where it denotes anything, is a well-formed decimal,
/// and the text holds at least one character and no comma.
pub proof fn lemma_decimal_of(text: Seq<char>)
    requires
        decimal_of(text) is Some,
    ensures
        decimal_of(text).unwrap().wf(),
        text.len() >= 1,
        forall|i: int| 0 <= i < text.len() ==> text[i] != ',',
{
    let body = unsigned_part(text);
    let mark = first_of(body, 'e', 'E');
    let mantissa = mantissa_part(body);
    let point = first_index(mantissa, '.');
    let whole = whole_part(mantissa);
    let fraction = fraction_part(mantissa);
    let exponent = exponent_part(body);
    let power = unsigned_part(exponent);
    lemma_first_of(body, 'e', 'E');
    lemma_first_of(mantissa, '.', '.');
    let d = decimal_of(text).unwrap();
    assert forall|i: int| 0 <= i < d.digits.len() implies d.digits[i] < 10 by {
        assert(is_digit((whole + fraction)[i]));
    }
    assert forall|i: int| 0 <= i < d.exponent_digits.len() implies d.exponent_digits[i] < 10 by {
        assert(is_digit(power[i]));
    }
    assert forall|i: int| 0 <= i < text.len() implies text[i] != ',' by {
        let offset: int = if is_signed(text) {
            1
        } else {
            0
        };
        if i >= offset {
            let j: int = i - offset;
            assert(text[i] == body[j]);
            if j < mark {
                assert(body[j] == mantissa[j]);
                if j < point {
                    assert(is_digit(whole[j]));
                } else if j > point {
                    assert(is_digit(fraction[j - point - 1]));
                }
            } else if j > mark {
                let k: int = j - mark - 1;
                assert(body[j] == exponent[k]);
                if is_signed(exponent) {
                    if k > 0 {
                        assert(is_digit(power[k - 1]));
                    }
                } else {
                    assert(is_digit(power[k]));
                }
            }
        }
    }
}

/// Texts without commas, joined by commas, fall apart into the same texts.
pub proof fn lemma_fields_joined(texts: Seq<Seq<char>>)
    requires
        texts.len() >= 1,
        forall|k: int, i: int|
            0 <= k < texts.len() && 0 <= i < texts[k].len() ==> #[trigger] texts[k][i] != ',',
    ensures
        fields(joined(texts)) == texts,
    decreases texts.len(),
{
    let first = texts[0];
    let line = joined(texts);
    if texts.len() == 1 {
        lemma_first_of_is(first, ',', ',', first.len() as int);
        assert(fields(line) =~= texts);
    } else {
        let rest = texts.skip(1);
        assert forall|k: int, i: int| 0 <= k < rest.len() && 0 <= i < rest[k].len() implies
            #[trigger] rest[k][i] != ',' by {
            assert(rest[k][i] == texts[k + 1][i]);
        }
        lemma_fields_joined(rest);
        assert forall|j: int| 0 <= j < first.len() implies line[j] != ',' by {
            assert(line[j] == texts[0][j]);
        }
        lemma_first_of_is(line, ',', ',', first.len() as int);
        assert(line.take(first.len() as int) =~= first);
        assert(line.skip(first.len() as int + 1) =~= joined(rest));
        assert(fields(line) =~= texts);
    }
}

/// The fields of a text, joined by commas, are the text again.
pub proof fn lemma_joined_fields(s: Seq<char>)
    ensures
        fields(s).len() >= 1,
        joined(fields(s)) == s,
    decreases s.len(),
{
    let comma = first_index(s, ',');
    lemma_first_of(s, ',', ',');
    if comma < s.len() {
        let rest = fields(s.skip(comma + 1));
        lemma_joined_fields(s.skip(comma + 1));
        let all = fields(s);
        assert(all.skip(1) =~= rest);
        assert(joined(all) =~= s.take(comma) + seq![','] + s.skip(comma + 1));
        assert(joined(all) =~= s);
    }
}

/// A line that lists one or more well-formed decimals between braces, with
/// commas between them, decodes to exactly those decimals, in their order.
pub proof fn lemma_decode_reply(texts: Seq<Seq<char>>)
    requires
        texts.len() >= 1,
        forall|k: int| 0 <= k < texts.len() ==> decimal_of(#[trigger] texts[k]) is Some,
    ensures
        decode(reply_text(texts)) == Ok::<Seq<Decimal>, ParseError>(decimals_of(texts)),
        decimals_of(texts).len() == texts.len(),
{
    let line = reply_text(texts);
    let inner = joined(texts);
    assert forall|k: int, i: int| 0 <= k < texts.len() && 0 <= i < texts[k].len() implies
        #[trigger] texts[k][i] != ',' by {
        lemma_decimal_of(texts[k]);
    }
    lemma_fields_joined(texts);
    lemma_decimal_of(texts[0]);
    assert(inner.len() >= 1) by {
        if texts.len() > 1 {
            assert(inner =~= texts[0] + seq![','] + joined(texts.skip(1)));
        }
    }
    assert(line.subrange(1, line.len() - 1) =~= inner);
    lemma_first_invalid_is(texts, texts.len());
}

/// Encoding one or more samples and decoding the line gives the samples
/// back: as many, in the same order, each with the same sign, digits, scale
/// and exponent.
pub proof fn lemma_decode_encode(samples: Seq<Decimal>)
    requires
        samples.len() >= 1,
        forall|k: int| 0 <= k < samples.len() ==> (#[trigger] samples[k]).wf(),
    ensures
        decode(encode(samples)) == Ok::<Seq<Decimal>, ParseError>(samples),
{
    let texts = texts_of(samples);
    assert forall|k: int| 0 <= k < texts.len() implies decimal_of(#[trigger] texts[k]) == Some(
        samples[k],
    ) by {
        lemma_decimal_round_trip(samples[k]);
    }
    lemma_decode_reply(texts);
    assert(decimals_of(texts) =~= samples);
}

/// A line decodes exactly if it lists one or more well-formed decimals
/// between braces, with commas between them.
pub proof fn lemma_decodes_iff_listed(line: Seq<char>)
    ensures
        decode(line) is Ok <==> exists|texts: Seq<Seq<char>>|
            {
                &&& texts.len() >= 1
                &&& forall|k: int| 0 <= k < texts.len() ==> decimal_of(#[trigger] texts[k]) is Some
                &&& #[trigger] reply_text(texts) == line
            },
{
    if decode(line) is Ok {
        let inner = line.subrange(1, line.len() - 1);
        let texts = fields(inner);
        lemma_joined_fields(inner);
        assert forall|k: int| 0 <= k < texts.len() implies decimal_of(#[trigger] texts[k]) is Some by {
            lemma_first_invalid_bounds(texts, k);
        }
        assert(reply_text(texts) =~= line);
    }
    if exists|texts: Seq<Seq<char>>|
        {
            &&& texts.len() >= 1
            &&& forall|k: int| 0 <= k < texts.len() ==> decimal_of(#[trigger] texts[k]) is Some
            &&& #[trigger] reply_text(texts) == line
        } {
        let texts = choose|texts: Seq<Seq<char>>|
            {
                &&& texts.len() >= 1
                &&& forall|k: int| 0 <= k < texts.len() ==> decimal_of(#[trigger] texts[k]) is Some
                &&& #[trigger] reply_text(texts) == line
            };
        lemma_decode_reply(texts);
    }
}

/// Every field before the first invalid one is a decimal.
pub proof fn lemma_first_invalid_bounds(texts: Seq<Seq<char>>, k: int)
    requires
        0 <= k < first_invalid(texts),
    ensures
        first_invalid(texts) <= texts.len(),
        decimal_of(texts[k]) is Some,
    decreases texts.len(),
{
    if texts.len() == 0 || decimal_of(texts[0]) is None {
    } else {
        let rest = texts.skip(1);
        if k > 0 {
            lemma_first_invalid_bounds(rest, k - 1);
            assert(rest[k - 1] == texts[k]);
        } else if first_invalid(rest) > 0 {
            lemma_first_invalid_bounds(rest, 0);
        }
    }
}

/// The samples of a line that decodes are well formed, there is at least one
/// of them, and encoding them gives a line that decodes to the same samples:
/// the two lines are equal sample by sample, however the first one wrote a
/// sign, a point or an exponent.
pub proof fn lemma_reencode(line: Seq<char>)
    requires
        decode(line) is Ok,
    ensures
        decode(line).unwrap().len() >= 1,
        forall|k: int|
            0 <= k < decode(line).unwrap().len() ==> (#[trigger] decode(line).unwrap()[k]).wf(),
        decode(encode(decode(line).unwrap())) == decode(line),
{
    let inner = line.subrange(1, line.len() - 1);
    let texts = fields(inner);
    let samples = decode(line).unwrap();
    lemma_joined_fields(inner);
    assert forall|k: int| 0 <= k < samples.len() implies (#[trigger] samples[k]).wf() by {
        lemma_first_invalid_bounds(texts, k);
        lemma_decimal_of(texts[k]);
    }
    lemma_decode_encode(samples);
}

} // verus!
