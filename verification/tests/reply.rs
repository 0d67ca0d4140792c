use redpitaya::reply::{format_samples, parse_samples, ParseError, Sample};

fn sample(negative: bool, digits: &[u8], scale: usize) -> Sample {
    Sample::new(negative, digits.to_vec(), scale).unwrap()
}

fn as_f64(sample: &Sample) -> f64 {
    sample.to_text().parse::<f64>().unwrap()
}

#[test]
fn parses_three_samples_in_order() {
    let samples = parse_samples("{1.0,2.0,3.0}").unwrap();
    assert_eq!(
        samples,
        vec![sample(false, &[1, 0], 1), sample(false, &[2, 0], 1), sample(false, &[3, 0], 1)]
    );
    let values: Vec<f64> = samples.iter().map(as_f64).collect();
    assert_eq!(values, vec![1.0, 2.0, 3.0]);
}

#[test]
fn parses_signs_and_fractions() {
    let samples = parse_samples("{0.12,0.08,-0.01}").unwrap();
    assert_eq!(samples.len(), 3);
    assert_eq!(samples[0], sample(false, &[0, 1, 2], 2));
    assert_eq!(samples[1], sample(false, &[0, 0, 8], 2));
    assert_eq!(samples[2], sample(true, &[0, 0, 1], 2));
    assert!(samples[2].is_negative());
    assert_eq!(samples[2].digits(), &vec![0u8, 0, 1]);
    assert_eq!(samples[2].scale(), 2);
    assert_eq!(as_f64(&samples[2]), -0.01);
}

#[test]
fn parses_a_single_sample() {
    assert_eq!(parse_samples("{7}").unwrap(), vec![sample(false, &[7], 0)]);
    assert_eq!(parse_samples("{-123}").unwrap(), vec![sample(true, &[1, 2, 3], 0)]);
}

#[test]
fn parses_decimals_of_any_length() {
    let samples = parse_samples("{123456789012345678901234567890.000000000000000000001}").unwrap();
    assert_eq!(samples.len(), 1);
    assert_eq!(samples[0].digits().len(), 51);
    assert_eq!(samples[0].scale(), 21);
}

#[test]
fn parses_points_at_either_end_and_plus_signs() {
    assert_eq!(parse_samples("{.5}").unwrap(), vec![sample(false, &[5], 1)]);
    assert_eq!(parse_samples("{5.}").unwrap(), vec![sample(false, &[5], 0)]);
    assert_eq!(parse_samples("{+5}").unwrap(), vec![sample(false, &[5], 0)]);
    assert_eq!(parse_samples("{-.5}").unwrap(), vec![sample(true, &[5], 1)]);
    assert_eq!(parse_samples("{-0}").unwrap(), vec![sample(true, &[0], 0)]);
    assert_eq!(parse_samples("{007}").unwrap(), vec![sample(false, &[0, 0, 7], 0)]);
}

#[test]
fn parses_exponents() {
    let samples = parse_samples("{1e5,1E5,1.5e-3,-2.5E+10,.5e0,5.e007}").unwrap();
    assert_eq!(samples.len(), 6);
    assert_eq!(samples[0], sample(false, &[1], 0).with_exponent(false, vec![5]).unwrap());
    assert_eq!(samples[1], samples[0]);
    assert_eq!(samples[2], sample(false, &[1, 5], 1).with_exponent(true, vec![3]).unwrap());
    assert_eq!(samples[3], sample(true, &[2, 5], 1).with_exponent(false, vec![1, 0]).unwrap());
    assert_eq!(samples[4], sample(false, &[5], 1).with_exponent(false, vec![0]).unwrap());
    assert_eq!(samples[5], sample(false, &[5], 0).with_exponent(false, vec![0, 0, 7]).unwrap());
    assert!(!samples[2].is_negative());
    assert!(samples[2].exponent_is_negative());
    assert_eq!(samples[2].exponent_digits(), &vec![3u8]);
    assert!(!samples[3].exponent_is_negative());
    let values: Vec<f64> = samples.iter().map(as_f64).collect();
    assert_eq!(values, vec![1e5, 1e5, 1.5e-3, -2.5e10, 0.5, 5e7]);
    assert_eq!(format_samples(&samples), "{1e5,1e5,1.5e-3,-2.5e10,.5e0,5e007}");
}

#[test]
fn a_sample_without_exponent_has_no_exponent_digits() {
    let samples = parse_samples("{-0.01}").unwrap();
    assert!(!samples[0].exponent_is_negative());
    assert_eq!(samples[0].exponent_digits(), &Vec::<u8>::new());
}

#[test]
fn empty_braces_are_an_error() {
    assert_eq!(parse_samples("{}"), Err(ParseError::Empty));
}

#[test]
fn non_numeric_token_is_an_error() {
    assert_eq!(parse_samples("{1,x,3}"), Err(ParseError::InvalidSample(1)));
}

#[test]
fn first_invalid_field_is_reported() {
    assert_eq!(parse_samples("{x,y}"), Err(ParseError::InvalidSample(0)));
    assert_eq!(parse_samples("{1,2,}"), Err(ParseError::InvalidSample(2)));
    assert_eq!(parse_samples("{,1}"), Err(ParseError::InvalidSample(0)));
    assert_eq!(parse_samples("{1,,2}"), Err(ParseError::InvalidSample(1)));
    assert_eq!(parse_samples("{,}"), Err(ParseError::InvalidSample(0)));
    assert_eq!(parse_samples("{1, 2}"), Err(ParseError::InvalidSample(1)));
    assert_eq!(parse_samples("{ 1}"), Err(ParseError::InvalidSample(0)));
    assert_eq!(parse_samples("{1,2,3,4,5,six}"), Err(ParseError::InvalidSample(5)));
}

#[test]
fn malformed_decimals_are_errors() {
    for text in [
        "{.}", "{-}", "{+}", "{-.}", "{1.2.3}", "{1..2}", "{--1}", "{+-1}", "{1-}", "{inf}",
        "{infinity}", "{nan}", "{NaN}", "{0x10}", "{1_000}", "{١}", "{1.0\r}", "{{1}}", "{1e}",
        "{1E}", "{e5}", "{.e1}", "{-e1}", "{1e+}", "{1e-}", "{1e5e6}", "{1e1.5}", "{1e 5}",
        "{1e--5}", "{1f5}",
    ] {
        assert_eq!(parse_samples(text), Err(ParseError::InvalidSample(0)), "{}", text);
    }
}

#[test]
fn missing_braces_are_an_error() {
    for text in ["", "{", "}", "1,2,3", "{1,2,3", "1,2,3}", "}1,2,3{", " {1}", "{1} ", "{1}\r\n", "[1]"] {
        assert_eq!(parse_samples(text), Err(ParseError::NotDelimited), "{:?}", text);
    }
}

#[test]
fn formats_samples() {
    assert_eq!(
        format_samples(&vec![sample(false, &[1, 0], 1), sample(true, &[0, 0, 1], 2), sample(false, &[3], 0)]),
        "{1.0,-0.01,3}"
    );
    assert_eq!(format_samples(&vec![sample(false, &[5], 1)]), "{.5}");
    assert_eq!(format_samples(&vec![sample(true, &[0], 0)]), "{-0}");
    assert_eq!(format_samples(&vec![sample(false, &[1, 2, 3, 4, 5, 6, 7, 8, 9, 0], 3)]), "{1234567.890}");
    assert_eq!(format_samples(&Vec::new()), "{}");
}

#[test]
fn canonical_lines_round_trip_as_text() {
    for line in [
        "{1.0,2.0,3.0}",
        "{0.12,0.08,-0.01}",
        "{7}",
        "{-0.000}",
        "{.5,-.25}",
        "{0,1,2,3,4,5,6,7,8,9}",
        "{1e5,-1.25e-7,0e0}",
    ] {
        let samples = parse_samples(line).unwrap();
        assert_eq!(format_samples(&samples), line);
    }
}

#[test]
fn other_lines_round_trip_by_value() {
    for (line, canonical) in [
        ("{+1.5,2.}", "{1.5,2}"),
        ("{+.5}", "{.5}"),
        ("{+0,-0}", "{0,-0}"),
        ("{1E5,2e+3,+3.E-2}", "{1e5,2e3,3e-2}"),
    ] {
        let samples = parse_samples(line).unwrap();
        let again = format_samples(&samples);
        assert_eq!(again, canonical);
        assert_eq!(parse_samples(&again).unwrap(), samples);
        let before: Vec<f64> = line[1..line.len() - 1].split(',').map(|s| s.parse().unwrap()).collect();
        let after: Vec<f64> = samples.iter().map(as_f64).collect();
        assert_eq!(before, after);
    }
}

#[test]
fn encoding_then_decoding_gives_the_samples_back() {
    let samples = vec![
        sample(false, &[0], 0),
        sample(true, &[9, 9, 9], 3),
        sample(false, &[1, 2, 3], 1),
        sample(true, &[4], 0),
    ];
    assert_eq!(parse_samples(&format_samples(&samples)), Ok(samples));
}

#[test]
fn a_long_reply_keeps_every_sample() {
    let mut line = String::from("{");
    for i in 0..16384 {
        if i > 0 {
            line.push(',');
        }
        line.push_str(&format!("{}.{:03}", i % 7, i % 1000));
    }
    line.push('}');
    let samples = parse_samples(&line).unwrap();
    assert_eq!(samples.len(), 16384);
    assert_eq!(samples[16383].to_text(), format!("{}.{:03}", 16383 % 7, 16383 % 1000));
    assert_eq!(format_samples(&samples), line);
}

#[test]
fn sample_new_checks_its_parts() {
    assert!(Sample::new(false, vec![], 0).is_none());
    assert!(Sample::new(false, vec![1, 2], 3).is_none());
    assert!(Sample::new(false, vec![1, 10], 0).is_none());
    assert!(Sample::new(true, vec![255], 1).is_none());
    let s = Sample::new(true, vec![1, 2], 2).unwrap();
    assert!(s.is_negative());
    assert_eq!(s.digits(), &vec![1u8, 2]);
    assert_eq!(s.scale(), 2);
    assert_eq!(s.to_text(), "-.12");
    assert_eq!(s.clone(), s);
    assert!(!s.exponent_is_negative());
    assert!(s.exponent_digits().is_empty());
}

#[test]
fn with_exponent_checks_the_digits() {
    assert!(sample(false, &[1], 0).with_exponent(false, vec![]).is_none());
    assert!(sample(false, &[1], 0).with_exponent(true, vec![]).is_none());
    assert!(sample(false, &[1], 0).with_exponent(false, vec![1, 10]).is_none());
    let s = sample(true, &[1, 2, 5], 2).with_exponent(true, vec![0, 3]).unwrap();
    assert!(s.is_negative());
    assert_eq!(s.digits(), &vec![1u8, 2, 5]);
    assert_eq!(s.scale(), 2);
    assert!(s.exponent_is_negative());
    assert_eq!(s.exponent_digits(), &vec![0u8, 3]);
    assert_eq!(s.to_text(), "-1.25e-03");
    assert_eq!(s.clone(), s);
    // A later exponent takes the place of an earlier one.
    let t = s.with_exponent(false, vec![7]).unwrap();
    assert_eq!(t.to_text(), "-1.25e7");
}

#[test]
fn sample_parse_reads_one_decimal() {
    assert_eq!(Sample::parse("-0.01"), Some(sample(true, &[0, 0, 1], 2)));
    assert_eq!(Sample::parse("42"), Some(sample(false, &[4, 2], 0)));
    assert_eq!(Sample::parse(""), None);
    assert_eq!(Sample::parse("x"), None);
    assert_eq!(Sample::parse("1,2"), None);
    assert_eq!(Sample::parse(" 1"), None);
    assert_eq!(Sample::parse("1 "), None);
    assert_eq!(Sample::parse("-"), None);
    assert_eq!(Sample::parse("."), None);
    assert_eq!(Sample::parse("e"), None);
    assert_eq!(Sample::parse("1e"), None);
    assert_eq!(
        Sample::parse("6.02E23"),
        sample(false, &[6, 0, 2], 2).with_exponent(false, vec![2, 3])
    );
}

#[test]
fn sample_text_round_trips() {
    for text in
        ["0", "-0", "1.0", "-0.01", ".5", "-.5", "123456789.987654321", "000.000", "1e-9", "-.5e12"]
    {
        assert_eq!(Sample::parse(text).unwrap().to_text(), text);
    }
    assert_eq!(Sample::parse("+1.50").unwrap().to_text(), "1.50");
    assert_eq!(Sample::parse("5.").unwrap().to_text(), "5");
    assert_eq!(Sample::parse("5.E+5").unwrap().to_text(), "5e5");
}
