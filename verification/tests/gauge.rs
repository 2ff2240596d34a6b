use std::num::ParseFloatError;
use stitchify::gauge::{
    check_value, find_items, split, Items, Part, PartType, Unit, ValueError,
};

fn number<'a>(text: &'a str, part: &Part) -> &'a str {
    &text[part.start..part.end]
}

#[test]
fn split_one_part() {
    for text in ["12", "12.0", "5cm", "inf", ""] {
        let gauge = split(text);

        assert_eq!(number(text, &gauge.left), text);
        assert_eq!(gauge.left.unit, None);
        assert!(gauge.right.is_none());
    }
}

#[test]
fn split_cm() {
    let text = "5/10cm";
    let gauge = split(text);
    let right = gauge.right.unwrap();

    assert_eq!(number(text, &gauge.left), "5");
    assert_eq!(gauge.left.unit, None);
    assert_eq!(number(text, &right), "10");
    assert_eq!(right.unit, Some(Unit::Cm));
    assert_eq!(find_items(gauge.left.part_type(), right.part_type()), Ok(Items::Left));

    let text = "10cm/5";
    let gauge = split(text);
    let right = gauge.right.unwrap();

    assert_eq!(number(text, &gauge.left), "10");
    assert_eq!(gauge.left.unit, Some(Unit::Cm));
    assert_eq!(number(text, &right), "5");
    assert_eq!(right.unit, None);
    assert_eq!(find_items(gauge.left.part_type(), right.part_type()), Ok(Items::Right));

    let text = "1/0.1cm";
    assert_eq!(number(text, &split(text).right.unwrap()), "0.1");
}

#[test]
fn split_mm() {
    let text = "1/0.5mm";
    let right = split(text).right.unwrap();

    assert_eq!(number(text, &right), "0.5");
    assert_eq!(right.unit, Some(Unit::Mm));
    assert_eq!((Unit::Mm.in_cm().num, Unit::Mm.in_cm().den), (1, 10));
}

#[test]
fn split_inches() {
    for text in ["30/4\"", "30/4in"] {
        let gauge = split(text);
        let right = gauge.right.unwrap();

        assert_eq!(number(text, &gauge.left), "30");
        assert_eq!(number(text, &right), "4");
        assert_eq!(right.unit, Some(Unit::Inch));
    }

    let inch = Unit::Inch.in_cm();
    assert_eq!(inch.num as f32 / inch.den as f32, 2.54);
}

#[test]
fn split_both_length() {
    let gauge = split("12in/6cm");

    assert_eq!(gauge.left.unit, Some(Unit::Inch));
    assert_eq!(gauge.right.unwrap().unit, Some(Unit::Cm));
    assert_eq!(
        find_items(gauge.left.part_type(), gauge.right.unwrap().part_type())
            .unwrap_err()
            .to_string(),
        "both parts of the gauge are a length",
    );
}

#[test]
fn split_both_items() {
    let gauge = split("12/6");

    assert_eq!(
        find_items(gauge.left.part_type(), gauge.right.unwrap().part_type())
            .unwrap_err()
            .to_string(),
        "both parts of the gauge are stitches or rows",
    );
    assert_eq!(find_items(PartType::Items, PartType::Items), Err(stitchify::gauge::Error::BothPartsItems));
    assert_eq!(find_items(PartType::Length, PartType::Length), Err(stitchify::gauge::Error::BothPartsLength));
}

#[test]
fn parts_around_the_first_slash() {
    let text = "-1/1.0cm";
    let gauge = split(text);
    assert_eq!(number(text, &gauge.left), "-1");
    assert_eq!(number(text, &gauge.right.unwrap()), "1.0");

    let text = "12/foocm";
    assert_eq!(number(text, &split(text).right.unwrap()), "foo");

    let text = "1/2/3mm";
    let gauge = split(text);
    assert_eq!(number(text, &gauge.left), "1");
    assert_eq!(number(text, &gauge.right.unwrap()), "2/3");

    let text = "cm/";
    let gauge = split(text);
    assert_eq!(number(text, &gauge.left), "");
    assert_eq!(gauge.left.unit, Some(Unit::Cm));
    assert_eq!(number(text, &gauge.right.unwrap()), "");
    assert_eq!(gauge.right.unwrap().unit, None);

    // Of the units that a part ends with, the first of cm, mm, " and in
    let text = "1/m\"";
    assert_eq!(split(text).right.unwrap().unit, Some(Unit::Inch));
    assert_eq!(number(text, &split(text).right.unwrap()), "m");
    let text = "1/5m";
    assert_eq!(split(text).right.unwrap().unit, None);
}

// The value of a gauge as a program reads it that holds the numbers as
// floats: the parts and their units are found by the library.

#[derive(Debug)]
enum Error {
    FloatParseError(ParseFloatError),
    TooSmall(f32),
    Abnormal(f32),
    BothPartsLength,
    BothPartsItems,
}

impl Error {
    fn to_string(&self) -> String {
        match self {
            Error::FloatParseError(e) => e.to_string(),
            Error::TooSmall(v) => format!("gauge {} is too small", v),
            Error::Abnormal(v) => format!("invalid gauge: {}", v),
            Error::BothPartsLength => stitchify::gauge::Error::BothPartsLength.to_string(),
            Error::BothPartsItems => stitchify::gauge::Error::BothPartsItems.to_string(),
        }
    }
}

fn parse_float_value(s: &str) -> Result<f32, Error> {
    let value: f32 = s.parse().map_err(Error::FloatParseError)?;

    match check_value(value.to_bits()) {
        Ok(()) => Ok(value),
        Err(ValueError::TooSmall) => Err(Error::TooSmall(value)),
        Err(ValueError::Abnormal) => Err(Error::Abnormal(value)),
    }
}

fn part_value(arg: &str, part: &Part) -> Result<f32, Error> {
    let value = parse_float_value(&arg[part.start..part.end])?;

    Ok(match part.unit {
        Some(unit) => value * (unit.in_cm().num as f32 / unit.in_cm().den as f32),
        None => value,
    })
}

fn parse(arg: &str) -> Result<f32, Error> {
    let text = split(arg);

    match text.right {
        Some(right_part) => {
            let left = part_value(arg, &text.left)?;
            let right = part_value(arg, &right_part)?;

            match find_items(text.left.part_type(), right_part.part_type()) {
                Ok(Items::Right) => Ok(right / left * 10.0),
                Ok(Items::Left) => Ok(left / right * 10.0),
                Err(stitchify::gauge::Error::BothPartsLength) => Err(Error::BothPartsLength),
                Err(stitchify::gauge::Error::BothPartsItems) => Err(Error::BothPartsItems),
            }
        }
        None => parse_float_value(arg),
    }
}

fn assert_approx_equal(a: f32, b: f32) {
    if (a - b).abs() >= 0.0001 {
        panic!("{} != {}", a, b);
    }
}

#[test]
fn one_part() {
    assert_approx_equal(parse("12").unwrap(), 12.0);
    assert_approx_equal(parse("12.0").unwrap(), 12.0);
}

#[test]
fn cm() {
    assert_approx_equal(parse("5/10cm").unwrap(), 5.0);
    assert_approx_equal(parse("5/20cm").unwrap(), 2.5);
    assert_approx_equal(parse("10cm/5").unwrap(), 5.0);
    assert_approx_equal(parse("1/0.1cm").unwrap(), 100.0);
}

#[test]
fn mm() {
    assert_approx_equal(parse("1/1mm").unwrap(), 100.0);
    assert_approx_equal(parse("1/0.5mm").unwrap(), 200.0);
}

#[test]
fn inches() {
    assert_approx_equal(parse("30/4\"").unwrap(), 29.52755905511811);
    assert_approx_equal(parse("30/4in").unwrap(), 29.52755905511811);
}

#[test]
fn both_length() {
    assert_eq!(
        parse("12in/6cm").unwrap_err().to_string(),
        "both parts of the gauge are a length",
    );
}

#[test]
fn both_items() {
    assert_eq!(
        parse("12/6").unwrap_err().to_string(),
        "both parts of the gauge are stitches or rows",
    );
}

#[test]
fn too_small() {
    assert_eq!(parse("-1").unwrap_err().to_string(), "gauge -1 is too small");
    assert_eq!(parse("-1/1.0cm").unwrap_err().to_string(), "gauge -1 is too small");
}

#[test]
fn abnormal() {
    assert_eq!(parse("inf").unwrap_err().to_string(), "invalid gauge: inf");
}

#[test]
fn bad_float() {
    assert!(matches!(parse("12/foocm"), Err(Error::FloatParseError(_))));
}

#[test]
fn values_are_checked_as_floats_compare() {
    let floats = [
        0.0f32,
        -0.0,
        1.0,
        -1.0,
        22.5,
        f32::MIN_POSITIVE,
        f32::MIN_POSITIVE / 2.0,
        -f32::MIN_POSITIVE / 2.0,
        f32::MAX,
        f32::MIN,
        f32::INFINITY,
        f32::NEG_INFINITY,
        f32::NAN,
        -f32::NAN,
        f32::from_bits(0x7f80_0001),
        f32::from_bits(0xffff_ffff),
        f32::from_bits(1),
        f32::from_bits(0x8000_0001),
    ];

    for value in floats {
        let expected = if value <= 0.0 {
            Err(ValueError::TooSmall)
        } else if !value.is_normal() {
            Err(ValueError::Abnormal)
        } else {
            Ok(())
        };

        assert_eq!(check_value(value.to_bits()), expected, "{}", value);
    }
}
