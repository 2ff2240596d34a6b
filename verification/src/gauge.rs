use crate::ratio::Ratio;
use vstd::prelude::*;
use vstd::string::StringSliceAdditionalSpecFns;

verus! {

/// A unit of length that a gauge can be given in.
#[derive(Clone, Copy, Debug, PartialEq, Eq)]
pub enum Unit {
    /// Centimetres, written `cm`.
    Cm,
    /// Millimetres, written `mm`.
    Mm,
    /// Inches, written `"` or `in`.
    Inch,
}

/// What a part of a gauge is: a length, or a number of stitches or rows.
#[derive(Clone, Copy, Debug, PartialEq, Eq)]
pub enum PartType {
    Length,
    Items,
}

/// Why two parts are no gauge.
#[derive(Clone, Copy, Debug, PartialEq, Eq)]
pub enum Error {
    /// Both parts are lengths.
    BothPartsLength,
    /// Both parts are numbers of stitches or rows.
    BothPartsItems,
}

/// Which of the two parts of a gauge is the number of stitches or rows.
#[derive(Clone, Copy, Debug, PartialEq, Eq)]
pub enum Items {
    Left,
    Right,
}

/// A part of a gauge in its text: the number stands in the bytes
/// `start <= i < end`, and the unit, where there is one, follows it.
#[derive(Clone, Copy, Debug, PartialEq, Eq)]
pub struct Part {
    pub start: usize,
    pub end: usize,
    pub unit: Option<Unit>,
}

/// The parts of a gauge in its text. A gauge without a slash is one
/// number, and nothing in it is read as a unit.
#[derive(Clone, Copy, Debug, PartialEq, Eq)]
pub struct GaugeText {
    pub left: Part,
    pub right: Option<Part>,
}

impl Unit {
    /// The length of the unit in centimetres.
    pub open spec fn cm(self) -> Ratio {
        match self {
            Unit::Cm => Ratio { num: 1, den: 1 },
            Unit::Mm => Ratio { num: 1, den: 10 },
            Unit::Inch => Ratio { num: 254, den: 100 },
        }
    }

    /// The length of the unit in centimetres.
    pub fn in_cm(&self) -> (length: Ratio)
        ensures
            length == self.cm(),
    {
        match self {
            Unit::Cm => Ratio { num: 1, den: 1 },
            Unit::Mm => Ratio { num: 1, den: 10 },
            Unit::Inch => Ratio { num: 254, den: 100 },
        }
    }
}

impl Error {
    /// The error in words.
    pub open spec fn text(self) -> Seq<char> {
        match self {
            Error::BothPartsLength => "both parts of the gauge are a length"@,
            Error::BothPartsItems => "both parts of the gauge are stitches or rows"@,
        }
    }

    /// The error in words.
    pub fn to_string(&self) -> (s: String)
        ensures
            s@ == self.text(),
    {
        match self {
            Error::BothPartsLength => "both parts of the gauge are a length".to_owned(),
            Error::BothPartsItems => "both parts of the gauge are stitches or rows".to_owned(),
        }
    }
}

impl Part {
    /// Whether the part is a length: it is one if it has a unit.
    pub open spec fn kind(self) -> PartType {
        if self.unit is Some {
            PartType::Length
        } else {
            PartType::Items
        }
    }

    /// Whether the part is a length.
    pub fn part_type(&self) -> (kind: PartType)
        ensures
            kind == self.kind(),
    {
        match self.unit {
            Some(_) => PartType::Length,
            None => PartType::Items,
        }
    }
}

/// Why a number is none that a gauge can be made of.
#[derive(Clone, Copy, Debug, PartialEq, Eq)]
pub enum ValueError {
    /// The number is zero or below.
    TooSmall,
    /// The number is infinite, no number at all, or too small to be held
    /// with full precision.
    Abnormal,
}

/// The float with the given bits is no number: its exponent is the
/// highest and its other digits are not all zero.
pub open spec fn is_nan(bits: u32) -> bool {
    bits / 0x80_0000 % 256 == 255 && bits % 0x80_0000 != 0
}

/// What is wrong with the float with the given bits as a part of a
/// gauge, if anything is. A number is too small if it is zero or has the
/// sign of a negative number. Else it is abnormal unless its exponent is
/// that of a normal number.
pub open spec fn value_error(bits: u32) -> Option<ValueError> {
    if !is_nan(bits) && (bits >= 0x8000_0000 || bits == 0) {
        Some(ValueError::TooSmall)
    } else if !crate::ratio::is_positive_normal(bits) {
        Some(ValueError::Abnormal)
    } else {
        None
    }
}

/// Whether the float with the given bits can be a part of a gauge.
pub fn check_value(bits: u32) -> (result: Result<(), ValueError>)
    ensures
        result == match value_error(bits) {
            Some(e) => Err::<(), ValueError>(e),
            None => Ok::<(), ValueError>(()),
        },
{
    let exponent: u32 = bits / 0x80_0000 % 256;
    let nan = exponent == 255 && bits % 0x80_0000 != 0;
    if !nan && (bits >= 0x8000_0000 || bits == 0) {
        Err(ValueError::TooSmall)
    } else if bits >= 0x8000_0000 || exponent < 1 || exponent > 254 {
        Err(ValueError::Abnormal)
    } else {
        Ok(())
    }
}

/// The bytes `from <= i < end` end with the two bytes `a`, `b`.
pub open spec fn ends_with(bytes: Seq<u8>, from: int, end: int, a: u8, b: u8) -> bool {
    end - from >= 2 && bytes[end - 2] == a && bytes[end - 1] == b
}

/// The part that stands in the bytes `from <= i < end`. Its unit is the
/// first of `cm`, `mm`, `"` and `in` that it ends with.
pub open spec fn part_of(bytes: Seq<u8>, from: int, end: int) -> Part {
    if ends_with(bytes, from, end, 99, 109) {
        Part { start: from as usize, end: (end - 2) as usize, unit: Some(Unit::Cm) }
    } else if ends_with(bytes, from, end, 109, 109) {
        Part { start: from as usize, end: (end - 2) as usize, unit: Some(Unit::Mm) }
    } else if end - from >= 1 && bytes[end - 1] == 34 {
        Part { start: from as usize, end: (end - 1) as usize, unit: Some(Unit::Inch) }
    } else if ends_with(bytes, from, end, 105, 110) {
        Part { start: from as usize, end: (end - 2) as usize, unit: Some(Unit::Inch) }
    } else {
        Part { start: from as usize, end: end as usize, unit: None }
    }
}

/// The place of the first slash from `from` on, or the length of the
/// text where there is none.
pub open spec fn slash(bytes: Seq<u8>, from: int) -> int
    decreases bytes.len() - from,
{
    if from >= bytes.len() || bytes[from] == 47 {
        from
    } else {
        slash(bytes, from + 1)
    }
}

/// The parts of the gauge that a text holds: the parts on the two sides
/// of the first slash, or the whole text as one number.
pub open spec fn gauge_text(bytes: Seq<u8>) -> GaugeText {
    let at = slash(bytes, 0);
    if at < bytes.len() {
        GaugeText {
            left: part_of(bytes, 0, at),
            right: Some(part_of(bytes, at + 1, bytes.len() as int)),
        }
    } else {
        GaugeText { left: Part { start: 0, end: bytes.len() as usize, unit: None }, right: None }
    }
}

/// Which part of a gauge counts the stitches or rows. One part has to be
/// a length and the other a number.
pub open spec fn items_of(left: PartType, right: PartType) -> Result<Items, Error> {
    match (left, right) {
        (PartType::Length, PartType::Items) => Ok(Items::Right),
        (PartType::Items, PartType::Length) => Ok(Items::Left),
        (PartType::Items, PartType::Items) => Err(Error::BothPartsItems),
        (PartType::Length, PartType::Length) => Err(Error::BothPartsLength),
    }
}

/// Which part of a gauge counts the stitches or rows.
pub fn find_items(left: PartType, right: PartType) -> (result: Result<Items, Error>)
    ensures
        result == items_of(left, right),
{
    match (left, right) {
        (PartType::Length, PartType::Items) => Ok(Items::Right),
        (PartType::Items, PartType::Length) => Ok(Items::Left),
        (PartType::Items, PartType::Items) => Err(Error::BothPartsItems),
        (PartType::Length, PartType::Length) => Err(Error::BothPartsLength),
    }
}

/// The part that stands in `bytes[from..end]`.
fn find_part(bytes: &[u8], from: usize, end: usize) -> (part: Part)
    requires
        from <= end <= bytes@.len(),
    ensures
        part == part_of(bytes@, from as int, end as int),
        from <= part.end <= end,
        part.start == from,
{
    let len = end - from;
    if len >= 2 && bytes[end - 2] == 99 && bytes[end - 1] == 109 {
        Part { start: from, end: end - 2, unit: Some(Unit::Cm) }
    } else if len >= 2 && bytes[end - 2] == 109 && bytes[end - 1] == 109 {
        Part { start: from, end: end - 2, unit: Some(Unit::Mm) }
    } else if len >= 1 && bytes[end - 1] == 34 {
        Part { start: from, end: end - 1, unit: Some(Unit::Inch) }
    } else if len >= 2 && bytes[end - 2] == 105 && bytes[end - 1] == 110 {
        Part { start: from, end: end - 2, unit: Some(Unit::Inch) }
    } else {
        Part { start: from, end, unit: None }
    }
}

/// Finds the parts of a gauge in its text.
pub fn split(arg: &str) -> (gauge: GaugeText)
    ensures
        gauge == gauge_text(arg.spec_bytes()),
        gauge.left.start <= gauge.left.end <= arg.spec_bytes().len(),
        gauge.right matches Some(right) ==> gauge.left.end < right.start <= right.end
            <= arg.spec_bytes().len(),
{
    let bytes = arg.as_bytes();
    let mut at: usize = 0;
    while at < bytes.len() && bytes[at] != 47
        invariant
            at <= bytes@.len(),
            slash(bytes@, 0) == slash(bytes@, at as int),
        decreases bytes@.len() - at,
    {
        at = at + 1;
    }
    if at < bytes.len() {
        GaugeText {
            left: find_part(bytes, 0, at),
            right: Some(find_part(bytes, at + 1, bytes.len())),
        }
    } else {
        GaugeText { left: Part { start: 0, end: bytes.len(), unit: None }, right: None }
    }
}

} // verus!
