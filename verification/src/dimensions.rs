use crate::ratio::Ratio;
use crate::text::{decimal, push_decimal};
use vstd::prelude::*;
use vstd::string::{StringExecFns, StringSliceAdditionalSpecFns};

verus! {

/// Two stitches that are to be knitted with the same bobbin. Positions
/// count from 1, column 1 at the right and row 1 at the bottom.
#[derive(Clone, Copy, Debug)]
pub struct Link {
    pub source: (u16, u16),
    pub dest: (u16, u16),
}

impl Link {
    /// The link as it is written: `x,y->x,y`.
    pub open spec fn text(self) -> Seq<char> {
        decimal(self.source.0 as nat) + ","@ + decimal(self.source.1 as nat) + "->"@ + decimal(
            self.dest.0 as nat,
        ) + ","@ + decimal(self.dest.1 as nat)
    }

    /// The same link with its two ends exchanged.
    pub open spec fn swapped(self) -> Link {
        Link { source: self.dest, dest: self.source }
    }

    /// The link as text.
    pub fn to_string(&self) -> (s: String)
        ensures
            s@ == self.text(),
    {
        let mut s = String::new();
        push_decimal(&mut s, self.source.0 as u128);
        s.append(",");
        push_decimal(&mut s, self.source.1 as u128);
        s.append("->");
        push_decimal(&mut s, self.dest.0 as u128);
        s.append(",");
        push_decimal(&mut s, self.dest.1 as u128);
        assert(s@ =~= self.text());
        s
    }
}

/// Why a text is not a whole number between 0 and 65535.
#[derive(Clone, Copy, Debug, PartialEq, Eq)]
pub enum IntError {
    /// The text is empty.
    Empty,
    /// The text holds something other than digits after an optional `+`.
    InvalidDigit,
    /// The number is above 65535.
    PosOverflow,
}

/// Why a text is not a link.
#[derive(Clone, Copy, Debug, PartialEq, Eq)]
pub enum LinkParseError {
    /// There are fewer than four numbers.
    MissingElement,
    /// There are more than four numbers.
    TooManyElements,
    /// One of the parts between the commas is not a number.
    ParseIntError(IntError),
}

impl IntError {
    /// The error in words.
    pub open spec fn text(self) -> Seq<char> {
        match self {
            IntError::Empty => "cannot parse integer from empty string"@,
            IntError::InvalidDigit => "invalid digit found in string"@,
            IntError::PosOverflow => "number too large to fit in target type"@,
        }
    }

    /// The error in words.
    pub fn to_string(&self) -> (s: String)
        ensures
            s@ == self.text(),
    {
        match self {
            IntError::Empty => String::from_str("cannot parse integer from empty string"),
            IntError::InvalidDigit => String::from_str("invalid digit found in string"),
            IntError::PosOverflow => String::from_str("number too large to fit in target type"),
        }
    }
}

impl LinkParseError {
    /// The error in words.
    pub open spec fn text(self) -> Seq<char> {
        match self {
            LinkParseError::ParseIntError(e) => e.text(),
            _ => "Link argument must be of the form “x,y,x,y”"@,
        }
    }

    /// The error in words.
    pub fn to_string(&self) -> (s: String)
        ensures
            s@ == self.text(),
    {
        match self {
            LinkParseError::ParseIntError(e) => e.to_string(),
            _ => String::from_str("Link argument must be of the form “x,y,x,y”"),
        }
    }
}

/// The byte is a decimal digit.
pub open spec fn is_digit(byte: u8) -> bool {
    48 <= byte <= 57
}

/// The number that the digits `bytes[i..end]` add to `acc`. The digits
/// are read from the left, and the first byte that is no digit, or with
/// which the number rises above 65535, ends the reading.
pub open spec fn digits_value(bytes: Seq<u8>, i: int, end: int, acc: int) -> Result<u16, IntError>
    decreases end - i,
{
    if i >= end {
        Ok(acc as u16)
    } else if !is_digit(bytes[i]) {
        Err(IntError::InvalidDigit)
    } else if acc * 10 + (bytes[i] - 48) > u16::MAX {
        Err(IntError::PosOverflow)
    } else {
        digits_value(bytes, i + 1, end, acc * 10 + (bytes[i] - 48))
    }
}

/// The number that `bytes[from..end]` is: decimal digits, which a `+` may
/// precede.
pub open spec fn number_value(bytes: Seq<u8>, from: int, end: int) -> Result<u16, IntError> {
    if from >= end {
        Err(IntError::Empty)
    } else if bytes[from] == 43 {
        if from + 1 >= end {
            Err(IntError::InvalidDigit)
        } else {
            digits_value(bytes, from + 1, end, 0)
        }
    } else {
        digits_value(bytes, from, end, 0)
    }
}

/// Where the part that begins at `from` ends: at the next comma, or at
/// the end of the text.
pub open spec fn part_end(bytes: Seq<u8>, from: int) -> int
    decreases bytes.len() - from,
{
    if from >= bytes.len() || bytes[from] == 44 {
        from
    } else {
        part_end(bytes, from + 1)
    }
}

/// The link with its part number `count` set to `value`: the parts are
/// the column and the row of the source, then those of the destination.
pub open spec fn with_part(link: Link, count: int, value: u16) -> Link {
    if count == 0 {
        Link { source: (value, link.source.1), dest: link.dest }
    } else if count == 1 {
        Link { source: (link.source.0, value), dest: link.dest }
    } else if count == 2 {
        Link { source: link.source, dest: (value, link.dest.1) }
    } else {
        Link { source: link.source, dest: (link.dest.0, value) }
    }
}

/// The link that the text from `from` on completes, when `count` parts
/// have been read into `link`. A part that is no number is an error even
/// where it is one part too many.
pub open spec fn link_from(bytes: Seq<u8>, from: int, count: int, link: Link) -> Result<
    Link,
    LinkParseError,
>
    decreases bytes.len() - from,
{
    let end = part_end(bytes, from);
    match number_value(bytes, from, end) {
        Err(e) => Err(LinkParseError::ParseIntError(e)),
        Ok(value) => if count >= 4 {
            Err(LinkParseError::TooManyElements)
        } else if end >= bytes.len() {
            if count < 3 {
                Err(LinkParseError::MissingElement)
            } else {
                Ok(with_part(link, count, value))
            }
        } else {
            proof {
                lemma_part_end(bytes, from);
            }
            link_from(bytes, end + 1, count + 1, with_part(link, count, value))
        },
    }
}

/// The link that a text of the form `x,y,x,y` names.
pub open spec fn link_of(bytes: Seq<u8>) -> Result<Link, LinkParseError> {
    link_from(bytes, 0, 0, Link { source: (0, 0), dest: (0, 0) })
}

/// A part ends at or after its beginning.
pub proof fn lemma_part_end(bytes: Seq<u8>, from: int)
    ensures
        from <= part_end(bytes, from),
    decreases bytes.len() - from,
{
    if from < bytes.len() && bytes[from] != 44 {
        lemma_part_end(bytes, from + 1);
    }
}

/// The number that stands in `bytes[from..end]`.
fn parse_number(bytes: &[u8], from: usize, end: usize) -> (result: Result<u16, IntError>)
    requires
        from <= end <= bytes@.len(),
    ensures
        result == number_value(bytes@, from as int, end as int),
{
    if from >= end {
        return Err(IntError::Empty);
    }
    let mut i = from;
    if bytes[from] == 43 {
        if from + 1 >= end {
            return Err(IntError::InvalidDigit);
        }
        i = from + 1;
    }
    let mut acc: u16 = 0;
    while i < end
        invariant
            from <= i <= end <= bytes@.len(),
            number_value(bytes@, from as int, end as int) == digits_value(
                bytes@,
                i as int,
                end as int,
                acc as int,
            ),
        decreases end - i,
    {
        let byte = bytes[i];
        if byte < 48 || byte > 57 {
            return Err(IntError::InvalidDigit);
        }
        let digit = (byte - 48) as u32;
        let next: u32 = acc as u32 * 10 + digit;
        if next > u16::MAX as u32 {
            return Err(IntError::PosOverflow);
        }
        acc = next as u16;
        i = i + 1;
    }
    Ok(acc)
}

/// Reads a link from a text of the form `x,y,x,y`.
pub fn parse_link(s: &str) -> (result: Result<Link, LinkParseError>)
    ensures
        result == link_of(s.spec_bytes()),
{
    let bytes = s.as_bytes();
    let mut link = Link { source: (0, 0), dest: (0, 0) };
    let mut count: usize = 0;
    let mut from: usize = 0;
    loop
        invariant
            bytes@ == s.spec_bytes(),
            from <= bytes@.len(),
            count <= 4,
            link_of(bytes@) == link_from(bytes@, from as int, count as int, link),
        decreases bytes@.len() - from,
    {
        let mut end = from;
        while end < bytes.len() && bytes[end] != 44
            invariant
                from <= end <= bytes@.len(),
                part_end(bytes@, from as int) == part_end(bytes@, end as int),
            decreases bytes@.len() - end,
        {
            end = end + 1;
        }
        let value = match parse_number(bytes, from, end) {
            Ok(value) => value,
            Err(e) => {
                return Err(LinkParseError::ParseIntError(e));
            },
        };
        if count >= 4 {
            return Err(LinkParseError::TooManyElements);
        }
        if count == 0 {
            link.source.0 = value;
        } else if count == 1 {
            link.source.1 = value;
        } else if count == 2 {
            link.dest.0 = value;
        } else {
            link.dest.1 = value;
        }
        if end >= bytes.len() {
            if count < 3 {
                return Err(LinkParseError::MissingElement);
            }
            return Ok(link);
        }
        count = count + 1;
        from = end + 1;
    }
}

impl std::str::FromStr for Link {
    type Err = LinkParseError;

    fn from_str(s: &str) -> (result: Result<Link, LinkParseError>)
        ensures
            result == link_of(s.spec_bytes()),
    {
        parse_link(s)
    }
}

/// What is written into the boxes of the chart.
#[derive(Debug, Clone, Copy, PartialEq, Eq)]
pub enum StitchText {
    /// Nothing.
    NoText,
    /// The letter of the stitch's thread.
    Thread,
    /// The lengths of the runs of one colour.
    Runs,
    /// Row numbers where the colour changes.
    Ruler,
}

/// What a fabric is made to: its size, its gauge and its links.
#[derive(Clone, Debug)]
pub struct Dimensions {
    /// The number of stitches in a row.
    pub stitches: u16,
    /// Stitches in 10 cm.
    pub gauge_stitches: Ratio,
    /// Rows in 10 cm.
    pub gauge_rows: Ratio,
    /// The length of yarn that one stitch takes, in cm, where it is known.
    pub cm_per_stitch: Option<Ratio>,
    /// How many rows of the fabric each row of the image becomes: 1 for
    /// stockinette, 2 for garter stitch.
    pub duplicate_rows: u16,
    /// Whether a link may join stitches that are not neighbours.
    pub allow_link_gaps: bool,
    pub links: Vec<Link>,
    pub stitch_text: StitchText,
    /// Whether the chart lists the stitches of each thread.
    pub show_thread_counts: bool,
    /// Whether the chart lists the stitches of each colour.
    pub show_color_counts: bool,
}

impl Dimensions {
    /// The numbers are such as a fabric can be made to.
    pub open spec fn wf(&self) -> bool {
        &&& self.stitches >= 1
        &&& self.duplicate_rows >= 1
        &&& self.gauge_stitches.positive()
        &&& self.gauge_rows.positive()
        &&& self.cm_per_stitch matches Some(length) ==> length.positive()
    }
}

impl Dimensions {
    /// Whether the numbers are such as a fabric can be made to.
    pub fn is_wf(&self) -> (ok: bool)
        ensures
            ok == self.wf(),
    {
        self.stitches >= 1 && self.duplicate_rows >= 1 && self.gauge_stitches.num > 0
            && self.gauge_stitches.den > 0 && self.gauge_rows.num > 0 && self.gauge_rows.den > 0
            && match self.cm_per_stitch {
            Some(length) => length.num > 0 && length.den > 0,
            None => true,
        }
    }
}

impl Default for Dimensions {
    fn default() -> (d: Dimensions)
        ensures
            d.stitches == 22,
            d.gauge_stitches == (Ratio { num: 22, den: 1 }),
            d.gauge_rows == (Ratio { num: 30, den: 1 }),
            d.cm_per_stitch is None,
            d.duplicate_rows == 1,
            !d.allow_link_gaps,
            d.links@ == Seq::<Link>::empty(),
            d.stitch_text == StitchText::Thread,
            d.show_thread_counts,
            !d.show_color_counts,
            d.wf(),
    {
        Dimensions {
            stitches: 22,
            gauge_stitches: Ratio { num: 22, den: 1 },
            gauge_rows: Ratio { num: 30, den: 1 },
            cm_per_stitch: None,
            duplicate_rows: 1,
            allow_link_gaps: false,
            links: Vec::new(),
            stitch_text: StitchText::Thread,
            show_thread_counts: true,
            show_color_counts: false,
        }
    }
}

} // verus!
