//! Configuration values and the hexadecimal colour notation they are read from.

use vstd::hash_map::StringHashMap;
use vstd::prelude::*;

use crate::text::decimal_digits;
use crate::text::push_char;
use crate::text::push_decimal;

verus! {

/// A table from names to colours.
pub type ColorTable = StringHashMap<RGBColor>;

/// What the program is set up with.
pub struct Config {
    /// Where the device is mounted.
    pub side: Side,
    /// The colour of a window whose class has none of its own.
    pub default_color: RGBColor,
    /// The colour of each application class.
    pub class_colors: ColorTable,
    /// Colours by window title; held, and not yet read by anything.
    pub title_colors: ColorTable,
}

impl Config {
    /// The colour of `class`: its entry in the table of classes, or the
    /// default colour where it has none.
    pub open spec fn spec_resolve(&self, class: Seq<char>) -> RGBColor {
        if self.class_colors@.contains_key(class) {
            self.class_colors@[class]
        } else {
            self.default_color
        }
    }

    /// Looks up the colour of an application class. The class is matched as
    /// it stands, character by character.
    pub fn resolve(&self, class: &str) -> (color: RGBColor)
        ensures
            color == self.spec_resolve(class@),
    {
        match self.class_colors.get(class) {
            Some(color) => *color,
            None => self.default_color,
        }
    }
}

/// The edge of the desk against which the device is mounted.
#[derive(Debug, Clone, Copy, PartialEq, Eq, Structural)]
pub enum Side {
    Bottom,
    Top,
    Left,
    Right,
}

impl Default for Side {
    fn default() -> (side: Side)
        ensures
            side == Side::Bottom,
    {
        Side::Bottom
    }
}

/// A colour as the device takes it: red, green and blue.
#[derive(Debug, Clone, Copy, PartialEq, Eq, Structural)]
pub struct RGBColor(pub u8, pub u8, pub u8);

impl RGBColor {
    pub fn new(red: u8, green: u8, blue: u8) -> (color: RGBColor)
        ensures
            color == RGBColor(red, green, blue),
    {
        RGBColor(red, green, blue)
    }
}

impl Default for RGBColor {
    /// Black.
    fn default() -> (color: RGBColor)
        ensures
            color == RGBColor(0, 0, 0),
    {
        RGBColor(0, 0, 0)
    }
}

/// Why a piece of hexadecimal text was refused.
#[derive(Debug, Clone, Copy, PartialEq, Eq, Structural)]
pub enum ParseHexError {
    InvalidCharacter { character: char, index: usize },
    InvalidLength,
}

impl ParseHexError {
    /// The words in which the error is reported: a refused character is
    /// named, between quotes, with its position counted from zero.
    pub open spec fn spec_message(&self) -> Seq<char> {
        match *self {
            ParseHexError::InvalidCharacter { character, index } => "invalid character '"@
                + seq![character] + "' at position "@ + decimal_digits(index as nat),
            ParseHexError::InvalidLength => "invalid length, must be six characters"@,
        }
    }

    /// Words the error for a reader.
    pub fn message(&self) -> (text: String)
        ensures
            text@ == self.spec_message(),
    {
        match self {
            ParseHexError::InvalidCharacter { character, index } => {
                let mut text = String::from_str("invalid character '");
                push_char(&mut text, *character);
                text.append("' at position ");
                push_decimal(&mut text, *index as u64);
                assert(text@ =~= self.spec_message());
                text
            },
            ParseHexError::InvalidLength => String::from_str("invalid length, must be six characters"),
        }
    }
}

/// Whether `c` is one of `0-9`, `A-F`, `a-f`.
pub open spec fn is_hex_digit(c: char) -> bool {
    ('0' <= c && c <= '9') || ('A' <= c && c <= 'F') || ('a' <= c && c <= 'f')
}

/// The value of a hexadecimal digit; 0 for any other character.
pub open spec fn hex_digit_value(c: char) -> nat {
    if '0' <= c && c <= '9' {
        (c as nat - '0' as nat) as nat
    } else if 'A' <= c && c <= 'F' {
        (c as nat - 'A' as nat + 10) as nat
    } else if 'a' <= c && c <= 'f' {
        (c as nat - 'a' as nat + 10) as nat
    } else {
        0
    }
}

fn hex_digit(c: char) -> (v: Option<u8>)
    ensures
        v is Some <==> is_hex_digit(c),
        v matches Some(d) ==> d == hex_digit_value(c),
{
    if '0' <= c && c <= '9' {
        Some((c as u32 - '0' as u32) as u8)
    } else if 'A' <= c && c <= 'F' {
        Some((c as u32 - 'A' as u32 + 10) as u8)
    } else if 'a' <= c && c <= 'f' {
        Some((c as u32 - 'a' as u32 + 10) as u8)
    } else {
        None
    }
}

/// The index of the first character of `s` that is no hexadecimal digit, or
/// the length of `s` where every character is one.
pub open spec fn first_invalid(s: Seq<char>) -> nat
    decreases s.len(),
{
    if s.len() == 0 || !is_hex_digit(s[0]) {
        0
    } else {
        1 + first_invalid(s.drop_first())
    }
}

/// The number that the digits of `s` write in base sixteen, most significant
/// digit first.
pub open spec fn hex_value(s: Seq<char>) -> nat
    decreases s.len(),
{
    if s.len() == 0 {
        0
    } else {
        16 * hex_value(s.drop_last()) + hex_digit_value(s.last())
    }
}

/// What parsing `s` as one byte gives: text of more than two characters has
/// the wrong length; otherwise the first character that is no hexadecimal
/// digit is reported with its position; otherwise the value of the digits.
pub open spec fn spec_parse_hex(s: Seq<char>) -> Result<u8, ParseHexError> {
    if s.len() > 2 {
        Err(ParseHexError::InvalidLength)
    } else if first_invalid(s) < s.len() {
        Err(
            ParseHexError::InvalidCharacter {
                character: s[first_invalid(s) as int],
                index: first_invalid(s) as usize,
            },
        )
    } else {
        Ok(hex_value(s) as u8)
    }
}

/// `first_invalid` is at most the length, every character before it is a
/// digit, and the character at it, if any, is none.
pub proof fn lemma_first_invalid(s: Seq<char>)
    ensures
        first_invalid(s) <= s.len(),
        forall|i: int| 0 <= i < first_invalid(s) ==> is_hex_digit(#[trigger] s[i]),
        first_invalid(s) < s.len() ==> !is_hex_digit(s[first_invalid(s) as int]),
    decreases s.len(),
{
    if s.len() == 0 || !is_hex_digit(s[0]) {
    } else {
        let t = s.drop_first();
        lemma_first_invalid(t);
        assert forall|i: int| 0 <= i < first_invalid(s) implies is_hex_digit(#[trigger] s[i]) by {
            if i > 0 {
                assert(s[i] == t[i - 1]);
            }
        }
    }
}

/// Where the first `n` characters of `s` are digits and the next is not,
/// `first_invalid(s)` is `n`; where all are digits, it is the length.
pub proof fn lemma_first_invalid_is(s: Seq<char>, n: nat)
    requires
        n <= s.len(),
        forall|i: int| 0 <= i < n ==> is_hex_digit(#[trigger] s[i]),
        n < s.len() ==> !is_hex_digit(s[n as int]),
    ensures
        first_invalid(s) == n,
    decreases s.len(),
{
    if n == 0 {
    } else {
        let t = s.drop_first();
        assert(is_hex_digit(s[0]));
        assert forall|i: int| 0 <= i < n - 1 implies is_hex_digit(#[trigger] t[i]) by {
            assert(t[i] == s[i + 1]);
        }
        lemma_first_invalid_is(t, (n - 1) as nat);
    }
}

/// Parses at most two hexadecimal digits as one byte.
pub fn parse_hex(s: &str) -> (r: Result<u8, ParseHexError>)
    ensures
        r == spec_parse_hex(s@),
{
    let len: usize = s.unicode_len();
    if len > 2 {
        return Err(ParseHexError::InvalidLength);
    }
    let mut value: u8 = 0;
    let mut i: usize = 0;
    while i < len
        invariant
            len == s@.len(),
            len <= 2,
            i <= len,
            forall|j: int| 0 <= j < i ==> is_hex_digit(#[trigger] s@[j]),
            value == hex_value(s@.take(i as int)),
            i == 0 ==> value == 0,
            i == 1 ==> value < 16,
        decreases len - i,
    {
        let character: char = s.get_char(i);
        match hex_digit(character) {
            Some(v) => {
                proof {
                    let t = s@.take(i + 1);
                    assert(t.drop_last() == s@.take(i as int));
                    assert(t.last() == character);
                    if i == 0 {
                        assert(s@.take(0).len() == 0);
                    }
                }
                value = value * 16 + v;
            },
            None => {
                proof {
                    lemma_first_invalid_is(s@, i as nat);
                }
                return Err(ParseHexError::InvalidCharacter { character, index: i });
            },
        }
        i = i + 1;
    }
    proof {
        lemma_first_invalid_is(s@, len as nat);
        assert(s@.take(len as int) == s@);
    }
    Ok(value)
}

/// What parsing `s` as a colour gives: text of other than six characters has
/// the wrong length; otherwise the first character that is no hexadecimal
/// digit is reported with its position in `s`; otherwise each pair of digits
/// is one component, in the order red, green, blue.
pub open spec fn spec_parse_hex_color(s: Seq<char>) -> Result<RGBColor, ParseHexError> {
    if s.len() != 6 {
        Err(ParseHexError::InvalidLength)
    } else if first_invalid(s) < s.len() {
        Err(
            ParseHexError::InvalidCharacter {
                character: s[first_invalid(s) as int],
                index: first_invalid(s) as usize,
            },
        )
    } else {
        Ok(
            RGBColor(
                hex_value(s.subrange(0, 2)) as u8,
                hex_value(s.subrange(2, 4)) as u8,
                hex_value(s.subrange(4, 6)) as u8,
            ),
        )
    }
}

/// The upper-case hexadecimal digit of value `d`.
pub open spec fn hex_digit_char(d: nat) -> char {
    if d < 10 {
        (('0' as u8) + d) as u8 as char
    } else {
        (('A' as u8) + d - 10) as u8 as char
    }
}

/// A hexadecimal digit in upper case; any other character as it is.
pub open spec fn upper_hex(c: char) -> char {
    if 'a' <= c && c <= 'f' {
        ((c as u8) - ('a' as u8) + ('A' as u8)) as u8 as char
    } else {
        c
    }
}

/// The six upper-case hexadecimal digits that write `color`.
pub open spec fn color_hex(color: RGBColor) -> Seq<char> {
    seq![
        hex_digit_char(color.0 as nat / 16),
        hex_digit_char(color.0 as nat % 16),
        hex_digit_char(color.1 as nat / 16),
        hex_digit_char(color.1 as nat % 16),
        hex_digit_char(color.2 as nat / 16),
        hex_digit_char(color.2 as nat % 16),
    ]
}

/// A digit written and read again is the same digit.
proof fn lemma_hex_digit_char(d: nat)
    requires
        d < 16,
    ensures
        is_hex_digit(hex_digit_char(d)),
        hex_digit_value(hex_digit_char(d)) == d,
{
}

/// A digit read and written again is the same digit in upper case.
proof fn lemma_hex_digit_value(c: char)
    requires
        is_hex_digit(c),
    ensures
        hex_digit_value(c) < 16,
        hex_digit_char(hex_digit_value(c)) == upper_hex(c),
{
}

/// Writing a colour in hexadecimal and parsing the text gives the colour
/// back.
pub proof fn lemma_parse_of_color_hex(color: RGBColor)
    ensures
        spec_parse_hex_color(color_hex(color)) == Ok::<_, ParseHexError>(color),
{
    let s = color_hex(color);
    lemma_hex_digit_char(color.0 as nat / 16);
    lemma_hex_digit_char(color.0 as nat % 16);
    lemma_hex_digit_char(color.1 as nat / 16);
    lemma_hex_digit_char(color.1 as nat % 16);
    lemma_hex_digit_char(color.2 as nat / 16);
    lemma_hex_digit_char(color.2 as nat % 16);
    lemma_first_invalid_is(s, 6);
    lemma_hex_value_pair(s.subrange(0, 2));
    lemma_hex_value_pair(s.subrange(2, 4));
    lemma_hex_value_pair(s.subrange(4, 6));
}

/// Text of six hexadecimal digits parses to a colour, and that colour
/// written in hexadecimal is the text again, up to the case of its letters.
pub proof fn lemma_color_hex_of_parse(s: Seq<char>)
    requires
        s.len() == 6,
        forall|i: int| 0 <= i < 6 ==> is_hex_digit(#[trigger] s[i]),
    ensures
        spec_parse_hex_color(s) is Ok,
        color_hex(spec_parse_hex_color(s)->Ok_0) == s.map_values(|c: char| upper_hex(c)),
{
    lemma_first_invalid_is(s, 6);
    lemma_hex_value_pair(s.subrange(0, 2));
    lemma_hex_value_pair(s.subrange(2, 4));
    lemma_hex_value_pair(s.subrange(4, 6));
    lemma_hex_digit_value(s[0]);
    lemma_hex_digit_value(s[1]);
    lemma_hex_digit_value(s[2]);
    lemma_hex_digit_value(s[3]);
    lemma_hex_digit_value(s[4]);
    lemma_hex_digit_value(s[5]);
    assert(color_hex(spec_parse_hex_color(s)->Ok_0) =~= s.map_values(|c: char| upper_hex(c)));
}

/// Two hexadecimal digits write a number below 256.
pub proof fn lemma_hex_value_pair(s: Seq<char>)
    requires
        s.len() == 2,
    ensures
        hex_value(s) == 16 * hex_digit_value(s[0]) + hex_digit_value(s[1]),
        hex_value(s) < 256,
{
    let t = s.drop_last();
    assert(t.len() == 1);
    assert(t.last() == s[0]);
    assert(t.drop_last().len() == 0);
    assert(hex_value(t.drop_last()) == 0);
    assert(hex_value(t) == hex_digit_value(s[0]));
}

/// Parses one pair of digits of a colour; `offset` is where the pair starts
/// in the whole text, so that a refused character is reported by its
/// position there.
fn parse_component(s: &str, offset: usize) -> (r: Result<u8, ParseHexError>)
    requires
        s@.len() == 6,
        offset + 2 <= 6,
        forall|j: int| 0 <= j < offset ==> is_hex_digit(#[trigger] s@[j]),
    ensures
        r matches Ok(v) ==> {
            &&& v == hex_value(s@.subrange(offset as int, offset + 2))
            &&& forall|j: int| 0 <= j < offset + 2 ==> is_hex_digit(#[trigger] s@[j])
        },
        r matches Err(e) ==> {
            &&& first_invalid(s@) < offset + 2
            &&& e == (ParseHexError::InvalidCharacter {
                character: s@[first_invalid(s@) as int],
                index: first_invalid(s@) as usize,
            })
        },
{
    let pair = s.substring_char(offset, offset + 2);
    proof {
        lemma_first_invalid(pair@);
        lemma_hex_value_pair(pair@);
    }
    match parse_hex(pair) {
        Ok(v) => {
            assert forall|j: int| 0 <= j < offset + 2 implies is_hex_digit(#[trigger] s@[j]) by {
                if j >= offset {
                    assert(s@[j] == pair@[j - offset]);
                }
            }
            Ok(v)
        },
        Err(ParseHexError::InvalidCharacter { character, index }) => {
            proof {
                let k = first_invalid(pair@);
                assert forall|j: int| 0 <= j < offset + k implies is_hex_digit(#[trigger] s@[j]) by {
                    if j >= offset {
                        assert(s@[j] == pair@[j - offset]);
                    }
                }
                assert(s@[offset + k] == pair@[k as int]);
                lemma_first_invalid_is(s@, (offset + k) as nat);
            }
            Err(ParseHexError::InvalidCharacter { character, index: offset + index })
        },
        Err(ParseHexError::InvalidLength) => {
            proof {
                assert(false);
            }
            Err(ParseHexError::InvalidLength)
        },
    }
}

/// Parses six hexadecimal digits as a colour.
pub fn parse_hex_color(s: &str) -> (r: Result<RGBColor, ParseHexError>)
    ensures
        r == spec_parse_hex_color(s@),
{
    if s.unicode_len() != 6 {
        return Err(ParseHexError::InvalidLength);
    }
    let red = match parse_component(s, 0) {
        Ok(v) => v,
        Err(e) => { return Err(e); },
    };
    let green = match parse_component(s, 2) {
        Ok(v) => v,
        Err(e) => { return Err(e); },
    };
    let blue = match parse_component(s, 4) {
        Ok(v) => v,
        Err(e) => { return Err(e); },
    };
    proof {
        lemma_first_invalid_is(s@, 6);
    }
    Ok(RGBColor(red, green, blue))
}

/// Reads a colour from the text that a configuration gives for it.
pub fn deserialize_color(text: &str) -> (r: Result<RGBColor, ParseHexError>)
    ensures
        r == spec_parse_hex_color(text@),
{
    parse_hex_color(text)
}

/// The index of the first entry of `entries` whose text is no colour, or
/// the length of `entries` where every text is one.
pub open spec fn first_malformed(entries: Seq<(String, String)>) -> nat
    decreases entries.len(),
{
    if entries.len() == 0 || spec_parse_hex_color(entries[0].1@) is Err {
        0
    } else {
        1 + first_malformed(entries.drop_first())
    }
}

/// The table that `entries` write: each name with the colour that its text
/// parses to; of two entries with one name the later one stays.
pub open spec fn color_table(entries: Seq<(String, String)>) -> Map<Seq<char>, RGBColor>
    decreases entries.len(),
{
    if entries.len() == 0 {
        Map::empty()
    } else {
        color_table(entries.drop_last()).insert(
            entries.last().0@,
            spec_parse_hex_color(entries.last().1@)->Ok_0,
        )
    }
}

/// What reading `entries` as a table gives: the error of the first text that
/// is no colour, or the table where there is none.
pub open spec fn spec_deserialize_map(entries: Seq<(String, String)>) -> Result<
    Map<Seq<char>, RGBColor>,
    ParseHexError,
> {
    if first_malformed(entries) < entries.len() {
        Err(spec_parse_hex_color(entries[first_malformed(entries) as int].1@)->Err_0)
    } else {
        Ok(color_table(entries))
    }
}

/// Where the first `n` texts are colours and the next is not,
/// `first_malformed` is `n`; where all are, it is the length.
proof fn lemma_first_malformed_is(entries: Seq<(String, String)>, n: nat)
    requires
        n <= entries.len(),
        forall|i: int| 0 <= i < n ==> spec_parse_hex_color((#[trigger] entries[i]).1@) is Ok,
        n < entries.len() ==> spec_parse_hex_color(entries[n as int].1@) is Err,
    ensures
        first_malformed(entries) == n,
    decreases entries.len(),
{
    if n > 0 {
        let rest = entries.drop_first();
        assert(spec_parse_hex_color(entries[0].1@) is Ok);
        assert forall|i: int| 0 <= i < n - 1 implies spec_parse_hex_color(
            (#[trigger] rest[i]).1@,
        ) is Ok by {
            assert(rest[i] == entries[i + 1]);
        }
        lemma_first_malformed_is(rest, (n - 1) as nat);
    }
}

/// Reads a table of colours from the names and texts that a configuration
/// gives for it. One text that is no colour refuses the whole table.
pub fn deserialize_map(entries: Vec<(String, String)>) -> (r: Result<ColorTable, ParseHexError>)
    ensures
        r matches Ok(table) ==> spec_deserialize_map(entries@) == Ok::<_, ParseHexError>(table@),
        r matches Err(e) ==> spec_deserialize_map(entries@) == Err::<Map<Seq<char>, RGBColor>, _>(e),
{
    let mut table: ColorTable = StringHashMap::new();
    let mut i: usize = 0;
    while i < entries.len()
        invariant
            i <= entries@.len(),
            forall|j: int| 0 <= j < i ==> spec_parse_hex_color((#[trigger] entries@[j]).1@) is Ok,
            table@ == color_table(entries@.take(i as int)),
        decreases entries@.len() - i,
    {
        match parse_hex_color(entries[i].1.as_str()) {
            Ok(color) => {
                proof {
                    let done = entries@.take(i + 1);
                    assert(done.drop_last() == entries@.take(i as int));
                    assert(done.last() == entries@[i as int]);
                }
                table.insert(entries[i].0.clone(), color);
            },
            Err(e) => {
                proof {
                    lemma_first_malformed_is(entries@, i as nat);
                }
                return Err(e);
            },
        }
        i = i + 1;
    }
    proof {
        lemma_first_malformed_is(entries@, entries@.len());
        assert(entries@.take(entries@.len() as int) == entries@);
    }
    Ok(table)
}

} // verus!
