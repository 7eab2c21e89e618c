//! The configuration text that names the serial device and lists the ROM
//! codes of the sensors to read.

use vstd::prelude::*;
use vstd::slice::slice_to_vec;
use crate::search::rom_list;

verus! {

/// The serial device used where the configuration names none.
pub const DEFAULT_DEVICE: [u8; 12] = [
    0x2F, 0x64, 0x65, 0x76, 0x2F, 0x74, 0x74, 0x79, 0x55, 0x53, 0x42, 0x30,
];

/// What a configuration text says.
#[derive(Debug, PartialEq, Eq)]
pub struct Config {
    /// The path of the serial device.
    pub device_path: Vec<u8>,
    /// The ROM codes of the sensors, in the order listed.
    pub sensors: Vec<[u8; 8]>,
}

/// A `Config` with its sequences as mathematical values.
pub struct ConfigView {
    pub device_path: Seq<u8>,
    pub sensors: Seq<Seq<u8>>,
}

impl View for Config {
    type V = ConfigView;

    open spec fn view(&self) -> ConfigView {
        ConfigView { device_path: self.device_path@, sensors: rom_list(self.sensors@) }
    }
}

/// An ASCII whitespace byte: space, tab, line feed, vertical tab, form
/// feed or carriage return.
pub open spec fn is_space(byte: u8) -> bool {
    byte == 0x20 || (0x09 <= byte && byte <= 0x0D)
}

/// The byte ends a field: a line feed between lines, any whitespace
/// between the words of a line.
pub open spec fn separates(byte: u8, lines: bool) -> bool {
    if lines {
        byte == 0x0A
    } else {
        is_space(byte)
    }
}

/// The fields of a text: its maximal runs of bytes that do not separate.
/// With `lines` these are the text's lines that are not empty, without it
/// the words of a line.
pub open spec fn split(text: Seq<u8>, lines: bool) -> Seq<Seq<u8>>
    decreases text.len(),
{
    if text.len() == 0 {
        Seq::empty()
    } else {
        let before = split(text.drop_last(), lines);
        if separates(text.last(), lines) {
            before
        } else if text.len() >= 2 && !separates(text[text.len() - 2], lines) {
            before.drop_last().push(before.last().push(text.last()))
        } else {
            before.push(seq![text.last()])
        }
    }
}

/// No field is empty and none holds a byte that separates.
pub proof fn lemma_fields_are_runs(text: Seq<u8>, lines: bool)
    ensures
        forall|i: int, k: int|
            0 <= i < split(text, lines).len() && 0 <= k < split(text, lines)[i].len()
                ==> !separates(#[trigger] split(text, lines)[i][k], lines),
        forall|i: int| 0 <= i < split(text, lines).len() ==> (#[trigger] split(text, lines)[i]).len() > 0,
        text.len() > 0 && !separates(text.last(), lines) ==> split(text, lines).len() > 0,
    decreases text.len(),
{
    if text.len() > 0 {
        let before = split(text.drop_last(), lines);
        let after = split(text, lines);
        lemma_fields_are_runs(text.drop_last(), lines);
        if !separates(text.last(), lines) {
            if text.len() >= 2 && !separates(text[text.len() - 2], lines) {
                assert(text.drop_last().last() == text[text.len() - 2]);
                assert(before.len() > 0);
                assert forall|i: int, k: int| 0 <= i < after.len() && 0 <= k < after[i].len() implies !separates(
                    #[trigger] after[i][k],
                    lines,
                ) by {
                    if i < after.len() - 1 {
                        assert(after[i] == before[i]);
                    } else if k < after[i].len() - 1 {
                        assert(after[i][k] == before.last()[k]);
                    }
                }
            } else {
                assert forall|i: int, k: int| 0 <= i < after.len() && 0 <= k < after[i].len() implies !separates(
                    #[trigger] after[i][k],
                    lines,
                ) by {
                    if i < after.len() - 1 {
                        assert(after[i] == before[i]);
                    }
                }
            }
        }
    }
}

/// A list of byte vectors as a sequence of byte sequences.
pub open spec fn field_list(fields: Seq<Vec<u8>>) -> Seq<Seq<u8>> {
    Seq::new(fields.len(), |i: int| fields[i]@)
}

/// `text` begins with the three bytes given.
pub open spec fn begins_with(text: Seq<u8>, a: u8, b: u8, c: u8) -> bool {
    text.len() >= 3 && text[0] == a && text[1] == b && text[2] == c
}

/// A word without any leading "0x", however often repeated.
pub open spec fn without_prefix(word: Seq<u8>) -> Seq<u8>
    decreases word.len(),
{
    if word.len() >= 2 && word[0] == 0x30 && word[1] == 0x78 {
        without_prefix(word.skip(2))
    } else {
        word
    }
}

/// The value of a hexadecimal digit, in either case.
pub open spec fn hex_digit(byte: u8) -> Option<int> {
    if 0x30 <= byte && byte <= 0x39 {
        Some(byte - 0x30)
    } else if 0x41 <= byte && byte <= 0x46 {
        Some(byte - 0x41 + 10)
    } else if 0x61 <= byte && byte <= 0x66 {
        Some(byte - 0x61 + 10)
    } else {
        None
    }
}

/// Every byte is a hexadecimal digit.
pub open spec fn all_hex(digits: Seq<u8>) -> bool {
    forall|i: int| 0 <= i < digits.len() ==> (#[trigger] hex_digit(digits[i])) is Some
}

/// The number that a run of hexadecimal digits writes.
pub open spec fn hex_value(digits: Seq<u8>) -> int
    decreases digits.len(),
{
    if digits.len() == 0 {
        0
    } else {
        16 * hex_value(digits.drop_last()) + match hex_digit(digits.last()) {
            Some(value) => value,
            None => 0,
        }
    }
}

/// The digits of a number word: the word without one leading plus sign.
pub open spec fn number_digits(word: Seq<u8>) -> Seq<u8> {
    if word.len() >= 1 && word[0] == 0x2B {
        word.skip(1)
    } else {
        word
    }
}

/// The byte that a word writes in hexadecimal: at least one digit, after an
/// optional plus sign, and a value that fits; `None` for any other word.
pub open spec fn hex_byte(word: Seq<u8>) -> Option<u8> {
    let digits = number_digits(word);
    if digits.len() >= 1 && all_hex(digits) && hex_value(digits) <= 255 {
        Some(hex_value(digits) as u8)
    } else {
        None
    }
}

/// Byte `index` of the code that a ROM line lists: the value of word
/// `index + 2`, or zero where that word writes no byte.
pub open spec fn listed_byte(words: Seq<Seq<u8>>, index: int) -> u8 {
    match hex_byte(without_prefix(words[index + 2])) {
        Some(byte) => byte,
        None => 0,
    }
}

/// The code that a ROM line lists.
pub open spec fn listed_rom(words: Seq<Seq<u8>>) -> Seq<u8> {
    Seq::new(8, |i: int| listed_byte(words, i))
}

/// The configuration after one more line. A line that begins with "TTY"
/// and has a second word names the device; a line that begins with "ROM"
/// and has ten words lists a sensor; any other line says nothing.
pub open spec fn after_line(config: ConfigView, line: Seq<u8>) -> ConfigView {
    let words = split(line, false);
    if begins_with(line, 0x54, 0x54, 0x59) {
        if words.len() >= 2 {
            ConfigView { device_path: words[1], ..config }
        } else {
            config
        }
    } else if begins_with(line, 0x52, 0x4F, 0x4D) {
        if words.len() >= 10 {
            ConfigView { sensors: config.sensors.push(listed_rom(words)), ..config }
        } else {
            config
        }
    } else {
        config
    }
}

/// The configuration after the first `count` of `lines`.
pub open spec fn after_lines(lines: Seq<Seq<u8>>, count: int) -> ConfigView
    decreases count,
{
    if count <= 0 {
        ConfigView { device_path: DEFAULT_DEVICE@, sensors: Seq::empty() }
    } else {
        after_line(after_lines(lines, count - 1), lines[count - 1])
    }
}

/// What a configuration text says: the default device and no sensors,
/// changed by each line in turn.
pub open spec fn parsed(text: Seq<u8>) -> ConfigView {
    after_lines(split(text, true), split(text, true).len() as int)
}

fn is_separator(byte: u8, lines: bool) -> (yes: bool)
    ensures
        yes == separates(byte, lines),
{
    if lines {
        byte == 0x0A
    } else {
        byte == 0x20 || (0x09 <= byte && byte <= 0x0D)
    }
}

/// Splits a text into its lines that are not empty, or a line into its words.
pub fn split_fields(text: &[u8], lines: bool) -> (fields: Vec<Vec<u8>>)
    ensures
        field_list(fields@) == split(text@, lines),
{
    let mut fields: Vec<Vec<u8>> = Vec::new();
    let mut current: Vec<u8> = Vec::new();
    let mut inside = false;
    let mut i: usize = 0;
    assert(field_list(fields@) =~= Seq::<Seq<u8>>::empty());
    assert(text@.take(0) =~= Seq::<u8>::empty());
    while i < text.len()
        invariant
            i <= text.len(),
            inside == (i > 0 && !separates(text@[i - 1], lines)),
            !inside ==> current@.len() == 0,
            split(text@.take(i as int), lines) == (if inside {
                field_list(fields@).push(current@)
            } else {
                field_list(fields@)
            }),
        decreases text.len() - i,
    {
        let byte = text[i];
        let ghost before = split(text@.take(i as int), lines);
        proof {
            let upto = text@.take(i + 1);
            assert(upto.drop_last() =~= text@.take(i as int));
            assert(upto.last() == byte);
            if i > 0 {
                assert(upto[upto.len() - 2] == text@[i - 1]);
            }
        }
        if is_separator(byte, lines) {
            if inside {
                let ghost listed = field_list(fields@);
                fields.push(current);
                assert(field_list(fields@) =~= listed.push(current@));
                current = Vec::new();
                inside = false;
            }
        } else {
            let ghost word = current@;
            current.push(byte);
            proof {
                if inside {
                    assert(before.drop_last() =~= field_list(fields@));
                    assert(before.last().push(byte) =~= current@);
                } else {
                    assert(current@ =~= seq![byte]);
                }
            }
            inside = true;
        }
        i += 1;
    }
    assert(text@.take(text.len() as int) =~= text@);
    if inside {
        let ghost listed = field_list(fields@);
        fields.push(current);
        assert(field_list(fields@) =~= listed.push(current@));
    }
    fields
}

/// Drops every leading "0x" of a word; returns where the rest begins.
fn prefix_end(word: &[u8]) -> (start: usize)
    ensures
        start <= word.len(),
        word@.skip(start as int) == without_prefix(word@),
{
    let mut start: usize = 0;
    assert(word@.skip(0) =~= word@);
    while word.len() - start >= 2 && word[start] == 0x30 && word[start + 1] == 0x78
        invariant
            start <= word.len(),
            without_prefix(word@.skip(start as int)) == without_prefix(word@),
        decreases word.len() - start,
    {
        assert(word@.skip(start as int).skip(2) =~= word@.skip(start + 2));
        start += 2;
    }
    start
}

fn digit_value(byte: u8) -> (value: Option<u32>)
    ensures
        match value {
            Some(v) => hex_digit(byte) == Some(v as int) && v < 16,
            None => hex_digit(byte) is None,
        },
{
    if 0x30 <= byte && byte <= 0x39 {
        Some((byte - 0x30) as u32)
    } else if 0x41 <= byte && byte <= 0x46 {
        Some((byte - 0x41 + 10) as u32)
    } else if 0x61 <= byte && byte <= 0x66 {
        Some((byte - 0x61 + 10) as u32)
    } else {
        None
    }
}

/// More digits never write a smaller number.
proof fn lemma_hex_value_grows(digits: Seq<u8>, count: int)
    requires
        0 <= count <= digits.len(),
    ensures
        0 <= hex_value(digits.take(count)) <= hex_value(digits),
    decreases digits.len() - count,
{
    lemma_hex_value_not_negative(digits.take(count));
    if count < digits.len() {
        lemma_hex_value_grows(digits, count + 1);
        assert(digits.take(count + 1).drop_last() =~= digits.take(count));
    } else {
        assert(digits.take(count) =~= digits);
    }
}

proof fn lemma_hex_value_not_negative(digits: Seq<u8>)
    ensures
        0 <= hex_value(digits),
    decreases digits.len(),
{
    if digits.len() > 0 {
        lemma_hex_value_not_negative(digits.drop_last());
    }
}

/// Reads the byte that `word[start..]` writes in hexadecimal.
pub fn parse_hex_byte(word: &[u8], start: usize) -> (byte: Option<u8>)
    requires
        start <= word.len(),
    ensures
        byte == hex_byte(word@.skip(start as int)),
{
    let ghost rest = word@.skip(start as int);
    let first = if word.len() - start >= 1 && word[start] == 0x2B {
        start + 1
    } else {
        start
    };
    let ghost digits = number_digits(rest);
    assert(digits =~= word@.skip(first as int));
    if first == word.len() {
        return None;
    }
    let mut value: u32 = 0;
    let mut i: usize = first;
    assert(digits.take(0) =~= Seq::<u8>::empty());
    while i < word.len()
        invariant
            first <= i <= word.len(),
            start <= word.len(),
            digits == word@.skip(first as int),
            digits == number_digits(word@.skip(start as int)),
            all_hex(digits.take(i - first)),
            value == hex_value(digits.take(i - first)),
            value <= 255,
        decreases word.len() - i,
    {
        let ghost upto = digits.take(i - first + 1);
        proof {
            assert(upto.drop_last() =~= digits.take(i - first));
            assert(upto.last() == word@[i as int]);
        }
        match digit_value(word[i]) {
            None => {
                assert(!all_hex(digits)) by {
                    assert(hex_digit(digits[i - first]) is None);
                }
                return None;
            },
            Some(digit) => {
                value = value * 16 + digit;
                assert(all_hex(upto)) by {
                    assert forall|k: int| 0 <= k < upto.len() implies (#[trigger] hex_digit(
                        upto[k],
                    )) is Some by {
                        if k < upto.len() - 1 {
                            assert(upto[k] == digits.take(i - first)[k]);
                        }
                    }
                }
                assert(value == hex_value(upto));
                if value > 255 {
                    proof {
                        lemma_hex_value_grows(digits, i - first + 1);
                    }
                    return None;
                }
            },
        }
        i += 1;
    }
    assert(digits.take(word.len() - first) =~= digits);
    Some(value as u8)
}

/// Reads the code that the words of a ROM line list.
fn parse_rom(words: &Vec<Vec<u8>>) -> (rom: [u8; 8])
    requires
        words@.len() >= 10,
    ensures
        rom@ == listed_rom(field_list(words@)),
{
    let mut rom: [u8; 8] = [0u8, 0, 0, 0, 0, 0, 0, 0];
    let mut i: usize = 0;
    while i < 8
        invariant
            i <= 8,
            words@.len() >= 10,
            forall|k: int| 0 <= k < i ==> rom@[k] == listed_byte(field_list(words@), k),
        decreases 8 - i,
    {
        let word = words[i + 2].as_slice();
        let start = prefix_end(word);
        let byte = match parse_hex_byte(word, start) {
            Some(byte) => byte,
            None => 0,
        };
        assert(field_list(words@)[i + 2] == word@);
        rom[i] = byte;
        i += 1;
    }
    assert(rom@ =~= listed_rom(field_list(words@)));
    rom
}

fn starts_with(line: &[u8], a: u8, b: u8, c: u8) -> (yes: bool)
    ensures
        yes == begins_with(line@, a, b, c),
{
    line.len() >= 3 && line[0] == a && line[1] == b && line[2] == c
}

/// Reads a configuration text.
pub fn parse_config(text: &[u8]) -> (config: Config)
    ensures
        config@ == parsed(text@),
{
    let lines = split_fields(text, true);
    let mut config = Config {
        device_path: slice_to_vec(DEFAULT_DEVICE.as_slice()),
        sensors: Vec::new(),
    };
    assert(rom_list(config.sensors@) =~= Seq::<Seq<u8>>::empty());
    let mut i: usize = 0;
    while i < lines.len()
        invariant
            i <= lines.len(),
            config@ == after_lines(field_list(lines@), i as int),
        decreases lines.len() - i,
    {
        let line = lines[i].as_slice();
        assert(field_list(lines@)[i as int] == line@);
        let ghost before = config@;
        if starts_with(line, 0x54, 0x54, 0x59) {
            let words = split_fields(line, false);
            if words.len() >= 2 {
                assert(field_list(words@)[1] == words@[1]@);
                config.device_path = words[1].clone();
            }
        } else if starts_with(line, 0x52, 0x4F, 0x4D) {
            let words = split_fields(line, false);
            if words.len() >= 10 {
                let rom = parse_rom(&words);
                config.sensors.push(rom);
                assert(rom_list(config.sensors@) =~= before.sensors.push(rom@));
            }
        }
        i += 1;
    }
    config
}

} // verus!
