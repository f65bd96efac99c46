//! Reading the text of a message: the members of one JSON object.
//!
//! The reader finds the members `id`, `method`, `params`, `result` and
//! `error` of the object, wherever they stand among others and however white
//! space is laid out. Every value must be a JSON value. The reader reads
//! identifiers, codes and texts, and it hands on parameters and results as
//! the bytes they are.

use vstd::prelude::*;
use vstd::utf8::{decode_utf8, encode_utf8, valid_utf8};
use crate::framing::TransportError;
use crate::message::{reads_as, envelope_kind, Envelope, EnvelopeView, ErrorBody, ErrorView, Message};

verus! {

/// Whether `b` is white space between the parts of a JSON text.
pub open spec fn is_space(b: u8) -> bool {
    b == 32 || b == 9 || b == 10 || b == 13
}

/// The first index from `i` on that holds no white space.
pub open spec fn space_end(s: Seq<u8>, i: int) -> int
    decreases s.len() - i,
{
    if 0 <= i < s.len() && is_space(s[i]) {
        space_end(s, i + 1)
    } else {
        i
    }
}

/// Where the value ends that is open at index `j`: `depth` counts the
/// brackets and braces that are open, `quoted` says whether `j` lies within
/// a string. A string at depth zero ends behind its closing quote, a nest
/// behind the bracket that closes its first. What stands within a string,
/// behind a backslash too, opens and closes nothing.
pub open spec fn nest_end(s: Seq<u8>, j: int, depth: nat, quoted: bool) -> Option<int>
    decreases s.len() - j,
{
    if j < 0 || j >= s.len() {
        None
    } else if quoted {
        if s[j] == 92 {
            if j + 2 >= s.len() {
                None
            } else {
                nest_end(s, j + 2, depth, true)
            }
        } else if s[j] == 34 {
            if depth == 0 {
                Some(j + 1)
            } else {
                nest_end(s, j + 1, depth, false)
            }
        } else {
            nest_end(s, j + 1, depth, true)
        }
    } else if s[j] == 34 {
        nest_end(s, j + 1, depth, true)
    } else if s[j] == 123 || s[j] == 91 {
        nest_end(s, j + 1, depth + 1, false)
    } else if s[j] == 125 || s[j] == 93 {
        if depth <= 1 {
            Some(j + 1)
        } else {
            nest_end(s, j + 1, (depth - 1) as nat, false)
        }
    } else {
        nest_end(s, j + 1, depth, false)
    }
}

/// Whether `b` can stand within a number or a literal name.
pub open spec fn is_plain(b: u8) -> bool {
    !is_space(b) && b != 44 && b != 125 && b != 93 && b != 58 && b != 34 && b != 123 && b != 91
}

/// The first index from `j` on that does not belong to a number or a
/// literal name.
pub open spec fn plain_end(s: Seq<u8>, j: int) -> int
    decreases s.len() - j,
{
    if 0 <= j < s.len() && is_plain(s[j]) {
        plain_end(s, j + 1)
    } else {
        j
    }
}

/// How far the value reaches that starts at index `i`, if one starts there:
/// a string to its closing quote, an object or an array to the bracket that
/// closes it, anything else to the end of its run of plain bytes.
pub open spec fn value_reach(s: Seq<u8>, i: int) -> Option<int> {
    if i < 0 || i >= s.len() {
        None
    } else if s[i] == 34 {
        nest_end(s, i + 1, 0, true)
    } else if s[i] == 123 || s[i] == 91 {
        nest_end(s, i + 1, 1, false)
    } else if plain_end(s, i) > i {
        Some(plain_end(s, i))
    } else {
        None
    }
}

/// What a JSON text may hold next.
#[derive(Clone, Copy, Debug, PartialEq, Eq, Structural)]
pub enum Expect {
    /// A value.
    Value,
    /// The first item of an array, or its closing bracket.
    FirstItem,
    /// The first key of an object, or its closing brace.
    FirstKey,
    /// A key.
    Key,
    /// The colon behind a key.
    Colon,
    /// A comma, or the bracket that closes the innermost array or object.
    Next,
    /// Nothing: the value is complete.
    Nothing,
}

/// What is expected behind a value, inside the arrays and objects of `open`.
pub open spec fn after_value(open: Seq<bool>) -> Expect {
    if open.len() == 0 {
        Expect::Nothing
    } else {
        Expect::Next
    }
}

/// Where a number stands while it is read.
#[derive(Clone, Copy, Debug, PartialEq, Eq, Structural)]
pub enum NumberPart {
    Start,
    Minus,
    Zero,
    Whole,
    Point,
    Fraction,
    Exponent,
    ExponentSign,
    ExponentDigits,
}

/// The part of a number that the byte `b` leads to from `part`, if a number
/// can go on with it.
pub open spec fn number_step(part: NumberPart, b: u8) -> Option<NumberPart> {
    let digit = 48 <= b <= 57;
    match part {
        NumberPart::Start => if b == 45 {
            Some(NumberPart::Minus)
        } else if b == 48 {
            Some(NumberPart::Zero)
        } else if digit {
            Some(NumberPart::Whole)
        } else {
            None
        },
        NumberPart::Minus => if b == 48 {
            Some(NumberPart::Zero)
        } else if digit {
            Some(NumberPart::Whole)
        } else {
            None
        },
        NumberPart::Zero => if b == 46 {
            Some(NumberPart::Point)
        } else if b == 101 || b == 69 {
            Some(NumberPart::Exponent)
        } else {
            None
        },
        NumberPart::Whole => if digit {
            Some(NumberPart::Whole)
        } else if b == 46 {
            Some(NumberPart::Point)
        } else if b == 101 || b == 69 {
            Some(NumberPart::Exponent)
        } else {
            None
        },
        NumberPart::Point => if digit {
            Some(NumberPart::Fraction)
        } else {
            None
        },
        NumberPart::Fraction => if digit {
            Some(NumberPart::Fraction)
        } else if b == 101 || b == 69 {
            Some(NumberPart::Exponent)
        } else {
            None
        },
        NumberPart::Exponent => if b == 43 || b == 45 {
            Some(NumberPart::ExponentSign)
        } else if digit {
            Some(NumberPart::ExponentDigits)
        } else {
            None
        },
        NumberPart::ExponentSign => if digit {
            Some(NumberPart::ExponentDigits)
        } else {
            None
        },
        NumberPart::ExponentDigits => if digit {
            Some(NumberPart::ExponentDigits)
        } else {
            None
        },
    }
}

/// Whether a number may end in `part`.
pub open spec fn number_done(part: NumberPart) -> bool {
    part == NumberPart::Zero || part == NumberPart::Whole || part == NumberPart::Fraction || part
        == NumberPart::ExponentDigits
}

/// Whether the bytes from `j` to `end` complete a JSON number that stands
/// in `part`.
pub open spec fn number_run(s: Seq<u8>, j: int, end: int, part: NumberPart) -> bool
    decreases end - j,
{
    if j >= end {
        number_done(part)
    } else {
        match number_step(part, s[j]) {
            Some(next) => number_run(s, j + 1, end, next),
            None => false,
        }
    }
}

/// Whether the bytes from `start` to `end` are a JSON number or one of the
/// names `true`, `false` and `null`.
pub open spec fn plain_value(s: Seq<u8>, start: int, end: int) -> bool {
    let word = s.subrange(start, end);
    word == encode_utf8("true"@) || word == encode_utf8("false"@) || word == encode_utf8(
        "null"@,
    ) || number_run(s, start, end, NumberPart::Start)
}

/// Where the string ends whose inside starts at `j`, where it is a JSON
/// string that ends before `end`.
pub open spec fn string_end(s: Seq<u8>, j: int, end: int) -> Option<int> {
    match nest_end(s, j, 0, true) {
        Some(e) => if j < e <= end && text_between(s, j, e - 1).is_some() {
            Some(e)
        } else {
            None
        },
        None => None,
    }
}

/// Whether the bytes from `j` to `end` complete a JSON value, where `open`
/// lists the arrays (`false`) and objects (`true`) that are open, the
/// innermost last, and `expect` says what may come next.
pub open spec fn json_run(s: Seq<u8>, j: int, end: int, open: Seq<bool>, expect: Expect) -> bool
    decreases end - j,
{
    if j < 0 || j >= end || end > s.len() {
        j == end && expect == Expect::Nothing
    } else if is_space(s[j]) {
        json_run(s, j + 1, end, open, expect)
    } else {
        let b = s[j];
        let closes = open.len() > 0 && ((b == 125 && open.last()) || (b == 93 && !open.last()));
        match expect {
            Expect::Value | Expect::FirstItem => if expect == Expect::FirstItem && closes {
                json_run(s, j + 1, end, open.drop_last(), after_value(open.drop_last()))
            } else if b == 34 {
                match string_end(s, j + 1, end) {
                    Some(e) => json_run(s, e, end, open, after_value(open)),
                    None => false,
                }
            } else if b == 123 {
                json_run(s, j + 1, end, open.push(true), Expect::FirstKey)
            } else if b == 91 {
                json_run(s, j + 1, end, open.push(false), Expect::FirstItem)
            } else {
                let e = plain_end(s, j);
                if j < e <= end && plain_value(s, j, e) {
                    json_run(s, e, end, open, after_value(open))
                } else {
                    false
                }
            },
            Expect::FirstKey | Expect::Key => if expect == Expect::FirstKey && closes {
                json_run(s, j + 1, end, open.drop_last(), after_value(open.drop_last()))
            } else if b == 34 {
                match string_end(s, j + 1, end) {
                    Some(e) => json_run(s, e, end, open, Expect::Colon),
                    None => false,
                }
            } else {
                false
            },
            Expect::Colon => if b == 58 {
                json_run(s, j + 1, end, open, Expect::Value)
            } else {
                false
            },
            Expect::Next => if closes {
                json_run(s, j + 1, end, open.drop_last(), after_value(open.drop_last()))
            } else if b == 44 && open.len() > 0 {
                json_run(s, j + 1, end, open, if open.last() {
                    Expect::Key
                } else {
                    Expect::Value
                })
            } else {
                false
            },
            Expect::Nothing => false,
        }
    }
}

/// Where the value that starts at index `i` ends, if a JSON value starts
/// there.
pub open spec fn value_end(s: Seq<u8>, i: int) -> Option<int> {
    match value_reach(s, i) {
        Some(e) => if i < e <= s.len() && json_run(s, i, e, Seq::empty(), Expect::Value) {
            Some(e)
        } else {
            None
        },
        None => None,
    }
}

/// The value of a hexadecimal digit.
pub open spec fn hex_value(b: u8) -> Option<int> {
    if 48 <= b <= 57 {
        Some(b - 48)
    } else if 97 <= b <= 102 {
        Some(b - 87)
    } else if 65 <= b <= 70 {
        Some(b - 55)
    } else {
        None
    }
}

/// The number that the four hexadecimal digits from index `k` on write.
pub open spec fn code_unit(s: Seq<u8>, k: int) -> Option<int> {
    match (hex_value(s[k]), hex_value(s[k + 1]), hex_value(s[k + 2]), hex_value(s[k + 3])) {
        (Some(a), Some(b), Some(c), Some(d)) => Some(a * 4096 + b * 256 + c * 16 + d),
        _ => None,
    }
}

/// The UTF-8 bytes of a character of the basic plane. A surrogate is no
/// character and has none.
pub open spec fn unit_bytes(unit: int) -> Option<Seq<u8>> {
    if unit < 128 {
        Some(seq![unit as u8])
    } else if unit < 2048 {
        Some(seq![(192 + unit / 64) as u8, (128 + unit % 64) as u8])
    } else if 55296 <= unit < 57344 {
        None
    } else {
        Some(
            seq![
                (224 + unit / 4096) as u8,
                (128 + (unit / 64) % 64) as u8,
                (128 + unit % 64) as u8,
            ],
        )
    }
}

/// The UTF-8 bytes of the character beyond the basic plane that the
/// surrogates `high` and `low` write together.
pub open spec fn pair_bytes(high: int, low: int) -> Seq<u8> {
    let scalar = 65536 + (high - 55296) * 1024 + (low - 56320);
    seq![
        (240 + scalar / 262144) as u8,
        (128 + (scalar / 4096) % 64) as u8,
        (128 + (scalar / 64) % 64) as u8,
        (128 + scalar % 64) as u8,
    ]
}

/// The byte that stands for the byte `b` behind a backslash.
pub open spec fn escape_byte(b: u8) -> Option<u8> {
    if b == 34 || b == 92 || b == 47 {
        Some(b)
    } else if b == 98 {
        Some(8u8)
    } else if b == 102 {
        Some(12u8)
    } else if b == 110 {
        Some(10u8)
    } else if b == 114 {
        Some(13u8)
    } else if b == 116 {
        Some(9u8)
    } else {
        None
    }
}

/// The bytes that the inside of a string stands for, read from index `j` to
/// `end`, behind the bytes `acc` that were read before. A control character,
/// an unknown escape, one that is cut short or a surrogate without its
/// partner make the string malformed.
pub open spec fn unescaped(s: Seq<u8>, j: int, end: int, acc: Seq<u8>) -> Option<Seq<u8>>
    decreases end - j,
{
    if j >= end {
        Some(acc)
    } else if s[j] < 32 {
        None
    } else if s[j] != 92 {
        unescaped(s, j + 1, end, acc.push(s[j]))
    } else if j + 1 >= end {
        None
    } else if s[j + 1] == 117 {
        if j + 6 > end {
            None
        } else {
            match code_unit(s, j + 2) {
                Some(unit) => if 55296 <= unit < 56320 {
                    if j + 12 > end || s[j + 6] != 92 || s[j + 7] != 117 {
                        None
                    } else {
                        match code_unit(s, j + 8) {
                            Some(low) => if 56320 <= low < 57344 {
                                unescaped(s, j + 12, end, acc + pair_bytes(unit, low))
                            } else {
                                None
                            },
                            None => None,
                        }
                    }
                } else {
                    match unit_bytes(unit) {
                        Some(bytes) => unescaped(s, j + 6, end, acc + bytes),
                        None => None,
                    }
                },
                None => None,
            }
        }
    } else {
        match escape_byte(s[j + 1]) {
            Some(b) => unescaped(s, j + 2, end, acc.push(b)),
            None => None,
        }
    }
}

/// The text of the string whose inside runs from `start` to `end`.
pub open spec fn text_between(s: Seq<u8>, start: int, end: int) -> Option<Seq<char>> {
    match unescaped(s, start, end, Seq::empty()) {
        Some(bytes) => if valid_utf8(bytes) {
            Some(decode_utf8(bytes))
        } else {
            None
        },
        None => None,
    }
}

/// The number that the decimal digits from `j` to `end` write behind those
/// that gave `acc`; none where another byte stands among them.
pub open spec fn digits_value(s: Seq<u8>, j: int, end: int, acc: nat) -> Option<nat>
    decreases end - j,
{
    if j >= end {
        Some(acc)
    } else if 48 <= s[j] <= 57 {
        digits_value(s, j + 1, end, acc * 10 + (s[j] - 48) as nat)
    } else {
        None
    }
}

/// The number that the bytes from `start` to `end` write in decimal digits,
/// of which there is at least one.
pub open spec fn natural_between(s: Seq<u8>, start: int, end: int) -> Option<nat> {
    if start >= end {
        None
    } else {
        digits_value(s, start, end, 0)
    }
}

/// The integer that the bytes from `start` to `end` write: decimal digits,
/// behind a minus sign where it is negative.
pub open spec fn integer_between(s: Seq<u8>, start: int, end: int) -> Option<int> {
    if start < end && s[start] == 45 {
        match natural_between(s, start + 1, end) {
            Some(n) => Some(-(n as int)),
            None => None,
        }
    } else {
        match natural_between(s, start, end) {
            Some(n) => Some(n as int),
            None => None,
        }
    }
}

/// A string or nest ends behind the index at which it is open, and within
/// the text.
pub proof fn lemma_nest_end_bounds(s: Seq<u8>, j: int, depth: nat, quoted: bool)
    ensures
        match nest_end(s, j, depth, quoted) {
            Some(e) => j < e <= s.len(),
            None => true,
        },
    decreases s.len() - j,
{
    if 0 <= j < s.len() {
        if quoted {
            if s[j] == 92 {
                if j + 2 < s.len() {
                    lemma_nest_end_bounds(s, j + 2, depth, true);
                }
            } else if s[j] == 34 {
                if depth != 0 {
                    lemma_nest_end_bounds(s, j + 1, depth, false);
                }
            } else {
                lemma_nest_end_bounds(s, j + 1, depth, true);
            }
        } else if s[j] == 34 {
            lemma_nest_end_bounds(s, j + 1, depth, true);
        } else if s[j] == 123 || s[j] == 91 {
            lemma_nest_end_bounds(s, j + 1, depth + 1, false);
        } else if s[j] == 125 || s[j] == 93 {
            if depth > 1 {
                lemma_nest_end_bounds(s, j + 1, (depth - 1) as nat, false);
            }
        } else {
            lemma_nest_end_bounds(s, j + 1, depth, false);
        }
    }
}

/// More digits never write less.
pub proof fn lemma_digits_grow(s: Seq<u8>, j: int, end: int, acc: nat)
    ensures
        match digits_value(s, j, end, acc) {
            Some(n) => n >= acc,
            None => true,
        },
    decreases end - j,
{
    if j < end && 48 <= s[j] <= 57 {
        lemma_digits_grow(s, j + 1, end, acc * 10 + (s[j] - 48) as nat);
    }
}

/// Skips white space.
fn skip_space(s: &[u8], i: usize) -> (res: usize)
    requires
        i <= s@.len(),
    ensures
        res == space_end(s@, i as int),
        i <= res <= s@.len(),
{
    let mut j: usize = i;
    while j < s.len() && (s[j] == 32 || s[j] == 9 || s[j] == 10 || s[j] == 13)
        invariant
            i <= j <= s@.len(),
            space_end(s@, i as int) == space_end(s@, j as int),
        decreases s@.len() - j,
    {
        j += 1;
    }
    j
}

/// Finds the end of the string or nest that is open at `start`.
fn find_nest_end(s: &[u8], start: usize, depth: usize, quoted: bool) -> (res: Option<usize>)
    requires
        start <= s@.len(),
        depth <= start,
    ensures
        match res {
            Some(e) => nest_end(s@, start as int, depth as nat, quoted) == Some(e as int)
                && start < e <= s@.len(),
            None => nest_end(s@, start as int, depth as nat, quoted).is_none(),
        },
{
    let ghost goal = nest_end(s@, start as int, depth as nat, quoted);
    let mut j: usize = start;
    let mut open: usize = depth;
    let mut within: bool = quoted;
    while j < s.len()
        invariant
            start <= j <= s@.len(),
            open <= j,
            goal == nest_end(s@, start as int, depth as nat, quoted),
            goal == nest_end(s@, j as int, open as nat, within),
        decreases s@.len() - j,
    {
        let b: u8 = s[j];
        if within {
            if b == 92 {
                if s.len() - j <= 2 {
                    return None;
                }
                j += 2;
            } else if b == 34 {
                if open == 0 {
                    return Some(j + 1);
                }
                within = false;
                j += 1;
            } else {
                j += 1;
            }
        } else if b == 34 {
            within = true;
            j += 1;
        } else if b == 123 || b == 91 {
            open += 1;
            j += 1;
        } else if b == 125 || b == 93 {
            if open <= 1 {
                return Some(j + 1);
            }
            open -= 1;
            j += 1;
        } else {
            j += 1;
        }
    }
    None
}

/// Whether `b` can stand within a number or a literal name.
fn plain(b: u8) -> (res: bool)
    ensures
        res == is_plain(b),
{
    !(b == 32 || b == 9 || b == 10 || b == 13 || b == 44 || b == 125 || b == 93 || b == 58
        || b == 34 || b == 123 || b == 91)
}

/// Finds how far the value reaches that starts at `i`.
fn find_value_reach(s: &[u8], i: usize) -> (res: Option<usize>)
    requires
        i <= s@.len(),
    ensures
        match res {
            Some(e) => value_reach(s@, i as int) == Some(e as int) && i < e <= s@.len(),
            None => value_reach(s@, i as int).is_none(),
        },
{
    if i >= s.len() {
        return None;
    }
    let b: u8 = s[i];
    if b == 34 {
        find_nest_end(s, i + 1, 0, true)
    } else if b == 123 || b == 91 {
        find_nest_end(s, i + 1, 1, false)
    } else {
        let mut j: usize = i;
        while j < s.len() && plain(s[j])
            invariant
                i <= j <= s@.len(),
                plain_end(s@, i as int) == plain_end(s@, j as int),
            decreases s@.len() - j,
        {
            j += 1;
        }
        if j > i {
            Some(j)
        } else {
            None
        }
    }
}

/// The value of a hexadecimal digit.
fn hex_of(b: u8) -> (res: Option<u32>)
    ensures
        match res {
            Some(v) => hex_value(b) == Some(v as int) && v < 16,
            None => hex_value(b).is_none(),
        },
{
    if 48 <= b && b <= 57 {
        Some((b - 48) as u32)
    } else if 97 <= b && b <= 102 {
        Some((b - 87) as u32)
    } else if 65 <= b && b <= 70 {
        Some((b - 55) as u32)
    } else {
        None
    }
}

/// The number that the four hexadecimal digits from `k` on write.
fn code_unit_at(s: &[u8], k: usize) -> (res: Option<u32>)
    requires
        k + 4 <= s@.len(),
    ensures
        match res {
            Some(unit) => code_unit(s@, k as int) == Some(unit as int) && unit < 65536,
            None => code_unit(s@, k as int).is_none(),
        },
{
    match (hex_of(s[k]), hex_of(s[k + 1]), hex_of(s[k + 2]), hex_of(s[k + 3])) {
        (Some(a), Some(b), Some(c), Some(d)) => Some(a * 4096 + b * 256 + c * 16 + d),
        _ => None,
    }
}

/// `String::from_utf8` of the standard library: it makes a string of bytes
/// that are valid UTF-8, and the string then holds exactly those bytes; of
/// other bytes it makes none.
#[verifier::external_body]
fn string_from_utf8(bytes: Vec<u8>) -> (res: Option<String>)
    ensures
        match res {
            Some(text) => encode_utf8(text@) == bytes@,
            None => !valid_utf8(bytes@),
        },
{
    match String::from_utf8(bytes) {
        Ok(text) => Some(text),
        Err(_) => None,
    }
}

/// Reads the text of the string whose inside runs from `start` to `end`.
fn read_text(s: &[u8], start: usize, end: usize) -> (res: Option<String>)
    requires
        start <= end <= s@.len(),
    ensures
        match res {
            Some(text) => text_between(s@, start as int, end as int) == Some(text@),
            None => text_between(s@, start as int, end as int).is_none(),
        },
{
    broadcast use vstd::utf8::encode_utf8_valid_utf8, vstd::utf8::encode_utf8_decode_utf8;

    let ghost goal = unescaped(s@, start as int, end as int, Seq::empty());
    let mut acc: Vec<u8> = Vec::new();
    let mut j: usize = start;
    while j < end
        invariant
            start <= j <= end <= s@.len(),
            goal == unescaped(s@, start as int, end as int, Seq::empty()),
            goal == unescaped(s@, j as int, end as int, acc@),
        decreases end - j,
    {
        let b: u8 = s[j];
        if b < 32 {
            return None;
        } else if b != 92 {
            acc.push(b);
            j += 1;
        } else if end - j <= 1 {
            return None;
        } else if s[j + 1] == 117 {
            if end - j < 6 {
                return None;
            }
            let unit = match code_unit_at(s, j + 2) {
                Some(unit) => unit,
                None => {
                    return None;
                },
            };
            let ghost before = acc@;
            if unit < 128 {
                acc.push(unit as u8);
                assert(acc@ =~= before + unit_bytes(unit as int).unwrap());
            } else if unit < 2048 {
                acc.push((192 + unit / 64) as u8);
                acc.push((128 + unit % 64) as u8);
                assert(acc@ =~= before + unit_bytes(unit as int).unwrap());
            } else if 55296 <= unit && unit < 56320 {
                if end - j < 12 || s[j + 6] != 92 || s[j + 7] != 117 {
                    return None;
                }
                let low = match code_unit_at(s, j + 8) {
                    Some(low) => low,
                    None => {
                        return None;
                    },
                };
                if low < 56320 || low >= 57344 {
                    return None;
                }
                let scalar: u32 = 65536 + (unit - 55296) * 1024 + (low - 56320);
                acc.push((240 + scalar / 262144) as u8);
                acc.push((128 + (scalar / 4096) % 64) as u8);
                acc.push((128 + (scalar / 64) % 64) as u8);
                acc.push((128 + scalar % 64) as u8);
                assert(acc@ =~= before + pair_bytes(unit as int, low as int));
                j += 6;
            } else if 56320 <= unit && unit < 57344 {
                return None;
            } else {
                acc.push((224 + unit / 4096) as u8);
                acc.push((128 + (unit / 64) % 64) as u8);
                acc.push((128 + unit % 64) as u8);
                assert(acc@ =~= before + unit_bytes(unit as int).unwrap());
            }
            j += 6;
        } else {
            let e: u8 = s[j + 1];
            let plain: u8 = if e == 34 || e == 92 || e == 47 {
                e
            } else if e == 98 {
                8
            } else if e == 102 {
                12
            } else if e == 110 {
                10
            } else if e == 114 {
                13
            } else if e == 116 {
                9
            } else {
                return None;
            };
            acc.push(plain);
            j += 2;
        }
    }
    string_from_utf8(acc)
}

/// The part of a number that `b` leads to from `part`.
fn step_number(part: NumberPart, b: u8) -> (res: Option<NumberPart>)
    ensures
        res == number_step(part, b),
{
    let digit = 48 <= b && b <= 57;
    let exponent = b == 101 || b == 69;
    match part {
        NumberPart::Start => if b == 45 {
            Some(NumberPart::Minus)
        } else if b == 48 {
            Some(NumberPart::Zero)
        } else if digit {
            Some(NumberPart::Whole)
        } else {
            None
        },
        NumberPart::Minus => if b == 48 {
            Some(NumberPart::Zero)
        } else if digit {
            Some(NumberPart::Whole)
        } else {
            None
        },
        NumberPart::Zero => if b == 46 {
            Some(NumberPart::Point)
        } else if exponent {
            Some(NumberPart::Exponent)
        } else {
            None
        },
        NumberPart::Whole => if digit {
            Some(NumberPart::Whole)
        } else if b == 46 {
            Some(NumberPart::Point)
        } else if exponent {
            Some(NumberPart::Exponent)
        } else {
            None
        },
        NumberPart::Point => if digit {
            Some(NumberPart::Fraction)
        } else {
            None
        },
        NumberPart::Fraction => if digit {
            Some(NumberPart::Fraction)
        } else if exponent {
            Some(NumberPart::Exponent)
        } else {
            None
        },
        NumberPart::Exponent => if b == 43 || b == 45 {
            Some(NumberPart::ExponentSign)
        } else if digit {
            Some(NumberPart::ExponentDigits)
        } else {
            None
        },
        NumberPart::ExponentSign => if digit {
            Some(NumberPart::ExponentDigits)
        } else {
            None
        },
        NumberPart::ExponentDigits => if digit {
            Some(NumberPart::ExponentDigits)
        } else {
            None
        },
    }
}

/// Whether the bytes from `start` to `end` are a JSON number.
fn is_number(s: &[u8], start: usize, end: usize) -> (res: bool)
    requires
        start <= end <= s@.len(),
    ensures
        res == number_run(s@, start as int, end as int, NumberPart::Start),
{
    let ghost goal = number_run(s@, start as int, end as int, NumberPart::Start);
    let mut part = NumberPart::Start;
    let mut j: usize = start;
    while j < end
        invariant
            start <= j <= end <= s@.len(),
            goal == number_run(s@, start as int, end as int, NumberPart::Start),
            goal == number_run(s@, j as int, end as int, part),
        decreases end - j,
    {
        match step_number(part, s[j]) {
            Some(next) => {
                part = next;
            },
            None => {
                return false;
            },
        }
        j += 1;
    }
    part == NumberPart::Zero || part == NumberPart::Whole || part == NumberPart::Fraction || part
        == NumberPart::ExponentDigits
}

/// Whether the bytes from `start` to `end` are a number or a literal name.
fn is_plain_value(s: &[u8], start: usize, end: usize) -> (res: bool)
    requires
        start <= end <= s@.len(),
    ensures
        res == plain_value(s@, start as int, end as int),
{
    key_matches(s, start, end, "true") || key_matches(s, start, end, "false") || key_matches(
        s,
        start,
        end,
        "null",
    ) || is_number(s, start, end)
}

/// Finds the end of the JSON string whose inside starts at `j`.
fn find_string_end(s: &[u8], j: usize, end: usize) -> (res: Option<usize>)
    requires
        j <= end <= s@.len(),
    ensures
        match res {
            Some(e) => string_end(s@, j as int, end as int) == Some(e as int) && j < e <= end,
            None => string_end(s@, j as int, end as int).is_none(),
        },
{
    match find_nest_end(s, j, 0, true) {
        Some(e) => {
            if e <= end && read_text(s, j, e - 1).is_some() {
                Some(e)
            } else {
                None
            }
        },
        None => None,
    }
}

/// Whether the bytes from `start` to `end` are one JSON value.
fn is_json_value(s: &[u8], start: usize, end: usize) -> (res: bool)
    requires
        start <= end <= s@.len(),
    ensures
        res == json_run(s@, start as int, end as int, Seq::empty(), Expect::Value),
{
    let ghost goal = json_run(s@, start as int, end as int, Seq::empty(), Expect::Value);
    let mut open: Vec<bool> = Vec::new();
    let mut expect = Expect::Value;
    let mut j: usize = start;
    while j < end
        invariant
            start <= j <= end <= s@.len(),
            goal == json_run(s@, start as int, end as int, Seq::empty(), Expect::Value),
            goal == json_run(s@, j as int, end as int, open@, expect),
        decreases end - j,
    {
        let b: u8 = s[j];
        if b == 32 || b == 9 || b == 10 || b == 13 {
            j += 1;
            continue ;
        }
        let depth = open.len();
        let closes = depth > 0 && ((b == 125 && open[depth - 1]) || (b == 93 && !open[depth - 1]));
        let value_expected = expect == Expect::Value || expect == Expect::FirstItem;
        let key_expected = expect == Expect::FirstKey || expect == Expect::Key;
        let may_close = expect == Expect::FirstItem || expect == Expect::FirstKey || expect
            == Expect::Next;
        if may_close && closes {
            open.pop();
            expect = if open.len() == 0 {
                Expect::Nothing
            } else {
                Expect::Next
            };
            j += 1;
        } else if value_expected {
            if b == 34 {
                match find_string_end(s, j + 1, end) {
                    Some(e) => {
                        j = e;
                    },
                    None => {
                        return false;
                    },
                }
                expect = if depth == 0 {
                    Expect::Nothing
                } else {
                    Expect::Next
                };
            } else if b == 123 {
                open.push(true);
                expect = Expect::FirstKey;
                j += 1;
            } else if b == 91 {
                open.push(false);
                expect = Expect::FirstItem;
                j += 1;
            } else {
                let mut e: usize = j;
                while e < s.len() && plain(s[e])
                    invariant
                        j <= e <= s@.len(),
                        plain_end(s@, j as int) == plain_end(s@, e as int),
                    decreases s@.len() - e,
                {
                    e += 1;
                }
                if e <= j || e > end || !is_plain_value(s, j, e) {
                    return false;
                }
                j = e;
                expect = if depth == 0 {
                    Expect::Nothing
                } else {
                    Expect::Next
                };
            }
        } else if key_expected {
            if b != 34 {
                return false;
            }
            match find_string_end(s, j + 1, end) {
                Some(e) => {
                    j = e;
                },
                None => {
                    return false;
                },
            }
            expect = Expect::Colon;
        } else if expect == Expect::Colon {
            if b != 58 {
                return false;
            }
            expect = Expect::Value;
            j += 1;
        } else if expect == Expect::Next {
            if b != 44 || depth == 0 {
                return false;
            }
            expect = if open[depth - 1] {
                Expect::Key
            } else {
                Expect::Value
            };
            j += 1;
        } else {
            return false;
        }
    }
    expect == Expect::Nothing
}

/// Finds the end of the JSON value that starts at `i`.
fn find_value_end(s: &[u8], i: usize) -> (res: Option<usize>)
    requires
        i <= s@.len(),
    ensures
        match res {
            Some(e) => value_end(s@, i as int) == Some(e as int) && i < e <= s@.len(),
            None => value_end(s@, i as int).is_none(),
        },
{
    match find_value_reach(s, i) {
        Some(e) => {
            if is_json_value(s, i, e) {
                Some(e)
            } else {
                None
            }
        },
        None => None,
    }
}

/// Reads the number that the bytes from `start` to `end` write in decimal
/// digits, where it is at most `max`.
fn read_natural(s: &[u8], start: usize, end: usize, max: u64) -> (res: Option<u64>)
    requires
        start <= end <= s@.len(),
    ensures
        match res {
            Some(n) => natural_between(s@, start as int, end as int) == Some(n as nat) && n
                <= max,
            None => match natural_between(s@, start as int, end as int) {
                Some(n) => n > max,
                None => true,
            },
        },
{
    if start >= end {
        return None;
    }
    let ghost goal = digits_value(s@, start as int, end as int, 0);
    let mut acc: u64 = 0;
    let mut j: usize = start;
    while j < end
        invariant
            start <= j <= end <= s@.len(),
            acc <= max,
            start < end,
            goal == digits_value(s@, start as int, end as int, 0),
            goal == digits_value(s@, j as int, end as int, acc as nat),
        decreases end - j,
    {
        let b: u8 = s[j];
        if b < 48 || b > 57 {
            return None;
        }
        let digit: u64 = (b - 48) as u64;
        if digit > max || acc > (max - digit) / 10 {
            proof {
                lemma_digits_grow(s@, j + 1, end as int, (acc * 10 + digit) as nat);
            }
            return None;
        }
        acc = acc * 10 + digit;
        j += 1;
    }
    Some(acc)
}

/// Reads the integer that the bytes from `start` to `end` write.
fn read_integer(s: &[u8], start: usize, end: usize) -> (res: Option<i64>)
    requires
        start <= end <= s@.len(),
    ensures
        match res {
            Some(n) => integer_between(s@, start as int, end as int) == Some(n as int),
            None => match integer_between(s@, start as int, end as int) {
                Some(n) => n < i64::MIN || n > i64::MAX,
                None => true,
            },
        },
{
    if start < end && s[start] == 45 {
        match read_natural(s, start + 1, end, 9223372036854775808) {
            Some(n) => {
                if n == 9223372036854775808 {
                    Some(i64::MIN)
                } else {
                    Some(-(n as i64))
                }
            },
            None => None,
        }
    } else {
        match read_natural(s, start, end, 9223372036854775807) {
            Some(n) => Some(n as i64),
            None => None,
        }
    }
}

/// Where the parts of one member of an object stand: the inside of its
/// key, its value, and the first index behind the white space that follows
/// the value.
pub struct MemberSpan {
    pub key_start: int,
    pub key_end: int,
    pub value_start: int,
    pub value_end: int,
    pub next: int,
}

/// The member whose key opens at index `i`: a JSON string, a colon, a JSON
/// value, with white space between them as it comes.
pub open spec fn member_at(s: Seq<u8>, i: int) -> Option<MemberSpan> {
    if i < 0 || i >= s.len() || s[i] != 34 {
        None
    } else {
        match string_end(s, i + 1, s.len() as int) {
            None => None,
            Some(key_close) => {
                let colon = space_end(s, key_close);
                if colon >= s.len() || s[colon] != 58 {
                    None
                } else {
                    let value_start = space_end(s, colon + 1);
                    match value_end(s, value_start) {
                        None => None,
                        Some(end) => Some(
                            MemberSpan {
                                key_start: i + 1,
                                key_end: key_close - 1,
                                value_start,
                                value_end: end,
                                next: space_end(s, end),
                            },
                        ),
                    }
                }
            },
        }
    }
}

/// Whether the key of the member is `name`, written without escapes.
pub open spec fn key_is(s: Seq<u8>, m: MemberSpan, name: Seq<char>) -> bool {
    s.subrange(m.key_start, m.key_end) == encode_utf8(name)
}

/// The text of the member's value, where that is a string.
pub open spec fn string_value(s: Seq<u8>, m: MemberSpan) -> Option<Seq<char>> {
    if s[m.value_start] == 34 {
        text_between(s, m.value_start + 1, m.value_end - 1)
    } else {
        None
    }
}

/// What has been read of an error object.
pub struct ErrorParts {
    pub code: Option<i64>,
    pub message: Option<Seq<char>>,
}

/// What has been read of an error object once the member `m` is read too.
/// A code that is no integer of 64 bits, or a message that is no string,
/// makes the object malformed; a member of another name is passed over.
pub open spec fn error_with(s: Seq<u8>, m: MemberSpan, acc: ErrorParts) -> Option<ErrorParts> {
    if key_is(s, m, "code"@) {
        match integer_between(s, m.value_start, m.value_end) {
            Some(n) => if i64::MIN <= n <= i64::MAX {
                Some(ErrorParts { code: Some(n as i64), ..acc })
            } else {
                None
            },
            None => None,
        }
    } else if key_is(s, m, "message"@) {
        match string_value(s, m) {
            Some(text) => Some(ErrorParts { message: Some(text), ..acc }),
            None => None,
        }
    } else {
        Some(acc)
    }
}

/// What the members of an error object from index `i` on add to `acc`, and
/// the index behind the closing brace. A member that is named again
/// replaces what was read under that name before.
pub open spec fn error_members_from(s: Seq<u8>, i: int, acc: ErrorParts) -> Option<
    (ErrorParts, int),
>
    decreases s.len() - i,
{
    match member_at(s, i) {
        None => None,
        Some(m) => match error_with(s, m, acc) {
            None => None,
            Some(more) => {
                if m.next < 0 || m.next >= s.len() {
                    None
                } else if s[m.next] == 125 {
                    Some((more, m.next + 1))
                } else if s[m.next] == 44 {
                    let k = space_end(s, m.next + 1);
                    if k <= i || k > s.len() {
                        None
                    } else {
                        error_members_from(s, k, more)
                    }
                } else {
                    None
                }
            },
        },
    }
}

/// The error that the value from `start` to `end` holds: an object with a
/// code and a message.
pub open spec fn error_object(s: Seq<u8>, start: int, end: int) -> Option<ErrorView> {
    if s[start] != 123 {
        None
    } else {
        let k = space_end(s, start + 1);
        let nothing = ErrorParts { code: None, message: None };
        let walked = if 0 <= k < s.len() && s[k] == 125 {
            Some((nothing, k + 1))
        } else {
            error_members_from(s, k, nothing)
        };
        match walked {
            Some((ErrorParts { code: Some(code), message: Some(message) }, stop)) => if stop
                == end {
                Some(ErrorView { code, message })
            } else {
                None
            },
            _ => None,
        }
    }
}

/// What has been read of an envelope once the member `m` is read too. The
/// identifier is a number of 64 bits without sign, the method a string, the
/// error an object; parameters and result are taken as they stand. A
/// member of another name is passed over.
pub open spec fn envelope_with(s: Seq<u8>, m: MemberSpan, acc: EnvelopeView) -> Option<
    EnvelopeView,
> {
    if key_is(s, m, "id"@) {
        match natural_between(s, m.value_start, m.value_end) {
            Some(n) => if n <= u64::MAX {
                Some(EnvelopeView { id: Some(n as u64), ..acc })
            } else {
                None
            },
            None => None,
        }
    } else if key_is(s, m, "method"@) {
        match string_value(s, m) {
            Some(text) => Some(EnvelopeView { method: Some(text), ..acc }),
            None => None,
        }
    } else if key_is(s, m, "params"@) {
        Some(EnvelopeView { params: Some(s.subrange(m.value_start, m.value_end)), ..acc })
    } else if key_is(s, m, "result"@) {
        Some(EnvelopeView { result: Some(s.subrange(m.value_start, m.value_end)), ..acc })
    } else if key_is(s, m, "error"@) {
        match error_object(s, m.value_start, m.value_end) {
            Some(body) => Some(EnvelopeView { error: Some(body), ..acc }),
            None => None,
        }
    } else {
        Some(acc)
    }
}

/// What the members of the envelope from index `i` on add to `acc`, and the
/// index behind the closing brace.
pub open spec fn members_from(s: Seq<u8>, i: int, acc: EnvelopeView) -> Option<
    (EnvelopeView, int),
>
    decreases s.len() - i,
{
    match member_at(s, i) {
        None => None,
        Some(m) => match envelope_with(s, m, acc) {
            None => None,
            Some(more) => {
                if m.next < 0 || m.next >= s.len() {
                    None
                } else if s[m.next] == 125 {
                    Some((more, m.next + 1))
                } else if s[m.next] == 44 {
                    let k = space_end(s, m.next + 1);
                    if k <= i || k > s.len() {
                        None
                    } else {
                        members_from(s, k, more)
                    }
                } else {
                    None
                }
            },
        },
    }
}

/// An envelope without members.
pub open spec fn no_members() -> EnvelopeView {
    EnvelopeView { id: None, method: None, params: None, result: None, error: None }
}

/// The envelope that the text `s` holds: one object, with nothing but white
/// space before and behind it.
pub open spec fn read_envelope(s: Seq<u8>) -> Option<EnvelopeView> {
    let open = space_end(s, 0);
    if open < 0 || open >= s.len() || s[open] != 123 {
        None
    } else {
        let k = space_end(s, open + 1);
        let walked = if 0 <= k < s.len() && s[k] == 125 {
            Some((no_members(), k + 1))
        } else {
            members_from(s, k, no_members())
        };
        match walked {
            Some((env, stop)) => if space_end(s, stop) == s.len() {
                Some(env)
            } else {
                None
            },
            None => None,
        }
    }
}

/// Whether the frame `s` holds the message `msg`.
pub open spec fn frame_holds(s: Seq<u8>, msg: Message) -> bool {
    match read_envelope(s) {
        Some(env) => reads_as(env, msg),
        None => false,
    }
}

/// Whether the frame `s` is malformed: it holds no envelope, or an envelope
/// whose members make no message.
pub open spec fn frame_is_malformed(s: Seq<u8>) -> bool {
    match read_envelope(s) {
        Some(env) => envelope_kind(env).is_none(),
        None => true,
    }
}

/// Where the parts of one member stand.
pub struct Member {
    pub key_start: usize,
    pub key_end: usize,
    pub value_start: usize,
    pub value_end: usize,
    pub next: usize,
}

impl View for Member {
    type V = MemberSpan;

    open spec fn view(&self) -> MemberSpan {
        MemberSpan {
            key_start: self.key_start as int,
            key_end: self.key_end as int,
            value_start: self.value_start as int,
            value_end: self.value_end as int,
            next: self.next as int,
        }
    }
}

/// Finds the parts of the member whose key opens at `i`.
fn read_member(s: &[u8], i: usize) -> (res: Option<Member>)
    requires
        i <= s@.len(),
    ensures
        match res {
            Some(m) => {
                &&& member_at(s@, i as int) == Some(m@)
                &&& i < m.key_start <= m.key_end < m.value_start < m.value_end <= m.next
                    <= s@.len()
            },
            None => member_at(s@, i as int).is_none(),
        },
{
    if i >= s.len() || s[i] != 34 {
        return None;
    }
    let key_close = match find_string_end(s, i + 1, s.len()) {
        Some(e) => e,
        None => {
            return None;
        },
    };
    let colon = skip_space(s, key_close);
    if colon >= s.len() || s[colon] != 58 {
        return None;
    }
    let value_start = skip_space(s, colon + 1);
    let value_end = match find_value_end(s, value_start) {
        Some(e) => e,
        None => {
            return None;
        },
    };
    let next = skip_space(s, value_end);
    Some(Member { key_start: i + 1, key_end: key_close - 1, value_start, value_end, next })
}

/// Whether the bytes from `start` to `end` are those of `name`.
fn key_matches(s: &[u8], start: usize, end: usize, name: &str) -> (res: bool)
    requires
        start <= end <= s@.len(),
    ensures
        res == (s@.subrange(start as int, end as int) == encode_utf8(name@)),
{
    let wanted = name.as_bytes();
    let ghost key = s@.subrange(start as int, end as int);
    if wanted.len() != end - start {
        assert(key.len() != wanted@.len());
        return false;
    }
    let mut k: usize = 0;
    while k < wanted.len()
        invariant
            start <= end <= s@.len(),
            wanted@.len() == end - start,
            k <= wanted@.len(),
            key == s@.subrange(start as int, end as int),
            wanted@ == encode_utf8(name@),
            forall|j: int| 0 <= j < k ==> key[j] == wanted@[j],
        decreases wanted@.len() - k,
    {
        if s[start + k] != wanted[k] {
            assert(key[k as int] != wanted@[k as int]);
            return false;
        }
        k += 1;
    }
    assert(key =~= wanted@);
    true
}

/// Reads the text of the member's value, where that is a string.
fn read_string_value(s: &[u8], m: &Member) -> (res: Option<String>)
    requires
        m.value_start < m.value_end <= s@.len(),
        value_end(s@, m.value_start as int) == Some(m.value_end as int),
    ensures
        match res {
            Some(text) => string_value(s@, m@) == Some(text@),
            None => string_value(s@, m@).is_none(),
        },
{
    if s[m.value_start] != 34 {
        return None;
    }
    proof {
        assert(value_reach(s@, m.value_start as int) == Some(m.value_end as int));
        lemma_nest_end_bounds(s@, m.value_start + 1, 0, true);
    }
    read_text(s, m.value_start + 1, m.value_end - 1)
}

/// The value of a text that may be absent.
pub open spec fn text_view(text: Option<String>) -> Option<Seq<char>> {
    match text {
        Some(text) => Some(text@),
        None => None,
    }
}

/// The parts of an error object that were read.
pub open spec fn error_parts(code: Option<i64>, message: Option<String>) -> ErrorParts {
    ErrorParts { code, message: text_view(message) }
}

/// Reads the members of an error object from `i` on.
fn walk_error_members(s: &[u8], i: usize) -> (res: Option<(Option<i64>, Option<String>, usize)>)
    requires
        i <= s@.len(),
    ensures
        match res {
            Some((code, message, stop)) => error_members_from(
                s@,
                i as int,
                error_parts(None, None),
            ) == Some((error_parts(code, message), stop as int)) && stop <= s@.len(),
            None => error_members_from(s@, i as int, error_parts(None, None)).is_none(),
        },
{
    let ghost goal = error_members_from(s@, i as int, error_parts(None, None));
    let mut at: usize = i;
    let mut code: Option<i64> = None;
    let mut message: Option<String> = None;
    loop
        invariant
            at <= s@.len(),
            goal == error_members_from(s@, i as int, error_parts(None, None)),
            goal == error_members_from(s@, at as int, error_parts(code, message)),
        decreases s@.len() - at,
    {
        let m = match read_member(s, at) {
            Some(m) => m,
            None => {
                return None;
            },
        };
        if key_matches(s, m.key_start, m.key_end, "code") {
            match read_integer(s, m.value_start, m.value_end) {
                Some(n) => {
                    code = Some(n);
                },
                None => {
                    return None;
                },
            }
        } else if key_matches(s, m.key_start, m.key_end, "message") {
            match read_string_value(s, &m) {
                Some(text) => {
                    message = Some(text);
                },
                None => {
                    return None;
                },
            }
        }
        if m.next >= s.len() {
            return None;
        }
        let b: u8 = s[m.next];
        if b == 125 {
            return Some((code, message, m.next + 1));
        } else if b == 44 {
            at = skip_space(s, m.next + 1);
        } else {
            return None;
        }
    }
}

/// Reads the error that the value from `start` to `end` holds.
fn read_error_object(s: &[u8], start: usize, end: usize) -> (res: Option<ErrorBody>)
    requires
        start < end <= s@.len(),
    ensures
        match res {
            Some(body) => error_object(s@, start as int, end as int) == Some(body@),
            None => error_object(s@, start as int, end as int).is_none(),
        },
{
    if s[start] != 123 {
        return None;
    }
    let k = skip_space(s, start + 1);
    let (code, message, stop) = if k < s.len() && s[k] == 125 {
        (None, None, k + 1)
    } else {
        match walk_error_members(s, k) {
            Some(walked) => walked,
            None => {
                return None;
            },
        }
    };
    if stop != end {
        return None;
    }
    match (code, message) {
        (Some(code), Some(message)) => Some(ErrorBody { code, message }),
        _ => None,
    }
}

/// Reads the members of an envelope from `i` on.
fn walk_members(s: &[u8], i: usize) -> (res: Option<(Envelope, usize)>)
    requires
        i <= s@.len(),
    ensures
        match res {
            Some((env, stop)) => members_from(s@, i as int, no_members()) == Some(
                (env@, stop as int),
            ) && stop <= s@.len(),
            None => members_from(s@, i as int, no_members()).is_none(),
        },
{
    let ghost goal = members_from(s@, i as int, no_members());
    let mut at: usize = i;
    let mut env = Envelope { id: None, method: None, params: None, result: None, error: None };
    loop
        invariant
            at <= s@.len(),
            goal == members_from(s@, i as int, no_members()),
            goal == members_from(s@, at as int, env@),
        decreases s@.len() - at,
    {
        let m = match read_member(s, at) {
            Some(m) => m,
            None => {
                return None;
            },
        };
        if key_matches(s, m.key_start, m.key_end, "id") {
            match read_natural(s, m.value_start, m.value_end, u64::MAX) {
                Some(n) => {
                    env.id = Some(n);
                },
                None => {
                    return None;
                },
            }
        } else if key_matches(s, m.key_start, m.key_end, "method") {
            match read_string_value(s, &m) {
                Some(text) => {
                    env.method = Some(text);
                },
                None => {
                    return None;
                },
            }
        } else if key_matches(s, m.key_start, m.key_end, "params") {
            env.params = Some(copy_of(s, m.value_start, m.value_end));
        } else if key_matches(s, m.key_start, m.key_end, "result") {
            env.result = Some(copy_of(s, m.value_start, m.value_end));
        } else if key_matches(s, m.key_start, m.key_end, "error") {
            match read_error_object(s, m.value_start, m.value_end) {
                Some(body) => {
                    env.error = Some(body);
                },
                None => {
                    return None;
                },
            }
        }
        if m.next >= s.len() {
            return None;
        }
        let b: u8 = s[m.next];
        if b == 125 {
            return Some((env, m.next + 1));
        } else if b == 44 {
            at = skip_space(s, m.next + 1);
        } else {
            return None;
        }
    }
}

/// The bytes of `s` from `start` to `end`.
fn copy_of(s: &[u8], start: usize, end: usize) -> (out: Vec<u8>)
    requires
        start <= end <= s@.len(),
    ensures
        out@ == s@.subrange(start as int, end as int),
{
    let mut out: Vec<u8> = Vec::new();
    let mut j: usize = start;
    while j < end
        invariant
            start <= j <= end <= s@.len(),
            out@ == s@.subrange(start as int, j as int),
        decreases end - j,
    {
        out.push(s[j]);
        j += 1;
        assert(out@ =~= s@.subrange(start as int, j as int));
    }
    out
}

/// Reads the envelope that a frame holds.
pub fn decode_envelope(frame: &[u8]) -> (res: Option<Envelope>)
    ensures
        match res {
            Some(env) => read_envelope(frame@) == Some(env@),
            None => read_envelope(frame@).is_none(),
        },
{
    let open = skip_space(frame, 0);
    if open >= frame.len() || frame[open] != 123 {
        return None;
    }
    let k = skip_space(frame, open + 1);
    let (env, stop) = if k < frame.len() && frame[k] == 125 {
        (Envelope { id: None, method: None, params: None, result: None, error: None }, k + 1)
    } else {
        match walk_members(frame, k) {
            Some(walked) => walked,
            None => {
                return None;
            },
        }
    };
    if skip_space(frame, stop) == frame.len() {
        Some(env)
    } else {
        None
    }
}

/// Reads the message that a frame holds. A frame that holds no envelope,
/// or an envelope that holds no message, is malformed, and comes back in
/// the error.
pub fn decode_message(frame: Vec<u8>) -> (res: Result<Message, TransportError>)
    ensures
        match res {
            Ok(msg) => frame_holds(frame@, msg),
            Err(TransportError::MalformedFrame(raw)) => raw == frame && frame_is_malformed(
                frame@,
            ),
            Err(_) => false,
        },
{
    match decode_envelope(frame.as_slice()) {
        Some(env) => match Message::from_envelope(env) {
            Some(msg) => Ok(msg),
            None => Err(TransportError::MalformedFrame(frame)),
        },
        None => Err(TransportError::MalformedFrame(frame)),
    }
}

} // verus!
