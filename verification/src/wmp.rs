//! The lines of a level map file: comments, words, and the records the
//! words spell.

use crate::map::{MapDataType, ObjectType};
use crate::text::chars_of;
use vstd::prelude::*;
use vstd::string::{StrSliceExecFns, StringExecFns};

verus! {

/// White space: the characters that separate the words of a line.
pub open spec fn is_space(c: char) -> bool {
    let u = c as u32;
    ||| 0x09 <= u <= 0x0D
    ||| u == 0x20
    ||| u == 0x85
    ||| u == 0xA0
    ||| u == 0x1680
    ||| 0x2000 <= u <= 0x200A
    ||| u == 0x2028
    ||| u == 0x2029
    ||| u == 0x202F
    ||| u == 0x205F
    ||| u == 0x3000
}

/// Whether `c` is white space.
pub fn is_whitespace(c: char) -> (r: bool)
    ensures
        r == is_space(c),
{
    let u: u32 = c as u32;
    (0x09 <= u && u <= 0x0D) || u == 0x20 || u == 0x85 || u == 0xA0 || u == 0x1680 || (0x2000 <= u
        && u <= 0x200A) || u == 0x2028 || u == 0x2029 || u == 0x202F || u == 0x205F || u == 0x3000
}

/// Length of the part of a line in front of its comment, which the first
/// semicolon starts.
pub open spec fn body_len(line: Seq<char>) -> nat
    decreases line.len(),
{
    if line.len() == 0 {
        0
    } else if line[0] == ';' {
        0
    } else {
        1 + body_len(line.drop_first())
    }
}

/// The words of a text: its maximal runs of characters that are no white
/// space, in order.
pub open spec fn words(s: Seq<char>) -> Seq<Seq<char>>
    decreases s.len(),
{
    if s.len() == 0 {
        Seq::empty()
    } else if is_space(s.last()) {
        words(s.drop_last())
    } else if s.len() >= 2 && !is_space(s[s.len() - 2]) {
        let before = words(s.drop_last());
        before.drop_last().push(before.last().push(s.last()))
    } else {
        words(s.drop_last()).push(seq![s.last()])
    }
}

/// Words are solid: none is empty, and none holds white space.
pub proof fn lemma_words_are_solid(s: Seq<char>, i: int)
    requires
        0 <= i < words(s).len(),
    ensures
        words(s)[i].len() > 0,
        forall|j: int| 0 <= j < words(s)[i].len() ==> !is_space(#[trigger] words(s)[i][j]),
    decreases s.len(),
{
    if s.len() > 0 {
        let before = words(s.drop_last());
        if is_space(s.last()) {
            lemma_words_are_solid(s.drop_last(), i);
        } else if s.len() >= 2 && !is_space(s[s.len() - 2]) {
            lemma_words_nonempty_text(s.drop_last());
            if i < before.len() - 1 {
                lemma_words_are_solid(s.drop_last(), i);
            } else {
                lemma_words_are_solid(s.drop_last(), before.len() - 1);
            }
        } else {
            if i < before.len() {
                lemma_words_are_solid(s.drop_last(), i);
            }
        }
    }
}

/// A text that ends in a character that is no white space has a word.
proof fn lemma_words_nonempty_text(s: Seq<char>)
    requires
        s.len() > 0,
        !is_space(s.last()),
    ensures
        words(s).len() > 0,
    decreases s.len(),
{
    if s.len() >= 2 && !is_space(s[s.len() - 2]) {
        lemma_words_nonempty_text(s.drop_last());
    }
}

/// The words of a line, without its comment.
pub open spec fn line_words(line: Seq<char>) -> Seq<Seq<char>> {
    words(line.take(body_len(line) as int))
}

/// Length of the part of a line in front of its comment.
fn find_body_len(chars: &Vec<char>) -> (end: usize)
    ensures
        end == body_len(chars@),
        end <= chars@.len(),
{
    let mut end: usize = 0;
    assert(chars@.skip(0) =~= chars@);
    while end < chars.len() && chars[end] != ';'
        invariant
            end <= chars@.len(),
            body_len(chars@) == end + body_len(chars@.skip(end as int)),
        decreases chars@.len() - end,
    {
        assert(chars@.skip(end as int).drop_first() =~= chars@.skip(end + 1));
        end += 1;
    }
    end
}

/// The words of a line, without its comment.
pub fn split_line(line: &str) -> (tokens: Vec<String>)
    ensures
        tokens@.map_values(|t: String| t@) == line_words(line@),
{
    let chars = chars_of(line);
    let end: usize = find_body_len(&chars);
    let ghost s = line@.take(end as int);
    let mut tokens: Vec<String> = Vec::new();
    let mut start: usize = 0;
    let mut in_word = false;
    let mut i: usize = 0;
    while i < end
        invariant
            chars@ == line@,
            end <= line@.len(),
            s == line@.take(end as int),
            i <= end,
            in_word ==> start < i && !is_space(s[i - 1]),
            !in_word ==> i == 0 || is_space(s[i - 1]),
            words(s.take(i as int)) == tokens@.map_values(|t: String| t@) + if in_word {
                seq![s.subrange(start as int, i as int)]
            } else {
                Seq::<Seq<char>>::empty()
            },
        decreases end - i,
    {
        let c: char = chars[i];
        assert(s.take(i + 1).drop_last() =~= s.take(i as int));
        if is_whitespace(c) {
            if in_word {
                let word = line.substring_char(start, i);
                assert(word@ =~= s.subrange(start as int, i as int));
                tokens.push(String::from_str(word));
                in_word = false;
            }
        } else if in_word {
            assert(s.subrange(start as int, i as int).push(c) =~= s.subrange(start as int, i + 1));
        } else {
            start = i;
            in_word = true;
            assert(seq![c] =~= s.subrange(i as int, i + 1));
        }
        i += 1;
    }
    assert(s.take(end as int) =~= s);
    if in_word {
        let word = line.substring_char(start, end);
        assert(word@ =~= s.subrange(start as int, end as int));
        tokens.push(String::from_str(word));
    }
    tokens
}

/// Whether `c` is a decimal digit.
pub open spec fn is_digit(c: char) -> bool {
    0x30 <= c as u32 <= 0x39
}

/// The number that a text of decimal digits spells.
pub open spec fn decimal(s: Seq<char>) -> nat
    decreases s.len(),
{
    if s.len() == 0 {
        0
    } else {
        10 * decimal(s.drop_last()) + (s.last() as u32 - 0x30) as nat
    }
}

/// The digits of a word that may begin with a plus sign.
pub open spec fn unsigned_part(word: Seq<char>) -> Seq<char> {
    if word.len() > 0 && word[0] == '+' {
        word.drop_first()
    } else {
        word
    }
}

/// The index a word spells: its decimal value, where the word is made of
/// digits, with or without a plus sign in front, and the value fits.
/// Every other word stands for zero.
pub open spec fn index_of_word(word: Seq<char>) -> usize {
    let digits = unsigned_part(word);
    if digits.len() > 0 && (forall|i: int| 0 <= i < digits.len() ==> is_digit(digits[i]))
        && decimal(digits) <= usize::MAX {
        decimal(digits) as usize
    } else {
        0
    }
}

/// A text of digits spells at least what each of its beginnings spells.
proof fn lemma_decimal_grows(s: Seq<char>, k: int)
    requires
        0 <= k <= s.len(),
        forall|i: int| 0 <= i < s.len() ==> is_digit(s[i]),
    ensures
        decimal(s.take(k)) <= decimal(s),
    decreases s.len() - k,
{
    if k < s.len() {
        lemma_decimal_grows(s, k + 1);
        assert(s.take(k + 1).drop_last() =~= s.take(k));
    } else {
        assert(s.take(k) =~= s);
    }
}

/// The index a word spells, zero where it spells none.
pub fn parse_index(word: &str) -> (n: usize)
    ensures
        n == index_of_word(word@),
{
    let chars = chars_of(word);
    let first: usize = if chars.len() > 0 && chars[0] == '+' {
        1
    } else {
        0
    };
    let ghost digits = unsigned_part(word@);
    if first == chars.len() {
        return 0;
    }
    let mut acc: usize = 0;
    let mut i: usize = first;
    while i < chars.len()
        invariant
            first <= i <= chars@.len(),
            chars@ == word@,
            digits == unsigned_part(word@),
            digits == chars@.skip(first as int),
            digits.len() > 0,
            forall|k: int| 0 <= k < i - first ==> is_digit(digits[k]),
            acc == decimal(digits.take(i - first)),
        decreases chars@.len() - i,
    {
        let c: char = chars[i];
        let u: u32 = c as u32;
        assert(digits[i - first] == c);
        if u < 0x30 || u > 0x39 {
            return 0;
        }
        let d: usize = (u - 0x30) as usize;
        assert(digits.take(i - first + 1).drop_last() =~= digits.take(i - first));
        let next = match acc.checked_mul(10) {
            Some(m) => m.checked_add(d),
            None => None,
        };
        match next {
            Some(v) => {
                acc = v;
            },
            None => {
                proof {
                    if forall|k: int| 0 <= k < digits.len() ==> is_digit(digits[k]) {
                        lemma_decimal_grows(digits, i - first + 1);
                    }
                }
                return 0;
            },
        }
        i += 1;
    }
    assert(digits.take(digits.len() as int) =~= digits);
    acc
}

/// A record of a map file as the contracts speak of it. Coordinates,
/// heights, offsets and angles are kept as the words that spell them.
pub enum RecordModel {
    Vertex { x: Seq<char>, y: Seq<char>, z: Seq<char> },
    Region { name: Seq<char>, floor_height: Seq<char>, ceiling_height: Seq<char> },
    Wall {
        name: Seq<char>,
        vertex1_index: usize,
        vertex2_index: usize,
        region1_index: usize,
        region2_index: usize,
        offset_x: Seq<char>,
        offset_y: Seq<char>,
    },
    Object {
        object_type: ObjectType,
        name: Seq<char>,
        x: Seq<char>,
        y: Seq<char>,
        angle: Seq<char>,
        region: usize,
    },
}

/// A record of a map file. Coordinates, heights, offsets and angles are
/// kept as the words that spell them.
#[derive(Debug, Clone, PartialEq, Eq)]
pub enum MapRecord {
    Vertex { x: String, y: String, z: String },
    Region { name: String, floor_height: String, ceiling_height: String },
    Wall {
        name: String,
        vertex1_index: usize,
        vertex2_index: usize,
        region1_index: usize,
        region2_index: usize,
        offset_x: String,
        offset_y: String,
    },
    Object {
        object_type: ObjectType,
        name: String,
        x: String,
        y: String,
        angle: String,
        region: usize,
    },
}

impl View for MapRecord {
    type V = RecordModel;

    open spec fn view(&self) -> RecordModel {
        match *self {
            MapRecord::Vertex { x, y, z } => RecordModel::Vertex { x: x@, y: y@, z: z@ },
            MapRecord::Region { name, floor_height, ceiling_height } => RecordModel::Region {
                name: name@,
                floor_height: floor_height@,
                ceiling_height: ceiling_height@,
            },
            MapRecord::Wall {
                name,
                vertex1_index,
                vertex2_index,
                region1_index,
                region2_index,
                offset_x,
                offset_y,
            } => RecordModel::Wall {
                name: name@,
                vertex1_index,
                vertex2_index,
                region1_index,
                region2_index,
                offset_x: offset_x@,
                offset_y: offset_y@,
            },
            MapRecord::Object { object_type, name, x, y, angle, region } => RecordModel::Object {
                object_type,
                name: name@,
                x: x@,
                y: y@,
                angle: angle@,
                region,
            },
        }
    }
}

/// A line that declares a record but lacks words for its fields.
#[derive(Debug, Clone, Copy, PartialEq, Eq, Structural)]
pub struct MissingField {
    /// What the line declares.
    pub kind: MapDataType,
    /// Number of words the line has.
    pub found: usize,
}

/// What a line of a map file holds.
pub enum LineModel {
    /// Nothing: the line is blank, a comment, or begins with no keyword.
    Skip,
    /// A keyword with too few words behind it.
    Short(MissingField),
    /// A record.
    Record(RecordModel),
}

/// Number of words a line of a kind needs, its keyword included. The name
/// of a player start is the keyword itself, so it needs one word less.
pub open spec fn words_needed(kind: MapDataType, keyword: Seq<char>) -> nat {
    match kind {
        MapDataType::Vertex => 4,
        MapDataType::Region => 4,
        MapDataType::Wall => 8,
        MapDataType::Object => if keyword == "PLAYER_START"@ {
            5
        } else {
            6
        },
        MapDataType::Comment => 0,
    }
}

/// What the words of a line spell.
pub open spec fn record_of(w: Seq<Seq<char>>) -> LineModel {
    if w.len() == 0 || (w[0].len() > 0 && w[0][0] == '#') {
        LineModel::Skip
    } else {
        let kind = MapDataType::of_keyword(w[0]);
        if kind == MapDataType::Comment {
            LineModel::Skip
        } else if w.len() < words_needed(kind, w[0]) {
            LineModel::Short(MissingField { kind, found: w.len() as usize })
        } else {
            match kind {
                MapDataType::Vertex => LineModel::Record(
                    RecordModel::Vertex { x: w[1], y: w[2], z: w[3] },
                ),
                MapDataType::Region => LineModel::Record(
                    RecordModel::Region { name: w[1], floor_height: w[2], ceiling_height: w[3] },
                ),
                MapDataType::Wall => LineModel::Record(
                    RecordModel::Wall {
                        name: w[1],
                        vertex1_index: index_of_word(w[2]),
                        vertex2_index: index_of_word(w[3]),
                        region1_index: index_of_word(w[4]),
                        region2_index: index_of_word(w[5]),
                        offset_x: w[6],
                        offset_y: w[7],
                    },
                ),
                _ => {
                    let shift: int = if w[0] == "PLAYER_START"@ {
                        1
                    } else {
                        0
                    };
                    LineModel::Record(
                        RecordModel::Object {
                            object_type: ObjectType::of_keyword(w[0]),
                            name: w[1 - shift],
                            x: w[2 - shift],
                            y: w[3 - shift],
                            angle: w[4 - shift],
                            region: index_of_word(w[5 - shift]),
                        },
                    )
                },
            }
        }
    }
}

/// What a line holds.
pub open spec fn line_of(line: Seq<char>) -> LineModel {
    record_of(line_words(line))
}

/// A parse result `r` reports what a line holds.
pub open spec fn parsed(r: Result<Option<MapRecord>, MissingField>, m: LineModel) -> bool {
    match m {
        LineModel::Skip => r matches Ok(None),
        LineModel::Short(e) => r matches Err(f) && f == e,
        LineModel::Record(rec) => r matches Ok(Some(x)) && x@ == rec,
    }
}

/// The record that the words `w` of a line spell.
pub fn record_from_words(w: &Vec<String>) -> (r: Result<Option<MapRecord>, MissingField>)
    ensures
        parsed(r, record_of(w@.map_values(|t: String| t@))),
{
    if w.len() == 0 {
        return Ok(None);
    }
    let head = chars_of(w[0].as_str());
    if head.len() > 0 && head[0] == '#' {
        return Ok(None);
    }
    let kind = MapDataType::classify(w[0].as_str());
    match kind {
        MapDataType::Comment => Ok(None),
        MapDataType::Vertex => {
            if w.len() < 4 {
                return Err(MissingField { kind, found: w.len() });
            }
            Ok(Some(MapRecord::Vertex { x: w[1].clone(), y: w[2].clone(), z: w[3].clone() }))
        },
        MapDataType::Region => {
            if w.len() < 4 {
                return Err(MissingField { kind, found: w.len() });
            }
            Ok(
                Some(
                    MapRecord::Region {
                        name: w[1].clone(),
                        floor_height: w[2].clone(),
                        ceiling_height: w[3].clone(),
                    },
                ),
            )
        },
        MapDataType::Wall => {
            if w.len() < 8 {
                return Err(MissingField { kind, found: w.len() });
            }
            Ok(
                Some(
                    MapRecord::Wall {
                        name: w[1].clone(),
                        vertex1_index: parse_index(w[2].as_str()),
                        vertex2_index: parse_index(w[3].as_str()),
                        region1_index: parse_index(w[4].as_str()),
                        region2_index: parse_index(w[5].as_str()),
                        offset_x: w[6].clone(),
                        offset_y: w[7].clone(),
                    },
                ),
            )
        },
        MapDataType::Object => {
            let shift: usize = if crate::text::str_eq(w[0].as_str(), "PLAYER_START") {
                1
            } else {
                0
            };
            if w.len() < 6 - shift {
                return Err(MissingField { kind, found: w.len() });
            }
            Ok(
                Some(
                    MapRecord::Object {
                        object_type: ObjectType::from(w[0].as_str()),
                        name: w[1 - shift].clone(),
                        x: w[2 - shift].clone(),
                        y: w[3 - shift].clone(),
                        angle: w[4 - shift].clone(),
                        region: parse_index(w[5 - shift].as_str()),
                    },
                ),
            )
        },
    }
}

/// The record that a line of a map file holds.
///
/// `Ok(None)` for a line that is blank, a comment, or begins with no
/// keyword; `Err` for a keyword with too few words behind it.
pub fn parse_line(line: &str) -> (r: Result<Option<MapRecord>, MissingField>)
    ensures
        parsed(r, line_of(line@)),
{
    let w = split_line(line);
    record_from_words(&w)
}

} // verus!
