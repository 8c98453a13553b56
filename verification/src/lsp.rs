//! Positions in documents, for the language server: lines and columns
//! from byte offsets, the word under the cursor, and the range a
//! diagnostic covers.
use vstd::prelude::*;
use vstd::string::StringSliceAdditionalSpecFns;
use crate::strutil::{at_char_start, lemma_after_ascii, lemma_str_bytes_valid, slice_bytes, str_chars};

verus! {

/// A position in a document: line and column, both from zero.
#[derive(Debug, Clone, Copy, PartialEq, Eq, Structural)]
pub struct Position {
    pub line: u32,
    pub character: u32,
}

/// A range of a document, from `start` to `end`.
#[derive(Debug, Clone, Copy, PartialEq, Eq, Structural)]
pub struct Range {
    pub start: Position,
    pub end: Position,
}

impl Position {
    /// The position at `line` and `character`.
    pub fn new(line: u32, character: u32) -> (r: Position)
        ensures
            r.line == line,
            r.character == character,
    {
        Position { line, character }
    }
}

/// The number of bytes of a character in UTF-8.
pub open spec fn utf8_len(c: char) -> int {
    if (c as u32) < 0x80 {
        1
    } else if (c as u32) < 0x800 {
        2
    } else if (c as u32) < 0x10000 {
        3
    } else {
        4
    }
}

/// Line and column after the characters `cs` that start, at byte `start`,
/// before byte `offset`: a newline starts a new line, any other character
/// moves one column.
pub open spec fn line_col(cs: Seq<char>, start: int, offset: int, line: int, col: int) -> (int, int)
    decreases cs.len(),
{
    if cs.len() == 0 || start >= offset {
        (line, col)
    } else if cs[0] == '\n' {
        line_col(cs.drop_first(), start + utf8_len(cs[0]), offset, line + 1, 0)
    } else {
        line_col(cs.drop_first(), start + utf8_len(cs[0]), offset, line, col + 1)
    }
}

/// The position of a byte offset in a text: its line and its column in
/// characters, counting every character that starts before the offset.
pub open spec fn position_of(text: Seq<char>, offset: int) -> (int, int) {
    line_col(text, 0, offset, 0, 0)
}

/// The number of bytes of a character in UTF-8.
fn char_utf8_len(c: char) -> (r: usize)
    ensures
        r == utf8_len(c),
{
    let u = c as u32;
    if u < 0x80 {
        1
    } else if u < 0x800 {
        2
    } else if u < 0x10000 {
        3
    } else {
        4
    }
}

/// The position of a byte offset in a text.
pub fn byte_offset_to_position(text: &str, byte_offset: usize) -> (r: Position)
    ensures
        r.line == position_of(text@, byte_offset as int).0 as u32,
        r.character == position_of(text@, byte_offset as int).1 as u32,
{
    let cs = str_chars(text);
    let mut line: usize = 0;
    let mut col: usize = 0;
    let mut idx: usize = 0;
    let ghost mut start: int = 0;
    let mut i: usize = 0;
    proof {
        assert(cs@.skip(0) =~= cs@);
    }
    while i < cs.len() && idx < byte_offset
        invariant
            i <= cs.len(),
            cs@ == text@,
            line + col <= i,
            idx as int == (if start <= usize::MAX {
                start
            } else {
                usize::MAX as int
            }),
            start >= 0,
            line_col(cs@.skip(i as int), start, byte_offset as int, line as int, col as int)
                == position_of(text@, byte_offset as int),
        decreases cs.len() - i,
    {
        proof {
            if i == 0 {
                assert(cs@.skip(0) =~= cs@);
            }
            assert(cs@.skip(i as int).drop_first() =~= cs@.skip(i + 1));
            assert(cs@.skip(i as int)[0] == cs@[i as int]);
        }
        let c = cs[i];
        if c == '\n' {
            line = line + 1;
            col = 0;
        } else {
            col = col + 1;
        }
        let len = char_utf8_len(c);
        idx = match idx.checked_add(len) {
            Some(v) => v,
            None => usize::MAX,
        };
        proof {
            start = start + utf8_len(c);
        }
        i = i + 1;
    }
    proof {
        if i == 0 {
            assert(cs@.skip(0) =~= cs@);
        }
        if i == cs.len() {
            assert(cs@.skip(i as int).len() == 0);
        }
    }
    Position::new(line as u32, col as u32)
}

/// Letters, digits and `_`: the bytes words are made of.
pub open spec fn is_word(b: u8) -> bool {
    (48 <= b <= 57) || (65 <= b <= 90) || (97 <= b <= 122) || b == 95
}

/// Whether a byte can be part of a word: an ASCII letter or digit, or `_`.
pub fn is_word_byte(b: u8) -> (r: bool)
    ensures
        r == is_word(b),
{
    (48 <= b && b <= 57) || (65 <= b && b <= 90) || (97 <= b && b <= 122) || b == 95
}

/// The first newline at or after `i`, or the end.
pub open spec fn newline_from(b: Seq<u8>, i: int) -> int
    decreases b.len() - i,
{
    if i >= b.len() {
        b.len() as int
    } else if i >= 0 && b[i] == 10 {
        i
    } else {
        newline_from(b, i + 1)
    }
}

/// The bounds of line `n` counted from byte `start`, as `str::lines` splits
/// a text: lines end at `\n`, a `\r` before it is dropped, and a final
/// newline ends the last line rather than starting an empty one.
pub open spec fn nth_line(b: Seq<u8>, start: int, n: nat) -> Option<(int, int)>
    decreases b.len() - start, n,
{
    if start < 0 || start >= b.len() {
        None
    } else {
        let e = newline_from(b, start);
        if n == 0 {
            Some(
                (
                    start,
                    if e < b.len() && e > start && b[e - 1] == 13 {
                        e - 1
                    } else {
                        e
                    },
                ),
            )
        } else if e >= b.len() {
            None
        } else {
            proof {
                lemma_newline_from(b, start);
            }
            nth_line(b, e + 1, (n - 1) as nat)
        }
    }
}

/// Where the word ending at `p` starts, not before `ls`.
pub open spec fn word_start(b: Seq<u8>, ls: int, p: int) -> int
    decreases p - ls,
{
    if p > ls && is_word(b[p - 1]) {
        word_start(b, ls, p - 1)
    } else {
        p
    }
}

/// Where the word starting at `p` ends, not after `le`.
pub open spec fn word_end(b: Seq<u8>, le: int, p: int) -> int
    decreases le - p,
{
    if p < le && is_word(b[p]) {
        word_end(b, le, p + 1)
    } else {
        p
    }
}

/// `newline_from` lies between the start and the end.
pub proof fn lemma_newline_from(b: Seq<u8>, i: int)
    requires
        0 <= i,
    ensures
        i <= newline_from(b, i) <= b.len() || (i > b.len() && newline_from(b, i) == b.len()),
        newline_from(b, i) < b.len() ==> b[newline_from(b, i)] == 10,
        forall|j: int| i <= j < newline_from(b, i) ==> b[j] != 10,
    decreases b.len() - i,
{
    if i >= b.len() {
    } else if b[i] == 10 {
    } else {
        lemma_newline_from(b, i + 1);
    }
}

/// The first newline at or after `i`, or the end.
fn find_newline(b: &[u8], i: usize) -> (r: usize)
    requires
        i <= b@.len(),
    ensures
        r == newline_from(b@, i as int),
{
    let mut j = i;
    while j < b.len() && b[j] != 10
        invariant
            i <= j <= b@.len(),
            newline_from(b@, i as int) == newline_from(b@, j as int),
        decreases b.len() - j,
    {
        j = j + 1;
    }
    j
}

/// The bounds of line `n` of a text, as `str::lines` splits it.
fn line_bounds(b: &[u8], n: usize) -> (r: Option<(usize, usize)>)
    ensures
        match nth_line(b@, 0, n as nat) {
            Some((x, y)) => r matches Some((rx, ry)) && rx == x && ry == y && x <= y <= b@.len(),
            None => r is None,
        },
{
    let mut start: usize = 0;
    let mut k: usize = n;
    loop
        invariant
            start <= b@.len(),
            k <= n,
            nth_line(b@, start as int, k as nat) == nth_line(b@, 0, n as nat),
        decreases b@.len() - start,
    {
        if start >= b.len() {
            return None;
        }
        let e = find_newline(b, start);
        proof {
            lemma_newline_from(b@, start as int);
        }
        if k == 0 {
            let le = if e < b.len() && e > start && b[e - 1] == 13 {
                e - 1
            } else {
                e
            };
            return Some((start, le));
        }
        if e >= b.len() {
            return None;
        }
        start = e + 1;
        k = k - 1;
    }
}

/// The word at a position: the letters, digits and `_` around the column
/// (a byte offset in its line), with its range; none where there is no
/// such line, the column is past its end, or no word touches it.
pub fn word_at_position(text: &str, position: Position) -> (r: Option<(Range, String)>)
    ensures
        match nth_line(text.spec_bytes(), 0, position.line as nat) {
            None => r is None,
            Some((ls, le)) => {
                let p = ls + position.character;
                if position.character > le - ls {
                    r is None
                } else {
                    let ws = word_start(text.spec_bytes(), ls, p);
                    let we = word_end(text.spec_bytes(), le, p);
                    if ws == we {
                        r is None
                    } else {
                        r matches Some((range, word)) && range == (Range {
                            start: Position { line: position.line, character: (ws - ls) as u32 },
                            end: Position { line: position.line, character: (we - ls) as u32 },
                        }) && vstd::utf8::encode_utf8(word@) == text.spec_bytes().subrange(ws, we)
                    }
                }
            },
        },
{
    let b = text.as_bytes();
    let ghost bs = text.spec_bytes();
    let (ls, le) = match line_bounds(b, position.line as usize) {
        Some(x) => x,
        None => {
            return None;
        },
    };
    let character = position.character as usize;
    if character > le - ls {
        return None;
    }
    let p = ls + character;
    let mut ws = p;
    while ws > ls && is_word_byte(b[ws - 1])
        invariant
            ls <= ws <= p,
            p <= le <= bs.len(),
            b@ == bs,
            forall|j: int| ws <= j < p ==> is_word(#[trigger] bs[j]),
            word_start(bs, ls as int, p as int) == word_start(bs, ls as int, ws as int),
        decreases ws - ls,
    {
        ws = ws - 1;
    }
    let mut we = p;
    while we < le && is_word_byte(b[we])
        invariant
            p <= we <= le,
            le <= bs.len(),
            b@ == bs,
            forall|j: int| p <= j < we ==> is_word(#[trigger] bs[j]),
            word_end(bs, le as int, p as int) == word_end(bs, le as int, we as int),
        decreases le - we,
    {
        we = we + 1;
    }
    if ws == we {
        return None;
    }
    proof {
        lemma_str_bytes_valid(text);
        assert(is_word(bs[ws as int]));
        assert(!vstd::utf8::is_continuation_byte(bs[ws as int]));
        assert(is_word(bs[we - 1]));
        lemma_after_ascii(bs, we - 1);
    }
    let slice = slice_bytes(text, ws, we);
    let word = slice.to_owned();

    let range = Range {
        start: Position::new(position.line, (ws - ls) as u32),
        end: Position::new(position.line, (we - ls) as u32),
    };
    Some((range, word))
}

/// The position of a byte offset, as `byte_offset_to_position` gives it.
pub open spec fn position_at(text: Seq<char>, offset: int) -> Position {
    Position {
        line: position_of(text, offset).0 as u32,
        character: position_of(text, offset).1 as u32,
    }
}

/// The range a diagnostic covers: its span (at least one byte long), else
/// the point at its offset, else the first character.
pub open spec fn diagnostic_range_spec(
    text: Seq<char>,
    span: Option<(usize, usize)>,
    offset: Option<usize>,
) -> Range {
    match span {
        Some((start, end)) => Range {
            start: position_at(text, start as int),
            end: position_at(
                text,
                if end <= start {
                    start + 1
                } else {
                    end as int
                },
            ),
        },
        None => match offset {
            Some(p) => Range { start: position_at(text, p as int), end: position_at(text, p as int) },
            None => Range { start: Position { line: 0, character: 0 }, end: Position { line: 0, character: 1 } },
        },
    }
}

/// The range a diagnostic covers, from the span or offset of its error.
pub fn diagnostic_range(text: &str, span: Option<(usize, usize)>, byte_offset: Option<usize>) -> (r: Range)
    requires
        span matches Some((s, e)) ==> (e <= s ==> s < usize::MAX),
    ensures
        r == diagnostic_range_spec(text@, span, byte_offset),
{
    match span {
        Some((start, end)) => {
            let start_pos = byte_offset_to_position(text, start);
            let end_pos = byte_offset_to_position(
                text,
                if end <= start {
                    start + 1
                } else {
                    end
                },
            );
            Range { start: start_pos, end: end_pos }
        },
        None => match byte_offset {
            Some(pos) => {
                let p = byte_offset_to_position(text, pos);
                Range { start: p, end: p }
            },
            None => Range { start: Position::new(0, 0), end: Position::new(0, 1) },
        },
    }
}

/// The diagnostic of a document: none when it parses, else the range and
/// message of the parse error.  Parse errors carry no position, so the
/// range is the first character.
pub fn parse_diagnostic(text: &str) -> (r: Option<(Range, String)>)
    ensures
        r matches Some((range, _)) ==> range == diagnostic_range_spec(text@, None, None),
        r is None ==> exists|p: crate::ast::Program| crate::parser::parses_to(text@, p),
        crate::token::blank_text(text.spec_bytes()) ==> r is None,
{
    match crate::parser::parse(text) {
        Ok(_) => None,
        Err(e) => {
            let range = diagnostic_range(text, None, None);
            Some((range, e.message()))
        },
    }
}

} // verus!
