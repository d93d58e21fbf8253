//! The directive scanner.
//!
//! The scanner walks the source text once. It keeps track of quoted
//! strings and comments, so that an `@` counts only in plain code, and
//! tries the directive grammar at each such `@`.

use vstd::prelude::*;
use vstd::utf8::encode_utf8;
use crate::parser::directive::{directives_view, Directive, DirectiveView, Location};
use crate::parser::error::ParseError;
use crate::parser::grammar::{directive_at, parse_directive};
use crate::text::chars_of;

verus! {

/// The number of bytes that a character takes in UTF-8.
pub open spec fn char_width(c: char) -> nat {
    let n = c as u32;
    if n < 0x80 {
        1
    } else if n < 0x800 {
        2
    } else if n < 0x10000 {
        3
    } else {
        4
    }
}

/// The number of bytes that a text takes in UTF-8.
pub open spec fn utf8_len(s: Seq<char>) -> nat
    decreases s.len(),
{
    if s.len() == 0 {
        0
    } else {
        utf8_len(s.drop_last()) + char_width(s.last())
    }
}

/// The number of line feeds in a text.
pub open spec fn newlines(s: Seq<char>) -> nat
    decreases s.len(),
{
    if s.len() == 0 {
        0
    } else {
        newlines(s.drop_last()) + if s.last() == '\n' {
            1nat
        } else {
            0nat
        }
    }
}

/// The position at which the line that holds position `i` starts: after
/// the last line feed before `i`, or at 0.
pub open spec fn line_start(s: Seq<char>, i: int) -> int
    decreases i,
{
    if i <= 0 || i > s.len() {
        0
    } else if s[i - 1] == '\n' {
        i
    } else {
        line_start(s, i - 1)
    }
}

/// The location of position `i` in the text: its line, counted from 1, and
/// its column, which is 1 plus the number of bytes between the start of the
/// line and the position.
pub open spec fn location_at(s: Seq<char>, i: int) -> Location {
    Location {
        line: (1 + newlines(s.subrange(0, i))) as usize,
        column: (1 + utf8_len(s.subrange(line_start(s, i), i))) as usize,
    }
}

/// What the scanner is inside of.
#[derive(Debug, Clone, Copy, PartialEq, Eq, Structural)]
pub enum Lex {
    /// Plain code: an `@` may start a directive.
    Code,
    /// A string opened by the given quote character.
    Quoted(char),
    /// A `//` comment, which ends with the line.
    LineComment,
    /// A `/* */` comment.
    BlockComment,
}

/// The directives found from position `i` on, when the scanner is in
/// `state` there.
///
/// In plain code a quote opens a string, `//` and `/*` open comments, and
/// an `@` at which a directive matches yields that directive and moves the
/// scanner behind it; any other `@` is ordinary text. A string ends at the
/// next occurrence of its quote that no backslash precedes, a line comment
/// at the next line feed, a block comment at the next `*/`.
pub open spec fn scan_from(s: Seq<char>, i: int, state: Lex) -> Seq<DirectiveView>
    decreases s.len() - i,
{
    if i < 0 || i >= s.len() {
        seq![]
    } else {
        let c = s[i];
        let pair = i + 1 < s.len();
        match state {
            Lex::Quoted(q) => if c == q && !(i > 0 && s[i - 1] == '\\') {
                scan_from(s, i + 1, Lex::Code)
            } else {
                scan_from(s, i + 1, state)
            },
            Lex::LineComment => if c == '\n' {
                scan_from(s, i + 1, Lex::Code)
            } else {
                scan_from(s, i + 1, state)
            },
            Lex::BlockComment => if c == '*' && pair && s[i + 1] == '/' {
                scan_from(s, i + 2, Lex::Code)
            } else {
                scan_from(s, i + 1, state)
            },
            Lex::Code => if c == '"' || c == '\'' {
                scan_from(s, i + 1, Lex::Quoted(c))
            } else if c == '/' && pair && s[i + 1] == '/' {
                scan_from(s, i + 2, Lex::LineComment)
            } else if c == '/' && pair && s[i + 1] == '*' {
                scan_from(s, i + 2, Lex::BlockComment)
            } else if c == '@' {
                match directive_at(s, i, location_at(s, i)) {
                    Some((d, end)) => if i < end <= s.len() {
                        seq![d] + scan_from(s, end, Lex::Code)
                    } else {
                        seq![]
                    },
                    None => scan_from(s, i + 1, Lex::Code),
                }
            } else {
                scan_from(s, i + 1, Lex::Code)
            },
        }
    }
}

/// The directives of a source text, in source order.
pub open spec fn scan(s: Seq<char>) -> Seq<DirectiveView> {
    scan_from(s, 0, Lex::Code)
}

/// The byte length of a text is that of its first part plus that of the
/// rest.
pub proof fn lemma_utf8_len_split(s: Seq<char>, a: int, b: int)
    requires
        0 <= a <= b <= s.len(),
    ensures
        utf8_len(s.subrange(0, b)) == utf8_len(s.subrange(0, a)) + utf8_len(s.subrange(a, b)),
    decreases b - a,
{
    if a < b {
        lemma_utf8_len_split(s, a, b - 1);
        assert(s.subrange(0, b).drop_last() =~= s.subrange(0, b - 1));
        assert(s.subrange(a, b).drop_last() =~= s.subrange(a, b - 1));
    } else {
        assert(s.subrange(a, b) =~= Seq::<char>::empty());
    }
}

/// The byte length computed here is the length of the UTF-8 encoding.
pub proof fn lemma_utf8_len_is_encoded_len(s: Seq<char>)
    ensures
        utf8_len(s) == encode_utf8(s).len(),
    decreases s.len(),
{
    if s.len() > 0 {
        lemma_utf8_len_is_encoded_len(s.drop_first());
        lemma_utf8_len_split(s, 1, s.len() as int);
        assert(s.subrange(0, s.len() as int) =~= s);
        assert(s.subrange(1, s.len() as int) =~= s.drop_first());
        assert(s.subrange(0, 1).drop_last() =~= Seq::<char>::empty());
        assert(utf8_len(s.subrange(0, 1)) == char_width(s[0])) by {
            assert(utf8_len(s.subrange(0, 1).drop_last()) == 0);
        }
        vstd::utf8::char_is_scalar(s[0]);
    }
}

proof fn lemma_newlines_bound(s: Seq<char>)
    ensures
        newlines(s) <= s.len(),
    decreases s.len(),
{
    if s.len() > 0 {
        lemma_newlines_bound(s.drop_last());
    }
}

proof fn lemma_line_start_bounds(s: Seq<char>, i: int)
    requires
        0 <= i <= s.len(),
    ensures
        0 <= line_start(s, i) <= i,
    decreases i,
{
    if i > 0 && s[i - 1] != '\n' {
        lemma_line_start_bounds(s, i - 1);
    }
}

fn width_of(c: char) -> (w: usize)
    ensures
        w == char_width(c),
{
    let n: u32 = c as u32;
    if n < 0x80 {
        1
    } else if n < 0x800 {
        2
    } else if n < 0x10000 {
        3
    } else {
        4
    }
}

/// Moves the count of line feeds and of bytes on the current line from
/// position `from` to position `to`.
fn advance(s: &[char], from: usize, to: usize, lines: usize, bytes: usize) -> (r: (usize, usize))
    requires
        from <= to <= s@.len(),
        utf8_len(s@) <= usize::MAX,
        lines == newlines(s@.subrange(0, from as int)),
        bytes == utf8_len(s@.subrange(line_start(s@, from as int), from as int)),
    ensures
        r.0 == newlines(s@.subrange(0, to as int)),
        r.1 == utf8_len(s@.subrange(line_start(s@, to as int), to as int)),
{
    let mut k: usize = from;
    let mut lines: usize = lines;
    let mut bytes: usize = bytes;
    while k < to
        invariant
            from <= k <= to <= s@.len(),
            utf8_len(s@) <= usize::MAX,
            lines == newlines(s@.subrange(0, k as int)),
            bytes == utf8_len(s@.subrange(line_start(s@, k as int), k as int)),
        decreases to - k,
    {
        let c = s[k];
        proof {
            let ls = line_start(s@, k as int);
            lemma_line_start_bounds(s@, k as int);
            lemma_newlines_bound(s@.subrange(0, k as int + 1));
            lemma_utf8_len_split(s@, ls, k as int + 1);
            lemma_utf8_len_split(s@, k as int + 1, s@.len() as int);
            assert(s@.subrange(0, s@.len() as int) =~= s@);
            assert(s@.subrange(0, k as int + 1).drop_last() =~= s@.subrange(0, k as int));
            assert(s@.subrange(ls, k as int + 1).drop_last() =~= s@.subrange(ls, k as int));
            assert(s@.subrange(k as int + 1, k as int + 1) =~= Seq::<char>::empty());
        }
        if c == '\n' {
            lines = lines + 1;
            bytes = 0;
        } else {
            bytes = bytes + width_of(c);
        }
        k += 1;
    }
    (lines, bytes)
}

/// Tries the directive grammar at the `@` at position `i`, with the
/// location of that position, and moves the counts of [`advance`] there.
fn directive_here(s: &[char], i: usize, mark: usize, lines: usize, bytes: usize) -> (r: (
    Option<(Directive, usize)>,
    usize,
    usize,
))
    requires
        mark <= i < s@.len(),
        utf8_len(s@) <= usize::MAX,
        lines == newlines(s@.subrange(0, mark as int)),
        bytes == utf8_len(s@.subrange(line_start(s@, mark as int), mark as int)),
    ensures
        r.1 == newlines(s@.subrange(0, i as int)),
        r.2 == utf8_len(s@.subrange(line_start(s@, i as int), i as int)),
        r.0 is Some == directive_at(s@, i as int, location_at(s@, i as int)) is Some,
        r.0 matches Some((d, end)) ==> directive_at(s@, i as int, location_at(s@, i as int))
            == Some((d@, end as int)) && i < end <= s@.len(),
{
    let (lines, bytes) = advance(s, mark, i, lines, bytes);
    let total = s.len();
    proof {
        assert(i < total);
        let ls = line_start(s@, i as int);
        lemma_line_start_bounds(s@, i as int);
        lemma_newlines_bound(s@.subrange(0, i as int));
        lemma_utf8_len_split(s@, ls, i as int);
        lemma_utf8_len_split(s@, i as int, i as int + 1);
        lemma_utf8_len_split(s@, i as int + 1, s@.len() as int);
        assert(s@.subrange(0, s@.len() as int) =~= s@);
        assert(s@.subrange(i as int, i as int + 1).drop_last() =~= Seq::<char>::empty());
        assert(utf8_len(s@.subrange(i as int, i as int + 1)) >= 1);
    }
    let location = Location::new(lines + 1, bytes + 1);
    assert(location == location_at(s@, i as int));
    (parse_directive(s, i, location), lines, bytes)
}

/// Scans a text given as characters.
fn scan_chars(s: &[char]) -> (out: Vec<Directive>)
    requires
        utf8_len(s@) <= usize::MAX,
    ensures
        directives_view(out@) == scan(s@),
{
    let mut out: Vec<Directive> = Vec::new();
    let mut i: usize = 0;
    let mut state = Lex::Code;
    let mut mark: usize = 0;
    let mut lines: usize = 0;
    let mut bytes: usize = 0;
    proof {
        assert(s@.subrange(0, 0) =~= Seq::<char>::empty());
        assert(directives_view(out@) =~= Seq::<DirectiveView>::empty());
        assert(Seq::<DirectiveView>::empty() + scan(s@) =~= scan(s@));
    }
    while i < s.len()
        invariant
            i <= s@.len(),
            mark <= i,
            s.len() == s@.len(),
            utf8_len(s@) <= usize::MAX,
            lines == newlines(s@.subrange(0, mark as int)),
            bytes == utf8_len(s@.subrange(line_start(s@, mark as int), mark as int)),
            scan(s@) == directives_view(out@) + scan_from(s@, i as int, state),
        decreases s@.len() - i,
    {
        let c = s[i];
        let pair = i + 1 < s.len();
        match state {
            Lex::Quoted(q) => {
                if c == q && !(i > 0 && s[i - 1] == '\\') {
                    state = Lex::Code;
                }
                i += 1;
            },
            Lex::LineComment => {
                if c == '\n' {
                    state = Lex::Code;
                }
                i += 1;
            },
            Lex::BlockComment => {
                if c == '*' && pair && s[i + 1] == '/' {
                    state = Lex::Code;
                    i += 2;
                } else {
                    i += 1;
                }
            },
            Lex::Code => {
                if c == '"' || c == '\'' {
                    state = Lex::Quoted(c);
                    i += 1;
                } else if c == '/' && pair && s[i + 1] == '/' {
                    state = Lex::LineComment;
                    i += 2;
                } else if c == '/' && pair && s[i + 1] == '*' {
                    state = Lex::BlockComment;
                    i += 2;
                } else if c == '@' {
                    let (found, l, b) = directive_here(s, i, mark, lines, bytes);
                    mark = i;
                    lines = l;
                    bytes = b;
                    match found {
                        Some((d, end)) => {
                            let ghost before = directives_view(out@);
                            out.push(d);
                            proof {
                                assert(directives_view(out@) =~= before.push(d@));
                                assert(before + (seq![d@] + scan_from(s@, end as int, Lex::Code))
                                    =~= before.push(d@) + scan_from(s@, end as int, Lex::Code));
                            }
                            i = end;
                        },
                        None => {
                            i += 1;
                        },
                    }
                } else {
                    i += 1;
                }
            },
        }
    }
    assert(directives_view(out@) + Seq::<DirectiveView>::empty() =~= directives_view(out@));
    out
}

/// Parser for dependency directives.
pub struct Parser;

impl Parser {
    /// Extracts all dependency directives from stylesheet source code, in
    /// source order.
    ///
    /// Text that looks like a directive but does not match its grammar is
    /// skipped, so the result is always `Ok`.
    pub fn parse(input: &str) -> (r: Result<Vec<Directive>, ParseError>)
        ensures
            r is Ok,
            directives_view(r->Ok_0@) == scan(input@),
    {
        let chars = chars_of(input);
        let encoded_len = input.as_bytes().len();
        proof {
            lemma_utf8_len_is_encoded_len(input@);
            assert(utf8_len(chars@) == encoded_len);
        }
        Ok(scan_chars(chars.as_slice()))
    }
}

} // verus!
