//! Logical lines: the token stream cut at its newline markers, each line
//! with its number and its indentation level.

use vstd::prelude::*;
use vstd::slice::*;
use vstd::string::*;
use crate::compiler_error::CompilerError;

verus! {

/// A newline marker: a token that starts with a line feed. The whitespace
/// after the line feed is the indentation of the line that follows.
pub open spec fn is_newline_token(t: Seq<char>) -> bool {
    t.len() > 0 && t[0] == '\n'
}

/// What one character adds to the width of an indentation: a tab four, a
/// space one, anything else nothing.
pub open spec fn char_width(c: char) -> nat {
    if c == '\t' {
        4
    } else if c == ' ' {
        1
    } else {
        0
    }
}

/// The width of the whitespace in a newline marker.
pub open spec fn indent_width(t: Seq<char>) -> nat
    decreases t.len(),
{
    if t.len() == 0 {
        0
    } else {
        indent_width(t.drop_last()) + char_width(t.last())
    }
}

/// The index of the first newline marker at or after `from`, or the length
/// of the stream if there is none.
pub open spec fn next_newline(tokens: Seq<String>, from: int) -> int
    decreases tokens.len() - from,
{
    if from < 0 || from >= tokens.len() {
        tokens.len() as int
    } else if is_newline_token(tokens[from]@) {
        from
    } else {
        next_newline(tokens, from + 1)
    }
}

/// One logical line: the tokens from `start` up to `end` in the stream.
#[derive(Clone, Copy, Debug, PartialEq)]
pub struct Line<'a> {
    pub line_num: usize,
    pub start: usize,
    pub end: usize,
    pub indent: usize,
    pub file_name: &'a String,
    pub tokens: &'a [String],
}

/// Whether `token` starts with a line feed.
pub fn starts_line(token: &String) -> (yes: bool)
    ensures
        yes == is_newline_token(token@),
{
    let text: &str = token.as_str();
    text.unicode_len() > 0 && text.get_char(0) == '\n'
}

/// The indentation level that a newline marker gives: a quarter of the
/// width of its whitespace, if that is a whole number.
pub fn get_indent_level(indent_token: &String) -> (level: Option<usize>)
    ensures
        indent_width(indent_token@) % 4 == 0 ==> level.is_some() && level.unwrap() == indent_width(
            indent_token@,
        ) / 4,
        indent_width(indent_token@) % 4 != 0 ==> level.is_none(),
{
    let marker: &str = indent_token.as_str();
    let n: usize = marker.unicode_len();
    let mut levels: usize = 0;
    let mut rest: usize = 0;
    let mut i: usize = 0;
    while i < n
        invariant
            i <= n,
            n == marker@.len(),
            rest < 4,
            levels <= i,
            levels * 4 + rest == indent_width(marker@.subrange(0, i as int)),
        decreases n - i,
    {
        let c: char = marker.get_char(i);
        proof {
            assert(marker@.subrange(0, i + 1).drop_last() =~= marker@.subrange(0, i as int));
        }
        if c == '\t' {
            levels = levels + 1;
        } else if c == ' ' {
            rest = rest + 1;
            if rest == 4 {
                levels = levels + 1;
                rest = 0;
            }
        }
        i = i + 1;
    }
    proof {
        assert(marker@.subrange(0, n as int) =~= marker@);
    }
    if rest == 0 {
        Some(levels)
    } else {
        None
    }
}

impl<'a> Line<'a> {
    /// Token `i` of the line.
    pub fn get_token(&self, i: usize) -> (token: &'a String)
        requires
            i < self.tokens@.len(),
        ensures
            *token == self.tokens@[i as int],
    {
        &self.tokens[i]
    }

    /// The number of tokens in the line.
    pub fn len(&self) -> (n: usize)
        ensures
            n == self.tokens@.len(),
    {
        self.tokens.len()
    }

    /// The line cut out of `stream`: its tokens are those from `start` to `end`.
    pub open spec fn cut_from(&self, stream: Seq<String>) -> bool {
        &&& self.start <= self.end <= stream.len()
        &&& self.tokens@ == stream.subrange(self.start as int, self.end as int)
    }

    /// Reads the indentation level off the newline marker at `start`.
    fn set_indent_level(&mut self, tokens: &Vec<String>) -> (done: Result<(), CompilerError>)
        requires
            old(self).start < tokens@.len(),
        ensures
            indent_width(tokens@[old(self).start as int]@) % 4 == 0 ==> done.is_ok() && *final(self)
                == (Line { indent: final(self).indent, ..*old(self) }) && final(self).indent
                == indent_width(tokens@[old(self).start as int]@) / 4,
            indent_width(tokens@[old(self).start as int]@) % 4 != 0 ==> done == Err::<
                (),
                CompilerError,
            >(CompilerError::IndentError(old(self).line_num)) && *final(self) == *old(self),
    {
        match get_indent_level(&tokens[self.start]) {
            Some(level) => {
                self.indent = level;
                Ok(())
            },
            None => Err(CompilerError::IndentError(self.line_num)),
        }
    }
}

/// What follows a newline marker in the stream.
pub enum Cut {
    /// No line is left: the stream ends before another newline marker closes one.
    Exhausted,
    /// The width of the indentation is not a multiple of four.
    BadIndent,
    /// The line of the tokens from `start` up to `end`, `indent` levels deep.
    Line { start: int, end: int, indent: nat },
}

/// The line that the newline marker at index `at` opens.
pub open spec fn cut_after(tokens: Seq<String>, at: int) -> Cut {
    if at < 0 || at >= tokens.len() {
        Cut::Exhausted
    } else if indent_width(tokens[at]@) % 4 != 0 {
        Cut::BadIndent
    } else if next_newline(tokens, at + 1) >= tokens.len() {
        Cut::Exhausted
    } else {
        Cut::Line {
            start: at + 1,
            end: next_newline(tokens, at + 1),
            indent: indent_width(tokens[at]@) / 4,
        }
    }
}

/// The next newline marker is looked for from `from` on, and no further
/// than the end of the stream.
pub proof fn lemma_next_newline_bounds(tokens: Seq<String>, from: int)
    requires
        0 <= from,
    ensures
        from <= next_newline(tokens, from) || tokens.len() <= from,
        next_newline(tokens, from) <= tokens.len(),
    decreases tokens.len() - from,
{
    if from < tokens.len() && !is_newline_token(tokens[from]@) {
        lemma_next_newline_bounds(tokens, from + 1);
    }
}

/// A line runs from just behind one newline marker to the next one, and
/// holds no newline marker itself.
pub proof fn lemma_line_between_markers(tokens: Seq<String>, at: int)
    ensures
        cut_after(tokens, at) matches Cut::Line { start, end, indent } ==> {
            &&& start == at + 1
            &&& start <= end < tokens.len()
            &&& is_newline_token(tokens[end]@)
            &&& forall|q: int| start <= q < end ==> !is_newline_token(#[trigger] tokens[q]@)
            &&& indent * 4 == indent_width(tokens[at]@)
        },
{
    if 0 <= at < tokens.len() {
        lemma_next_newline_is_first(tokens, at + 1);
    }
}

proof fn lemma_next_newline_is_first(tokens: Seq<String>, from: int)
    requires
        0 <= from,
    ensures
        next_newline(tokens, from) < tokens.len() ==> from <= next_newline(tokens, from)
            && is_newline_token(tokens[next_newline(tokens, from)]@),
        forall|q: int|
            from <= q < next_newline(tokens, from) ==> !is_newline_token(#[trigger] tokens[q]@),
    decreases tokens.len() - from,
{
    lemma_next_newline_bounds(tokens, from);
    if from < tokens.len() && !is_newline_token(tokens[from]@) {
        lemma_next_newline_is_first(tokens, from + 1);
    }
}

/// Walks a token stream line by line, once.
pub struct LineIterator<'a> {
    pub curr_line: Line<'a>,
    pub tokens: &'a Vec<String>,
}

impl<'a> LineIterator<'a> {
    /// The walk has not passed the end of the stream, and has counted no
    /// more lines than it has passed tokens.
    pub open spec fn wf(&self) -> bool {
        &&& self.curr_line.end <= self.tokens@.len()
        &&& self.curr_line.line_num <= self.curr_line.end
    }

    /// A walk over `tokens` that stands before their first newline marker.
    pub fn new(filename: &'a String, tokens: &'a Vec<String>) -> (it: Self)
        ensures
            it.wf(),
            it.tokens == tokens,
            it.curr_line.line_num == 0,
            it.curr_line.start == 0,
            it.curr_line.end == 0,
            it.curr_line.indent == 0,
            it.curr_line.file_name == filename,
            it.curr_line.tokens@ == tokens@,
    {
        LineIterator {
            curr_line: Line {
                line_num: 0,
                start: 0,
                end: 0,
                indent: 0,
                file_name: filename,
                tokens: tokens.as_slice(),
            },
            tokens,
        }
    }

    /// The next line of the stream, `None` once no line is left. A line
    /// whose indentation is not a whole number of levels is an error, and
    /// leaves the walk where it was.
    pub fn next_line(&mut self) -> (next: Result<Option<Line<'a>>, CompilerError>)
        requires
            old(self).wf(),
        ensures
            final(self).wf(),
            final(self).tokens == old(self).tokens,
            match cut_after(old(self).tokens@, old(self).curr_line.end as int) {
                Cut::Exhausted => next == Ok::<Option<Line<'a>>, CompilerError>(None) && final(self).curr_line.end == old(self).tokens@.len(),
                Cut::BadIndent => next == Err::<Option<Line<'a>>, CompilerError>(
                    CompilerError::IndentError((old(self).curr_line.line_num + 1) as usize),
                ) && *final(self) == *old(self),
                Cut::Line { start, end, indent } => {
                    &&& next == Ok::<Option<Line<'a>>, CompilerError>(Some(final(self).curr_line))
                    &&& final(self).curr_line.line_num == old(self).curr_line.line_num + 1
                    &&& final(self).curr_line.start == start
                    &&& final(self).curr_line.end == end
                    &&& final(self).curr_line.indent == indent
                    &&& final(self).curr_line.file_name == old(self).curr_line.file_name
                    &&& final(self).curr_line.cut_from(old(self).tokens@)
                },
            },
    {
        let tokens: &'a Vec<String> = self.tokens;
        let total: usize = tokens.len();
        if self.curr_line.end >= total {
            return Ok(None);
        }
        let mut line: Line<'a> = self.curr_line;
        line.line_num = line.line_num + 1;
        line.start = line.end;
        match line.set_indent_level(tokens) {
            Ok(()) => {},
            Err(e) => {
                return Err(e);
            },
        }
        line.start = line.start + 1;
        line.end = line.end + 1;
        proof {
            lemma_next_newline_bounds(tokens@, line.start as int);
        }
        while line.end < total
            invariant
                *self == *old(self),
                old(self).wf(),
                tokens == old(self).tokens,
                line.start <= line.end <= total,
                total == tokens@.len(),
                next_newline(tokens@, line.end as int) == next_newline(tokens@, line.start as int),
                line.start == old(self).curr_line.end + 1,
                line.line_num == old(self).curr_line.line_num + 1,
                line.file_name == old(self).curr_line.file_name,
                indent_width(tokens@[old(self).curr_line.end as int]@) % 4 == 0,
                line.indent == indent_width(tokens@[old(self).curr_line.end as int]@) / 4,
            decreases total - line.end,
        {
            if starts_line(&tokens[line.end]) {
                line.tokens = slice_subrange(tokens.as_slice(), line.start, line.end);
                self.curr_line = line;
                return Ok(Some(line));
            }
            line.end = line.end + 1;
        }
        self.curr_line = line;
        Ok(None)
    }
}

} // verus!
