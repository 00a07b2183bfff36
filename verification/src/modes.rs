//! The state of the editor's simpler modes.

use vstd::prelude::*;
use crate::ranges::Range;
use crate::selectable_vec::SelectableVec;
use crate::errors::AmpError;
use crate::distance::{advance, advance_fits, advanced};
use crate::text::{string_pop, string_push};

verus! {

/// A location in a buffer: a line and an offset within it.
#[derive(Clone, Copy, Debug, PartialEq, Eq, Structural)]
pub struct Position {
    pub line: usize,
    pub offset: usize,
}

/// Identifies each of the application's modes.
#[derive(Clone, Copy, Debug, PartialEq, Eq, Structural)]
pub enum ModeKey {
    Command,
    Confirm,
    Exit,
    Insert,
    Jump,
    LineJump,
    Normal,
    Open,
    Paste,
    Path,
    Search,
    Select,
    SelectLine,
    SymbolJump,
    Syntax,
    Theme,
}

/// Prompts for a path, e.g. to save a buffer under.
pub struct PathMode {
    pub input: String,
    pub save_on_accept: bool,
}

impl PathMode {
    pub fn new() -> (m: PathMode)
        ensures
            m.input@ == Seq::<char>::empty(),
            !m.save_on_accept,
    {
        PathMode { input: String::new(), save_on_accept: false }
    }

    pub fn push_char(&mut self, c: char)
        ensures
            final(self).input@ == old(self).input@.push(c),
            final(self).save_on_accept == old(self).save_on_accept,
    {
        string_push(&mut self.input, c);
    }

    /// Removes the last character of the input, if there is one.
    pub fn pop_char(&mut self)
        ensures
            final(self).input@ == (if old(self).input@.len() == 0 {
                old(self).input@
            } else {
                old(self).input@.drop_last()
            }),
            final(self).save_on_accept == old(self).save_on_accept,
    {
        string_pop(&mut self.input);
    }

    pub fn reset(&mut self, initial_path: String)
        ensures
            final(self).input@ == initial_path@,
            !final(self).save_on_accept,
    {
        self.input = initial_path;
        self.save_on_accept = false;
    }
}

/// Prompts for a line number to jump to.
pub struct LineJumpMode {
    pub input: String,
}

impl LineJumpMode {
    pub fn new() -> (m: LineJumpMode)
        ensures
            m.input@ == Seq::<char>::empty(),
    {
        LineJumpMode { input: String::new() }
    }

    pub fn reset(&mut self)
        ensures
            final(self).input@ == Seq::<char>::empty(),
    {
        self.input = String::new();
    }
}

/// Selects whole lines, from an anchor line to the cursor's line.
pub struct SelectLineMode {
    pub anchor: usize,
}

impl SelectLineMode {
    pub fn new(anchor: usize) -> (m: SelectLineMode)
        ensures
            m.anchor == anchor,
    {
        SelectLineMode { anchor }
    }

    pub fn reset(&mut self, anchor: usize)
        ensures
            final(self).anchor == anchor,
    {
        self.anchor = anchor;
    }
}

/// Selects text, from an anchor position to the cursor.
pub struct SelectMode {
    pub anchor: Position,
}

impl SelectMode {
    pub fn new(anchor: Position) -> (m: SelectMode)
        ensures
            m.anchor == anchor,
    {
        SelectMode { anchor }
    }
}

/// Inserts typed characters into the buffer.
pub struct InsertMode {
    pub input: Option<char>,
}

impl InsertMode {
    pub fn new() -> (m: InsertMode)
        ensures
            m.input is None,
    {
        InsertMode { input: None }
    }
}

/// Collects the query of a search.
pub struct SearchInsertMode {
    pub input: String,
}

impl SearchInsertMode {
    pub fn new() -> (m: SearchInsertMode)
        ensures
            m.input@ == Seq::<char>::empty(),
    {
        SearchInsertMode { input: String::new() }
    }
}

/// Asks for confirmation before running a command.
pub struct ConfirmMode<C> {
    pub command: C,
}

impl<C> ConfirmMode<C> {
    pub fn new(command: C) -> (m: ConfirmMode<C>)
        ensures
            m.command == command,
    {
        ConfirmMode { command }
    }
}

/// Searches the current buffer for the query; the matches are kept as ranges.
pub struct SearchMode {
    pub insert: bool,
    pub input: Option<String>,
    pub results: Option<SelectableVec<Range>>,
}

impl SearchMode {
    /// A search for `query`, being typed, with no matches yet.
    pub fn new(query: Option<String>) -> (m: SearchMode)
        ensures
            m.insert,
            m.input == query,
            m.results is None,
    {
        SearchMode { insert: true, input: query, results: None }
    }

    pub fn insert_mode(&self) -> (b: bool)
        ensures
            b == self.insert,
    {
        self.insert
    }

    /// Keeps the matches of the query that the buffer search found, given by the
    /// positions where they start, as ranges that span the query (from each start
    /// to the position just after the query, see `advanced`), with the first
    /// selected. Refused when there is no query.
    pub fn set_results(&mut self, starts: Vec<Position>) -> (r: Result<(), AmpError>)
        requires
            old(self).input matches Some(q) ==> forall|i: int|
                0 <= i < starts@.len() ==> advance_fits(#[trigger] starts@[i], q@),
        ensures
            final(self).insert == old(self).insert,
            final(self).input == old(self).input,
            match old(self).input {
                None => r == Err::<(), AmpError>(AmpError::SearchQueryMissing) && final(self).results
                    == old(self).results,
                Some(q) => r is Ok && (final(self).results matches Some(v) && v.index() == 0 && v.items()
                    == match_ranges(starts@, q@)),
            },
    {
        let query = match &self.input {
            Some(q) => q,
            None => return Err(AmpError::SearchQueryMissing),
        };
        let mut ranges: Vec<Range> = Vec::new();
        let mut i: usize = 0;
        while i < starts.len()
            invariant
                0 <= i <= starts@.len(),
                query@ == self.input->0@,
                forall|j: int| 0 <= j < starts@.len() ==> advance_fits(#[trigger] starts@[j], query@),
                ranges@ == match_ranges(starts@.subrange(0, i as int), query@),
            decreases starts@.len() - i,
        {
            let start = starts[i];
            proof {
                assert(advance_fits(starts@[i as int], query@));
            }
            let end = advance(start, query.as_str());
            ranges.push(Range { start, end });
            i = i + 1;
            assert(ranges@ =~= match_ranges(starts@.subrange(0, i as int), query@));
        }
        assert(starts@.subrange(0, i as int) =~= starts@);
        self.results = Some(SelectableVec::new(ranges));
        Ok(())
    }
}

/// The ranges of the matches of `query` that start at `starts`.
pub open spec fn match_ranges(starts: Seq<Position>, query: Seq<char>) -> Seq<Range> {
    starts.map_values(|s: Position| Range { start: s, end: advanced(s, query) })
}

/// Holds a file name being typed.
pub struct NameBuffer {
    pub input: String,
}

impl NameBuffer {
    pub fn new(file_name: String) -> (b: NameBuffer)
        ensures
            b.input@ == file_name@,
    {
        NameBuffer { input: file_name }
    }

    pub fn push_char(&mut self, c: char)
        ensures
            final(self).input@ == old(self).input@.push(c),
    {
        string_push(&mut self.input, c);
    }

    /// Removes the last character of the input, if there is one.
    pub fn pop_char(&mut self)
        ensures
            final(self).input@ == (if old(self).input@.len() == 0 {
                old(self).input@
            } else {
                old(self).input@.drop_last()
            }),
    {
        string_pop(&mut self.input);
    }

    /// The input as a path.
    pub fn get_path(&self) -> (p: std::path::PathBuf)
        ensures
            p == path_of_text(self.input@),
    {
        path_from(&self.input)
    }
}

/// The path that `PathBuf::from` makes of a text.
pub uninterp spec fn path_of_text(text: Seq<char>) -> std::path::PathBuf;

/// Calls `PathBuf::from` on the text.
#[verifier::external_body]
fn path_from(text: &String) -> (p: std::path::PathBuf)
    ensures
        p == path_of_text(text@),
{
    std::path::PathBuf::from(text)
}

} // verus!
