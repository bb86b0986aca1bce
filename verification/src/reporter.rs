//! Progress lines of nested steps. A reporter writes nothing itself: it
//! hands out the text to be written, and keeps track of how deep the steps
//! are nested and of whether a line stands open.

use vstd::prelude::*;
use crate::text::{push_char, push_repeated, push_text, repeat};

verus! {

/// The state of the progress output.
#[derive(Debug, Clone, PartialEq, Eq)]
pub struct Reporter {
    indent: usize,
    needs_newline: bool,
}

/// The mathematical content of a [`Reporter`].
pub struct ReporterView {
    /// How many steps are open.
    pub indent: nat,
    /// Whether the line of the innermost open step still stands open.
    pub needs_newline: bool,
}

impl View for Reporter {
    type V = ReporterView;

    closed spec fn view(&self) -> ReporterView {
        ReporterView { indent: self.indent as nat, needs_newline: self.needs_newline }
    }
}

/// What begins a line: the end of the line that stands open, if one does,
/// and two blanks for every open step.
pub open spec fn line_start(r: ReporterView) -> Seq<char> {
    (if r.needs_newline { seq!['\n'] } else { Seq::empty() }) + repeat(' ', 2 * r.indent)
}

/// The line of a message.
pub open spec fn message_text(r: ReporterView, line: Seq<char>) -> Seq<char> {
    line_start(r) + line + seq!['\n']
}

/// What opens a step: its line, left open after three dots.
pub open spec fn opening_text(r: ReporterView, line: Seq<char>) -> Seq<char> {
    line_start(r) + line + "..."@
}

/// How deep the steps are nested after one was closed.
pub open spec fn closed_indent(r: ReporterView) -> nat {
    if r.indent > 0 {
        (r.indent - 1) as nat
    } else {
        0
    }
}

/// What closes a step: where its line no longer stands open, a new line that
/// takes it up with three dots; then a blank, the outcome and the line's end.
pub open spec fn closing_text(r: ReporterView, outcome: Seq<char>) -> Seq<char> {
    (if r.needs_newline {
        Seq::empty()
    } else {
        repeat(' ', 2 * closed_indent(r)) + "..."@
    }) + seq![' '] + outcome + seq!['\n']
}

impl Default for Reporter {
    fn default() -> (r: Reporter)
        ensures
            r@ == (ReporterView { indent: 0, needs_newline: false }),
    {
        Reporter { indent: 0, needs_newline: false }
    }
}

impl Reporter {
    /// Appends what begins a line, and closes the open line.
    fn start_line(&mut self, out: &mut String)
        ensures
            final(out)@ == old(out)@ + line_start(old(self)@),
            final(self)@ == (ReporterView { needs_newline: false, ..old(self)@ }),
    {
        let ghost before = out@;
        if self.needs_newline {
            push_char(out, '\n');
            self.needs_newline = false;
        }
        push_repeated(out, ' ', self.indent as u128);
        push_repeated(out, ' ', self.indent as u128);
        assert(repeat(' ', self.indent as nat) + repeat(' ', self.indent as nat) == repeat(
            ' ',
            2 * (self.indent as nat),
        ));
        assert(out@ == before + line_start(old(self)@));
    }

    /// The text of a message on a line of its own.
    pub fn message(&mut self, line: &str) -> (text: String)
        ensures
            text@ == message_text(old(self)@, line@),
            final(self)@ == (ReporterView { needs_newline: false, ..old(self)@ }),
    {
        let mut text = String::new();
        self.start_line(&mut text);
        push_text(&mut text, line);
        push_char(&mut text, '\n');
        assert(text@ == message_text(old(self)@, line@));
        text
    }

    /// Opens a step: the text of its line, which stays open until the step
    /// is closed or something else is written. What follows is nested one
    /// deeper.
    pub fn report(&mut self, line: &str) -> (text: String)
        ensures
            text@ == opening_text(old(self)@, line@),
            final(self)@.needs_newline,
            final(self)@.indent == if old(self)@.indent < usize::MAX {
                old(self)@.indent + 1
            } else {
                old(self)@.indent
            },
    {
        let mut text = String::new();
        self.start_line(&mut text);
        push_text(&mut text, line);
        push_text(&mut text, "...");
        if self.indent < usize::MAX {
            self.indent = self.indent + 1;
        }
        self.needs_newline = true;
        assert(text@ == opening_text(old(self)@, line@));
        text
    }

    /// Closes the innermost step with its outcome: how long it took, or how
    /// it failed.
    pub fn conclude(&mut self, outcome: &str) -> (text: String)
        ensures
            text@ == closing_text(old(self)@, outcome@),
            final(self)@ == (ReporterView { indent: closed_indent(old(self)@), needs_newline: false }),
    {
        let mut text = String::new();
        if self.indent > 0 {
            self.indent = self.indent - 1;
        }
        if !self.needs_newline {
            self.start_line(&mut text);
            push_text(&mut text, "...");
        }
        push_char(&mut text, ' ');
        push_text(&mut text, outcome);
        push_char(&mut text, '\n');
        self.needs_newline = false;
        assert(text@ == closing_text(old(self)@, outcome@));
        text
    }
}

} // verus!
