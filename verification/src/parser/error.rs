//! What a failed parse reports.

use vstd::prelude::*;

verus! {

/// The rules of the grammar that a failure can be reported in.
#[derive(Debug, PartialEq, Eq, Clone, Copy, Structural)]
pub enum Rule {
    Group,
    Literal,
    Format,
    Expression,
}

/// The failures that have no classification of their own.
#[derive(Debug, PartialEq, Eq, Clone, Copy, Structural)]
pub enum OtherKind {
    /// A fixed piece of text was expected.
    Tag,
    /// Input was left over after the last expression.
    Eof,
    /// A repeated rule matched without consuming anything.
    Many0,
    /// A rule repeated at least once matched without consuming anything.
    Many1,
}

/// The classification of a failure.
#[derive(Debug, PartialEq, Eq, Clone, Copy, Structural)]
pub enum ParseErrorKind {
    /// A literal was opened and never closed.
    UnclosedString,
    /// The input ended, or went astray, before this closing delimiter.
    MissingDelimiter(char),
    /// This character was expected.
    MissingChar(char),
    /// No name starts here.
    UnrecognizedName,
    /// No style token starts here.
    UnrecognizedStyle,
    /// The three channels of a 24-bit colour are malformed.
    InvalidRGB,
    Other(OtherKind),
}

/// A failure, located by offsets into the input: where it happened and
/// what it was, the innermost rule that was being parsed and the outermost
/// one, each with the offset at which the rule started.
pub struct FaultView {
    pub at: int,
    pub kind: ParseErrorKind,
    pub context: Option<(int, Rule)>,
    pub top: Option<(int, Rule)>,
}

impl FaultView {
    /// A failure outside any rule.
    pub open spec fn new(at: int, kind: ParseErrorKind) -> FaultView {
        FaultView { at, kind, context: None, top: None }
    }

    /// The same failure, relocated and reclassified.
    pub open spec fn becomes(self, at: int, kind: ParseErrorKind) -> FaultView {
        FaultView { at, kind, ..self }
    }

    /// The failure as seen from a rule that started at `at`: the innermost
    /// rule stays if there is one, the outermost is this one.
    pub open spec fn add_context(self, at: int, rule: Rule) -> FaultView {
        FaultView {
            context: if self.context is Some {
                self.context
            } else {
                Some((at, rule))
            },
            top: Some((at, rule)),
            ..self
        }
    }

    /// A missing character seen as the missing delimiter of a construct
    /// that started at `at`; any other failure is left as it is.
    pub open spec fn char_to_delimiter(self, at: int) -> FaultView {
        match self.kind {
            ParseErrorKind::MissingChar(c) => self.becomes(at, ParseErrorKind::MissingDelimiter(c)),
            _ => self,
        }
    }

    /// An unclassified failure seen as an unrecognised style at `at`; a
    /// classified one is left as it is.
    pub open spec fn other_to_style(self, at: int) -> FaultView {
        match self.kind {
            ParseErrorKind::Other(_) => self.becomes(at, ParseErrorKind::UnrecognizedStyle),
            _ => self,
        }
    }
}

/// A failure located by offsets into the input, as the parser passes it
/// around.
#[derive(Debug, PartialEq, Eq, Clone, Copy)]
pub struct Fault {
    pub at: usize,
    pub kind: ParseErrorKind,
    pub context: Option<(usize, Rule)>,
    pub top: Option<(usize, Rule)>,
}

/// An optional rule with its start, over mathematical offsets.
pub open spec fn frame_view(frame: Option<(usize, Rule)>) -> Option<(int, Rule)> {
    match frame {
        Some((at, rule)) => Some((at as int, rule)),
        None => None,
    }
}

impl View for Fault {
    type V = FaultView;

    open spec fn view(&self) -> FaultView {
        FaultView {
            at: self.at as int,
            kind: self.kind,
            context: frame_view(self.context),
            top: frame_view(self.top),
        }
    }
}

impl Fault {
    /// A failure outside any rule.
    pub fn new(at: usize, kind: ParseErrorKind) -> (f: Fault)
        ensures
            f@ == FaultView::new(at as int, kind),
    {
        Fault { at, kind, context: None, top: None }
    }

    /// The same failure, relocated and reclassified.
    pub fn becomes(self, at: usize, kind: ParseErrorKind) -> (f: Fault)
        ensures
            f@ == self@.becomes(at as int, kind),
    {
        Fault { at, kind, context: self.context, top: self.top }
    }

    /// The failure as seen from a rule that started at `at`.
    pub fn add_context(self, at: usize, rule: Rule) -> (f: Fault)
        ensures
            f@ == self@.add_context(at as int, rule),
    {
        let context = match self.context {
            Some(c) => Some(c),
            None => Some((at, rule)),
        };
        Fault { at: self.at, kind: self.kind, context, top: Some((at, rule)) }
    }

    /// A missing character seen as the missing delimiter of a construct
    /// that started at `at`.
    pub fn char_to_delimiter(self, at: usize) -> (f: Fault)
        ensures
            f@ == self@.char_to_delimiter(at as int),
    {
        match self.kind {
            ParseErrorKind::MissingChar(c) => self.becomes(at, ParseErrorKind::MissingDelimiter(c)),
            _ => self,
        }
    }

    /// An unclassified failure seen as an unrecognised style at `at`.
    pub fn other_to_style(self, at: usize) -> (f: Fault)
        ensures
            f@ == self@.other_to_style(at as int),
    {
        match self.kind {
            ParseErrorKind::Other(_) => self.becomes(at, ParseErrorKind::UnrecognizedStyle),
            _ => self,
        }
    }
}

/// How a rule fails: an error lets the caller try something else, a
/// failure ends the parse.
#[derive(Debug, PartialEq, Eq)]
pub enum Stop<E> {
    Error(E),
    Failure(E),
}

/// What a rule makes of the input from some offset on: a value and the
/// offset behind what it consumed, or one of the two ways to fail.
pub enum Outcome<T> {
    Done { end: int, value: T },
    Error(FaultView),
    Failure(FaultView),
}

} // verus!
