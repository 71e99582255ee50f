//! The parser of format strings.
//!
//! [`parse`] turns a whole format string into a tree; the other functions
//! parse one rule of the grammar at the start of their input and hand back
//! what is left of it. What each of them returns is defined in
//! [`grammar`].

pub mod combinator;
pub mod error;
pub mod grammar;
pub mod laws;
pub mod pretty;

use vstd::prelude::*;
use vstd::string::StrSliceExecFns;
use crate::ast::{ExprView, Expression, Tree};
use crate::parser::error::{Fault, FaultView, Outcome, ParseErrorKind, Rule, Stop};
use crate::text::{chars_of, text_of};

verus! {

/// Why a format string was rejected: what is left of the input where the
/// parse failed and the kind of the failure, and, for a failure inside a
/// rule, the innermost and the outermost rule with what was left of the
/// input where each started.
#[derive(Debug, PartialEq, Eq, Clone)]
pub struct ParseError {
    /// What was left of the input where the parse failed.
    pub rest: String,
    pub kind: ParseErrorKind,
    pub context: Option<Frame>,
    pub top: Option<Frame>,
}

/// A rule that was being parsed, with what was left of the input where it
/// started.
#[derive(Debug, PartialEq, Eq, Clone)]
pub struct Frame {
    pub rest: String,
    pub rule: Rule,
}

/// What a [`ParseError`] holds, over sequences of characters.
pub struct ParseErrorView {
    pub rest: Seq<char>,
    pub kind: ParseErrorKind,
    pub context: Option<(Seq<char>, Rule)>,
    pub top: Option<(Seq<char>, Rule)>,
}

/// A rule with what was left of the input `s` where it started.
pub open spec fn frame_located(frame: Option<(int, Rule)>, s: Seq<char>) -> Option<
    (Seq<char>, Rule),
> {
    match frame {
        Some((at, rule)) => Some((s.skip(at), rule)),
        None => None,
    }
}

/// A rule with what was left of the input where it started, over
/// sequences of characters.
pub open spec fn frame_text(frame: Option<Frame>) -> Option<(Seq<char>, Rule)> {
    match frame {
        Some(f) => Some((f.rest@, f.rule)),
        None => None,
    }
}

impl FaultView {
    /// The failure with each offset into the input `s` replaced by what
    /// is left of `s` from that offset on.
    pub open spec fn located(self, s: Seq<char>) -> ParseErrorView {
        ParseErrorView {
            rest: s.skip(self.at),
            kind: self.kind,
            context: frame_located(self.context, s),
            top: frame_located(self.top, s),
        }
    }
}

impl View for ParseError {
    type V = ParseErrorView;

    open spec fn view(&self) -> ParseErrorView {
        ParseErrorView {
            rest: self.rest@,
            kind: self.kind,
            context: frame_text(self.context),
            top: frame_text(self.top),
        }
    }
}

/// What is left of `chars` from the start of a rule on.
fn locate_frame(chars: &Vec<char>, frame: Option<(usize, Rule)>) -> (r: Option<Frame>)
    requires
        frame matches Some((at, _)) ==> at <= chars.len(),
    ensures
        frame_text(r) == frame_located(crate::parser::error::frame_view(frame), chars@),
{
    match frame {
        Some((at, rule)) => Some(Frame { rest: text_of(chars, at, chars.len()), rule }),
        None => None,
    }
}

impl ParseError {
    /// The failure `fault` of a parse of `chars`.
    fn locate(chars: &Vec<char>, fault: Fault) -> (e: ParseError)
        requires
            fault.inside(chars.len() as int),
        ensures
            e@ == fault@.located(chars@),
    {
        ParseError {
            rest: text_of(chars, fault.at, chars.len()),
            kind: fault.kind,
            context: locate_frame(chars, fault.context),
            top: locate_frame(chars, fault.top),
        }
    }

    /// The kind of the failure.
    pub fn kind(&self) -> (k: ParseErrorKind)
        ensures
            k == self@.kind,
    {
        self.kind
    }
}

/// Whether `r` is the outcome `o` of a rule on the input `s`: the value
/// with what is left of `s`, or the failure located in `s`.
pub open spec fn shown<T>(
    r: Result<(&str, T), Stop<ParseError>>,
    o: Result<(usize, T), Stop<Fault>>,
    s: Seq<char>,
) -> bool {
    match o {
        Ok((end, value)) => r matches Ok((rest, v)) && v == value && rest@ == s.skip(end as int),
        Err(Stop::Error(f)) => r matches Err(Stop::Error(e)) && e@ == f@.located(s),
        Err(Stop::Failure(f)) => r matches Err(Stop::Failure(e)) && e@ == f@.located(s),
    }
}

/// Whether `r` is the outcome `o` of a rule for an expression on the
/// input `s`.
pub open spec fn shown_expr(
    r: Result<(&str, Expression), Stop<ParseError>>,
    o: Outcome<ExprView>,
    s: Seq<char>,
) -> bool {
    match o {
        Outcome::Done { end, value } => r matches Ok((rest, v)) && v@ == value && rest@ == s.skip(
            end,
        ),
        Outcome::Error(f) => r matches Err(Stop::Error(e)) && e@ == f.located(s),
        Outcome::Failure(f) => r matches Err(Stop::Failure(e)) && e@ == f.located(s),
    }
}

/// Whether `r` is the outcome `o` of a rule for a tree on the input `s`.
pub open spec fn shown_tree(
    r: Result<(&str, Tree), Stop<ParseError>>,
    o: Outcome<Seq<ExprView>>,
    s: Seq<char>,
) -> bool {
    match o {
        Outcome::Done { end, value } => r matches Ok((rest, v)) && v@ == value && rest@ == s.skip(
            end,
        ),
        Outcome::Error(f) => r matches Err(Stop::Error(e)) && e@ == f.located(s),
        Outcome::Failure(f) => r matches Err(Stop::Failure(e)) && e@ == f.located(s),
    }
}

/// The result of a rule on the characters of `input`, with what is left of
/// `input` in place of the offset, and the failure located in `input`.
fn show<'a, T>(input: &'a str, chars: &Vec<char>, o: Result<(usize, T), Stop<Fault>>) -> (r:
    Result<(&'a str, T), Stop<ParseError>>)
    requires
        chars@ == input@,
        combinator::within(o, 0, chars.len() as int),
    ensures
        shown(r, o, input@),
{
    match o {
        Ok((end, value)) => Ok((input.substring_char(end, chars.len()), value)),
        Err(Stop::Error(f)) => Err(Stop::Error(ParseError::locate(chars, f))),
        Err(Stop::Failure(f)) => Err(Stop::Failure(ParseError::locate(chars, f))),
    }
}

/// Parses a whole format string.
///
/// Returns the tree that the grammar gives for `input` if the expressions
/// of `input` reach to its end, and else the failure, located in `input`.
pub fn parse(input: &str) -> (r: Result<Tree, ParseError>)
    ensures
        match grammar::parse(input@) {
            Ok(tree) => r matches Ok(t) && t@ == tree,
            Err(f) => r matches Err(e) && e@ == f.located(input@),
        },
{
    let chars = chars_of(input);
    match combinator::expression_tree(&chars, 0) {
        Ok((end, tree)) => {
            if end == chars.len() {
                Ok(tree)
            } else {
                Err(ParseError::locate(&chars, Fault::new(end, ParseErrorKind::Other(
                    crate::parser::error::OtherKind::Eof,
                ))))
            }
        },
        Err(Stop::Error(f)) => Err(ParseError::locate(&chars, f)),
        Err(Stop::Failure(f)) => Err(ParseError::locate(&chars, f)),
    }
}

/// Parses the expressions at the start of `input`, up to where none
/// starts.
pub fn expression_tree<'a>(input: &'a str) -> (r: Result<(&'a str, Tree), Stop<ParseError>>)
    ensures
        shown_tree(r, grammar::expression_tree(input@, 0), input@),
{
    let chars = chars_of(input);
    show(input, &chars, combinator::expression_tree(&chars, 0))
}

/// Parses one expression at the start of `input`.
pub fn expression<'a>(input: &'a str) -> (r: Result<(&'a str, Expression), Stop<ParseError>>)
    ensures
        shown_expr(r, grammar::expression(input@, 0), input@),
{
    let chars = chars_of(input);
    show(input, &chars, combinator::expression(&chars, 0))
}

/// Parses a name, with its sub-tree if one follows, at the start of
/// `input`.
pub fn named_expression<'a>(input: &'a str) -> (r: Result<
    (&'a str, Expression),
    Stop<ParseError>,
>)
    ensures
        shown_expr(r, grammar::named(input@, 0), input@),
{
    let chars = chars_of(input);
    show(input, &chars, combinator::named(&chars, 0))
}

/// Parses a format at the start of `input`.
pub fn format_expression<'a>(input: &'a str) -> (r: Result<
    (&'a str, Expression),
    Stop<ParseError>,
>)
    ensures
        shown_expr(r, grammar::format(input@, 0), input@),
{
    let chars = chars_of(input);
    show(input, &chars, combinator::format(&chars, 0))
}

/// Parses a group at the start of `input`.
pub fn group_expression<'a>(input: &'a str) -> (r: Result<
    (&'a str, Expression),
    Stop<ParseError>,
>)
    ensures
        shown_expr(r, grammar::group(input@, 0), input@),
{
    let chars = chars_of(input);
    show(input, &chars, combinator::group(&chars, 0))
}

/// Parses a literal at the start of `input`.
pub fn literal_expression<'a>(input: &'a str) -> (r: Result<
    (&'a str, Expression),
    Stop<ParseError>,
>)
    ensures
        shown_expr(r, grammar::literal(input@, 0), input@),
{
    let chars = chars_of(input);
    show(input, &chars, combinator::literal(&chars, 0))
}

/// Parses a separator at the start of `input`.
pub fn separator_expression<'a>(input: &'a str) -> (r: Result<
    (&'a str, Expression),
    Stop<ParseError>,
>)
    ensures
        shown_expr(r, grammar::separator(input@, 0), input@),
{
    let chars = chars_of(input);
    show(input, &chars, combinator::separator(&chars, 0))
}

} // verus!
