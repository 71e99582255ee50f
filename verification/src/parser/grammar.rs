//! The grammar of format strings, as functions from an input and an offset
//! to what each rule makes of the input from that offset on.
//!
//! At each offset an expression is tried as a group, a literal, a format,
//! a separator and a name, in this order. An error of one alternative lets
//! the next be tried; a failure ends the parse.

use vstd::prelude::*;
use crate::ast::{Color, CompleteStyle, Delimiter, ExprView, Name, Separator, Style};
use crate::parser::error::{FaultView, OtherKind, Outcome, ParseErrorKind, Rule};
use crate::text::{is_decimal, number};

verus! {

/// Whether the character at `pos` is `c`.
pub open spec fn at(s: Seq<char>, pos: int, c: char) -> bool {
    0 <= pos < s.len() && s[pos] == c
}

/// The offset behind the run of digits that starts at `pos`.
pub open spec fn digits_end(s: Seq<char>, pos: int) -> int
    decreases s.len() - pos,
{
    if 0 <= pos < s.len() && is_decimal(s[pos]) {
        digits_end(s, pos + 1)
    } else {
        pos
    }
}

/// One channel of a colour: a non-empty run of digits that denotes a
/// number up to 255.
pub open spec fn channel(s: Seq<char>, pos: int) -> Option<(int, u8)> {
    let end = digits_end(s, pos);
    let n = number(s.subrange(pos, end));
    if pos < end && n <= 255 {
        Some((end, n as u8))
    } else {
        None
    }
}

/// Three channels, separated by commas.
pub open spec fn triple(s: Seq<char>, pos: int) -> Option<(int, (u8, u8, u8))> {
    match channel(s, pos) {
        Some((after_r, r)) => if at(s, after_r, ',') {
            match channel(s, after_r + 1) {
                Some((after_g, g)) => if at(s, after_g, ',') {
                    match channel(s, after_g + 1) {
                        Some((after_b, b)) => Some((after_b, (r, g, b))),
                        None => None,
                    }
                } else {
                    None
                },
                None => None,
            }
        } else {
            None
        },
        None => None,
    }
}

/// A 24-bit colour between `open`, which stands at `pos`, and `close`. A
/// `close` that is missing behind the channels is a missing delimiter.
pub open spec fn rgb(s: Seq<char>, pos: int, close: char) -> Outcome<Color> {
    match triple(s, pos + 1) {
        None => Outcome::Failure(FaultView::new(pos + 1, ParseErrorKind::InvalidRGB)),
        Some((end, (r, g, b))) => if at(s, end, close) {
            Outcome::Done { end: end + 1, value: Color::RGB(r, g, b) }
        } else {
            Outcome::Failure(
                FaultView::new(end, ParseErrorKind::MissingChar(close)).char_to_delimiter(end),
            )
        },
    }
}

/// One style token: a 24-bit foreground in square brackets, a 24-bit
/// background in curly brackets, or a one-character tag.
pub open spec fn style_token(s: Seq<char>, pos: int) -> Outcome<Style> {
    if at(s, pos, '[') {
        match rgb(s, pos, ']') {
            Outcome::Done { end, value } => Outcome::Done { end, value: Style::Fg(value) },
            Outcome::Error(f) => Outcome::Error(f),
            Outcome::Failure(f) => Outcome::Failure(f),
        }
    } else if at(s, pos, '{') {
        match rgb(s, pos, '}') {
            Outcome::Done { end, value } => Outcome::Done { end, value: Style::Bg(value) },
            Outcome::Error(f) => Outcome::Error(f),
            Outcome::Failure(f) => Outcome::Failure(f),
        }
    } else if 0 <= pos < s.len() && Style::of_char(s[pos]) is Some {
        Outcome::Done { end: pos + 1, value: Style::of_char(s[pos])->0 }
    } else {
        Outcome::Error(FaultView::new(pos, ParseErrorKind::UnrecognizedStyle))
    }
}

/// The style tokens from `pos` on, applied to `acc` one by one until no
/// token starts.
pub open spec fn more_styles(s: Seq<char>, pos: int, acc: CompleteStyle) -> Outcome<CompleteStyle>
    decreases s.len() - pos,
{
    match style_token(s, pos) {
        Outcome::Error(_) => Outcome::Done { end: pos, value: acc },
        Outcome::Failure(f) => Outcome::Failure(f),
        Outcome::Done { end, value } => if pos < end <= s.len() {
            more_styles(s, end, acc.with(value))
        } else {
            Outcome::Failure(FaultView::new(end, ParseErrorKind::Other(OtherKind::Many1)))
        },
    }
}

/// One or more style tokens from `pos` on, folded into one style. Whatever
/// goes wrong is a failure: where no token starts at all, and where a
/// failure has no classification, it is an unrecognised style at `pos`.
pub open spec fn styles(s: Seq<char>, pos: int) -> Outcome<CompleteStyle> {
    match style_token(s, pos) {
        Outcome::Error(_) => Outcome::Failure(
            FaultView::new(pos, ParseErrorKind::UnrecognizedStyle),
        ),
        Outcome::Failure(f) => Outcome::Failure(f.other_to_style(pos)),
        Outcome::Done { end, value } => match more_styles(
            s,
            end,
            CompleteStyle::plain().with(value),
        ) {
            Outcome::Done { end, value } => Outcome::Done { end, value },
            Outcome::Error(f) => Outcome::Failure(f.other_to_style(pos)),
            Outcome::Failure(f) => Outcome::Failure(f.other_to_style(pos)),
        },
    }
}

/// The offset of the first quote at or behind `pos`; the length of the
/// input if there is none.
pub open spec fn find_quote(s: Seq<char>, pos: int) -> int
    decreases s.len() - pos,
{
    if 0 <= pos < s.len() && s[pos] != '\'' {
        find_quote(s, pos + 1)
    } else {
        pos
    }
}

/// A literal: a quote, any characters but a quote, and a quote.
pub open spec fn literal(s: Seq<char>, pos: int) -> Outcome<ExprView> {
    if at(s, pos, '\'') {
        let close = find_quote(s, pos + 1);
        if close < s.len() {
            Outcome::Done { end: close + 1, value: ExprView::Literal(s.subrange(pos + 1, close)) }
        } else {
            Outcome::Failure(FaultView::new(pos + 1, ParseErrorKind::UnclosedString))
        }
    } else {
        Outcome::Error(FaultView::new(pos, ParseErrorKind::MissingChar('\'')))
    }
}

/// A separator: one of the eight punctuation marks.
pub open spec fn separator(s: Seq<char>, pos: int) -> Outcome<ExprView> {
    if 0 <= pos < s.len() && Separator::of_char(s[pos]) is Some {
        Outcome::Done { end: pos + 1, value: ExprView::Separator(Separator::of_char(s[pos])->0) }
    } else {
        Outcome::Error(FaultView::new(pos, ParseErrorKind::Other(OtherKind::Tag)))
    }
}

/// The tag of a name at `pos`: the name, and the offset behind the tag.
pub open spec fn name_tag(s: Seq<char>, pos: int) -> Option<(int, Name)> {
    if 0 <= pos < s.len() && Name::of_char(s[pos]) is Some {
        Some((pos + 1, Name::of_char(s[pos])->0))
    } else if at(s, pos, '\\') && at(s, pos + 1, '\'') {
        Some((pos + 2, Name::Quote))
    } else {
        None
    }
}

/// What opens a group at `pos`: the kind of the group, and the offset
/// behind the opener.
pub open spec fn group_opener(s: Seq<char>, pos: int) -> Option<(int, Delimiter)> {
    if at(s, pos, '<') {
        Some((pos + 1, Delimiter::Angle))
    } else if at(s, pos, '[') {
        Some((pos + 1, Delimiter::Square))
    } else if at(s, pos, '{') {
        Some((pos + 1, Delimiter::Curly))
    } else if at(s, pos, '\\') && at(s, pos + 1, '(') {
        Some((pos + 2, Delimiter::Parens))
    } else {
        None
    }
}

/// `outcome` with `first` in front of the items it yields.
pub open spec fn prepend(first: Seq<ExprView>, outcome: Outcome<Seq<ExprView>>) -> Outcome<
    Seq<ExprView>,
> {
    match outcome {
        Outcome::Done { end, value } => Outcome::Done { end, value: first + value },
        other => other,
    }
}

/// The expressions from `pos` up to the delimiter `right`, and the
/// delimiter, of a construct that started at `from` and whose inside
/// started at `inner`.
///
/// Where no expression starts, the delimiter is due: at the end of the
/// input the character that is missing there is the missing delimiter of
/// the construct; before anything else, what stands there is no
/// expression.
pub open spec fn delimited_items(s: Seq<char>, from: int, inner: int, pos: int, right: char)
    -> Outcome<Seq<ExprView>>
    decreases s.len() - pos, 2nat,
{
    match expression(s, pos) {
        Outcome::Error(e) => if at(s, pos, right) {
            Outcome::Done { end: pos + 1, value: Seq::empty() }
        } else if pos >= s.len() {
            Outcome::Failure(
                FaultView::new(pos, ParseErrorKind::MissingChar(right)).char_to_delimiter(from),
            )
        } else {
            Outcome::Failure(e.add_context(inner, Rule::Expression))
        },
        Outcome::Failure(e) => Outcome::Failure(e),
        Outcome::Done { end, value } => if pos < end <= s.len() {
            prepend(seq![value], delimited_items(s, from, inner, end, right))
        } else {
            Outcome::Error(FaultView::new(pos, ParseErrorKind::Other(OtherKind::Many0)))
        },
    }
}

/// A sub-tree in round brackets.
pub open spec fn sub_tree(s: Seq<char>, pos: int) -> Outcome<Seq<ExprView>>
    decreases s.len() - pos, 0nat,
{
    if at(s, pos, '(') {
        delimited_items(s, pos, pos + 1, pos + 1, ')')
    } else {
        Outcome::Error(FaultView::new(pos, ParseErrorKind::MissingChar('(')))
    }
}

/// A group: an opener, expressions, and the closing bracket of its kind.
pub open spec fn group(s: Seq<char>, pos: int) -> Outcome<ExprView>
    decreases s.len() - pos, 0nat,
{
    match group_opener(s, pos) {
        Some((inner, d)) => match delimited_items(s, pos, inner, inner, d.right_glyph()) {
            Outcome::Done { end, value } => Outcome::Done {
                end,
                value: ExprView::Group { d, sub: value },
            },
            Outcome::Failure(f) => Outcome::Failure(f),
            Outcome::Error(_) => Outcome::Error(
                FaultView::new(pos, ParseErrorKind::Other(OtherKind::Tag)),
            ),
        },
        None => Outcome::Error(FaultView::new(pos, ParseErrorKind::Other(OtherKind::Tag))),
    }
}

/// A format: `#`, one or more style tokens, and a sub-tree, which is not
/// optional.
pub open spec fn format(s: Seq<char>, pos: int) -> Outcome<ExprView>
    decreases s.len() - pos, 0nat,
{
    if at(s, pos, '#') {
        match styles(s, pos + 1) {
            Outcome::Done { end, value: style } => if pos < end <= s.len() {
                match sub_tree(s, end) {
                    Outcome::Done { end, value } => Outcome::Done {
                        end,
                        value: ExprView::Format { style, sub: value },
                    },
                    Outcome::Error(f) => Outcome::Failure(f),
                    Outcome::Failure(f) => Outcome::Failure(f),
                }
            } else {
                Outcome::Failure(FaultView::new(pos + 1, ParseErrorKind::UnrecognizedStyle))
            },
            Outcome::Error(f) => Outcome::Failure(f),
            Outcome::Failure(f) => Outcome::Failure(f),
        }
    } else {
        Outcome::Error(FaultView::new(pos, ParseErrorKind::Other(OtherKind::Tag)))
    }
}

/// A name, and a sub-tree if one follows.
pub open spec fn named(s: Seq<char>, pos: int) -> Outcome<ExprView>
    decreases s.len() - pos, 0nat,
{
    match name_tag(s, pos) {
        Some((end, name)) => match sub_tree(s, end) {
            Outcome::Done { end, value } => Outcome::Done {
                end,
                value: ExprView::Named { name, sub: value },
            },
            Outcome::Error(_) => Outcome::Done {
                end,
                value: ExprView::Named { name, sub: Seq::empty() },
            },
            Outcome::Failure(f) => Outcome::Failure(f.add_context(pos, Rule::Expression)),
        },
        None => Outcome::Error(FaultView::new(pos, ParseErrorKind::UnrecognizedName)),
    }
}

/// One expression: the first of group, literal, format, separator and
/// name that does not end in an error. A failure of one of the first
/// three is reported in its rule.
pub open spec fn expression(s: Seq<char>, pos: int) -> Outcome<ExprView>
    decreases s.len() - pos, 1nat,
{
    match group(s, pos) {
        Outcome::Done { end, value } => Outcome::Done { end, value },
        Outcome::Failure(f) => Outcome::Failure(f.add_context(pos, Rule::Group)),
        Outcome::Error(_) => match literal(s, pos) {
            Outcome::Done { end, value } => Outcome::Done { end, value },
            Outcome::Failure(f) => Outcome::Failure(f.add_context(pos, Rule::Literal)),
            Outcome::Error(_) => match format(s, pos) {
                Outcome::Done { end, value } => Outcome::Done { end, value },
                Outcome::Failure(f) => Outcome::Failure(f.add_context(pos, Rule::Format)),
                Outcome::Error(_) => match separator(s, pos) {
                    Outcome::Error(_) => named(s, pos),
                    other => other,
                },
            },
        },
    }
}

/// The expressions from `pos` on, up to where none starts.
pub open spec fn expression_tree(s: Seq<char>, pos: int) -> Outcome<Seq<ExprView>>
    decreases s.len() - pos, 2nat,
{
    match expression(s, pos) {
        Outcome::Error(_) => Outcome::Done { end: pos, value: Seq::empty() },
        Outcome::Failure(e) => Outcome::Failure(e),
        Outcome::Done { end, value } => if pos < end <= s.len() {
            prepend(seq![value], expression_tree(s, end))
        } else {
            Outcome::Error(FaultView::new(pos, ParseErrorKind::Other(OtherKind::Many0)))
        },
    }
}

/// A whole format string: expressions up to the end of the input. Input
/// that is left over is a failure.
pub open spec fn parse(s: Seq<char>) -> Result<Seq<ExprView>, FaultView> {
    match expression_tree(s, 0) {
        Outcome::Done { end, value } => if end == s.len() {
            Ok(value)
        } else {
            Err(FaultView::new(end, ParseErrorKind::Other(OtherKind::Eof)))
        },
        Outcome::Error(f) => Err(f),
        Outcome::Failure(f) => Err(f),
    }
}

} // verus!
