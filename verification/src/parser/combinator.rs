//! The rules of the grammar over a vector of characters and an offset.
//! Each rule returns what [`crate::parser::grammar`] says of the same
//! input and offset.

use vstd::prelude::*;
use crate::ast::{
    Color, CompleteStyle, Delimiter, ExprView, Expression, Name, Separator, Style, Tree,
};
use crate::parser::error::{Fault, OtherKind, Outcome, ParseErrorKind, Rule, Stop};
use crate::parser::grammar;
use crate::text::{is_decimal, number};

verus! {

/// `nom::character::is_digit` tests a byte for being an ASCII digit.
pub assume_specification[ nom::character::is_digit ](chr: u8) -> (b: bool)
    ensures
        b == (0x30 <= chr <= 0x39),
;

/// Whether `c` is an ASCII digit.
pub fn is_digit_char(c: char) -> (b: bool)
    ensures
        b == is_decimal(c),
{
    let n: u32 = c as u32;
    n < 128 && nom::character::is_digit(n as u8)
}

impl Fault {
    /// Whether every offset of the failure lies within an input of `len`
    /// characters.
    pub open spec fn inside(self, len: int) -> bool {
        &&& self.at <= len
        &&& self.context matches Some((at, _)) ==> at <= len
        &&& self.top matches Some((at, _)) ==> at <= len
    }
}

/// Whether a result reaches from `pos` into an input of `len` characters
/// and no further.
pub open spec fn within<T>(r: Result<(usize, T), Stop<Fault>>, pos: int, len: int) -> bool {
    match r {
        Ok((end, _)) => pos <= end <= len,
        Err(Stop::Error(f)) => f.inside(len),
        Err(Stop::Failure(f)) => f.inside(len),
    }
}

/// Whether a result is the outcome `o`.
pub open spec fn same<T>(r: Result<(usize, T), Stop<Fault>>, o: Outcome<T>) -> bool {
    match r {
        Ok((end, value)) => o == (Outcome::Done { end: end as int, value }),
        Err(Stop::Error(f)) => o == Outcome::<T>::Error(f@),
        Err(Stop::Failure(f)) => o == Outcome::<T>::Failure(f@),
    }
}

/// Whether a result with an expression is the outcome `o`.
pub open spec fn same_expr(r: Result<(usize, Expression), Stop<Fault>>, o: Outcome<ExprView>)
    -> bool {
    match r {
        Ok((end, value)) => o == (Outcome::Done { end: end as int, value: value@ }),
        Err(Stop::Error(f)) => o == Outcome::<ExprView>::Error(f@),
        Err(Stop::Failure(f)) => o == Outcome::<ExprView>::Failure(f@),
    }
}

/// Whether a result with a tree is the outcome `o`.
pub open spec fn same_tree(r: Result<(usize, Tree), Stop<Fault>>, o: Outcome<Seq<ExprView>>)
    -> bool {
    match r {
        Ok((end, value)) => o == (Outcome::Done { end: end as int, value: value@ }),
        Err(Stop::Error(f)) => o == Outcome::<Seq<ExprView>>::Error(f@),
        Err(Stop::Failure(f)) => o == Outcome::<Seq<ExprView>>::Failure(f@),
    }
}

/// Whether the character at `pos` is `c`.
pub fn at(chars: &Vec<char>, pos: usize, c: char) -> (b: bool)
    ensures
        b == grammar::at(chars@, pos as int, c),
{
    pos < chars.len() && chars[pos] == c
}

/// One channel of a colour, from `pos` on.
pub fn channel(chars: &Vec<char>, pos: usize) -> (r: Option<(usize, u8)>)
    requires
        pos <= chars.len(),
    ensures
        match r {
            Some((end, v)) => grammar::channel(chars@, pos as int) == Some((end as int, v)) && pos
                < end <= chars.len(),
            None => grammar::channel(chars@, pos as int) is None,
        },
{
    let mut i: usize = pos;
    let mut value: u32 = 0;
    let mut over: bool = false;
    while i < chars.len() && is_digit_char(chars[i])
        invariant
            pos <= i <= chars.len(),
            grammar::digits_end(chars@, pos as int) == grammar::digits_end(chars@, i as int),
            !over ==> value == number(chars@.subrange(pos as int, i as int)) && value <= 255,
            over ==> number(chars@.subrange(pos as int, i as int)) > 255,
        decreases chars.len() - i,
    {
        proof {
            let next = chars@.subrange(pos as int, i + 1);
            assert(next.drop_last() =~= chars@.subrange(pos as int, i as int));
            assert(next.last() == chars@[i as int]);
        }
        if !over {
            let d: u32 = chars[i] as u32 - 48;
            value = value * 10 + d;
            if value > 255 {
                over = true;
            }
        }
        i += 1;
    }
    if i > pos && !over {
        Some((i, value as u8))
    } else {
        None
    }
}

/// Three channels, separated by commas, from `pos` on.
pub fn u8_triple(chars: &Vec<char>, pos: usize) -> (r: Option<(usize, (u8, u8, u8))>)
    requires
        pos <= chars.len(),
    ensures
        match r {
            Some((end, v)) => grammar::triple(chars@, pos as int) == Some((end as int, v)) && pos
                < end <= chars.len(),
            None => grammar::triple(chars@, pos as int) is None,
        },
{
    let (after_r, r) = match channel(chars, pos) {
        Some(found) => found,
        None => return None,
    };
    if !at(chars, after_r, ',') {
        return None;
    }
    let (after_g, g) = match channel(chars, after_r + 1) {
        Some(found) => found,
        None => return None,
    };
    if !at(chars, after_g, ',') {
        return None;
    }
    let (after_b, b) = match channel(chars, after_g + 1) {
        Some(found) => found,
        None => return None,
    };
    Some((after_b, (r, g, b)))
}

/// A 24-bit colour between an opening bracket at `pos` and `close`.
pub fn rgb(chars: &Vec<char>, pos: usize, close: char) -> (r: Result<(usize, Color), Stop<Fault>>)
    requires
        pos < chars.len(),
    ensures
        same(r, grammar::rgb(chars@, pos as int, close)),
        within(r, pos + 1, chars.len() as int),
{
    match u8_triple(chars, pos + 1) {
        None => Err(Stop::Failure(Fault::new(pos + 1, ParseErrorKind::InvalidRGB))),
        Some((end, (r, g, b))) => {
            if at(chars, end, close) {
                Ok((end + 1, Color::RGB(r, g, b)))
            } else {
                Err(
                    Stop::Failure(
                        Fault::new(end, ParseErrorKind::MissingChar(close)).char_to_delimiter(end),
                    ),
                )
            }
        },
    }
}

/// One style token at `pos`.
pub fn style_token(chars: &Vec<char>, pos: usize) -> (r: Result<(usize, Style), Stop<Fault>>)
    requires
        pos <= chars.len(),
    ensures
        same(r, grammar::style_token(chars@, pos as int)),
        within(r, pos as int, chars.len() as int),
        r matches Ok((end, _)) ==> pos < end,
{
    if at(chars, pos, '[') {
        match rgb(chars, pos, ']') {
            Ok((end, color)) => Ok((end, Style::Fg(color))),
            Err(stop) => Err(stop),
        }
    } else if at(chars, pos, '{') {
        match rgb(chars, pos, '}') {
            Ok((end, color)) => Ok((end, Style::Bg(color))),
            Err(stop) => Err(stop),
        }
    } else if pos < chars.len() {
        match Style::from_char(chars[pos]) {
            Some(style) => Ok((pos + 1, style)),
            None => Err(Stop::Error(Fault::new(pos, ParseErrorKind::UnrecognizedStyle))),
        }
    } else {
        Err(Stop::Error(Fault::new(pos, ParseErrorKind::UnrecognizedStyle)))
    }
}

/// One or more style tokens from `pos` on, folded into one style.
pub fn styles(chars: &Vec<char>, pos: usize) -> (r: Result<(usize, CompleteStyle), Stop<Fault>>)
    requires
        pos <= chars.len(),
    ensures
        same(r, grammar::styles(chars@, pos as int)),
        within(r, pos as int, chars.len() as int),
        r matches Ok((end, _)) ==> pos < end,
{
    let (first_end, first) = match style_token(chars, pos) {
        Ok(found) => found,
        Err(Stop::Error(_)) => {
            return Err(Stop::Failure(Fault::new(pos, ParseErrorKind::UnrecognizedStyle)));
        },
        Err(Stop::Failure(f)) => {
            return Err(Stop::Failure(f.other_to_style(pos)));
        },
    };
    let mut complete = CompleteStyle::default();
    complete.add(first);
    let mut i: usize = first_end;
    loop
        invariant
            pos < i <= chars.len(),
            grammar::style_token(chars@, pos as int) == (Outcome::Done {
                end: first_end as int,
                value: first,
            }),
            grammar::more_styles(
                chars@,
                first_end as int,
                CompleteStyle::plain().with(first),
            ) == grammar::more_styles(chars@, i as int, complete),
        decreases chars.len() - i,
    {
        match style_token(chars, i) {
            Err(Stop::Error(_)) => {
                return Ok((i, complete));
            },
            Err(Stop::Failure(f)) => {
                return Err(Stop::Failure(f.other_to_style(pos)));
            },
            Ok((end, style)) => {
                complete.add(style);
                i = end;
            },
        }
    }
}

/// A literal at `pos`.
pub fn literal(chars: &Vec<char>, pos: usize) -> (r: Result<(usize, Expression), Stop<Fault>>)
    requires
        pos <= chars.len(),
    ensures
        same_expr(r, grammar::literal(chars@, pos as int)),
        within(r, pos as int, chars.len() as int),
        r matches Ok((end, _)) ==> pos < end,
{
    if !at(chars, pos, '\'') {
        return Err(Stop::Error(Fault::new(pos, ParseErrorKind::MissingChar('\''))));
    }
    let mut close: usize = pos + 1;
    while close < chars.len() && chars[close] != '\''
        invariant
            pos < close <= chars.len(),
            grammar::find_quote(chars@, pos + 1) == grammar::find_quote(chars@, close as int),
        decreases chars.len() - close,
    {
        close += 1;
    }
    if close < chars.len() {
        let text = crate::text::text_of(chars, pos + 1, close);
        Ok((close + 1, Expression::Literal(text)))
    } else {
        Err(Stop::Failure(Fault::new(pos + 1, ParseErrorKind::UnclosedString)))
    }
}

/// A separator at `pos`.
pub fn separator(chars: &Vec<char>, pos: usize) -> (r: Result<(usize, Expression), Stop<Fault>>)
    requires
        pos <= chars.len(),
    ensures
        same_expr(r, grammar::separator(chars@, pos as int)),
        within(r, pos as int, chars.len() as int),
        r matches Ok((end, _)) ==> pos < end,
{
    if pos < chars.len() {
        match Separator::from_char(chars[pos]) {
            Some(sep) => Ok((pos + 1, Expression::Separator(sep))),
            None => Err(Stop::Error(Fault::new(pos, ParseErrorKind::Other(OtherKind::Tag)))),
        }
    } else {
        Err(Stop::Error(Fault::new(pos, ParseErrorKind::Other(OtherKind::Tag))))
    }
}

/// The tag of a name at `pos`.
pub fn name_tag(chars: &Vec<char>, pos: usize) -> (r: Option<(usize, Name)>)
    requires
        pos <= chars.len(),
    ensures
        match r {
            Some((end, name)) => grammar::name_tag(chars@, pos as int) == Some((end as int, name))
                && pos < end <= chars.len(),
            None => grammar::name_tag(chars@, pos as int) is None,
        },
{
    if pos < chars.len() {
        match Name::from_char(chars[pos]) {
            Some(name) => {
                return Some((pos + 1, name));
            },
            None => {},
        }
    }
    if at(chars, pos, '\\') && at(chars, pos + 1, '\'') {
        Some((pos + 2, Name::Quote))
    } else {
        None
    }
}

/// What opens a group at `pos`.
pub fn group_opener(chars: &Vec<char>, pos: usize) -> (r: Option<(usize, Delimiter)>)
    requires
        pos <= chars.len(),
    ensures
        match r {
            Some((end, d)) => grammar::group_opener(chars@, pos as int) == Some((end as int, d))
                && pos < end <= chars.len(),
            None => grammar::group_opener(chars@, pos as int) is None,
        },
{
    if at(chars, pos, '<') {
        Some((pos + 1, Delimiter::Angle))
    } else if at(chars, pos, '[') {
        Some((pos + 1, Delimiter::Square))
    } else if at(chars, pos, '{') {
        Some((pos + 1, Delimiter::Curly))
    } else if at(chars, pos, '\\') && at(chars, pos + 1, '(') {
        Some((pos + 2, Delimiter::Parens))
    } else {
        None
    }
}

/// The closing bracket of a kind of group.
pub fn right_glyph(d: Delimiter) -> (c: char)
    ensures
        c == d.right_glyph(),
{
    match d {
        Delimiter::Angle => '>',
        Delimiter::Square => ']',
        Delimiter::Curly => '}',
        Delimiter::Parens => ')',
    }
}

/// The expressions from `inner` up to the delimiter `right`, and the
/// delimiter, of a construct that started at `from`.
pub fn delimited_many0(chars: &Vec<char>, from: usize, inner: usize, right: char) -> (r: Result<
    (usize, Tree),
    Stop<Fault>,
>)
    requires
        from <= inner <= chars.len(),
    ensures
        same_tree(
            r,
            grammar::delimited_items(chars@, from as int, inner as int, inner as int, right),
        ),
        within(r, inner as int, chars.len() as int),
        r matches Ok((end, _)) ==> inner < end,
    decreases chars.len() - inner, 2nat,
{
    let ghost whole = grammar::delimited_items(
        chars@,
        from as int,
        inner as int,
        inner as int,
        right,
    );
    let mut pos: usize = inner;
    let mut tree = Tree::new();
    assert(whole == grammar::prepend(tree@, whole)) by {
        match whole {
            Outcome::Done { end, value } => {
                assert(tree@ + value =~= value);
            },
            _ => {},
        }
    }
    loop
        invariant
            from <= inner <= pos <= chars.len(),
            whole == grammar::delimited_items(
                chars@,
                from as int,
                inner as int,
                inner as int,
                right,
            ),
            whole == grammar::prepend(
                tree@,
                grammar::delimited_items(chars@, from as int, inner as int, pos as int, right),
            ),
        decreases chars.len() - pos,
    {
        match expression(chars, pos) {
            Err(Stop::Error(e)) => {
                if at(chars, pos, right) {
                    assert(tree@ + Seq::<ExprView>::empty() =~= tree@);
                    return Ok((pos + 1, tree));
                } else if pos >= chars.len() {
                    return Err(
                        Stop::Failure(
                            Fault::new(pos, ParseErrorKind::MissingChar(right)).char_to_delimiter(
                                from,
                            ),
                        ),
                    );
                } else {
                    return Err(Stop::Failure(e.add_context(inner, Rule::Expression)));
                }
            },
            Err(Stop::Failure(e)) => {
                return Err(Stop::Failure(e));
            },
            Ok((end, value)) => {
                if end <= pos {
                    return Err(
                        Stop::Error(Fault::new(pos, ParseErrorKind::Other(OtherKind::Many0))),
                    );
                }
                proof {
                    let rest = grammar::delimited_items(
                        chars@,
                        from as int,
                        inner as int,
                        end as int,
                        right,
                    );
                    lemma_prepend_push(tree@, value@, rest);
                }
                let ghost before = tree@;
                tree.0.push(value);
                assert(tree@ =~= before.push(value@));
                pos = end;
            },
        }
    }
}

/// Putting a sequence in front of an outcome that has an item in front is
/// putting the sequence with that item in front.
pub proof fn lemma_prepend_push(
    first: Seq<ExprView>,
    item: ExprView,
    rest: Outcome<Seq<ExprView>>,
)
    ensures
        grammar::prepend(first, grammar::prepend(seq![item], rest)) == grammar::prepend(
            first.push(item),
            rest,
        ),
{
    match rest {
        Outcome::Done { end, value } => {
            assert(first + (seq![item] + value) =~= first.push(item) + value);
        },
        _ => {},
    }
}

/// A sub-tree in round brackets at `pos`.
pub fn sub_tree(chars: &Vec<char>, pos: usize) -> (r: Result<(usize, Tree), Stop<Fault>>)
    requires
        pos <= chars.len(),
    ensures
        same_tree(r, grammar::sub_tree(chars@, pos as int)),
        within(r, pos as int, chars.len() as int),
        r matches Ok((end, _)) ==> pos < end,
    decreases chars.len() - pos, 3nat,
{
    if at(chars, pos, '(') {
        delimited_many0(chars, pos, pos + 1, ')')
    } else {
        Err(Stop::Error(Fault::new(pos, ParseErrorKind::MissingChar('('))))
    }
}

/// A group at `pos`.
pub fn group(chars: &Vec<char>, pos: usize) -> (r: Result<(usize, Expression), Stop<Fault>>)
    requires
        pos <= chars.len(),
    ensures
        same_expr(r, grammar::group(chars@, pos as int)),
        within(r, pos as int, chars.len() as int),
        r matches Ok((end, _)) ==> pos < end,
    decreases chars.len() - pos, 0nat,
{
    match group_opener(chars, pos) {
        Some((inner, d)) => match delimited_many0(chars, pos, inner, right_glyph(d)) {
            Ok((end, sub)) => Ok((end, Expression::Group { d, sub })),
            Err(Stop::Failure(f)) => Err(Stop::Failure(f)),
            Err(Stop::Error(_)) => Err(
                Stop::Error(Fault::new(pos, ParseErrorKind::Other(OtherKind::Tag))),
            ),
        },
        None => Err(Stop::Error(Fault::new(pos, ParseErrorKind::Other(OtherKind::Tag)))),
    }
}

/// A format at `pos`.
pub fn format(chars: &Vec<char>, pos: usize) -> (r: Result<(usize, Expression), Stop<Fault>>)
    requires
        pos <= chars.len(),
    ensures
        same_expr(r, grammar::format(chars@, pos as int)),
        within(r, pos as int, chars.len() as int),
        r matches Ok((end, _)) ==> pos < end,
    decreases chars.len() - pos, 0nat,
{
    if !at(chars, pos, '#') {
        return Err(Stop::Error(Fault::new(pos, ParseErrorKind::Other(OtherKind::Tag))));
    }
    match styles(chars, pos + 1) {
        Ok((end, style)) => match sub_tree(chars, end) {
            Ok((end, sub)) => Ok((end, Expression::Format { style, sub })),
            Err(Stop::Error(f)) => Err(Stop::Failure(f)),
            Err(Stop::Failure(f)) => Err(Stop::Failure(f)),
        },
        Err(Stop::Error(f)) => Err(Stop::Failure(f)),
        Err(Stop::Failure(f)) => Err(Stop::Failure(f)),
    }
}

/// A name at `pos`, with its sub-tree if one follows.
pub fn named(chars: &Vec<char>, pos: usize) -> (r: Result<(usize, Expression), Stop<Fault>>)
    requires
        pos <= chars.len(),
    ensures
        same_expr(r, grammar::named(chars@, pos as int)),
        within(r, pos as int, chars.len() as int),
        r matches Ok((end, _)) ==> pos < end,
    decreases chars.len() - pos, 0nat,
{
    match name_tag(chars, pos) {
        Some((end, name)) => match sub_tree(chars, end) {
            Ok((end, sub)) => Ok((end, Expression::Named { name, sub })),
            Err(Stop::Error(_)) => Ok((end, Expression::Named { name, sub: Tree::new() })),
            Err(Stop::Failure(f)) => Err(Stop::Failure(f.add_context(pos, Rule::Expression))),
        },
        None => Err(Stop::Error(Fault::new(pos, ParseErrorKind::UnrecognizedName))),
    }
}

/// One expression at `pos`.
pub fn expression(chars: &Vec<char>, pos: usize) -> (r: Result<(usize, Expression), Stop<Fault>>)
    requires
        pos <= chars.len(),
    ensures
        same_expr(r, grammar::expression(chars@, pos as int)),
        within(r, pos as int, chars.len() as int),
        r matches Ok((end, _)) ==> pos < end,
    decreases chars.len() - pos, 1nat,
{
    match group(chars, pos) {
        Ok(found) => {
            return Ok(found);
        },
        Err(Stop::Failure(f)) => {
            return Err(Stop::Failure(f.add_context(pos, Rule::Group)));
        },
        Err(Stop::Error(_)) => {},
    }
    match literal(chars, pos) {
        Ok(found) => {
            return Ok(found);
        },
        Err(Stop::Failure(f)) => {
            return Err(Stop::Failure(f.add_context(pos, Rule::Literal)));
        },
        Err(Stop::Error(_)) => {},
    }
    match format(chars, pos) {
        Ok(found) => {
            return Ok(found);
        },
        Err(Stop::Failure(f)) => {
            return Err(Stop::Failure(f.add_context(pos, Rule::Format)));
        },
        Err(Stop::Error(_)) => {},
    }
    match separator(chars, pos) {
        Err(Stop::Error(_)) => named(chars, pos),
        other => other,
    }
}

/// The expressions from `start` on, up to where none starts.
pub fn expression_tree(chars: &Vec<char>, start: usize) -> (r: Result<(usize, Tree), Stop<Fault>>)
    requires
        start <= chars.len(),
    ensures
        same_tree(r, grammar::expression_tree(chars@, start as int)),
        within(r, start as int, chars.len() as int),
{
    let ghost whole = grammar::expression_tree(chars@, start as int);
    let mut pos: usize = start;
    let mut tree = Tree::new();
    assert(whole == grammar::prepend(tree@, whole)) by {
        match whole {
            Outcome::Done { end, value } => {
                assert(tree@ + value =~= value);
            },
            _ => {},
        }
    }
    loop
        invariant
            start <= pos <= chars.len(),
            whole == grammar::expression_tree(chars@, start as int),
            whole == grammar::prepend(tree@, grammar::expression_tree(chars@, pos as int)),
        decreases chars.len() - pos,
    {
        match expression(chars, pos) {
            Err(Stop::Error(_)) => {
                assert(tree@ + Seq::<ExprView>::empty() =~= tree@);
                return Ok((pos, tree));
            },
            Err(Stop::Failure(e)) => {
                return Err(Stop::Failure(e));
            },
            Ok((end, value)) => {
                if end <= pos {
                    return Err(
                        Stop::Error(Fault::new(pos, ParseErrorKind::Other(OtherKind::Many0))),
                    );
                }
                proof {
                    lemma_prepend_push(
                        tree@,
                        value@,
                        grammar::expression_tree(chars@, end as int),
                    );
                }
                let ghost before = tree@;
                tree.0.push(value);
                assert(tree@ =~= before.push(value@));
                pos = end;
            },
        }
    }
}

} // verus!
