//! What holds of the grammar for every tree: the text of a tree parses to
//! the tree.

use vstd::prelude::*;
use crate::ast::{
    lemma_fold_tokens, lemma_name_tags, lemma_separator_glyphs, lemma_style_tags, tokens_text,
    tree_text, triple_text, Color, CompleteStyle, Delimiter, ExprView, Name, Separator, Style,
};
use crate::parser::error::Outcome;
use crate::parser::grammar;
use crate::text::{all_digits, decimal, is_decimal, lemma_decimal_number};

verus! {

/// Whether `text` stands in `s` at `pos`.
pub open spec fn occurs(s: Seq<char>, pos: int, text: Seq<char>) -> bool {
    &&& 0 <= pos
    &&& pos + text.len() <= s.len()
    &&& s.subrange(pos, pos + text.len()) == text
}

/// Whether an expression can be written down and read back: no literal in
/// it holds a quote.
pub open spec fn generatable(e: ExprView) -> bool
    decreases e, 0nat,
{
    match e {
        ExprView::Literal(text) => !text.contains('\''),
        ExprView::Separator(_) => true,
        ExprView::Named { sub, .. } => tree_generatable(sub),
        ExprView::Group { sub, .. } => tree_generatable(sub),
        ExprView::Format { sub, .. } => tree_generatable(sub),
    }
}

/// Whether every expression of a tree can be written down and read back.
pub open spec fn tree_generatable(tree: Seq<ExprView>) -> bool
    decreases tree, 1nat,
{
    tree.len() == 0 || (generatable(tree[0]) && tree_generatable(tree.drop_first()))
}

/// Whether no expression starts at `pos`, and no sub-tree either: the
/// input ends there, or a closing bracket stands there.
pub open spec fn stops(s: Seq<char>, pos: int) -> bool {
    pos == s.len() || grammar::at(s, pos, '>') || grammar::at(s, pos, ']') || grammar::at(
        s,
        pos,
        '}',
    ) || grammar::at(s, pos, ')')
}

/// A text of two parts stands at `pos` exactly if the first part stands
/// at `pos` and the second behind it.
pub proof fn lemma_occurs_split(s: Seq<char>, pos: int, a: Seq<char>, b: Seq<char>)
    ensures
        occurs(s, pos, a + b) <==> occurs(s, pos, a) && occurs(s, pos + a.len(), b),
{
    if occurs(s, pos, a + b) {
        let whole = s.subrange(pos, pos + (a + b).len());
        assert(s.subrange(pos, pos + a.len()) =~= whole.subrange(0, a.len() as int));
        assert((a + b).subrange(0, a.len() as int) =~= a);
        assert(s.subrange(pos + a.len(), pos + a.len() + b.len()) =~= whole.subrange(
            a.len() as int,
            (a + b).len() as int,
        ));
        assert((a + b).subrange(a.len() as int, (a + b).len() as int) =~= b);
    }
    if occurs(s, pos, a) && occurs(s, pos + a.len(), b) {
        assert(s.subrange(pos, pos + (a + b).len()) =~= s.subrange(pos, pos + a.len())
            + s.subrange(pos + a.len(), pos + a.len() + b.len()));
    }
}

/// The characters of a text that stands at `pos` stand in `s`.
pub proof fn lemma_occurs_index(s: Seq<char>, pos: int, text: Seq<char>, i: int)
    requires
        occurs(s, pos, text),
        0 <= i < text.len(),
    ensures
        s[pos + i] == text[i],
{
    assert(s.subrange(pos, pos + text.len())[i] == s[pos + i]);
}

/// A run of digits that is followed by no digit is read to its end.
pub proof fn lemma_digits_end(s: Seq<char>, pos: int, digits: Seq<char>)
    requires
        occurs(s, pos, digits),
        all_digits(digits),
        !(pos + digits.len() < s.len() && is_decimal(s[pos + digits.len()])),
    ensures
        grammar::digits_end(s, pos) == pos + digits.len(),
    decreases digits.len(),
{
    if digits.len() > 0 {
        lemma_occurs_index(s, pos, digits, 0);
        lemma_occurs_split(s, pos, digits.take(1), digits.skip(1));
        assert(digits.take(1) + digits.skip(1) =~= digits);
        assert forall|i: int| 0 <= i < digits.skip(1).len() implies is_decimal(
            #[trigger] digits.skip(1)[i],
        ) by {
            assert(digits.skip(1)[i] == digits[i + 1]);
        }
        lemma_digits_end(s, pos + 1, digits.skip(1));
    }
}

/// The numeral of a channel that is followed by no digit is read as the
/// channel.
pub proof fn lemma_channel(s: Seq<char>, pos: int, v: u8)
    requires
        occurs(s, pos, decimal(v as nat)),
        !(pos + decimal(v as nat).len() < s.len() && is_decimal(
            s[pos + decimal(v as nat).len()],
        )),
    ensures
        grammar::channel(s, pos) == Some((pos + decimal(v as nat).len(), v)),
        decimal(v as nat).len() >= 1,
{
    lemma_decimal_number(v as nat);
    lemma_digits_end(s, pos, decimal(v as nat));
}

/// Three channels as they are written, followed by no digit, are read as
/// the three channels.
pub proof fn lemma_triple(s: Seq<char>, pos: int, r: u8, g: u8, b: u8)
    requires
        occurs(s, pos, triple_text(r, g, b)),
        !(pos + triple_text(r, g, b).len() < s.len() && is_decimal(
            s[pos + triple_text(r, g, b).len()],
        )),
    ensures
        grammar::triple(s, pos) == Some((pos + triple_text(r, g, b).len(), (r, g, b))),
{
    let dr = decimal(r as nat);
    let dg = decimal(g as nat);
    let db = decimal(b as nat);
    let comma = seq![','];
    assert(triple_text(r, g, b) == dr + comma + dg + comma + db);
    lemma_occurs_split(s, pos, dr + comma + dg + comma, db);
    lemma_occurs_split(s, pos, dr + comma + dg, comma);
    lemma_occurs_split(s, pos, dr + comma, dg);
    lemma_occurs_split(s, pos, dr, comma);
    let after_r = pos + dr.len();
    lemma_occurs_index(s, after_r, comma, 0);
    lemma_channel(s, pos, r);
    let after_g = after_r + 1 + dg.len();
    lemma_occurs_index(s, after_g, comma, 0);
    lemma_channel(s, after_r + 1, g);
    lemma_channel(s, after_g + 1, b);
}

/// A style token as it is written is read as the token.
pub proof fn lemma_style_token(s: Seq<char>, pos: int, style: Style)
    requires
        occurs(s, pos, style.text()),
        !(pos + style.text().len() < s.len() && is_decimal(s[pos + style.text().len()])),
    ensures
        style.text().len() >= 1,
        grammar::style_token(s, pos) == (Outcome::Done {
            end: pos + style.text().len(),
            value: style,
        }),
{
    match style {
        Style::Fg(Color::RGB(r, g, b)) => {
            let body = triple_text(r, g, b);
            lemma_occurs_split(s, pos, seq!['['] + body, seq![']']);
            lemma_occurs_split(s, pos, seq!['['], body);
            lemma_occurs_index(s, pos, seq!['['], 0);
            lemma_occurs_index(s, pos + 1 + body.len(), seq![']'], 0);
            lemma_triple(s, pos + 1, r, g, b);
        },
        Style::Bg(Color::RGB(r, g, b)) => {
            let body = triple_text(r, g, b);
            lemma_occurs_split(s, pos, seq!['{'] + body, seq!['}']);
            lemma_occurs_split(s, pos, seq!['{'], body);
            lemma_occurs_index(s, pos, seq!['{'], 0);
            lemma_occurs_index(s, pos + 1 + body.len(), seq!['}'], 0);
            lemma_triple(s, pos + 1, r, g, b);
        },
        _ => {
            lemma_style_tags(style, s[pos]);
            lemma_occurs_index(s, pos, style.text(), 0);
        },
    }
}

/// The text of a run of tokens, from its first token on.
pub proof fn lemma_tokens_text_front(tokens: Seq<Style>)
    requires
        tokens.len() > 0,
    ensures
        tokens_text(tokens) == tokens[0].text() + tokens_text(tokens.drop_first()),
    decreases tokens.len(),
{
    if tokens.len() == 1 {
        assert(tokens.drop_last() =~= Seq::<Style>::empty());
        assert(tokens.drop_first() =~= Seq::<Style>::empty());
        assert(tokens_text(tokens) =~= tokens[0].text() + tokens_text(tokens.drop_first()));
    } else {
        lemma_tokens_text_front(tokens.drop_last());
        assert(tokens.drop_last().drop_first() =~= tokens.drop_first().drop_last());
        assert(tokens.drop_first().last() == tokens.last());
        assert(tokens.drop_last()[0] == tokens[0]);
        assert(tokens_text(tokens) =~= tokens[0].text() + tokens_text(tokens.drop_first()));
    }
}

/// A run of tokens applied to a style, from its first token on.
pub proof fn lemma_with_all_front(acc: CompleteStyle, tokens: Seq<Style>)
    requires
        tokens.len() > 0,
    ensures
        acc.with_all(tokens) == acc.with(tokens[0]).with_all(tokens.drop_first()),
    decreases tokens.len(),
{
    if tokens.len() == 1 {
        assert(tokens.drop_last() =~= Seq::<Style>::empty());
        assert(tokens.drop_first() =~= Seq::<Style>::empty());
    } else {
        lemma_with_all_front(acc, tokens.drop_last());
        assert(tokens.drop_last().drop_first() =~= tokens.drop_first().drop_last());
        assert(tokens.drop_first().last() == tokens.last());
        assert(tokens.drop_last()[0] == tokens[0]);
    }
}

/// A run of tokens as it is written, followed by the opening bracket of a
/// sub-tree, is read as the run applied to the style read so far.
pub proof fn lemma_more_styles(s: Seq<char>, pos: int, tokens: Seq<Style>, acc: CompleteStyle)
    requires
        occurs(s, pos, tokens_text(tokens)),
        grammar::at(s, pos + tokens_text(tokens).len(), '('),
    ensures
        grammar::more_styles(s, pos, acc) == (Outcome::Done {
            end: pos + tokens_text(tokens).len(),
            value: acc.with_all(tokens),
        }),
    decreases tokens.len(),
{
    if tokens.len() == 0 {
        assert(tokens_text(tokens).len() == 0);
    } else {
        let first = tokens[0];
        let rest = tokens.drop_first();
        lemma_tokens_text_front(tokens);
        lemma_with_all_front(acc, tokens);
        lemma_occurs_split(s, pos, first.text(), tokens_text(rest));
        let next = pos + first.text().len();
        assert(!(next < s.len() && is_decimal(s[next]))) by {
            if rest.len() > 0 {
                lemma_tokens_text_front(rest);
                lemma_style_first(rest[0]);
                lemma_occurs_index(s, next, tokens_text(rest), 0);
            }
        }
        lemma_style_token(s, pos, first);
        lemma_more_styles(s, next, rest, acc.with(first));
    }
}

/// The text of a style token starts with no digit.
pub proof fn lemma_style_first(style: Style)
    ensures
        style.text().len() >= 1,
        !is_decimal(style.text()[0]),
{
    match style {
        Style::Fg(Color::RGB(r, g, b)) => {
            assert(style.text()[0] == '[');
        },
        Style::Bg(Color::RGB(r, g, b)) => {
            assert(style.text()[0] == '{');
        },
        _ => {},
    }
}

/// A style as it is written, followed by the opening bracket of a
/// sub-tree, is read as the style.
pub proof fn lemma_styles(s: Seq<char>, pos: int, style: CompleteStyle)
    requires
        occurs(s, pos, style.text()),
        grammar::at(s, pos + style.text().len(), '('),
    ensures
        style.text().len() >= 1,
        grammar::styles(s, pos) == (Outcome::Done { end: pos + style.text().len(), value: style }),
{
    let tokens = style.tokens();
    lemma_fold_tokens(style);
    let first = tokens[0];
    let rest = tokens.drop_first();
    lemma_tokens_text_front(tokens);
    lemma_with_all_front(CompleteStyle::plain(), tokens);
    lemma_occurs_split(s, pos, first.text(), tokens_text(rest));
    let next = pos + first.text().len();
    assert(!(next < s.len() && is_decimal(s[next]))) by {
        if rest.len() > 0 {
            lemma_tokens_text_front(rest);
            lemma_style_first(rest[0]);
            lemma_occurs_index(s, next, tokens_text(rest), 0);
        }
    }
    lemma_style_token(s, pos, first);
    lemma_more_styles(s, next, rest, CompleteStyle::plain().with(first));
}

/// Text without a quote, followed by a quote, is read up to that quote.
pub proof fn lemma_find_quote(s: Seq<char>, pos: int, text: Seq<char>)
    requires
        occurs(s, pos, text),
        !text.contains('\''),
        grammar::at(s, pos + text.len(), '\''),
    ensures
        grammar::find_quote(s, pos) == pos + text.len(),
    decreases text.len(),
{
    if text.len() > 0 {
        lemma_occurs_index(s, pos, text, 0);
        assert(text.contains(text[0]));
        lemma_occurs_split(s, pos, text.take(1), text.skip(1));
        assert(text.take(1) + text.skip(1) =~= text);
        assert(!text.skip(1).contains('\'')) by {
            if text.skip(1).contains('\'') {
                let i = choose|i: int| 0 <= i < text.skip(1).len() && text.skip(1)[i] == '\'';
                assert(text[i + 1] == '\'');
            }
        }
        lemma_find_quote(s, pos + 1, text.skip(1));
    }
}

/// The text of an expression is not empty and does not start with the
/// opening bracket of a sub-tree.
pub proof fn lemma_first_char(e: ExprView)
    ensures
        e.text().len() >= 1,
        e.text()[0] != '(',
{
    match e {
        ExprView::Named { name, sub } => {
            assert(name.tag().len() >= 1 && name.tag()[0] != '(');
            assert(e.text()[0] == name.tag()[0]);
        },
        ExprView::Group { d, sub } => {
            assert(d.opener().len() >= 1 && d.opener()[0] != '(');
            assert(e.text()[0] == d.opener()[0]);
        },
        ExprView::Format { style, sub } => {
            assert(e.text()[0] == '#');
        },
        ExprView::Literal(text) => {
            assert(e.text()[0] == '\'');
        },
        ExprView::Separator(sep) => {},
    }
}

/// No sub-tree opens behind a tree that is followed by the end of the
/// input or by a closing bracket, nor behind the first expression of a
/// tree that has more.
pub proof fn lemma_no_sub_tree_follows(s: Seq<char>, pos: int, rest: Seq<ExprView>)
    requires
        occurs(s, pos, tree_text(rest)),
        stops(s, pos + tree_text(rest).len()),
    ensures
        !grammar::at(s, pos, '('),
{
    if rest.len() > 0 {
        lemma_first_char(rest[0]);
        lemma_occurs_index(s, pos, tree_text(rest), 0);
    }
}

/// Where the input ends or a closing bracket stands, no expression
/// starts.
pub proof fn lemma_stops(s: Seq<char>, pos: int)
    requires
        0 <= pos <= s.len(),
        stops(s, pos),
    ensures
        grammar::expression(s, pos) is Error,
{
}

/// Where the tag of a name stands, an expression is a name, and the name
/// is the one that the tag stands for.
pub proof fn lemma_named_head(s: Seq<char>, pos: int, name: Name)
    requires
        occurs(s, pos, name.tag()),
    ensures
        grammar::expression(s, pos) == grammar::named(s, pos),
        grammar::name_tag(s, pos) == Some((pos + name.tag().len(), name)),
{
    let tag = name.tag();
    lemma_occurs_index(s, pos, tag, 0);
    let c = s[pos];
    lemma_name_tags(name, c);
    if name == Name::Quote {
        lemma_occurs_index(s, pos, tag, 1);
    }
    assert(grammar::group_opener(s, pos) is None);
    assert(grammar::group(s, pos) is Error);
    assert(grammar::literal(s, pos) is Error);
    assert(grammar::format(s, pos) is Error);
    assert(grammar::separator(s, pos) is Error);
}

/// Where the opener of a group stands, a group of its kind opens.
pub proof fn lemma_group_head(s: Seq<char>, pos: int, d: Delimiter)
    requires
        occurs(s, pos, d.opener()),
    ensures
        grammar::group_opener(s, pos) == Some((pos + d.opener().len(), d)),
{
    let opener = d.opener();
    lemma_occurs_index(s, pos, opener, 0);
    if d == Delimiter::Parens {
        lemma_occurs_index(s, pos, opener, 1);
    }
}

/// A separator as it is written is read as the separator.
pub proof fn lemma_separator(s: Seq<char>, pos: int, sep: Separator)
    requires
        occurs(s, pos, seq![sep.glyph()]),
    ensures
        grammar::expression(s, pos) == (Outcome::Done {
            end: pos + 1,
            value: ExprView::Separator(sep),
        }),
{
    lemma_occurs_index(s, pos, seq![sep.glyph()], 0);
    lemma_separator_glyphs(sep, s[pos]);
    assert(grammar::group_opener(s, pos) is None);
    assert(grammar::group(s, pos) is Error);
    assert(grammar::literal(s, pos) is Error);
    assert(grammar::format(s, pos) is Error);
}

/// A literal without a quote in it, as it is written, is read as the
/// literal.
pub proof fn lemma_literal(s: Seq<char>, pos: int, text: Seq<char>)
    requires
        !text.contains('\''),
        occurs(s, pos, seq!['\''] + text + seq!['\'']),
    ensures
        grammar::expression(s, pos) == (Outcome::Done {
            end: pos + text.len() + 2,
            value: ExprView::Literal(text),
        }),
{
    lemma_occurs_split(s, pos, seq!['\''] + text, seq!['\'']);
    lemma_occurs_split(s, pos, seq!['\''], text);
    lemma_occurs_index(s, pos, seq!['\''], 0);
    lemma_occurs_index(s, pos + 1 + text.len(), seq!['\''], 0);
    lemma_find_quote(s, pos + 1, text);
    assert(grammar::group_opener(s, pos) is None);
    assert(grammar::group(s, pos) is Error);
    assert(grammar::literal(s, pos) == (Outcome::Done {
        end: pos + text.len() + 2,
        value: ExprView::Literal(text),
    }));
}

/// A name with its sub-tree, as it is written and with no sub-tree behind
/// it, is read as the name with its sub-tree.
pub proof fn lemma_named(s: Seq<char>, pos: int, name: Name, sub: Seq<ExprView>)
    requires
        tree_generatable(sub),
        occurs(s, pos, (ExprView::Named { name, sub }).text()),
        !grammar::at(s, pos + (ExprView::Named { name, sub }).text().len(), '('),
    ensures
        grammar::expression(s, pos) == (Outcome::Done {
            end: pos + (ExprView::Named { name, sub }).text().len(),
            value: ExprView::Named { name, sub },
        }),
    decreases sub, 3nat,
{
    let tag = name.tag();
    if sub.len() == 0 {
        assert(sub =~= Seq::<ExprView>::empty());
        lemma_named_head(s, pos, name);
        assert(grammar::sub_tree(s, pos + tag.len()) is Error);
    } else {
        let body = tree_text(sub);
        lemma_occurs_split(s, pos, tag + seq!['('] + body, seq![')']);
        lemma_occurs_split(s, pos, tag + seq!['('], body);
        lemma_occurs_split(s, pos, tag, seq!['(']);
        lemma_named_head(s, pos, name);
        let open = pos + tag.len();
        lemma_occurs_index(s, open, seq!['('], 0);
        lemma_occurs_index(s, open + 1 + body.len(), seq![')'], 0);
        lemma_delimited_items(s, open, open + 1, ')', sub);
        assert(grammar::sub_tree(s, open) == (Outcome::Done {
            end: open + 1 + body.len() + 1,
            value: sub,
        }));
    }
}

/// A group as it is written is read as the group.
pub proof fn lemma_group(s: Seq<char>, pos: int, d: Delimiter, sub: Seq<ExprView>)
    requires
        tree_generatable(sub),
        occurs(s, pos, (ExprView::Group { d, sub }).text()),
    ensures
        grammar::expression(s, pos) == (Outcome::Done {
            end: pos + (ExprView::Group { d, sub }).text().len(),
            value: ExprView::Group { d, sub },
        }),
    decreases sub, 3nat,
{
    let opener = d.opener();
    let body = tree_text(sub);
    let right = seq![d.right_glyph()];
    lemma_occurs_split(s, pos, opener + body, right);
    lemma_occurs_split(s, pos, opener, body);
    lemma_group_head(s, pos, d);
    let inner = pos + opener.len();
    lemma_occurs_index(s, inner + body.len(), right, 0);
    lemma_delimited_items(s, pos, inner, d.right_glyph(), sub);
    assert(grammar::group(s, pos) == (Outcome::Done {
        end: inner + body.len() + 1,
        value: ExprView::Group { d, sub },
    }));
}

/// A format as it is written is read as the format.
pub proof fn lemma_format(s: Seq<char>, pos: int, style: CompleteStyle, sub: Seq<ExprView>)
    requires
        tree_generatable(sub),
        occurs(s, pos, (ExprView::Format { style, sub }).text()),
    ensures
        grammar::expression(s, pos) == (Outcome::Done {
            end: pos + (ExprView::Format { style, sub }).text().len(),
            value: ExprView::Format { style, sub },
        }),
    decreases sub, 3nat,
{
    let hash = seq!['#'];
    let tokens = style.text();
    let body = tree_text(sub);
    lemma_occurs_split(s, pos, hash + tokens + seq!['('] + body, seq![')']);
    lemma_occurs_split(s, pos, hash + tokens + seq!['('], body);
    lemma_occurs_split(s, pos, hash + tokens, seq!['(']);
    lemma_occurs_split(s, pos, hash, tokens);
    lemma_occurs_index(s, pos, hash, 0);
    let open = pos + 1 + tokens.len();
    lemma_occurs_index(s, open, seq!['('], 0);
    lemma_occurs_index(s, open + 1 + body.len(), seq![')'], 0);
    lemma_styles(s, pos + 1, style);
    lemma_delimited_items(s, open, open + 1, ')', sub);
    assert(grammar::sub_tree(s, open) == (Outcome::Done {
        end: open + 1 + body.len() + 1,
        value: sub,
    }));
    assert(grammar::format(s, pos) == (Outcome::Done {
        end: open + 1 + body.len() + 1,
        value: ExprView::Format { style, sub },
    }));
    assert(grammar::group_opener(s, pos) is None);
    assert(grammar::group(s, pos) is Error);
    assert(grammar::literal(s, pos) is Error);
}

/// An expression as it is written, with no sub-tree behind it, is read as
/// the expression.
pub proof fn lemma_expression(s: Seq<char>, pos: int, e: ExprView)
    requires
        generatable(e),
        occurs(s, pos, e.text()),
        !grammar::at(s, pos + e.text().len(), '('),
    ensures
        grammar::expression(s, pos) == (Outcome::Done { end: pos + e.text().len(), value: e }),
    decreases e, 0nat,
{
    match e {
        ExprView::Separator(sep) => {
            lemma_separator(s, pos, sep);
        },
        ExprView::Literal(text) => {
            lemma_literal(s, pos, text);
        },
        ExprView::Named { name, sub } => {
            lemma_named(s, pos, name, sub);
        },
        ExprView::Group { d, sub } => {
            lemma_group(s, pos, d, sub);
        },
        ExprView::Format { style, sub } => {
            lemma_format(s, pos, style, sub);
        },
    }
}

/// The expressions of a tree as they are written, followed by the closing
/// bracket `right`, are read as the tree, up to behind the bracket.
pub proof fn lemma_delimited_items(
    s: Seq<char>,
    from: int,
    inner: int,
    right: char,
    tree: Seq<ExprView>,
)
    requires
        tree_generatable(tree),
        occurs(s, inner, tree_text(tree)),
        grammar::at(s, inner + tree_text(tree).len(), right),
        right == '>' || right == ']' || right == '}' || right == ')',
    ensures
        grammar::delimited_items(s, from, inner, inner, right) == (Outcome::Done {
            end: inner + tree_text(tree).len() + 1,
            value: tree,
        }),
    decreases tree, 2nat,
{
    lemma_delimited_from(s, from, inner, inner, right, tree);
}

/// The rest of the expressions of a tree as they are written, followed by
/// the closing bracket `right`, are read as the rest of the tree.
pub proof fn lemma_delimited_from(
    s: Seq<char>,
    from: int,
    inner: int,
    pos: int,
    right: char,
    tree: Seq<ExprView>,
)
    requires
        tree_generatable(tree),
        occurs(s, pos, tree_text(tree)),
        grammar::at(s, pos + tree_text(tree).len(), right),
        right == '>' || right == ']' || right == '}' || right == ')',
    ensures
        grammar::delimited_items(s, from, inner, pos, right) == (Outcome::Done {
            end: pos + tree_text(tree).len() + 1,
            value: tree,
        }),
    decreases tree, 1nat,
{
    if tree.len() == 0 {
        lemma_stops(s, pos);
        assert(tree =~= Seq::<ExprView>::empty());
    } else {
        let e = tree[0];
        let rest = tree.drop_first();
        lemma_occurs_split(s, pos, e.text(), tree_text(rest));
        let next = pos + e.text().len();
        lemma_first_char(e);
        lemma_no_sub_tree_follows(s, next, rest);
        lemma_expression(s, pos, e);
        lemma_delimited_from(s, from, inner, next, right, rest);
        assert(seq![e] + rest =~= tree);
    }
}

/// The expressions of a tree as they are written, followed by the end of
/// the input or by a closing bracket, are read as the tree.
pub proof fn lemma_expression_tree(s: Seq<char>, pos: int, tree: Seq<ExprView>)
    requires
        tree_generatable(tree),
        occurs(s, pos, tree_text(tree)),
        stops(s, pos + tree_text(tree).len()),
    ensures
        grammar::expression_tree(s, pos) == (Outcome::Done {
            end: pos + tree_text(tree).len(),
            value: tree,
        }),
    decreases tree, 1nat,
{
    if tree.len() == 0 {
        lemma_stops(s, pos);
        assert(tree =~= Seq::<ExprView>::empty());
    } else {
        let e = tree[0];
        let rest = tree.drop_first();
        lemma_occurs_split(s, pos, e.text(), tree_text(rest));
        let next = pos + e.text().len();
        lemma_first_char(e);
        lemma_no_sub_tree_follows(s, next, rest);
        lemma_expression(s, pos, e);
        lemma_expression_tree(s, next, rest);
        assert(seq![e] + rest =~= tree);
    }
}

/// Round trip: the text of a tree in which no literal holds a quote
/// parses to the tree.
pub proof fn lemma_round_trip(tree: Seq<ExprView>)
    requires
        tree_generatable(tree),
    ensures
        grammar::parse(tree_text(tree)) == Ok::<Seq<ExprView>, crate::parser::error::FaultView>(
            tree,
        ),
{
    let s = tree_text(tree);
    assert(s.subrange(0, s.len() as int) =~= s);
    lemma_expression_tree(s, 0, tree);
}

/// No quote stands between an offset and the first quote behind it.
pub proof fn lemma_before_quote(s: Seq<char>, pos: int, i: int)
    requires
        0 <= pos <= i < grammar::find_quote(s, pos),
    ensures
        i < s.len(),
        s[i] != '\'',
    decreases s.len() - pos,
{
    if pos < s.len() && s[pos] != '\'' {
        if pos < i {
            lemma_before_quote(s, pos + 1, i);
        }
    }
}

/// A tree with one more expression in front can be written down and read
/// back if the expression and the tree can.
pub proof fn lemma_generatable_cons(e: ExprView, rest: Seq<ExprView>)
    requires
        generatable(e),
        tree_generatable(rest),
    ensures
        tree_generatable(seq![e] + rest),
{
    let tree = seq![e] + rest;
    assert(tree[0] == e);
    assert(tree.drop_first() =~= rest);
}

/// What is read as the items of a construct can be written down and read
/// back.
pub proof fn lemma_items_generatable(s: Seq<char>, from: int, inner: int, pos: int, right: char)
    requires
        0 <= pos,
    ensures
        grammar::delimited_items(s, from, inner, pos, right) matches Outcome::Done { value, .. }
            ==> tree_generatable(value),
    decreases s.len() - pos, 2nat,
{
    match grammar::expression(s, pos) {
        Outcome::Done { end, value } => {
            if pos < end <= s.len() {
                lemma_expression_generatable(s, pos);
                lemma_items_generatable(s, from, inner, end, right);
                match grammar::delimited_items(s, from, inner, end, right) {
                    Outcome::Done { value: rest, .. } => {
                        lemma_generatable_cons(value, rest);
                    },
                    _ => {},
                }
            }
        },
        _ => {},
    }
}

/// What is read as a run of expressions can be written down and read
/// back.
pub proof fn lemma_tree_generatable(s: Seq<char>, pos: int)
    requires
        0 <= pos,
    ensures
        grammar::expression_tree(s, pos) matches Outcome::Done { value, .. } ==> tree_generatable(
            value,
        ),
    decreases s.len() - pos, 2nat,
{
    match grammar::expression(s, pos) {
        Outcome::Done { end, value } => {
            if pos < end <= s.len() {
                lemma_expression_generatable(s, pos);
                lemma_tree_generatable(s, end);
                match grammar::expression_tree(s, end) {
                    Outcome::Done { value: rest, .. } => {
                        lemma_generatable_cons(value, rest);
                    },
                    _ => {},
                }
            }
        },
        _ => {},
    }
}

/// What is read as a sub-tree can be written down and read back.
pub proof fn lemma_sub_tree_generatable(s: Seq<char>, pos: int)
    requires
        0 <= pos,
    ensures
        grammar::sub_tree(s, pos) matches Outcome::Done { value, .. } ==> tree_generatable(value),
    decreases s.len() - pos, 0nat,
{
    if grammar::at(s, pos, '(') {
        lemma_items_generatable(s, pos, pos + 1, pos + 1, ')');
    }
}

/// What is read as an expression can be written down and read back: the
/// literals that the grammar reads hold no quote.
pub proof fn lemma_expression_generatable(s: Seq<char>, pos: int)
    requires
        0 <= pos,
    ensures
        grammar::expression(s, pos) matches Outcome::Done { value, .. } ==> generatable(value),
    decreases s.len() - pos, 1nat,
{
    match grammar::group_opener(s, pos) {
        Some((inner, d)) => {
            lemma_items_generatable(s, pos, inner, inner, d.right_glyph());
        },
        None => {},
    }
    if grammar::at(s, pos, '\'') {
        let close = grammar::find_quote(s, pos + 1);
        let text = s.subrange(pos + 1, close);
        if close < s.len() {
            lemma_find_quote_bounds(s, pos + 1);
            assert forall|i: int| 0 <= i < text.len() implies text[i] != '\'' by {
                lemma_before_quote(s, pos + 1, pos + 1 + i);
            }
        }
    }
    if grammar::at(s, pos, '#') {
        match grammar::styles(s, pos + 1) {
            Outcome::Done { end, .. } => {
                if pos < end <= s.len() {
                    lemma_sub_tree_generatable(s, end);
                }
            },
            _ => {},
        }
    }
    match grammar::name_tag(s, pos) {
        Some((end, _)) => {
            lemma_sub_tree_generatable(s, end);
            assert(tree_generatable(Seq::<ExprView>::empty()));
        },
        None => {},
    }
}

/// The first quote at or behind an offset stands at or behind it.
pub proof fn lemma_find_quote_bounds(s: Seq<char>, pos: int)
    requires
        0 <= pos,
    ensures
        pos <= grammar::find_quote(s, pos),
    decreases s.len() - pos,
{
    if pos < s.len() && s[pos] != '\'' {
        lemma_find_quote_bounds(s, pos + 1);
    }
}

/// The tree that a format string parses to is written as a format string
/// that parses to the same tree.
pub proof fn lemma_reparse(s: Seq<char>)
    requires
        grammar::parse(s) is Ok,
    ensures
        grammar::parse(tree_text(grammar::parse(s)->Ok_0)) == grammar::parse(s),
{
    lemma_tree_generatable(s, 0);
    lemma_round_trip(grammar::parse(s)->Ok_0);
}

} // verus!
