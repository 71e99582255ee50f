//! The expression tree and the vocabularies it is built from.

use vstd::prelude::*;

verus! {

/// The fields of a repository's status that an expression can name.
#[derive(Debug, PartialEq, Eq, Copy, Clone, Structural)]
pub enum Name {
    Branch,
    Remote,
    Ahead,
    Behind,
    Conflict,
    Added,
    Untracked,
    Modified,
    Unstaged,
    Deleted,
    DeletedStaged,
    Renamed,
    Stashed,
    Quote,
}

impl Name {
    /// The tag that stands for this name in a format string.
    pub open spec fn tag(self) -> Seq<char> {
        match self {
            Name::Stashed => seq!['h'],
            Name::Branch => seq!['b'],
            Name::Remote => seq!['B'],
            Name::Ahead => seq!['+'],
            Name::Behind => seq!['-'],
            Name::Conflict => seq!['u'],
            Name::Added => seq!['A'],
            Name::Untracked => seq!['a'],
            Name::Modified => seq!['M'],
            Name::Unstaged => seq!['m'],
            Name::Deleted => seq!['d'],
            Name::DeletedStaged => seq!['D'],
            Name::Renamed => seq!['R'],
            Name::Quote => seq!['\\', '\''],
        }
    }

    /// The name that the one-character tag `c` stands for. `Quote` has a
    /// two-character tag and is not among them.
    pub open spec fn of_char(c: char) -> Option<Name> {
        if c == 'h' {
            Some(Name::Stashed)
        } else if c == 'b' {
            Some(Name::Branch)
        } else if c == 'B' {
            Some(Name::Remote)
        } else if c == '+' {
            Some(Name::Ahead)
        } else if c == '-' {
            Some(Name::Behind)
        } else if c == 'u' {
            Some(Name::Conflict)
        } else if c == 'A' {
            Some(Name::Added)
        } else if c == 'a' {
            Some(Name::Untracked)
        } else if c == 'M' {
            Some(Name::Modified)
        } else if c == 'm' {
            Some(Name::Unstaged)
        } else if c == 'd' {
            Some(Name::Deleted)
        } else if c == 'D' {
            Some(Name::DeletedStaged)
        } else if c == 'R' {
            Some(Name::Renamed)
        } else {
            None
        }
    }

    /// The name whose one-character tag is `c`, if there is one.
    pub fn from_char(c: char) -> (r: Option<Name>)
        ensures
            r == Name::of_char(c),
    {
        if c == 'h' {
            Some(Name::Stashed)
        } else if c == 'b' {
            Some(Name::Branch)
        } else if c == 'B' {
            Some(Name::Remote)
        } else if c == '+' {
            Some(Name::Ahead)
        } else if c == '-' {
            Some(Name::Behind)
        } else if c == 'u' {
            Some(Name::Conflict)
        } else if c == 'A' {
            Some(Name::Added)
        } else if c == 'a' {
            Some(Name::Untracked)
        } else if c == 'M' {
            Some(Name::Modified)
        } else if c == 'm' {
            Some(Name::Unstaged)
        } else if c == 'd' {
            Some(Name::Deleted)
        } else if c == 'D' {
            Some(Name::DeletedStaged)
        } else if c == 'R' {
            Some(Name::Renamed)
        } else {
            None
        }
    }

    /// The tag of this name, as it is written in a format string.
    pub fn to_string(&self) -> (s: String)
        ensures
            s@ == self.tag(),
    {
        let mut s = String::new();
        match self {
            Name::Stashed => s.push('h'),
            Name::Branch => s.push('b'),
            Name::Remote => s.push('B'),
            Name::Ahead => s.push('+'),
            Name::Behind => s.push('-'),
            Name::Conflict => s.push('u'),
            Name::Added => s.push('A'),
            Name::Untracked => s.push('a'),
            Name::Modified => s.push('M'),
            Name::Unstaged => s.push('m'),
            Name::Deleted => s.push('d'),
            Name::DeletedStaged => s.push('D'),
            Name::Renamed => s.push('R'),
            Name::Quote => {
                s.push('\\');
                s.push('\'');
            },
        }
        assert(s@ =~= self.tag());
        s
    }
}

/// The table of one-character tags is a bijection between those tags and
/// the names other than `Quote`.
pub proof fn lemma_name_tags(n: Name, c: char)
    ensures
        n != Name::Quote ==> n.tag().len() == 1 && Name::of_char(n.tag()[0]) == Some(n),
        Name::of_char(c) == Some(n) ==> n.tag() == seq![c],
        Name::of_char(c) != Some(Name::Quote),
{
    if Name::of_char(c) == Some(n) {
        assert(n.tag() =~= seq![c]);
    }
}

/// A terminal colour.
#[derive(Debug, PartialEq, Eq, Copy, Clone, Structural)]
pub enum Color {
    Red,
    Green,
    Yellow,
    Blue,
    Magenta,
    Cyan,
    White,
    /// Bright black.
    Black,
    /// A 24-bit colour.
    RGB(u8, u8, u8),
}

/// One style token of a format expression.
#[derive(Debug, PartialEq, Eq, Copy, Clone, Structural)]
pub enum Style {
    /// Back to the terminal's plain style.
    Reset,
    Bold,
    Underline,
    Italic,
    /// Set the foreground colour.
    Fg(Color),
    /// Set the background colour.
    Bg(Color),
}

/// The brackets a group can be wrapped in.
#[derive(Debug, PartialEq, Eq, Clone, Copy, Structural)]
pub enum Delimiter {
    /// `<>`
    Angle,
    /// `[]`
    Square,
    /// `{}`
    Curly,
    /// `()`, written `\(` and `)` in a format string.
    Parens,
}

impl Delimiter {
    /// The opening bracket.
    pub open spec fn left_glyph(self) -> char {
        match self {
            Delimiter::Angle => '<',
            Delimiter::Square => '[',
            Delimiter::Curly => '{',
            Delimiter::Parens => '(',
        }
    }

    /// The closing bracket.
    pub open spec fn right_glyph(self) -> char {
        match self {
            Delimiter::Angle => '>',
            Delimiter::Square => ']',
            Delimiter::Curly => '}',
            Delimiter::Parens => ')',
        }
    }

    /// What opens a group of this kind in a format string.
    pub open spec fn opener(self) -> Seq<char> {
        match self {
            Delimiter::Parens => seq!['\\', '('],
            _ => seq![self.left_glyph()],
        }
    }

    /// The opening bracket, as it is printed.
    pub fn left(&self) -> (s: &'static str)
        ensures
            s@ == seq![self.left_glyph()],
    {
        proof {
            reveal_strlit("<");
            reveal_strlit("[");
            reveal_strlit("{");
            reveal_strlit("(");
        }
        let s = match self {
            Delimiter::Angle => "<",
            Delimiter::Square => "[",
            Delimiter::Curly => "{",
            Delimiter::Parens => "(",
        };
        assert(s@ =~= seq![self.left_glyph()]);
        s
    }

    /// The closing bracket, as it is printed.
    pub fn right(&self) -> (s: &'static str)
        ensures
            s@ == seq![self.right_glyph()],
    {
        proof {
            reveal_strlit(">");
            reveal_strlit("]");
            reveal_strlit("}");
            reveal_strlit(")");
        }
        let s = match self {
            Delimiter::Angle => ">",
            Delimiter::Square => "]",
            Delimiter::Curly => "}",
            Delimiter::Parens => ")",
        };
        assert(s@ =~= seq![self.right_glyph()]);
        s
    }
}

/// The punctuation that can stand between the expressions of a tree.
#[derive(Debug, Copy, Clone, Eq, PartialEq, Structural)]
pub enum Separator {
    At,
    Bar,
    Dot,
    Comma,
    Space,
    Colon,
    Semicolon,
    Underscore,
}

impl Separator {
    /// The character this separator is written and printed as.
    pub open spec fn glyph(self) -> char {
        match self {
            Separator::At => '@',
            Separator::Bar => '|',
            Separator::Dot => '.',
            Separator::Comma => ',',
            Separator::Space => ' ',
            Separator::Colon => ':',
            Separator::Semicolon => ';',
            Separator::Underscore => '_',
        }
    }

    /// The separator that `c` stands for.
    pub open spec fn of_char(c: char) -> Option<Separator> {
        if c == '@' {
            Some(Separator::At)
        } else if c == '|' {
            Some(Separator::Bar)
        } else if c == '.' {
            Some(Separator::Dot)
        } else if c == ',' {
            Some(Separator::Comma)
        } else if c == ' ' {
            Some(Separator::Space)
        } else if c == ':' {
            Some(Separator::Colon)
        } else if c == ';' {
            Some(Separator::Semicolon)
        } else if c == '_' {
            Some(Separator::Underscore)
        } else {
            None
        }
    }

    /// The separator that `c` stands for, if it stands for one.
    pub fn from_char(c: char) -> (r: Option<Separator>)
        ensures
            r == Separator::of_char(c),
    {
        if c == '@' {
            Some(Separator::At)
        } else if c == '|' {
            Some(Separator::Bar)
        } else if c == '.' {
            Some(Separator::Dot)
        } else if c == ',' {
            Some(Separator::Comma)
        } else if c == ' ' {
            Some(Separator::Space)
        } else if c == ':' {
            Some(Separator::Colon)
        } else if c == ';' {
            Some(Separator::Semicolon)
        } else if c == '_' {
            Some(Separator::Underscore)
        } else {
            None
        }
    }

    /// The separator as it is written and printed.
    pub fn as_str(&self) -> (s: &'static str)
        ensures
            s@ == seq![self.glyph()],
    {
        proof {
            reveal_strlit("@");
            reveal_strlit("|");
            reveal_strlit(".");
            reveal_strlit(",");
            reveal_strlit(" ");
            reveal_strlit(":");
            reveal_strlit(";");
            reveal_strlit("_");
        }
        let s = match self {
            Separator::At => "@",
            Separator::Bar => "|",
            Separator::Dot => ".",
            Separator::Comma => ",",
            Separator::Space => " ",
            Separator::Colon => ":",
            Separator::Semicolon => ";",
            Separator::Underscore => "_",
        };
        assert(s@ =~= seq![self.glyph()]);
        s
    }

    /// The separator as an owned string.
    pub fn to_string(&self) -> (s: String)
        ensures
            s@ == seq![self.glyph()],
    {
        let mut s = String::new();
        s.append(self.as_str());
        assert(s@ =~= seq![self.glyph()]);
        s
    }
}

/// The glyphs are a bijection between the separators and their characters.
pub proof fn lemma_separator_glyphs(sep: Separator, c: char)
    ensures
        Separator::of_char(sep.glyph()) == Some(sep),
        Separator::of_char(c) == Some(sep) ==> sep.glyph() == c,
{
}

} // verus!

verus! {

impl Color {
    /// The tag of a named colour as a foreground; `None` for a 24-bit colour.
    pub open spec fn letter(self) -> Option<char> {
        match self {
            Color::Red => Some('r'),
            Color::Green => Some('g'),
            Color::Yellow => Some('y'),
            Color::Blue => Some('b'),
            Color::Magenta => Some('m'),
            Color::Cyan => Some('c'),
            Color::White => Some('w'),
            Color::Black => Some('k'),
            Color::RGB(_, _, _) => None,
        }
    }

    /// The tag of a named colour as a background; `None` for a 24-bit colour.
    pub open spec fn capital(self) -> Option<char> {
        match self {
            Color::Red => Some('R'),
            Color::Green => Some('G'),
            Color::Yellow => Some('Y'),
            Color::Blue => Some('B'),
            Color::Magenta => Some('M'),
            Color::Cyan => Some('C'),
            Color::White => Some('W'),
            Color::Black => Some('K'),
            Color::RGB(_, _, _) => None,
        }
    }
}

/// The three channels of a 24-bit colour as they are written in a format
/// string, separated by commas.
pub open spec fn triple_text(r: u8, g: u8, b: u8) -> Seq<char> {
    crate::text::decimal(r as nat) + seq![','] + crate::text::decimal(g as nat) + seq![',']
        + crate::text::decimal(b as nat)
}

impl Style {
    /// The style that the one-character tag `c` stands for.
    pub open spec fn of_char(c: char) -> Option<Style> {
        if c == '~' {
            Some(Style::Reset)
        } else if c == '*' {
            Some(Style::Bold)
        } else if c == '_' {
            Some(Style::Underline)
        } else if c == 'i' {
            Some(Style::Italic)
        } else if c == 'r' {
            Some(Style::Fg(Color::Red))
        } else if c == 'R' {
            Some(Style::Bg(Color::Red))
        } else if c == 'g' {
            Some(Style::Fg(Color::Green))
        } else if c == 'G' {
            Some(Style::Bg(Color::Green))
        } else if c == 'y' {
            Some(Style::Fg(Color::Yellow))
        } else if c == 'Y' {
            Some(Style::Bg(Color::Yellow))
        } else if c == 'b' {
            Some(Style::Fg(Color::Blue))
        } else if c == 'B' {
            Some(Style::Bg(Color::Blue))
        } else if c == 'm' {
            Some(Style::Fg(Color::Magenta))
        } else if c == 'M' {
            Some(Style::Bg(Color::Magenta))
        } else if c == 'c' {
            Some(Style::Fg(Color::Cyan))
        } else if c == 'C' {
            Some(Style::Bg(Color::Cyan))
        } else if c == 'w' {
            Some(Style::Fg(Color::White))
        } else if c == 'W' {
            Some(Style::Bg(Color::White))
        } else if c == 'k' {
            Some(Style::Fg(Color::Black))
        } else if c == 'K' {
            Some(Style::Bg(Color::Black))
        } else {
            None
        }
    }

    /// The token as it is written in a format string.
    pub open spec fn text(self) -> Seq<char> {
        match self {
            Style::Reset => seq!['~'],
            Style::Bold => seq!['*'],
            Style::Underline => seq!['_'],
            Style::Italic => seq!['i'],
            Style::Fg(Color::RGB(r, g, b)) => seq!['['] + triple_text(r, g, b) + seq![']'],
            Style::Bg(Color::RGB(r, g, b)) => seq!['{'] + triple_text(r, g, b) + seq!['}'],
            Style::Fg(color) => seq![color.letter()->0],
            Style::Bg(color) => seq![color.capital()->0],
        }
    }

    /// The style that the one-character tag `c` stands for, if any.
    pub fn from_char(c: char) -> (r: Option<Style>)
        ensures
            r == Style::of_char(c),
    {
        if c == '~' {
            Some(Style::Reset)
        } else if c == '*' {
            Some(Style::Bold)
        } else if c == '_' {
            Some(Style::Underline)
        } else if c == 'i' {
            Some(Style::Italic)
        } else if c == 'r' {
            Some(Style::Fg(Color::Red))
        } else if c == 'R' {
            Some(Style::Bg(Color::Red))
        } else if c == 'g' {
            Some(Style::Fg(Color::Green))
        } else if c == 'G' {
            Some(Style::Bg(Color::Green))
        } else if c == 'y' {
            Some(Style::Fg(Color::Yellow))
        } else if c == 'Y' {
            Some(Style::Bg(Color::Yellow))
        } else if c == 'b' {
            Some(Style::Fg(Color::Blue))
        } else if c == 'B' {
            Some(Style::Bg(Color::Blue))
        } else if c == 'm' {
            Some(Style::Fg(Color::Magenta))
        } else if c == 'M' {
            Some(Style::Bg(Color::Magenta))
        } else if c == 'c' {
            Some(Style::Fg(Color::Cyan))
        } else if c == 'C' {
            Some(Style::Bg(Color::Cyan))
        } else if c == 'w' {
            Some(Style::Fg(Color::White))
        } else if c == 'W' {
            Some(Style::Bg(Color::White))
        } else if c == 'k' {
            Some(Style::Fg(Color::Black))
        } else if c == 'K' {
            Some(Style::Bg(Color::Black))
        } else {
            None
        }
    }

    /// Appends the token, as it is written in a format string, to `out`.
    pub fn write_text(&self, out: &mut String)
        ensures
            final(out)@ == old(out)@ + self.text(),
    {
        match self {
            Style::Reset => out.push('~'),
            Style::Bold => out.push('*'),
            Style::Underline => out.push('_'),
            Style::Italic => out.push('i'),
            Style::Fg(Color::RGB(r, g, b)) => {
                out.push('[');
                push_triple(out, *r, *g, *b);
                out.push(']');
            },
            Style::Bg(Color::RGB(r, g, b)) => {
                out.push('{');
                push_triple(out, *r, *g, *b);
                out.push('}');
            },
            Style::Fg(Color::Red) => out.push('r'),
            Style::Bg(Color::Red) => out.push('R'),
            Style::Fg(Color::Green) => out.push('g'),
            Style::Bg(Color::Green) => out.push('G'),
            Style::Fg(Color::Yellow) => out.push('y'),
            Style::Bg(Color::Yellow) => out.push('Y'),
            Style::Fg(Color::Blue) => out.push('b'),
            Style::Bg(Color::Blue) => out.push('B'),
            Style::Fg(Color::Magenta) => out.push('m'),
            Style::Bg(Color::Magenta) => out.push('M'),
            Style::Fg(Color::Cyan) => out.push('c'),
            Style::Bg(Color::Cyan) => out.push('C'),
            Style::Fg(Color::White) => out.push('w'),
            Style::Bg(Color::White) => out.push('W'),
            Style::Fg(Color::Black) => out.push('k'),
            Style::Bg(Color::Black) => out.push('K'),
        }
        assert(out@ =~= old(out)@ + self.text());
    }

    /// The token as it is written in a format string.
    pub fn to_string(&self) -> (s: String)
        ensures
            s@ == self.text(),
    {
        let mut s = String::new();
        self.write_text(&mut s);
        assert(s@ =~= self.text());
        s
    }
}

/// Appends the three channels of a colour, separated by commas, to `out`.
pub fn push_triple(out: &mut String, r: u8, g: u8, b: u8)
    ensures
        final(out)@ == old(out)@ + triple_text(r, g, b),
{
    crate::text::push_decimal(out, r as u32);
    out.push(',');
    crate::text::push_decimal(out, g as u32);
    out.push(',');
    crate::text::push_decimal(out, b as u32);
    assert(out@ =~= old(out)@ + triple_text(r, g, b));
}

/// Every one-character style tag is the text of the style it stands for,
/// and every style that is no 24-bit colour has such a tag.
pub proof fn lemma_style_tags(style: Style, c: char)
    ensures
        Style::of_char(c) == Some(style) ==> style.text() == seq![c],
        !(style matches Style::Fg(Color::RGB(_, _, _))) && !(style matches Style::Bg(
            Color::RGB(_, _, _),
        )) ==> style.text().len() == 1 && Style::of_char(style.text()[0]) == Some(style),
{
    if Style::of_char(c) == Some(style) {
        assert(style.text() =~= seq![c]);
    }
}

} // verus!

verus! {

/// The net effect of a run of style tokens: what a terminal shows after
/// the tokens were applied from left to right.
#[derive(Debug, Copy, Clone, PartialEq, Eq, Structural)]
pub struct CompleteStyle {
    pub fg: Option<Color>,
    pub bg: Option<Color>,
    pub bold: bool,
    pub italics: bool,
    pub underline: bool,
}

impl CompleteStyle {
    /// No styling at all.
    pub open spec fn plain() -> CompleteStyle {
        CompleteStyle { fg: None, bg: None, bold: false, italics: false, underline: false }
    }

    /// This style after one more token: a colour replaces the colour of its
    /// ground, an attribute is switched on, and a reset clears everything.
    pub open spec fn with(self, style: Style) -> CompleteStyle {
        match style {
            Style::Fg(color) => CompleteStyle { fg: Some(color), ..self },
            Style::Bg(color) => CompleteStyle { bg: Some(color), ..self },
            Style::Bold => CompleteStyle { bold: true, ..self },
            Style::Italic => CompleteStyle { italics: true, ..self },
            Style::Underline => CompleteStyle { underline: true, ..self },
            Style::Reset => CompleteStyle::plain(),
        }
    }

    /// The left fold of `tokens` over `self`.
    pub open spec fn with_all(self, tokens: Seq<Style>) -> CompleteStyle
        decreases tokens.len(),
    {
        if tokens.len() == 0 {
            self
        } else {
            self.with_all(tokens.drop_last()).with(tokens.last())
        }
    }

    /// The net effect of `tokens`, applied to no styling.
    pub open spec fn fold(tokens: Seq<Style>) -> CompleteStyle {
        CompleteStyle::plain().with_all(tokens)
    }

    /// This style followed by `with`: a plain `with` resets to plain;
    /// otherwise each colour of `with` wins where it is present, and an
    /// attribute is on if it is on in either.
    pub open spec fn combine(self, with: CompleteStyle) -> CompleteStyle {
        if with == CompleteStyle::plain() {
            CompleteStyle::plain()
        } else {
            CompleteStyle {
                fg: if with.fg is Some { with.fg } else { self.fg },
                bg: if with.bg is Some { with.bg } else { self.bg },
                bold: with.bold || self.bold,
                italics: with.italics || self.italics,
                underline: with.underline || self.underline,
            }
        }
    }

    /// The tokens that a format string writes for this style: a reset for
    /// the plain style, else foreground, background, bold, italic and
    /// underline, each if present.
    pub open spec fn tokens(self) -> Seq<Style> {
        if self == CompleteStyle::plain() {
            seq![Style::Reset]
        } else {
            (if self.fg is Some { seq![Style::Fg(self.fg->0)] } else { Seq::<Style>::empty() })
                + (if self.bg is Some { seq![Style::Bg(self.bg->0)] } else { Seq::<Style>::empty() })
                + (if self.bold { seq![Style::Bold] } else { Seq::<Style>::empty() })
                + (if self.italics { seq![Style::Italic] } else { Seq::<Style>::empty() })
                + (if self.underline { seq![Style::Underline] } else { Seq::<Style>::empty() })
        }
    }

    /// This style as it is written in a format string.
    pub open spec fn text(self) -> Seq<char> {
        tokens_text(self.tokens())
    }

    /// Whether this is the plain style.
    pub fn is_plain(&self) -> (b: bool)
        ensures
            b == (*self == CompleteStyle::plain()),
    {
        self.fg.is_none() && self.bg.is_none() && !self.bold && !self.italics && !self.underline
    }

    /// Applies one more token to this style.
    pub fn add(&mut self, style: Style)
        ensures
            *final(self) == old(self).with(style),
    {
        match style {
            Style::Fg(color) => self.fg = Some(color),
            Style::Bg(color) => self.bg = Some(color),
            Style::Bold => self.bold = true,
            Style::Italic => self.italics = true,
            Style::Underline => self.underline = true,
            Style::Reset => *self = CompleteStyle::default(),
        }
    }

    /// Follows this style by `with`.
    pub fn add_assign(&mut self, with: CompleteStyle)
        ensures
            *final(self) == old(self).combine(with),
    {
        if with.is_plain() {
            *self = CompleteStyle::default();
            return ;
        }
        *self = CompleteStyle {
            fg: if with.fg.is_some() { with.fg } else { self.fg },
            bg: if with.bg.is_some() { with.bg } else { self.bg },
            bold: with.bold || self.bold,
            italics: with.italics || self.italics,
            underline: with.underline || self.underline,
        };
    }

    /// Applies `styles` to this style, from left to right.
    pub fn extend(&mut self, styles: &[Style])
        ensures
            *final(self) == old(self).with_all(styles@),
    {
        let mut i: usize = 0;
        while i < styles.len()
            invariant
                i <= styles.len(),
                *self == old(self).with_all(styles@.take(i as int)),
            decreases styles.len() - i,
        {
            proof {
                let next = styles@.take(i + 1);
                assert(next.drop_last() =~= styles@.take(i as int));
            }
            self.add(styles[i]);
            i += 1;
        }
        assert(styles@.take(i as int) =~= styles@);
    }

    /// The net effect of `styles`.
    pub fn from_iter(styles: &[Style]) -> (r: CompleteStyle)
        ensures
            r == CompleteStyle::fold(styles@),
    {
        let mut complete = CompleteStyle::default();
        complete.extend(styles);
        complete
    }

    /// Appends this style, as it is written in a format string, to `out`.
    pub fn write_text(&self, out: &mut String)
        ensures
            final(out)@ == old(out)@ + self.text(),
    {
        if self.is_plain() {
            Style::Reset.write_text(out);
            assert(self.tokens() =~= seq![Style::Reset]);
            assert(self.text() =~= Style::Reset.text()) by {
                reveal_with_fuel(tokens_text, 2);
            }
            return ;
        }
        let ghost mut done: Seq<Style> = Seq::empty();
        if let Some(color) = self.fg {
            Style::Fg(color).write_text(out);
            proof {
                lemma_tokens_text_push(done, Style::Fg(color));
                done = done.push(Style::Fg(color));
            }
        }
        assert(out@ == old(out)@ + tokens_text(done));
        if let Some(color) = self.bg {
            Style::Bg(color).write_text(out);
            proof {
                lemma_tokens_text_push(done, Style::Bg(color));
                done = done.push(Style::Bg(color));
            }
        }
        assert(out@ == old(out)@ + tokens_text(done));
        if self.bold {
            Style::Bold.write_text(out);
            proof {
                lemma_tokens_text_push(done, Style::Bold);
                done = done.push(Style::Bold);
            }
        }
        assert(out@ == old(out)@ + tokens_text(done));
        if self.italics {
            Style::Italic.write_text(out);
            proof {
                lemma_tokens_text_push(done, Style::Italic);
                done = done.push(Style::Italic);
            }
        }
        assert(out@ == old(out)@ + tokens_text(done));
        if self.underline {
            Style::Underline.write_text(out);
            proof {
                lemma_tokens_text_push(done, Style::Underline);
                done = done.push(Style::Underline);
            }
        }
        assert(out@ == old(out)@ + tokens_text(done));
        assert(done =~= self.tokens());
    }

    /// This style as it is written in a format string.
    pub fn to_string(&self) -> (s: String)
        ensures
            s@ == self.text(),
    {
        let mut s = String::new();
        self.write_text(&mut s);
        assert(s@ =~= self.text());
        s
    }
}

/// The texts of `tokens`, one after the other.
pub open spec fn tokens_text(tokens: Seq<Style>) -> Seq<char>
    decreases tokens.len(),
{
    if tokens.len() == 0 {
        Seq::empty()
    } else {
        tokens_text(tokens.drop_last()) + tokens.last().text()
    }
}

/// The text of a run of tokens with one more token is the text of the run
/// followed by the text of that token.
pub proof fn lemma_tokens_text_push(tokens: Seq<Style>, style: Style)
    ensures
        tokens_text(tokens.push(style)) == tokens_text(tokens) + style.text(),
        forall|prefix: Seq<char>| #[trigger]
            (prefix + tokens_text(tokens) + style.text()) == prefix + tokens_text(
                tokens.push(style),
            ),
{
    assert(tokens.push(style).drop_last() =~= tokens);
    assert forall|prefix: Seq<char>| #[trigger]
        (prefix + tokens_text(tokens) + style.text()) == prefix + tokens_text(
            tokens.push(style),
        ) by {
        assert(prefix + tokens_text(tokens) + style.text() =~= prefix + (tokens_text(tokens)
            + style.text()));
    }
}

impl Default for CompleteStyle {
    fn default() -> (r: CompleteStyle)
        ensures
            r == CompleteStyle::plain(),
    {
        CompleteStyle { fg: None, bg: None, bold: false, italics: false, underline: false }
    }
}

impl From<Style> for CompleteStyle {
    fn from(s: Style) -> (r: CompleteStyle) {
        let mut ctx = CompleteStyle::default();
        ctx.add(s);
        ctx
    }
}

impl vstd::std_specs::convert::FromSpecImpl<Style> for CompleteStyle {
    open spec fn obeys_from_spec() -> bool {
        true
    }

    open spec fn from_spec(s: Style) -> CompleteStyle {
        CompleteStyle::plain().with(s)
    }
}

/// Applying a token is following the style by the token's own style.
pub proof fn lemma_with_is_combine(style: CompleteStyle, token: Style)
    ensures
        style.with(token) == style.combine(CompleteStyle::plain().with(token)),
{
}

/// Following is associative, but for a plain style in the middle: what
/// follows a reset does not bring back what stood before it.
pub proof fn lemma_combine_associative(a: CompleteStyle, b: CompleteStyle, c: CompleteStyle)
    requires
        b != CompleteStyle::plain() || c == CompleteStyle::plain(),
    ensures
        a.combine(b).combine(c) == a.combine(b.combine(c)),
{
}

/// Applying a run of tokens with one more token is applying the run and
/// then that token.
pub proof fn lemma_with_all_push(base: CompleteStyle, tokens: Seq<Style>, style: Style)
    ensures
        base.with_all(tokens.push(style)) == base.with_all(tokens).with(style),
{
    assert(tokens.push(style).drop_last() =~= tokens);
}

/// Folding the tokens that are written for a style gives the style back.
pub proof fn lemma_fold_tokens(style: CompleteStyle)
    ensures
        CompleteStyle::fold(style.tokens()) == style,
        style.tokens().len() >= 1,
{
    let plain = CompleteStyle::plain();
    let none = Seq::<Style>::empty();
    assert(plain.with_all(none) == plain);
    if style == plain {
        lemma_with_all_push(plain, none, Style::Reset);
        assert(none.push(Style::Reset) =~= style.tokens());
    } else {
        let t0 = if style.fg is Some { none.push(Style::Fg(style.fg->0)) } else { none };
        let t1 = if style.bg is Some { t0.push(Style::Bg(style.bg->0)) } else { t0 };
        let t2 = if style.bold { t1.push(Style::Bold) } else { t1 };
        let t3 = if style.italics { t2.push(Style::Italic) } else { t2 };
        let t4 = if style.underline { t3.push(Style::Underline) } else { t3 };
        assert(t4 =~= style.tokens());
        let s0 = CompleteStyle { fg: style.fg, ..plain };
        let s1 = CompleteStyle { bg: style.bg, ..s0 };
        let s2 = CompleteStyle { bold: style.bold, ..s1 };
        let s3 = CompleteStyle { italics: style.italics, ..s2 };
        if style.fg is Some {
            lemma_with_all_push(plain, none, Style::Fg(style.fg->0));
        }
        assert(plain.with_all(t0) == s0);
        if style.bg is Some {
            lemma_with_all_push(plain, t0, Style::Bg(style.bg->0));
        }
        assert(plain.with_all(t1) == s1);
        if style.bold {
            lemma_with_all_push(plain, t1, Style::Bold);
        }
        assert(plain.with_all(t2) == s2);
        if style.italics {
            lemma_with_all_push(plain, t2, Style::Italic);
        }
        assert(plain.with_all(t3) == s3);
        if style.underline {
            lemma_with_all_push(plain, t3, Style::Underline);
        }
        assert(plain.with_all(t4) == style);
    }
}

} // verus!

verus! {

/// One expression of a format.
#[derive(Debug, PartialEq, Eq)]
pub enum Expression {
    /// A field of the repository's status; a sub-tree that prints
    /// something takes the place of the field's default prefix.
    Named { name: Name, sub: Tree },
    /// A sub-tree printed in a style.
    Format { style: CompleteStyle, sub: Tree },
    /// A sub-tree wrapped in brackets, if it prints anything.
    Group { d: Delimiter, sub: Tree },
    /// Text printed as it stands.
    Literal(String),
    /// Punctuation printed between two expressions that print something.
    Separator(Separator),
}

/// A sequence of expressions, printed in order.
#[derive(Debug, PartialEq, Eq)]
pub struct Tree(pub Vec<Expression>);

/// What an [`Expression`] is: the same cases, over sequences.
pub enum ExprView {
    Named { name: Name, sub: Seq<ExprView> },
    Format { style: CompleteStyle, sub: Seq<ExprView> },
    Group { d: Delimiter, sub: Seq<ExprView> },
    Literal(Seq<char>),
    Separator(Separator),
}

impl View for Expression {
    type V = ExprView;

    open spec fn view(&self) -> ExprView
        decreases self,
    {
        match self {
            Expression::Named { name, sub } => ExprView::Named { name: *name, sub: sub.view() },
            Expression::Format { style, sub } => ExprView::Format {
                style: *style,
                sub: sub.view(),
            },
            Expression::Group { d, sub } => ExprView::Group { d: *d, sub: sub.view() },
            Expression::Literal(s) => ExprView::Literal(s@),
            Expression::Separator(s) => ExprView::Separator(*s),
        }
    }
}

impl View for Tree {
    type V = Seq<ExprView>;

    open spec fn view(&self) -> Seq<ExprView>
        decreases self,
    {
        Seq::new(
            self.0.len() as nat,
            |i: int|
                if 0 <= i < self.0.len() {
                    self.0[i].view()
                } else {
                    arbitrary()
                },
        )
    }
}

impl ExprView {
    /// The sub-tree of an expression; empty for a literal and a separator.
    pub open spec fn sub(self) -> Seq<ExprView> {
        match self {
            ExprView::Named { sub, .. } => sub,
            ExprView::Format { sub, .. } => sub,
            ExprView::Group { sub, .. } => sub,
            _ => Seq::empty(),
        }
    }

    /// The expression as it is written in a format string.
    pub open spec fn text(self) -> Seq<char>
        decreases self, 0nat,
    {
        match self {
            ExprView::Named { name, sub } => if sub.len() == 0 {
                name.tag()
            } else {
                name.tag() + seq!['('] + tree_text(sub) + seq![')']
            },
            ExprView::Group { d, sub } => d.opener() + tree_text(sub) + seq![d.right_glyph()],
            ExprView::Format { style, sub } => seq!['#'] + style.text() + seq!['('] + tree_text(
                sub,
            ) + seq![')'],
            ExprView::Literal(s) => seq!['\''] + s + seq!['\''],
            ExprView::Separator(s) => seq![s.glyph()],
        }
    }
}

/// A tree as it is written in a format string: its expressions one after
/// the other.
pub open spec fn tree_text(tree: Seq<ExprView>) -> Seq<char>
    decreases tree, 1nat,
{
    if tree.len() == 0 {
        Seq::empty()
    } else {
        tree[0].text() + tree_text(tree.drop_first())
    }
}

/// The text of two trees, one after the other, is the text of the first
/// followed by the text of the second.
pub proof fn lemma_tree_text_concat(a: Seq<ExprView>, b: Seq<ExprView>)
    ensures
        tree_text(a + b) == tree_text(a) + tree_text(b),
    decreases a.len(),
{
    if a.len() == 0 {
        assert(a + b =~= b);
        assert(tree_text(a) + tree_text(b) =~= tree_text(b));
    } else {
        lemma_tree_text_concat(a.drop_first(), b);
        assert((a + b).drop_first() =~= a.drop_first() + b);
        assert((a + b)[0] == a[0]);
        assert(tree_text(a + b) =~= tree_text(a) + tree_text(b));
    }
}

/// The text of a tree with one more expression at its end.
pub proof fn lemma_tree_text_push(tree: Seq<ExprView>, e: ExprView)
    ensures
        tree_text(tree.push(e)) == tree_text(tree) + e.text(),
{
    lemma_tree_text_concat(tree, seq![e]);
    assert(tree.push(e) =~= tree + seq![e]);
    let one = seq![e];
    assert(one.len() == 1 && one[0] == e);
    assert(one.drop_first() =~= Seq::<ExprView>::empty());
    assert(tree_text(one.drop_first()) =~= Seq::<char>::empty());
    assert(tree_text(one) =~= e.text());
}

impl Tree {
    /// An empty tree.
    pub fn new() -> (t: Tree)
        ensures
            t@ == Seq::<ExprView>::empty(),
    {
        let t = Tree(Vec::new());
        assert(t@ =~= Seq::<ExprView>::empty());
        t
    }

    /// Appends the tree, as it is written in a format string, to `out`.
    pub fn write_text(&self, out: &mut String)
        ensures
            final(out)@ == old(out)@ + tree_text(self@),
        decreases self, 1nat,
    {
        let mut i: usize = 0;
        while i < self.0.len()
            invariant
                i <= self.0.len(),
                out@ == old(out)@ + tree_text(self@.take(i as int)),
            decreases self.0.len() - i,
        {
            proof {
                lemma_tree_text_push(self@.take(i as int), self@[i as int]);
                assert(self@.take(i as int).push(self@[i as int]) =~= self@.take(i + 1));
            }
            self.0[i].write_text(out);
            assert(out@ =~= old(out)@ + tree_text(self@.take(i + 1)));
            i += 1;
        }
        assert(self@.take(i as int) =~= self@);
    }

    /// The tree as it is written in a format string.
    pub fn to_string(&self) -> (s: String)
        ensures
            s@ == tree_text(self@),
    {
        let mut s = String::new();
        self.write_text(&mut s);
        assert(s@ =~= tree_text(self@));
        s
    }
}

impl Expression {
    /// Appends the expression, as it is written in a format string, to
    /// `out`.
    pub fn write_text(&self, out: &mut String)
        ensures
            final(out)@ == old(out)@ + self@.text(),
        decreases self, 0nat,
    {
        match self {
            Expression::Named { name, sub } => {
                let tag = name.to_string();
                out.append(tag.as_str());
                if sub.0.len() != 0 {
                    out.push('(');
                    sub.write_text(out);
                    out.push(')');
                }
            },
            Expression::Group { d, sub } => {
                match d {
                    Delimiter::Square => out.push('['),
                    Delimiter::Angle => out.push('<'),
                    Delimiter::Parens => {
                        out.push('\\');
                        out.push('(');
                    },
                    Delimiter::Curly => out.push('{'),
                }
                sub.write_text(out);
                out.append(d.right());
            },
            Expression::Format { style, sub } => {
                out.push('#');
                style.write_text(out);
                out.push('(');
                sub.write_text(out);
                out.push(')');
            },
            Expression::Literal(s) => {
                out.push('\'');
                out.append(s.as_str());
                out.push('\'');
            },
            Expression::Separator(s) => {
                out.append(s.as_str());
            },
        }
        assert(out@ =~= old(out)@ + self@.text());
    }

    /// The expression as it is written in a format string.
    pub fn to_string(&self) -> (s: String)
        ensures
            s@ == self@.text(),
    {
        let mut s = String::new();
        self.write_text(&mut s);
        assert(s@ =~= self@.text());
        s
    }
}

impl Default for Tree {
    fn default() -> (t: Tree)
        ensures
            t@ == Seq::<ExprView>::empty(),
    {
        Tree::new()
    }
}

impl Clone for Tree {
    fn clone(&self) -> (r: Tree)
        ensures
            r@ == self@,
        decreases self,
    {
        let mut v: Vec<Expression> = Vec::new();
        let mut i: usize = 0;
        while i < self.0.len()
            invariant
                i <= self.0.len(),
                v.len() == i,
                forall|j: int| 0 <= j < i ==> v[j]@ == self.0[j]@,
            decreases self.0.len() - i,
        {
            let e = self.0[i].clone();
            v.push(e);
            i += 1;
        }
        let r = Tree(v);
        assert(r@ =~= self@);
        r
    }
}

impl Clone for Expression {
    fn clone(&self) -> (r: Expression)
        ensures
            r@ == self@,
        decreases self,
    {
        match self {
            Expression::Named { name, sub } => Expression::Named { name: *name, sub: sub.clone() },
            Expression::Format { style, sub } => Expression::Format {
                style: *style,
                sub: sub.clone(),
            },
            Expression::Group { d, sub } => Expression::Group { d: *d, sub: sub.clone() },
            Expression::Literal(s) => Expression::Literal(s.clone()),
            Expression::Separator(s) => Expression::Separator(*s),
        }
    }
}

} // verus!
