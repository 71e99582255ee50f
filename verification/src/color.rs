//! Styles as terminal escape sequences, and the shortest way from one
//! style to another.

use vstd::prelude::*;
use crate::ast::{Color, CompleteStyle};
use crate::text::{decimal, push_decimal};

verus! {

/// The escape that selects graphic rendition `code`.
pub open spec fn sgr(code: Seq<char>) -> Seq<char> {
    seq!['\u{1b}', '['] + code + seq!['m']
}

/// The three channels of a 24-bit colour as parameters of an escape.
pub open spec fn channels(r: u8, g: u8, b: u8) -> Seq<char> {
    seq![';', '2', ';'] + decimal(r as nat) + seq![';'] + decimal(g as nat) + seq![';'] + decimal(
        b as nat,
    )
}

impl Color {
    /// The last digit of the code of a named colour.
    pub open spec fn digit(self) -> nat {
        match self {
            Color::Black => 0,
            Color::Red => 1,
            Color::Green => 2,
            Color::Yellow => 3,
            Color::Blue => 4,
            Color::Magenta => 5,
            Color::Cyan => 6,
            Color::White => 7,
            Color::RGB(_, _, _) => 8,
        }
    }

    /// The parameters that select this colour, on the ground whose codes
    /// start at `base`: 30 for the foreground, 40 for the background.
    pub open spec fn code(self, base: nat) -> Seq<char> {
        match self {
            Color::RGB(r, g, b) => decimal(base + 8) + channels(r, g, b),
            _ => decimal(base + self.digit()),
        }
    }

    /// Appends the escape that selects this colour, as a background or as
    /// a foreground, to `out`.
    pub fn write_to(&self, out: &mut String, background: bool)
        ensures
            final(out)@ == old(out)@ + sgr(
                self.code(
                    if background {
                        40
                    } else {
                        30
                    },
                ),
            ),
    {
        let base: u32 = if background {
            40
        } else {
            30
        };
        out.push('\u{1b}');
        out.push('[');
        match self {
            Color::Black => push_decimal(out, base),
            Color::Red => push_decimal(out, base + 1),
            Color::Green => push_decimal(out, base + 2),
            Color::Yellow => push_decimal(out, base + 3),
            Color::Blue => push_decimal(out, base + 4),
            Color::Magenta => push_decimal(out, base + 5),
            Color::Cyan => push_decimal(out, base + 6),
            Color::White => push_decimal(out, base + 7),
            Color::RGB(r, g, b) => {
                push_decimal(out, base + 8);
                out.push(';');
                out.push('2');
                out.push(';');
                push_decimal(out, *r as u32);
                out.push(';');
                push_decimal(out, *g as u32);
                out.push(';');
                push_decimal(out, *b as u32);
            },
        }
        out.push('m');
        assert(out@ =~= old(out)@ + sgr(self.code(base as nat)));
    }
}

/// The escape that resets every attribute.
pub open spec fn reset() -> Seq<char> {
    sgr(seq!['0'])
}

/// `run` if it is `present`, else nothing.
pub open spec fn part(present: bool, run: Seq<char>) -> Seq<char> {
    if present {
        run
    } else {
        Seq::empty()
    }
}

/// The escape of a colour, on the ground whose codes start at `base`, if
/// there is a colour.
pub open spec fn ground(color: Option<Color>, base: nat) -> Seq<char> {
    match color {
        Some(c) => sgr(c.code(base)),
        None => Seq::empty(),
    }
}

/// The escapes that switch a style on: the reset for the plain style,
/// else one escape for each attribute that is present, in the order
/// foreground, background, bold, italic, underline.
pub open spec fn escapes(style: CompleteStyle) -> Seq<char> {
    if style == CompleteStyle::plain() {
        reset()
    } else {
        ground(style.fg, 30) + ground(style.bg, 40) + part(style.bold, sgr(seq!['1'])) + part(
            style.italics,
            sgr(seq!['3']),
        ) + part(style.underline, sgr(seq!['4']))
    }
}

/// `run` between the markers that tell a shell's line editor that the run
/// takes no room on the line, if `bash_prompt` asks for them.
pub open spec fn wrapped(run: Seq<char>, bash_prompt: bool) -> Seq<char> {
    if bash_prompt {
        seq!['\u{01}'] + run + seq!['\u{02}']
    } else {
        run
    }
}

/// The escapes that switch a style on, as they are written.
pub open spec fn styled(style: CompleteStyle, bash_prompt: bool) -> Seq<char> {
    wrapped(escapes(style), bash_prompt)
}

/// How to get from one style to another.
#[derive(Debug, PartialEq, Eq, Copy, Clone, Structural)]
pub enum Difference {
    /// Nothing is to be done.
    Same,
    /// These attributes are to be switched on.
    Add(CompleteStyle),
    /// Everything is to be reset and the target switched on anew.
    Reset,
}

/// How to get from `prev` to `next`: nothing where they are the same; a
/// reset where `next` lacks an attribute that `prev` has; else the
/// attributes of `next` that differ from those of `prev`.
pub open spec fn difference(prev: CompleteStyle, next: CompleteStyle) -> Difference {
    if prev == next {
        Difference::Same
    } else if (prev.fg is Some && next.fg is None) || (prev.bg is Some && next.bg is None) || (
    prev.bold && !next.bold) || (prev.italics && !next.italics) || (prev.underline
        && !next.underline) {
        Difference::Reset
    } else {
        Difference::Add(
            CompleteStyle {
                fg: if next.fg != prev.fg {
                    next.fg
                } else {
                    None
                },
                bg: if next.bg != prev.bg {
                    next.bg
                } else {
                    None
                },
                bold: !prev.bold && next.bold,
                italics: !prev.italics && next.italics,
                underline: !prev.underline && next.underline,
            },
        )
    }
}

/// What is written to get from `prev` to `next`.
pub open spec fn transition(prev: CompleteStyle, next: CompleteStyle, bash_prompt: bool) -> Seq<
    char,
> {
    match difference(prev, next) {
        Difference::Same => Seq::empty(),
        Difference::Add(style) => styled(style, bash_prompt),
        Difference::Reset => wrapped(reset() + escapes(next), bash_prompt),
    }
}

impl Difference {
    /// How to get from `prev` to `next`.
    pub fn between(prev: &CompleteStyle, next: &CompleteStyle) -> (d: Difference)
        ensures
            d == difference(*prev, *next),
    {
        if *prev == *next {
            return Difference::Same;
        }
        if (prev.fg.is_some() && next.fg.is_none()) || (prev.bg.is_some() && next.bg.is_none())
            || (prev.bold && !next.bold) || (prev.italics && !next.italics) || (prev.underline
            && !next.underline) {
            return Difference::Reset;
        }
        Difference::Add(
            CompleteStyle {
                fg: if next.fg != prev.fg {
                    next.fg
                } else {
                    None
                },
                bg: if next.bg != prev.bg {
                    next.bg
                } else {
                    None
                },
                bold: !prev.bold && next.bold,
                italics: !prev.italics && next.italics,
                underline: !prev.underline && next.underline,
            },
        )
    }
}

/// Appends the escape that selects graphic rendition `digit` to `out`.
fn push_sgr(out: &mut String, digit: char)
    ensures
        final(out)@ == old(out)@ + sgr(seq![digit]),
{
    out.push('\u{1b}');
    out.push('[');
    out.push(digit);
    out.push('m');
    assert(out@ =~= old(out)@ + sgr(seq![digit]));
}

impl CompleteStyle {
    /// Appends the escapes that switch this style on to `out`.
    pub fn write_escapes(&self, out: &mut String)
        ensures
            final(out)@ == old(out)@ + escapes(*self),
    {
        if self.is_plain() {
            push_sgr(out, '0');
            return ;
        }
        let ghost start = out@;
        let ghost fg = ground(self.fg, 30);
        let ghost bg = ground(self.bg, 40);
        let ghost bold = part(self.bold, sgr(seq!['1']));
        let ghost italics = part(self.italics, sgr(seq!['3']));
        let ghost underline = part(self.underline, sgr(seq!['4']));
        if let Some(color) = self.fg {
            color.write_to(out, false);
        }
        assert(out@ =~= start + fg);
        if let Some(color) = self.bg {
            color.write_to(out, true);
        }
        assert(out@ =~= start + (fg + bg));
        if self.bold {
            push_sgr(out, '1');
        }
        assert(out@ =~= start + (fg + bg + bold));
        if self.italics {
            push_sgr(out, '3');
        }
        assert(out@ =~= start + (fg + bg + bold + italics));
        if self.underline {
            push_sgr(out, '4');
        }
        assert(out@ =~= start + (fg + bg + bold + italics + underline));
    }

    /// Appends the escapes that switch this style on to `out`, between
    /// the markers of a shell prompt if `bash_prompt` asks for them.
    pub fn write_to(&self, out: &mut String, bash_prompt: bool)
        ensures
            final(out)@ == old(out)@ + styled(*self, bash_prompt),
    {
        if bash_prompt {
            out.push('\u{01}');
        }
        self.write_escapes(out);
        if bash_prompt {
            out.push('\u{02}');
        }
        assert(out@ =~= old(out)@ + styled(*self, bash_prompt));
    }

    /// Appends what gets a terminal from the style `prev` to this style
    /// to `out`.
    pub fn write_difference(&self, out: &mut String, prev: &CompleteStyle, bash_prompt: bool)
        ensures
            final(out)@ == old(out)@ + transition(*prev, *self, bash_prompt),
    {
        match Difference::between(prev, self) {
            Difference::Add(style) => style.write_to(out, bash_prompt),
            Difference::Reset => {
                if bash_prompt {
                    out.push('\u{01}');
                }
                push_sgr(out, '0');
                self.write_escapes(out);
                if bash_prompt {
                    out.push('\u{02}');
                }
                assert(out@ =~= old(out)@ + wrapped(reset() + escapes(*self), bash_prompt));
            },
            Difference::Same => {
                assert(out@ =~= old(out)@ + Seq::<char>::empty());
            },
        }
    }
}

} // verus!
