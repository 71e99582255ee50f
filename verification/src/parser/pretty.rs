//! Diagnostics for a rejected format string: the input, a caret under what
//! was wrong, and a message for the kind of the failure.

use vstd::prelude::*;
use vstd::string::StringExecFns;
use crate::parser::error::{OtherKind, ParseErrorKind, Rule};
use crate::parser::{Frame, ParseError, ParseErrorView};
use crate::text::{chars_of, text_of};

verus! {

/// The ways a fragment of a diagnostic can be set off.
#[derive(Debug, PartialEq, Eq, Clone, Copy, Structural)]
pub enum Ink {
    Plain,
    Bold,
    /// Bold and red.
    Error,
    Dim,
}

impl Ink {
    /// The ink for emphasis, with or without colour.
    pub open spec fn bold(use_color: bool) -> Ink {
        if use_color {
            Ink::Bold
        } else {
            Ink::Plain
        }
    }

    /// The ink for what is wrong, with or without colour.
    pub open spec fn error(use_color: bool) -> Ink {
        if use_color {
            Ink::Error
        } else {
            Ink::Plain
        }
    }

    /// The ink for what matters less, with or without colour.
    pub open spec fn dim(use_color: bool) -> Ink {
        if use_color {
            Ink::Dim
        } else {
            Ink::Plain
        }
    }

    /// The escape that switches the ink on.
    pub open spec fn on(self) -> Seq<char> {
        match self {
            Ink::Plain => Seq::empty(),
            Ink::Bold => seq!['\u{1b}', '[', '1', 'm'],
            Ink::Error => seq!['\u{1b}', '[', '1', ';', '3', '1', 'm'],
            Ink::Dim => seq!['\u{1b}', '[', '2', 'm'],
        }
    }

    /// The escape that switches the ink off.
    pub open spec fn off(self) -> Seq<char> {
        match self {
            Ink::Plain => Seq::empty(),
            _ => seq!['\u{1b}', '[', '0', 'm'],
        }
    }
}

/// Whether `painted` is `text` in the ink `ink`: `text` between the
/// escapes of the ink, or, where painting is switched off for the whole
/// process, `text` alone.
pub open spec fn is_painted(ink: Ink, text: Seq<char>, painted: Seq<char>) -> bool {
    painted == text || painted == ink.on() + text + ink.off()
}

/// `yansi::Style::paint` with the style of `ink`, formatted: with painting
/// enabled the text stands between the escapes of the style, bold being
/// `1`, dimmed `2` and a red foreground `31`, and the reset; with painting
/// disabled for the process the text stands alone. A style without
/// property and colour adds nothing in either case.
#[verifier::external_body]
fn paint(ink: Ink, text: &str) -> (painted: String)
    ensures
        is_painted(ink, text@, painted@),
{
    let style = match ink {
        Ink::Plain => yansi::Style::new(yansi::Color::Unset),
        Ink::Bold => yansi::Style::new(yansi::Color::Unset).bold(),
        Ink::Error => yansi::Style::new(yansi::Color::Red).bold(),
        Ink::Dim => yansi::Style::new(yansi::Color::Unset).dimmed(),
    };
    format!("{}", style.paint(text))
}

/// The name of a failure that has no classification of its own, as
/// `nom::error::ErrorKind` prints it for debugging: the name of the
/// variant.
pub open spec fn other_name(kind: OtherKind) -> Seq<char> {
    match kind {
        OtherKind::Tag => "Tag"@,
        OtherKind::Eof => "Eof"@,
        OtherKind::Many0 => "Many0"@,
        OtherKind::Many1 => "Many1"@,
    }
}

/// The `Debug` form of the `nom::error::ErrorKind` that `kind` stands
/// for, which is the name of its variant.
#[verifier::external_body]
fn debug_other(kind: OtherKind) -> (name: String)
    ensures
        name@ == other_name(kind),
{
    let kind = match kind {
        OtherKind::Tag => nom::error::ErrorKind::Tag,
        OtherKind::Eof => nom::error::ErrorKind::Eof,
        OtherKind::Many0 => nom::error::ErrorKind::Many0,
        OtherKind::Many1 => nom::error::ErrorKind::Many1,
    };
    format!("{:?}", kind)
}

/// The name of a rule in a diagnostic.
pub open spec fn rule_name(rule: Rule) -> Seq<char> {
    match rule {
        Rule::Group => "group"@,
        Rule::Literal => "string"@,
        Rule::Format => "format"@,
        Rule::Expression => "expression"@,
    }
}

/// Whether `needle` stands in `hay` at `i`.
pub open spec fn stands_at(hay: Seq<char>, needle: Seq<char>, i: int) -> bool {
    0 <= i && i + needle.len() <= hay.len() && hay.subrange(i, i + needle.len()) == needle
}

/// The last offset at or before `from` at which `needle` stands in `hay`.
pub open spec fn rfind_from(hay: Seq<char>, needle: Seq<char>, from: int) -> Option<int>
    decreases from + 1,
{
    if from < 0 {
        None
    } else if stands_at(hay, needle, from) {
        Some(from)
    } else {
        rfind_from(hay, needle, from - 1)
    }
}

/// The last offset at which `needle` stands in `hay`.
pub open spec fn rfind(hay: Seq<char>, needle: Seq<char>) -> Option<int> {
    rfind_from(hay, needle, hay.len() - needle.len())
}

/// The last offset at which `needle` stands in `hay`, or 0.
pub open spec fn rfind_or_start(hay: Seq<char>, needle: Seq<char>) -> int {
    match rfind(hay, needle) {
        Some(i) => i,
        None => 0,
    }
}

/// What `rfind` finds is an offset at which `needle` stands, and it
/// stands at no later one.
pub proof fn lemma_rfind(hay: Seq<char>, needle: Seq<char>, from: int)
    ensures
        match rfind_from(hay, needle, from) {
            Some(i) => i <= from && stands_at(hay, needle, i) && forall|j: int|
                i < j <= from ==> !stands_at(hay, needle, j),
            None => forall|j: int| 0 <= j <= from ==> !stands_at(hay, needle, j),
        },
    decreases from + 1,
{
    if from >= 0 && !stands_at(hay, needle, from) {
        lemma_rfind(hay, needle, from - 1);
    }
}

/// The first character of `rest` if it is an ASCII character, else
/// nothing.
pub open spec fn found(rest: Seq<char>) -> Seq<char> {
    if rest.len() > 0 && (rest[0] as u32) < 128 {
        rest.take(1)
    } else {
        Seq::empty()
    }
}

/// Whether `text` is one closing bracket.
pub open spec fn closes(text: Seq<char>) -> bool {
    text.len() == 1 && (text[0] == ']' || text[0] == ')' || text[0] == '>' || text[0] == '}')
}

/// The offset of the first `]` or `}` at or behind `from`; the length of
/// `rest` if there is none.
pub open spec fn bracket_from(rest: Seq<char>, from: int) -> int
    decreases rest.len() - from,
{
    if 0 <= from < rest.len() && rest[from] != ']' && rest[from] != '}' {
        bracket_from(rest, from + 1)
    } else {
        from
    }
}

/// How many carets mark the failure: every character that is left of an
/// unclosed literal; of a malformed colour what stands before its closing
/// bracket, at least one character and at most five; else one.
pub open spec fn error_size(err: ParseErrorView) -> int {
    match err.kind {
        ParseErrorKind::UnclosedString => err.rest.len() as int,
        ParseErrorKind::InvalidRGB => {
            let i = bracket_from(err.rest, 0);
            let until = if i < err.rest.len() {
                i
            } else {
                1
            };
            if until > 5 {
                5
            } else if until < 1 {
                1
            } else {
                until
            }
        },
        _ => 1,
    }
}

/// The fragments of a diagnostic that are set off, as they are before
/// they are painted, or after.
pub struct Fragments {
    /// The word `error`, in the ink for what is wrong.
    pub error_word: Seq<char>,
    /// The bar at the left of each line, in the ink for emphasis.
    pub bar: Seq<char>,
    /// One caret, in the ink for what is wrong.
    pub caret: Seq<char>,
    /// The first emphasised part of the message, if it has one.
    pub first: Seq<char>,
    /// The second emphasised part of the message, if it has one.
    pub second: Seq<char>,
    /// What stands in the outermost rule before the innermost, dimmed.
    pub pre: Seq<char>,
    /// What the carets stand under, in the ink for what is wrong.
    pub er: Seq<char>,
    /// What stands behind it, dimmed.
    pub post: Seq<char>,
}

/// The outermost rule, cut in four: what stands before the innermost
/// rule, the innermost rule up to the failure, what the carets stand
/// under, and the rest. Both rules are looked for from the right.
pub open spec fn trace(err: ParseErrorView) -> Option<
    (Seq<char>, Seq<char>, Seq<char>, Seq<char>),
> {
    match (err.top, err.context) {
        (Some((top_input, _)), Some((input, _))) => {
            let k = rfind_or_start(top_input, input);
            let inner = top_input.skip(k);
            let j = rfind_or_start(inner, err.rest);
            let tail = inner.skip(j);
            let n = if error_size(err) < tail.len() {
                error_size(err)
            } else {
                tail.len() as int
            };
            Some((top_input.take(k), inner.take(j), tail.take(n), tail.skip(n)))
        },
        _ => None,
    }
}

/// The fragments of the diagnostic for `err` before they are painted.
pub open spec fn raw(err: ParseErrorView) -> Fragments {
    Fragments {
        error_word: "error"@,
        bar: "│"@,
        caret: "^"@,
        first: match err.kind {
            ParseErrorKind::UnclosedString => "'"@,
            ParseErrorKind::MissingDelimiter(d) => seq![d],
            ParseErrorKind::MissingChar(c) => seq![c],
            ParseErrorKind::UnrecognizedStyle => found(err.rest),
            ParseErrorKind::InvalidRGB => "0,0,0"@,
            _ => Seq::empty(),
        },
        second: match err.kind {
            ParseErrorKind::MissingChar(_) => found(err.rest),
            _ => Seq::empty(),
        },
        pre: match trace(err) {
            Some((pre, _, _, _)) => pre,
            None => Seq::empty(),
        },
        er: match trace(err) {
            Some((_, _, er, _)) => er,
            None => Seq::empty(),
        },
        post: match trace(err) {
            Some((_, _, _, post)) => post,
            None => Seq::empty(),
        },
    }
}

/// Whether `p` is `raw` with each fragment painted in its ink.
pub open spec fn paints(raw: Fragments, p: Fragments, use_color: bool) -> bool {
    &&& is_painted(Ink::error(use_color), raw.error_word, p.error_word)
    &&& is_painted(Ink::bold(use_color), raw.bar, p.bar)
    &&& is_painted(Ink::error(use_color), raw.caret, p.caret)
    &&& is_painted(Ink::bold(use_color), raw.first, p.first)
    &&& is_painted(Ink::bold(use_color), raw.second, p.second)
    &&& is_painted(Ink::dim(use_color), raw.pre, p.pre)
    &&& is_painted(Ink::error(use_color), raw.er, p.er)
    &&& is_painted(Ink::dim(use_color), raw.post, p.post)
}

/// The message for the kind of the failure, with its emphasised parts
/// from `p`.
pub open spec fn message(err: ParseErrorView, p: Fragments) -> Seq<char> {
    match err.kind {
        ParseErrorKind::UnclosedString => "missing closing quote ("@ + p.first + ")\n"@,
        ParseErrorKind::MissingDelimiter(_) => "reached end without finding matching "@ + p.first
            + "\n"@,
        ParseErrorKind::MissingChar(_) => "expected \""@ + p.first + "\" here, found \""@
            + p.second + "\"\n"@,
        ParseErrorKind::UnrecognizedName | ParseErrorKind::Other(OtherKind::Eof) => if closes(
            found(err.rest),
        ) {
            "improper close delimiter\n"@
        } else {
            "not recognized as a valid expression\n"@
        },
        ParseErrorKind::UnrecognizedStyle => "found \""@ + p.first + "\" which is not a style\n"@,
        ParseErrorKind::InvalidRGB => "RGB must be in the form \""@ + p.first + "\"\n"@,
        ParseErrorKind::Other(kind) => other_name(kind) + "\n"@,
    }
}

/// `n` times `unit`.
pub open spec fn repeated(unit: Seq<char>, n: int) -> Seq<char>
    decreases n,
{
    if n <= 0 {
        Seq::empty()
    } else {
        repeated(unit, n - 1) + unit
    }
}

/// The lines above the carets: what could not be parsed, and the input
/// from the start of the innermost rule, or from the failure if it
/// happened in no rule; then the start of the line of the carets, which
/// puts them under the failure.
pub open spec fn head(err: ParseErrorView, p: Fragments) -> Seq<char> {
    match err.context {
        Some((input, rule)) => p.error_word + ": unable to parse "@ + rule_name(rule) + "\n"@
            + " "@ + p.bar + "\n"@ + " "@ + p.bar + "    "@ + input + "\n"@ + " "@ + p.bar
            + "    "@ + (match rfind(input, err.rest) {
            Some(i) => repeated(" "@, i),
            None => Seq::empty(),
        }),
        None => p.error_word + ": unable to parse\n"@ + " "@ + p.bar + "    \n"@ + " "@ + p.bar
            + "    "@ + err.rest + "\n"@ + " "@ + p.bar + "    "@,
    }
}

/// The last line: the outermost rule with the failure set off in it, if
/// the failure happened in a rule.
pub open spec fn tail(err: ParseErrorView, p: Fragments) -> Seq<char> {
    match (err.top, trace(err)) {
        (Some((_, rule)), Some((_, inner, _, _))) => " = in "@ + rule_name(rule) + ": "@ + p.pre
            + inner + p.er + p.post,
        _ => Seq::empty(),
    }
}

/// The diagnostic for `err` with the painted fragments `p`.
pub open spec fn layout(err: ParseErrorView, p: Fragments) -> Seq<char> {
    head(err, p) + repeated(p.caret, error_size(err)) + " "@ + message(err, p) + " "@ + p.bar
        + "\n"@ + tail(err, p)
}

/// The painted fragments of a diagnostic.
#[derive(Debug, PartialEq, Eq, Clone)]
pub struct Painted {
    pub error_word: String,
    pub bar: String,
    pub caret: String,
    pub first: String,
    pub second: String,
    pub pre: String,
    pub er: String,
    pub post: String,
}

impl View for Painted {
    type V = Fragments;

    open spec fn view(&self) -> Fragments {
        Fragments {
            error_word: self.error_word@,
            bar: self.bar@,
            caret: self.caret@,
            first: self.first@,
            second: self.second@,
            pre: self.pre@,
            er: self.er@,
            post: self.post@,
        }
    }
}

/// A failure together with whether its diagnostic is to be coloured.
#[derive(Debug, Clone)]
pub struct PrettyPrinter {
    pub error: ParseError,
    pub use_color: bool,
}

/// Whether `needle` stands in `hay` at `i`.
fn stands(hay: &Vec<char>, needle: &Vec<char>, i: usize) -> (b: bool)
    requires
        i + needle.len() <= hay.len(),
    ensures
        b == stands_at(hay@, needle@, i as int),
{
    let mut k: usize = 0;
    while k < needle.len()
        invariant
            k <= needle.len(),
            i + needle.len() <= hay.len(),
            forall|j: int| 0 <= j < k ==> hay@[i + j] == needle@[j],
        decreases needle.len() - k,
    {
        if hay[i + k] != needle[k] {
            proof {
                let part = hay@.subrange(i as int, i + needle.len());
                assert(part[k as int] == hay@[i + k]);
            }
            return false;
        }
        k += 1;
    }
    assert(hay@.subrange(i as int, i + needle.len()) =~= needle@);
    true
}

/// The last offset at which `needle` stands in `hay`, if it stands in it
/// at all.
pub fn rfind_chars(hay: &Vec<char>, needle: &Vec<char>) -> (r: Option<usize>)
    ensures
        match r {
            Some(i) => rfind(hay@, needle@) == Some(i as int) && stands_at(
                hay@,
                needle@,
                i as int,
            ) && forall|j: int| i < j ==> !stands_at(hay@, needle@, j),
            None => rfind(hay@, needle@) is None && forall|j: int| !stands_at(hay@, needle@, j),
        },
{
    if needle.len() > hay.len() {
        return None;
    }
    let mut i: usize = hay.len() - needle.len();
    loop
        invariant
            i + needle.len() <= hay.len(),
            rfind(hay@, needle@) == rfind_from(hay@, needle@, i as int),
        decreases i,
    {
        proof {
            lemma_rfind(hay@, needle@, hay@.len() - needle@.len());
        }
        if stands(hay, needle, i) {
            return Some(i);
        }
        if i == 0 {
            assert(rfind_from(hay@, needle@, -1) is None);
            return None;
        }
        i -= 1;
    }
}

/// Appends `n` times `unit` to `out`.
fn push_repeated(out: &mut String, unit: &str, n: usize)
    ensures
        final(out)@ == old(out)@ + repeated(unit@, n as int),
{
    let mut i: usize = 0;
    assert(out@ =~= old(out)@ + repeated(unit@, 0));
    while i < n
        invariant
            i <= n,
            out@ == old(out)@ + repeated(unit@, i as int),
        decreases n - i,
    {
        out.append(unit);
        i += 1;
        assert(out@ =~= old(out)@ + repeated(unit@, i as int));
    }
}

/// The name of a rule in a diagnostic.
fn rule_str(rule: Rule) -> (s: &'static str)
    ensures
        s@ == rule_name(rule),
{
    match rule {
        Rule::Group => "group",
        Rule::Literal => "string",
        Rule::Format => "format",
        Rule::Expression => "expression",
    }
}

/// The first character of `rest` if it is an ASCII character, else
/// nothing.
fn found_in(rest: &Vec<char>) -> (s: String)
    ensures
        s@ == found(rest@),
{
    if rest.len() > 0 && (rest[0] as u32) < 128 {
        let s = text_of(rest, 0, 1);
        assert(rest@.subrange(0, 1) =~= rest@.take(1));
        s
    } else {
        String::new()
    }
}

/// How many carets mark the failure.
fn size_of(kind: ParseErrorKind, rest: &Vec<char>) -> (n: usize)
    ensures
        n == error_size(ParseErrorView { rest: rest@, kind, context: None, top: None }),
{
    match kind {
        ParseErrorKind::UnclosedString => rest.len(),
        ParseErrorKind::InvalidRGB => {
            let mut i: usize = 0;
            while i < rest.len() && rest[i] != ']' && rest[i] != '}'
                invariant
                    i <= rest.len(),
                    bracket_from(rest@, 0) == bracket_from(rest@, i as int),
                decreases rest.len() - i,
            {
                i += 1;
            }
            let until = if i < rest.len() {
                i
            } else {
                1
            };
            if until > 5 {
                5
            } else if until < 1 {
                1
            } else {
                until
            }
        },
        _ => 1,
    }
}

impl ParseError {
    /// The failure with whether its diagnostic is to be coloured.
    pub fn pretty_print(&self, use_color: bool) -> (p: PrettyPrinter)
        ensures
            p.error@ == self@,
            p.use_color == use_color,
    {
        let error = ParseError {
            rest: self.rest.clone(),
            kind: self.kind,
            context: match &self.context {
                Some(frame) => Some(Frame { rest: frame.rest.clone(), rule: frame.rule }),
                None => None,
            },
            top: match &self.top {
                Some(frame) => Some(Frame { rest: frame.rest.clone(), rule: frame.rule }),
                None => None,
            },
        };
        PrettyPrinter { use_color, error }
    }

    /// The diagnostic without colour.
    pub fn to_string(&self) -> (s: String)
        ensures
            s@ == layout(self@, raw(self@)),
    {
        self.pretty_print(false).pretty_print()
    }
}

impl PrettyPrinter {
    /// The emphasised parts of the message, before they are painted.
    fn emphasised(&self, rest: &Vec<char>) -> (parts: (String, String))
        requires
            rest@ == self.error@.rest,
        ensures
            parts.0@ == raw(self.error@).first,
            parts.1@ == raw(self.error@).second,
    {
        match self.error.kind {
            ParseErrorKind::UnclosedString => (String::from_str("'"), String::new()),
            ParseErrorKind::MissingDelimiter(d) => {
                let mut s = String::new();
                s.push(d);
                assert(s@ =~= seq![d]);
                (s, String::new())
            },
            ParseErrorKind::MissingChar(c) => {
                let mut s = String::new();
                s.push(c);
                assert(s@ =~= seq![c]);
                (s, found_in(rest))
            },
            ParseErrorKind::UnrecognizedStyle => (found_in(rest), String::new()),
            ParseErrorKind::InvalidRGB => (String::from_str("0,0,0"), String::new()),
            _ => (String::new(), String::new()),
        }
    }

    /// The outermost rule cut in four, if the failure happened in a rule.
    fn trace(&self, rest: &Vec<char>) -> (parts: Option<(String, String, String, String)>)
        requires
            rest@ == self.error@.rest,
        ensures
            match parts {
                Some((pre, inner, er, post)) => trace(self.error@) == Some(
                    (pre@, inner@, er@, post@),
                ),
                None => trace(self.error@) is None,
            },
    {
        let top = match &self.error.top {
            Some(frame) => chars_of(frame.rest.as_str()),
            None => {
                return None;
            },
        };
        let input = match &self.error.context {
            Some(frame) => chars_of(frame.rest.as_str()),
            None => {
                return None;
            },
        };
        let k = match rfind_chars(&top, &input) {
            Some(k) => k,
            None => 0,
        };
        let pre = text_of(&top, 0, k);
        let inner = chars_of(text_of(&top, k, top.len()).as_str());
        assert(top@.subrange(0, k as int) =~= top@.take(k as int));
        assert(inner@ =~= top@.skip(k as int));
        let j = match rfind_chars(&inner, rest) {
            Some(j) => j,
            None => 0,
        };
        let middle = text_of(&inner, 0, j);
        let tail = chars_of(text_of(&inner, j, inner.len()).as_str());
        assert(inner@.subrange(0, j as int) =~= inner@.take(j as int));
        assert(tail@ =~= inner@.skip(j as int));
        let size = size_of(self.error.kind, rest);
        let n = if size < tail.len() {
            size
        } else {
            tail.len()
        };
        let er = text_of(&tail, 0, n);
        let post = text_of(&tail, n, tail.len());
        assert(tail@.subrange(0, n as int) =~= tail@.take(n as int));
        assert(tail@.subrange(n as int, tail@.len() as int) =~= tail@.skip(n as int));
        Some((pre, middle, er, post))
    }

    /// The fragments of the diagnostic, painted with colour or without.
    pub fn painted(&self) -> (p: Painted)
        ensures
            paints(raw(self.error@), p@, self.use_color),
            !self.use_color ==> p@ == raw(self.error@),
    {
        let bold = if self.use_color {
            Ink::Bold
        } else {
            Ink::Plain
        };
        let error = if self.use_color {
            Ink::Error
        } else {
            Ink::Plain
        };
        let dim = if self.use_color {
            Ink::Dim
        } else {
            Ink::Plain
        };
        let rest = chars_of(self.error.rest.as_str());
        let (first, second) = self.emphasised(&rest);
        let (pre, er, post) = match self.trace(&rest) {
            Some((pre, _, er, post)) => (pre, er, post),
            None => (String::new(), String::new(), String::new()),
        };
        let p = Painted {
            error_word: paint(error, "error"),
            bar: paint(bold, "│"),
            caret: paint(error, "^"),
            first: paint(bold, first.as_str()),
            second: paint(bold, second.as_str()),
            pre: paint(dim, pre.as_str()),
            er: paint(error, er.as_str()),
            post: paint(dim, post.as_str()),
        };
        proof {
            if !self.use_color {
                let plain = Seq::<char>::empty();
                assert forall|text: Seq<char>| plain + text + plain =~= text by {}
            }
        }
        p
    }

    /// The diagnostic with the painted fragments `p`.
    pub fn layout(&self, p: &Painted) -> (s: String)
        ensures
            s@ == layout(self.error@, p@),
    {
        let rest = chars_of(self.error.rest.as_str());
        let mut out = String::new();
        self.write_head(&mut out, p, &rest);
        let ghost upto_head = out@;
        push_repeated(&mut out, p.caret.as_str(), size_of(self.error.kind, &rest));
        out.append(" ");
        let ghost upto_carets = out@;
        self.write_message(&mut out, p, &rest);
        out.append(" ");
        out.append(p.bar.as_str());
        out.append("\n");
        let ghost upto_bar = out@;
        self.write_tail(&mut out, p, &rest);
        proof {
            let err = self.error@;
            assert(error_size(err) == error_size(
                ParseErrorView { rest: err.rest, kind: err.kind, context: None, top: None },
            ));
            assert(out@ =~= layout(err, p@));
        }
        out
    }

    /// Appends the lines above the carets and the start of their line.
    fn write_head(&self, out: &mut String, p: &Painted, rest: &Vec<char>)
        requires
            rest@ == self.error@.rest,
        ensures
            final(out)@ == old(out)@ + head(self.error@, p@),
    {
        out.append(p.error_word.as_str());
        match &self.error.context {
            Some(frame) => {
                out.append(": unable to parse ");
                out.append(rule_str(frame.rule));
                out.append("\n");
                out.append(" ");
                out.append(p.bar.as_str());
                out.append("\n");
                out.append(" ");
                out.append(p.bar.as_str());
                out.append("    ");
                out.append(frame.rest.as_str());
                out.append("\n");
                out.append(" ");
                out.append(p.bar.as_str());
                out.append("    ");
                let ghost before = out@;
                let input = chars_of(frame.rest.as_str());
                match rfind_chars(&input, rest) {
                    Some(i) => push_repeated(out, " ", i),
                    None => {
                        assert(out@ =~= before + Seq::<char>::empty());
                    },
                }
            },
            None => {
                out.append(": unable to parse\n");
                out.append(" ");
                out.append(p.bar.as_str());
                out.append("    \n");
                out.append(" ");
                out.append(p.bar.as_str());
                out.append("    ");
                out.append(self.error.rest.as_str());
                out.append("\n");
                out.append(" ");
                out.append(p.bar.as_str());
                out.append("    ");
            },
        }
        assert(out@ =~= old(out)@ + head(self.error@, p@));
    }

    /// Appends the message for the kind of the failure.
    fn write_message(&self, out: &mut String, p: &Painted, rest: &Vec<char>)
        requires
            rest@ == self.error@.rest,
        ensures
            final(out)@ == old(out)@ + message(self.error@, p@),
    {
        match self.error.kind {
            ParseErrorKind::UnclosedString => {
                out.append("missing closing quote (");
                out.append(p.first.as_str());
                out.append(")\n");
            },
            ParseErrorKind::MissingDelimiter(_) => {
                out.append("reached end without finding matching ");
                out.append(p.first.as_str());
                out.append("\n");
            },
            ParseErrorKind::MissingChar(_) => {
                out.append("expected \"");
                out.append(p.first.as_str());
                out.append("\" here, found \"");
                out.append(p.second.as_str());
                out.append("\"\n");
            },
            ParseErrorKind::UnrecognizedName | ParseErrorKind::Other(OtherKind::Eof) => {
                let closing = rest.len() > 0 && (rest[0] == ']' || rest[0] == ')' || rest[0]
                    == '>' || rest[0] == '}');
                assert(closing == closes(found(rest@)));
                if closing {
                    out.append("improper close delimiter\n");
                } else {
                    out.append("not recognized as a valid expression\n");
                }
            },
            ParseErrorKind::UnrecognizedStyle => {
                out.append("found \"");
                out.append(p.first.as_str());
                out.append("\" which is not a style\n");
            },
            ParseErrorKind::InvalidRGB => {
                out.append("RGB must be in the form \"");
                out.append(p.first.as_str());
                out.append("\"\n");
            },
            ParseErrorKind::Other(kind) => {
                let name = debug_other(kind);
                out.append(name.as_str());
                out.append("\n");
            },
        }
        assert(out@ =~= old(out)@ + message(self.error@, p@));
    }

    /// Appends the last line, if the failure happened in a rule.
    fn write_tail(&self, out: &mut String, p: &Painted, rest: &Vec<char>)
        requires
            rest@ == self.error@.rest,
        ensures
            final(out)@ == old(out)@ + tail(self.error@, p@),
    {
        let rule = match &self.error.top {
            Some(frame) => frame.rule,
            None => {
                assert(out@ =~= old(out)@ + Seq::<char>::empty());
                return ;
            },
        };
        match self.trace(rest) {
            Some((_, inner, _, _)) => {
                out.append(" = in ");
                out.append(rule_str(rule));
                out.append(": ");
                out.append(p.pre.as_str());
                out.append(inner.as_str());
                out.append(p.er.as_str());
                out.append(p.post.as_str());
                assert(out@ =~= old(out)@ + tail(self.error@, p@));
            },
            None => {
                assert(out@ =~= old(out)@ + Seq::<char>::empty());
            },
        }
    }

    /// The diagnostic: the layout of the failure with its fragments
    /// painted. Without colour the fragments are left as they are.
    pub fn pretty_print(&self) -> (s: String)
        ensures
            exists|p: Fragments| #[trigger]
                paints(raw(self.error@), p, self.use_color) && s@ == layout(self.error@, p),
            !self.use_color ==> s@ == layout(self.error@, raw(self.error@)),
    {
        let p = self.painted();
        let s = self.layout(&p);
        assert(paints(raw(self.error@), p@, self.use_color) && s@ == layout(self.error@, p@));
        s
    }
}

} // verus!
