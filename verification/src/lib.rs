//! A small expression language for printing the status of a git
//! repository: a format string is parsed into a tree of expressions, and
//! the tree is printed from a snapshot of the repository.
//!
//! A format such as `<b\(+-)>[MARD':'maud]{h('@')}` may print
//! `<master(+1)>[M1:D3]{@5}`: names stand for the fields of the snapshot,
//! groups wrap what they hold in brackets, formats style it, and whatever
//! has nothing to show leaves no trace, its brackets, styles and
//! separators included.

pub mod ast;
pub mod color;
pub mod git;
pub mod interpreter;
pub mod parser;
pub mod text;

pub use git::Stats;

use vstd::prelude::*;

verus! {

/// Why a format was not printed, or not to its end.
#[derive(Debug)]
pub enum Error {
    /// The evaluation stopped; what it wrote before is written.
    InterpreterError(interpreter::InterpreterErr),
    /// The format string was rejected; nothing is written.
    ParseError(parser::ParseError),
}

impl From<interpreter::InterpreterErr> for Error {
    fn from(e: interpreter::InterpreterErr) -> (r: Error) {
        Error::InterpreterError(e)
    }
}

impl vstd::std_specs::convert::FromSpecImpl<interpreter::InterpreterErr> for Error {
    open spec fn obeys_from_spec() -> bool {
        true
    }

    open spec fn from_spec(e: interpreter::InterpreterErr) -> Error {
        Error::InterpreterError(e)
    }
}

impl From<parser::ParseError> for Error {
    fn from(e: parser::ParseError) -> (r: Error) {
        Error::ParseError(e)
    }
}

impl vstd::std_specs::convert::FromSpecImpl<parser::ParseError> for Error {
    open spec fn obeys_from_spec() -> bool {
        true
    }

    open spec fn from_spec(e: parser::ParseError) -> Error {
        Error::ParseError(e)
    }
}

/// What [`glitter`] appends to the output `out`, and how it ends: the
/// failure of the parse, located in the format, with nothing written; or
/// what the evaluation of the parsed tree writes, and why it stopped if it
/// did.
pub open spec fn rendering(
    stats: Stats,
    format: Seq<char>,
    allow_color: bool,
    bash_prompt: bool,
    out: Seq<char>,
) -> (Seq<char>, Result<(), RenderingErr>) {
    match parser::grammar::parse(format) {
        Err(fault) => (out, Err(RenderingErr::Parse(fault.located(format)))),
        Ok(tree) => {
            let (written, result) = interpreter::model::evaluate(
                tree,
                stats,
                allow_color,
                bash_prompt,
                out,
            );
            match result {
                Ok(()) => (written, Ok(())),
                Err(err) => (written, Err(RenderingErr::Interpreter(err))),
            }
        },
    }
}

/// What an [`Error`] holds, over sequences.
pub enum RenderingErr {
    Interpreter(interpreter::model::ErrView),
    Parse(parser::ParseErrorView),
}

impl View for Error {
    type V = RenderingErr;

    open spec fn view(&self) -> RenderingErr {
        match self {
            Error::InterpreterError(e) => RenderingErr::Interpreter(e@),
            Error::ParseError(e) => RenderingErr::Parse(e@),
        }
    }
}

/// What `format!` with `{:?}` makes of an interpreter's error through the
/// `Debug` that `derive` wrote for it and for the expressions in it: the
/// names of the variants and fields with their values, which depends on
/// nothing but the error.
pub uninterp spec fn debug_form(e: interpreter::model::ErrView) -> Seq<char>;

/// The form for debugging of an interpreter's error, as `format!` makes
/// it from the derived `Debug`.
#[verifier::external_body]
fn debug_interpreter_err(e: &interpreter::InterpreterErr) -> (s: String)
    ensures
        s@ == debug_form(e@),
{
    format!("{:?}", e)
}

impl Error {
    /// The error for a reader: the diagnostic of a rejected format, with
    /// colour or without, or the error of the interpreter in its form for
    /// debugging.
    pub fn pretty_print(&self, use_color: bool) -> (s: String)
        ensures
            self matches Error::InterpreterError(e) ==> s@ == debug_form(e@),
            self matches Error::ParseError(e) ==> {
                &&& exists|p: parser::pretty::Fragments| #[trigger]
                    parser::pretty::paints(parser::pretty::raw(e@), p, use_color) && s@
                        == parser::pretty::layout(e@, p)
                &&& !use_color ==> s@ == parser::pretty::layout(e@, parser::pretty::raw(e@))
            },
    {
        match self {
            Error::InterpreterError(e) => debug_interpreter_err(e),
            Error::ParseError(e) => e.pretty_print(use_color).pretty_print(),
        }
    }

    /// The error for a reader, without colour.
    pub fn to_string(&self) -> (s: String)
        ensures
            self matches Error::InterpreterError(e) ==> s@ == debug_form(e@),
            self matches Error::ParseError(e) ==> s@ == parser::pretty::layout(
                e@,
                parser::pretty::raw(e@),
            ),
    {
        self.pretty_print(false)
    }
}

/// Parses `format` and appends what it prints from `stats` to `w`.
///
/// A format that is rejected writes nothing. A format that is accepted is
/// printed until its evaluation stops, which it does only at a quote with
/// a sub-tree. Escapes are written only if `allow_color` is set, and
/// between the markers of a shell prompt only if `bash_prompt` is.
pub fn glitter(stats: Stats, format: &str, allow_color: bool, bash_prompt: bool, w: &mut String)
    -> (r: Result<(), Error>)
    ensures
        r is Ok <==> (parser::grammar::parse(format@) matches Ok(tree)
            && !interpreter::rendering::tree_stops(tree, stats)),
        r is Ok ==> final(w)@ == old(w)@ + interpreter::rendering::rendered(
            parser::grammar::parse(format@)->Ok_0,
            stats,
            allow_color,
            bash_prompt,
        ),
        final(w)@ == rendering(stats, format@, allow_color, bash_prompt, old(w)@).0,
        match r {
            Ok(()) => rendering(stats, format@, allow_color, bash_prompt, old(w)@).1 == Ok::<
                (),
                RenderingErr,
            >(()),
            Err(e) => rendering(stats, format@, allow_color, bash_prompt, old(w)@).1 == Err::<
                (),
                RenderingErr,
            >(e@),
        },
{
    let tree = match parser::parse(format) {
        Ok(tree) => tree,
        Err(e) => {
            return Err(Error::ParseError(e));
        },
    };
    let mut interpreter = interpreter::Interpreter::new(stats, allow_color, bash_prompt);
    match interpreter.evaluate(&tree, w) {
        Ok(()) => Ok(()),
        Err(e) => Err(Error::InterpreterError(e)),
    }
}

} // verus!
