//! The interpreter: prints a tree from a snapshot of a repository.
//!
//! An expression that has nothing to show leaves no trace: not its
//! brackets, not its style, not the separators around it. So nothing is
//! written for an expression before it is known that something in it
//! prints. The interpreter queues what may have to be written, writes the
//! queue when something prints, and takes back what it queued when
//! nothing did.
//!
//! [`rendering`] says what an evaluation prints, [`model`] how the queue
//! gets there step by step, and [`laws`] what holds of every step.

pub mod laws;
pub mod model;
pub mod rendering;

use vstd::prelude::*;
use vstd::string::StringExecFns;
use crate::ast::{CompleteStyle, ExprView, Expression, Name, Tree};
use crate::color::styled;
use crate::git::Stats;
use crate::interpreter::laws::{coherent, lemma_interpret};
use crate::interpreter::model::{CommandView, Env, ErrView, Machine, Step};
use crate::text::push_decimal;

verus! {

/// Why an evaluation stopped.
#[derive(Debug)]
pub enum InterpreterErr {
    /// An expression that takes no sub-tree was given one.
    UnexpectedArgs { exp: Expression },
}

impl View for InterpreterErr {
    type V = ErrView;

    open spec fn view(&self) -> ErrView {
        match self {
            InterpreterErr::UnexpectedArgs { exp } => ErrView::UnexpectedArgs { exp: exp@ },
        }
    }
}

/// A fragment of output that waits in the queue.
#[derive(Debug, Clone, PartialEq, Eq)]
enum WriteCommand {
    WriteContext(CompleteStyle),
    WriteStr(&'static str),
    #[allow(unused)]
    WriteString(String),
}

impl View for WriteCommand {
    type V = CommandView;

    closed spec fn view(&self) -> CommandView {
        match self {
            WriteCommand::WriteContext(style) => CommandView::Context(*style),
            WriteCommand::WriteStr(s) => CommandView::Text(s@),
            WriteCommand::WriteString(s) => CommandView::Text(s@),
        }
    }
}

/// A queue of fragments, as the model has it.
spec fn commands(queue: Seq<WriteCommand>) -> Seq<CommandView> {
    queue.map_values(|c: WriteCommand| c@)
}

/// Prints trees from one snapshot of a repository.
#[derive(Debug, PartialEq, Eq, Clone)]
pub struct Interpreter {
    stats: Stats,
    allow_color: bool,
    bash_prompt: bool,
    command_queue: Vec<WriteCommand>,
}

/// A count as it is printed: nothing for zero.
fn count_string(n: u16) -> (s: String)
    ensures
        s@ == model::count_text(n),
{
    let mut s = String::new();
    if n != 0 {
        push_decimal(&mut s, n as u32);
        assert(s@ =~= model::count_text(n));
    }
    s
}

/// What a name prints before its value.
fn prefix_of(name: Name) -> (s: &'static str)
    ensures
        s@ == model::prefix(name),
{
    proof {
        reveal_strlit("");
        reveal_strlit("+");
        reveal_strlit("-");
        reveal_strlit("U");
        reveal_strlit("A");
        reveal_strlit("?");
        reveal_strlit("M");
        reveal_strlit("D");
        reveal_strlit("R");
        reveal_strlit("H");
    }
    let s = match name {
        Name::Branch => "",
        Name::Remote => "",
        Name::Ahead => "+",
        Name::Behind => "-",
        Name::Conflict => "U",
        Name::Added => "A",
        Name::Untracked => "?",
        Name::Modified => "M",
        Name::Unstaged => "M",
        Name::Deleted => "D",
        Name::DeletedStaged => "D",
        Name::Renamed => "R",
        Name::Stashed => "H",
        Name::Quote => "",
    };
    assert(s@ =~= model::prefix(name));
    s
}

/// The escape that resets every attribute, as it is written.
fn reset_str(bash_prompt: bool) -> (s: &'static str)
    ensures
        s@ == styled(CompleteStyle::plain(), bash_prompt),
{
    proof {
        reveal_strlit("\u{01}\x1B[0m\u{02}");
        reveal_strlit("\x1B[0m");
    }
    let s = if bash_prompt {
        "\u{01}\x1B[0m\u{02}"
    } else {
        "\x1B[0m"
    };
    assert(s@ =~= styled(CompleteStyle::plain(), bash_prompt));
    s
}

impl Interpreter {
    /// The snapshot that is printed from.
    pub closed spec fn stats(&self) -> Stats {
        self.stats
    }

    /// Whether escapes are written at all.
    pub closed spec fn allow_color(&self) -> bool {
        self.allow_color
    }

    /// Whether escapes are written between the markers of a shell prompt.
    pub closed spec fn bash_prompt(&self) -> bool {
        self.bash_prompt
    }

    /// The queue, oldest fragment first.
    pub closed spec fn queue(&self) -> Seq<CommandView> {
        commands(self.command_queue@)
    }

    /// What an evaluation reads.
    pub closed spec fn env(&self) -> Env {
        Env { stats: self.stats, allow_color: self.allow_color, bash_prompt: self.bash_prompt }
    }

    /// The machine that this interpreter and the output `out` make.
    pub closed spec fn machine(&self, out: Seq<char>) -> Machine {
        Machine { queue: self.queue(), out }
    }

    /// Whether `self` prints from the same snapshot in the same way as
    /// `other`.
    pub closed spec fn configured_as(&self, other: &Interpreter) -> bool {
        &&& self.stats == other.stats
        &&& self.allow_color == other.allow_color
        &&& self.bash_prompt == other.bash_prompt
    }

    /// The step that led to this interpreter, the output `out` and the
    /// result `r`.
    pub closed spec fn step(&self, out: Seq<char>, r: Result<bool, InterpreterErr>) -> Step {
        Step {
            queue: self.queue(),
            out,
            result: match r {
                Ok(wrote) => Ok(wrote),
                Err(e) => Err(e@),
            },
        }
    }

    /// An interpreter that prints from `stats`.
    pub fn new(stats: Stats, allow_color: bool, bash_prompt: bool) -> (r: Interpreter)
        ensures
            r.stats() == stats,
            r.allow_color() == allow_color,
            r.bash_prompt() == bash_prompt,
            r.queue().len() == 0,
    {
        Interpreter { stats, allow_color, bash_prompt, command_queue: Vec::with_capacity(32) }
    }

    /// Takes the last `i` fragments off the queue.
    fn drain_queue(&mut self, i: usize)
        requires
            i <= old(self).queue().len(),
        ensures
            final(self).configured_as(old(self)),
            final(self).queue() == model::drain(old(self).queue(), i as nat),
    {
        let len = self.command_queue.len();
        self.command_queue.truncate(len - i);
        assert(self.queue() =~= model::drain(old(self).queue(), i as nat));
    }

    /// Cuts the queue back to `len` fragments.
    fn roll_back(&mut self, len: usize)
        ensures
            final(self).configured_as(old(self)),
            final(self).queue() == model::roll_back(old(self).queue(), len as nat),
    {
        while self.command_queue.len() > len
            invariant
                self.configured_as(old(self)),
                self.command_queue@.len() <= old(self).command_queue@.len(),
                self.command_queue@.len() >= len || self.command_queue@.len() == old(
                    self,
                ).command_queue@.len(),
                self.command_queue@ =~= old(self).command_queue@.take(
                    self.command_queue@.len() as int,
                ),
            decreases self.command_queue.len(),
        {
            self.command_queue.pop();
        }
        assert(self.queue() =~= model::roll_back(old(self).queue(), len as nat));
    }

    /// Queues one fragment.
    fn push(&mut self, command: WriteCommand)
        ensures
            final(self).configured_as(old(self)),
            final(self).queue() == old(self).queue().push(command@),
            final(self).command_queue@.len() == old(self).command_queue@.len() + 1,
    {
        self.command_queue.push(command);
        assert(self.queue() =~= old(self).queue().push(command@));
    }

    /// Evaluates `exps` and appends what it prints to `w`.
    ///
    /// The evaluation stops where it gets to a quote with a sub-tree, and
    /// nowhere else. If it does not stop, it appends what the expressions
    /// that print write, with their brackets, styles and separators. If it
    /// stops, what was written before stays in `w`. The queue is empty
    /// afterwards either way.
    ///
    /// An interpreter without colour writes no escape: a format is then
    /// its sub-tree and nothing more.
    pub fn evaluate(&mut self, exps: &Tree, w: &mut String) -> (r: Result<(), InterpreterErr>)
        ensures
            final(self).stats() == old(self).stats(),
            final(self).allow_color() == old(self).allow_color(),
            final(self).bash_prompt() == old(self).bash_prompt(),
            final(self).queue().len() == 0,
            r is Ok <==> !rendering::tree_stops(exps@, old(self).stats()),
            r is Ok ==> final(w)@ == old(w)@ + rendering::rendered(
                exps@,
                old(self).stats(),
                old(self).allow_color(),
                old(self).bash_prompt(),
            ),
            final(w)@ == model::evaluate(
                exps@,
                old(self).stats(),
                old(self).allow_color(),
                old(self).bash_prompt(),
                old(w)@,
            ).0,
            match r {
                Ok(()) => model::evaluate(
                    exps@,
                    old(self).stats(),
                    old(self).allow_color(),
                    old(self).bash_prompt(),
                    old(w)@,
                ).1 == Ok::<(), ErrView>(()),
                Err(e) => model::evaluate(
                    exps@,
                    old(self).stats(),
                    old(self).allow_color(),
                    old(self).bash_prompt(),
                    old(w)@,
                ).1 == Err::<(), ErrView>(e@),
            },
    {
        proof {
            rendering::lemma_evaluate_stops(
                exps@,
                self.stats,
                self.allow_color,
                self.bash_prompt,
                w@,
            );
            if !rendering::tree_stops(exps@, self.stats) {
                rendering::lemma_evaluate(
                    exps@,
                    self.stats,
                    self.allow_color,
                    self.bash_prompt,
                    w@,
                );
            }
        }
        self.command_queue.clear();
        let reset = reset_str(self.bash_prompt);
        if self.allow_color {
            self.push(WriteCommand::WriteStr(reset));
        }
        assert(self.queue() =~= if self.allow_color {
            seq![CommandView::Text(reset@)]
        } else {
            Seq::<CommandView>::empty()
        });
        let result = self.interpret_tree(w, exps, CompleteStyle::default());
        self.command_queue.clear();
        match result {
            Ok(wrote) => {
                if wrote && self.allow_color {
                    w.append(reset);
                }
                Ok(())
            },
            Err(e) => Err(e),
        }
    }

    /// Writes the queue, oldest fragment first, and empties it.
    fn write_queue(&mut self, w: &mut String)
        ensures
            final(self).configured_as(old(self)),
            final(self).machine(final(w)@) == old(self).machine(old(w)@).flush(
                old(self).bash_prompt,
            ),
    {
        let mut i: usize = 0;
        while i < self.command_queue.len()
            invariant
                i <= self.command_queue.len(),
                *self == *old(self),
                w@ == old(w)@ + model::queue_text(self.queue().take(i as int), self.bash_prompt),
            decreases self.command_queue.len() - i,
        {
            let ghost before = w@;
            match &self.command_queue[i] {
                WriteCommand::WriteString(s) => w.append(s.as_str()),
                WriteCommand::WriteContext(c) => c.write_to(w, self.bash_prompt),
                WriteCommand::WriteStr(s) => w.append(s),
            }
            proof {
                let next = self.queue().take(i + 1);
                assert(next.drop_last() =~= self.queue().take(i as int));
                assert(next.last() == self.command_queue@[i as int]@);
                assert(w@ == before + model::command_text(next.last(), self.bash_prompt));
                assert(w@ =~= old(w)@ + model::queue_text(next, self.bash_prompt));
            }
            i += 1;
        }
        assert(self.queue().take(i as int) =~= self.queue());
        self.command_queue.clear();
        assert(self.queue() =~= Seq::<CommandView>::empty());
    }

    /// Evaluates the expressions of `exps` from left to right.
    fn interpret_tree(&mut self, w: &mut String, exps: &Tree, context: CompleteStyle) -> (r: Result<
        bool,
        InterpreterErr,
    >)
        ensures
            final(self).configured_as(old(self)),
            final(self).step(final(w)@, r) == model::interpret_tree(
                exps@,
                context,
                old(self).env(),
                old(self).machine(old(w)@),
            ),
        decreases exps, 0nat,
    {
        let ghost env = self.env();
        let ghost whole = model::interpret_tree(exps@, context, env, self.machine(w@));
        let mut wrote = false;
        let mut separator_count: usize = 0;
        let mut i: usize = 0;
        assert(exps@.skip(0) =~= exps@);
        while i < exps.0.len()
            invariant
                i <= exps.0.len(),
                self.configured_as(old(self)),
                env == old(self).env(),
                coherent(self.machine(w@), wrote, separator_count as nat),
                whole == model::interpret_tree(exps@, context, env, old(self).machine(old(w)@)),
                whole == model::tree_from(
                    exps@.skip(i as int),
                    context,
                    env,
                    self.machine(w@),
                    wrote,
                    separator_count as nat,
                ),
            decreases exps.0.len() - i,
        {
            proof {
                let rest = exps@.skip(i as int);
                assert(rest[0] == exps@[i as int]);
                assert(rest.drop_first() =~= exps@.skip(i + 1));
                assert(exps@[i as int] == exps.0[i as int]@);
            }
            match &exps.0[i] {
                Expression::Separator(s) => {
                    if wrote {
                        self.push(WriteCommand::WriteStr(s.as_str()));
                        // Behind an expression that printed, the queue
                        // holds the pending separators and nothing else.
                        separator_count = self.command_queue.len();
                    }
                },
                e => {
                    proof {
                        lemma_interpret(e@, context, env, self.machine(w@));
                    }
                    let wrote_now = match self.interpret(w, e, context) {
                        Ok(wrote_now) => wrote_now,
                        Err(err) => {
                            return Err(err);
                        },
                    };
                    if !wrote_now {
                        self.drain_queue(separator_count);
                    }
                    separator_count = 0;
                    wrote = wrote || wrote_now;
                },
            }
            i += 1;
        }
        self.drain_queue(separator_count);
        Ok(wrote)
    }

    /// Evaluates one expression that is no separator.
    fn interpret(&mut self, w: &mut String, exp: &Expression, ctx: CompleteStyle) -> (r: Result<
        bool,
        InterpreterErr,
    >)
        requires
            !(exp is Separator),
        ensures
            final(self).configured_as(old(self)),
            final(self).step(final(w)@, r) == model::interpret(
                exp@,
                ctx,
                old(self).env(),
                old(self).machine(old(w)@),
            ),
        decreases exp, 3nat,
    {
        match exp {
            Expression::Named { name, sub } => self.interpret_named(w, *name, sub, ctx),
            Expression::Group { d, sub } => {
                if sub.0.len() > 0 {
                    let len = self.command_queue.len();
                    self.push(WriteCommand::WriteStr(d.left()));
                    match self.interpret_tree(w, sub, ctx) {
                        Ok(true) => {
                            w.append(d.right());
                            Ok(true)
                        },
                        Ok(false) => {
                            self.roll_back(len);
                            Ok(false)
                        },
                        Err(e) => Err(e),
                    }
                } else {
                    Ok(false)
                }
            },
            Expression::Literal(literal) => {
                self.write_queue(w);
                w.append(literal.as_str());
                Ok(true)
            },
            Expression::Format { style, sub } => self.interpret_format(w, *style, sub, ctx),
            Expression::Separator(_) => Ok(false),
        }
    }

    /// Evaluates a name whose value is `val`.
    fn optional_prefix(
        &mut self,
        w: &mut String,
        sub: &Tree,
        name: Ghost<Name>,
        val: String,
        prefix: &'static str,
        ctx: CompleteStyle,
    ) -> (r: Result<bool, InterpreterErr>)
        requires
            val@ == model::value(old(self).stats(), name@),
            prefix@ == model::prefix(name@),
        ensures
            final(self).configured_as(old(self)),
            final(self).step(final(w)@, r) == model::named(
                name@,
                sub@,
                ctx,
                old(self).env(),
                old(self).machine(old(w)@),
            ),
        decreases sub, 1nat,
    {
        if val.as_str().is_empty() {
            return Ok(false);
        }
        self.write_queue(w);
        if sub.0.len() == 0 {
            let ghost before = w@;
            w.append(prefix);
            w.append(val.as_str());
            assert(w@ =~= before + (prefix@ + val@));
        } else {
            let wrote = match self.interpret_tree(w, sub, ctx) {
                Ok(wrote) => wrote,
                Err(e) => {
                    return Err(e);
                },
            };
            let ghost before = w@;
            if wrote {
                w.append(val.as_str());
            } else {
                w.append(prefix);
                w.append(val.as_str());
                assert(w@ =~= before + (prefix@ + val@));
            }
        }
        Ok(true)
    }

    /// Evaluates the quote, which takes no sub-tree.
    fn interpret_literal(
        &mut self,
        w: &mut String,
        sub: &Tree,
        literal: &'static str,
        context: CompleteStyle,
    ) -> (r: Result<bool, InterpreterErr>)
        requires
            literal@ == seq!['\''],
        ensures
            final(self).configured_as(old(self)),
            final(self).step(final(w)@, r) == model::interpret(
                ExprView::Named { name: Name::Quote, sub: sub@ },
                context,
                old(self).env(),
                old(self).machine(old(w)@),
            ),
    {
        if sub.0.len() == 0 {
            self.write_queue(w);
            w.append(literal);
            Ok(true)
        } else {
            Err(
                InterpreterErr::UnexpectedArgs {
                    exp: Expression::Named { name: Name::Quote, sub: sub.clone() },
                },
            )
        }
    }

    /// The value of a name in the snapshot, as it is printed.
    fn value_of(&self, name: Name) -> (s: String)
        ensures
            s@ == model::value(self.stats(), name),
    {
        proof {
            reveal_strlit("'");
        }
        match name {
            Name::Branch => self.stats.branch.clone(),
            Name::Remote => self.stats.remote.clone(),
            Name::Ahead => count_string(self.stats.ahead),
            Name::Behind => count_string(self.stats.behind),
            Name::Conflict => count_string(self.stats.conflicts),
            Name::Added => count_string(self.stats.added_staged),
            Name::Untracked => count_string(self.stats.untracked),
            Name::Modified => count_string(self.stats.modified_staged),
            Name::Unstaged => count_string(self.stats.modified),
            Name::Deleted => count_string(self.stats.deleted),
            Name::DeletedStaged => count_string(self.stats.deleted_staged),
            Name::Renamed => count_string(self.stats.renamed),
            Name::Stashed => count_string(self.stats.stashes),
            Name::Quote => {
                let s = String::from_str("'");
                assert(s@ =~= seq!['\'']);
                s
            },
        }
    }

    /// Evaluates a name with its sub-tree.
    fn interpret_named(&mut self, w: &mut String, name: Name, sub: &Tree, ctx: CompleteStyle) -> (r:
        Result<bool, InterpreterErr>)
        ensures
            final(self).configured_as(old(self)),
            final(self).step(final(w)@, r) == model::interpret(
                ExprView::Named { name, sub: sub@ },
                ctx,
                old(self).env(),
                old(self).machine(old(w)@),
            ),
        decreases sub, 2nat,
    {
        match name {
            Name::Quote => {
                proof {
                    reveal_strlit("'");
                }
                let quote = "'";
                assert(quote@ =~= seq!['\'']);
                self.interpret_literal(w, sub, quote, ctx)
            },
            _ => {
                let val = self.value_of(name);
                self.optional_prefix(w, sub, Ghost(name), val, prefix_of(name), ctx)
            },
        }
    }

    /// Evaluates a format: `sub` in the style that `style` makes of the
    /// context, and without colour `sub` alone.
    fn interpret_format(
        &mut self,
        w: &mut String,
        style: CompleteStyle,
        sub: &Tree,
        context: CompleteStyle,
    ) -> (r: Result<bool, InterpreterErr>)
        ensures
            final(self).configured_as(old(self)),
            final(self).step(final(w)@, r) == model::format(
                style,
                sub@,
                context,
                old(self).env(),
                old(self).machine(old(w)@),
            ),
        decreases sub, 2nat,
    {
        let prev = context;
        let len = self.command_queue.len();
        let mut context = context;
        context.add_assign(style);
        if !self.allow_color {
            return self.interpret_tree(w, sub, context);
        }
        self.push(WriteCommand::WriteContext(context));
        match self.interpret_tree(w, sub, context) {
            Ok(true) => {
                prev.write_difference(w, &context, self.bash_prompt);
                Ok(true)
            },
            Ok(false) => {
                self.roll_back(len);
                Ok(false)
            },
            Err(e) => Err(e),
        }
    }
}

impl Default for Interpreter {
    fn default() -> (r: Interpreter)
        ensures
            r.stats().is_empty(),
            !r.allow_color(),
            !r.bash_prompt(),
            r.queue().len() == 0,
    {
        Interpreter::new(Stats::default(), false, false)
    }
}

} // verus!
