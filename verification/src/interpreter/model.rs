//! What the interpreter does, as functions on a machine with two parts:
//! the output written so far, and a queue of fragments that are written
//! only if something printable follows them.
//!
//! Brackets, styles and separators are queued. An expression that prints
//! first writes the whole queue, oldest fragment first, and then itself.
//! An expression that prints nothing leaves the machine as it found it.

use vstd::prelude::*;
use crate::ast::{CompleteStyle, ExprView, Name};
use crate::color::{styled, transition};
use crate::git::Stats;
use crate::text::decimal;

verus! {

/// A queued fragment: a style to switch on, or text.
pub enum CommandView {
    Context(CompleteStyle),
    Text(Seq<char>),
}

/// The state of an evaluation: the queue, oldest fragment first, and the
/// output.
pub struct Machine {
    pub queue: Seq<CommandView>,
    pub out: Seq<char>,
}

/// What an evaluation reads and does not change.
pub struct Env {
    pub stats: Stats,
    /// Whether escapes are written at all.
    pub allow_color: bool,
    pub bash_prompt: bool,
}

/// Why an evaluation stopped: an expression that takes no sub-tree was
/// given one.
pub enum ErrView {
    UnexpectedArgs { exp: ExprView },
}

/// A machine after a step, and what the step says: whether it printed
/// anything, or why it stopped.
pub struct Step {
    pub queue: Seq<CommandView>,
    pub out: Seq<char>,
    pub result: Result<bool, ErrView>,
}

impl Step {
    /// The machine after the step.
    pub open spec fn machine(self) -> Machine {
        Machine { queue: self.queue, out: self.out }
    }
}

impl Machine {
    /// The step that leaves this machine as it is and prints nothing.
    pub open spec fn idle(self) -> Step {
        Step { queue: self.queue, out: self.out, result: Ok(false) }
    }

    /// The step that stops on this machine.
    pub open spec fn stop(self, err: ErrView) -> Step {
        Step { queue: self.queue, out: self.out, result: Err(err) }
    }

    /// The machine with one more fragment at the end of the queue.
    pub open spec fn push(self, command: CommandView) -> Machine {
        Machine { queue: self.queue.push(command), out: self.out }
    }

    /// The machine after the queue was written.
    pub open spec fn flush(self, bash_prompt: bool) -> Machine {
        Machine { queue: Seq::empty(), out: self.out + queue_text(self.queue, bash_prompt) }
    }

    /// The machine after `text` was written.
    pub open spec fn write(self, text: Seq<char>) -> Machine {
        Machine { queue: self.queue, out: self.out + text }
    }

    /// The step that printed on this machine.
    pub open spec fn wrote(self) -> Step {
        Step { queue: self.queue, out: self.out, result: Ok(true) }
    }

    /// The machine without the last `n` fragments of the queue.
    pub open spec fn drain(self, n: nat) -> Machine {
        Machine { queue: drain(self.queue, n), out: self.out }
    }

    /// The machine with the queue cut back to `len` fragments.
    pub open spec fn roll_back(self, len: nat) -> Machine {
        Machine { queue: roll_back(self.queue, len), out: self.out }
    }
}

/// A fragment as it is written.
pub open spec fn command_text(command: CommandView, bash_prompt: bool) -> Seq<char> {
    match command {
        CommandView::Context(style) => styled(style, bash_prompt),
        CommandView::Text(text) => text,
    }
}

/// A queue as it is written: its fragments, oldest first.
pub open spec fn queue_text(queue: Seq<CommandView>, bash_prompt: bool) -> Seq<char>
    decreases queue.len(),
{
    if queue.len() == 0 {
        Seq::empty()
    } else {
        queue_text(queue.drop_last(), bash_prompt) + command_text(queue.last(), bash_prompt)
    }
}

/// `queue` without its last `n` fragments.
pub open spec fn drain(queue: Seq<CommandView>, n: nat) -> Seq<CommandView> {
    if n <= queue.len() {
        queue.take(queue.len() - n)
    } else {
        queue
    }
}

/// `queue` cut back to `len` fragments, if it is longer.
pub open spec fn roll_back(queue: Seq<CommandView>, len: nat) -> Seq<CommandView> {
    if queue.len() > len {
        queue.take(len as int)
    } else {
        queue
    }
}

/// A count as it is printed: nothing for zero.
pub open spec fn count_text(n: u16) -> Seq<char> {
    if n == 0 {
        Seq::empty()
    } else {
        decimal(n as nat)
    }
}

/// What a name prints: the field of `stats` that it stands for. A name
/// whose value is empty prints nothing at all.
pub open spec fn value(stats: Stats, name: Name) -> Seq<char> {
    match name {
        Name::Branch => stats.branch@,
        Name::Remote => stats.remote@,
        Name::Ahead => count_text(stats.ahead),
        Name::Behind => count_text(stats.behind),
        Name::Conflict => count_text(stats.conflicts),
        Name::Added => count_text(stats.added_staged),
        Name::Untracked => count_text(stats.untracked),
        Name::Modified => count_text(stats.modified_staged),
        Name::Unstaged => count_text(stats.modified),
        Name::Deleted => count_text(stats.deleted),
        Name::DeletedStaged => count_text(stats.deleted_staged),
        Name::Renamed => count_text(stats.renamed),
        Name::Stashed => count_text(stats.stashes),
        Name::Quote => seq!['\''],
    }
}

/// What a name prints before its value, unless its sub-tree prints
/// something.
pub open spec fn prefix(name: Name) -> Seq<char> {
    match name {
        Name::Branch => Seq::empty(),
        Name::Remote => Seq::empty(),
        Name::Ahead => seq!['+'],
        Name::Behind => seq!['-'],
        Name::Conflict => seq!['U'],
        Name::Added => seq!['A'],
        Name::Untracked => seq!['?'],
        Name::Modified => seq!['M'],
        Name::Unstaged => seq!['M'],
        Name::Deleted => seq!['D'],
        Name::DeletedStaged => seq!['D'],
        Name::Renamed => seq!['R'],
        Name::Stashed => seq!['H'],
        Name::Quote => Seq::empty(),
    }
}

/// A name with a value: the queue is written; then the sub-tree is
/// evaluated, if there is one; then the value is written, behind the
/// prefix unless the sub-tree printed.
pub open spec fn named(name: Name, sub: Seq<ExprView>, ctx: CompleteStyle, env: Env, m: Machine)
    -> Step
    decreases sub, 2nat,
{
    let text = value(env.stats, name);
    let flushed = m.flush(env.bash_prompt);
    if text.len() == 0 {
        m.idle()
    } else if sub.len() == 0 {
        flushed.write(prefix(name) + text).wrote()
    } else {
        let inner = interpret_tree(sub, ctx, env, flushed);
        match inner.result {
            Err(_) => inner,
            Ok(true) => inner.machine().write(text).wrote(),
            Ok(false) => inner.machine().write(prefix(name) + text).wrote(),
        }
    }
}

/// A group: nothing for an empty sub-tree. Else the opening bracket is
/// queued and the sub-tree evaluated; if it printed, the closing bracket
/// is written, and if not, the queue is cut back to what it was.
pub open spec fn group(
    left: char,
    right: char,
    sub: Seq<ExprView>,
    ctx: CompleteStyle,
    env: Env,
    m: Machine,
) -> Step
    decreases sub, 2nat,
{
    if sub.len() == 0 {
        m.idle()
    } else {
        let inner = interpret_tree(sub, ctx, env, m.push(CommandView::Text(seq![left])));
        match inner.result {
            Err(_) => inner,
            Ok(true) => inner.machine().write(seq![right]).wrote(),
            Ok(false) => inner.machine().roll_back(m.queue.len()).idle(),
        }
    }
}

/// A format. Without colour it is its sub-tree and nothing else: no
/// style is queued and no escape is written. With colour, the style that
/// results from `style` in the context `ctx` is queued and the sub-tree
/// evaluated in it; if it printed, the way back to `ctx` is written, and
/// if not, the queue is cut back to what it was.
pub open spec fn format(
    style: CompleteStyle,
    sub: Seq<ExprView>,
    ctx: CompleteStyle,
    env: Env,
    m: Machine,
) -> Step
    decreases sub, 2nat,
{
    let inside = ctx.combine(style);
    if !env.allow_color {
        interpret_tree(sub, inside, env, m)
    } else {
        let inner = interpret_tree(sub, inside, env, m.push(CommandView::Context(inside)));
        match inner.result {
            Err(_) => inner,
            Ok(true) => inner.machine().write(transition(inside, ctx, env.bash_prompt)).wrote(),
            Ok(false) => inner.machine().roll_back(m.queue.len()).idle(),
        }
    }
}

/// One expression in the style context `ctx`. A separator by itself does
/// nothing: it has its meaning between the expressions of a tree.
pub open spec fn interpret(e: ExprView, ctx: CompleteStyle, env: Env, m: Machine) -> Step
    decreases e, 3nat,
{
    match e {
        ExprView::Literal(text) => m.flush(env.bash_prompt).write(text).wrote(),
        ExprView::Named { name: Name::Quote, sub } => if sub.len() == 0 {
            m.flush(env.bash_prompt).write(seq!['\'']).wrote()
        } else {
            m.stop(ErrView::UnexpectedArgs { exp: e })
        },
        ExprView::Named { name, sub } => named(name, sub, ctx, env, m),
        ExprView::Group { d, sub } => group(d.left_glyph(), d.right_glyph(), sub, ctx, env, m),
        ExprView::Format { style, sub } => format(style, sub, ctx, env, m),
        ExprView::Separator(_) => m.idle(),
    }
}

/// The expressions of `tree` from left to right, where `wrote` says
/// whether an earlier expression of the tree printed, and `pending` how
/// many separators were queued since.
///
/// A separator is queued if an earlier expression printed, and dropped if
/// none did. An expression that prints nothing takes the pending
/// separators off the queue; so does the end of the tree.
pub open spec fn tree_from(
    tree: Seq<ExprView>,
    ctx: CompleteStyle,
    env: Env,
    m: Machine,
    wrote: bool,
    pending: nat,
) -> Step
    decreases tree, 0nat,
{
    if tree.len() == 0 {
        Step { result: Ok(wrote), ..m.drain(pending).idle() }
    } else {
        let rest = tree.drop_first();
        match tree[0] {
            ExprView::Separator(s) => if wrote {
                tree_from(
                    rest,
                    ctx,
                    env,
                    m.push(CommandView::Text(seq![s.glyph()])),
                    wrote,
                    pending + 1,
                )
            } else {
                tree_from(rest, ctx, env, m, wrote, pending)
            },
            e => {
                let step = interpret(e, ctx, env, m);
                match step.result {
                    Err(_) => step,
                    Ok(true) => tree_from(rest, ctx, env, step.machine(), true, 0),
                    Ok(false) => tree_from(rest, ctx, env, step.machine().drain(pending), wrote, 0),
                }
            },
        }
    }
}

/// A tree in the style context `ctx`.
pub open spec fn interpret_tree(tree: Seq<ExprView>, ctx: CompleteStyle, env: Env, m: Machine)
    -> Step
    decreases tree, 1nat,
{
    tree_from(tree, ctx, env, m, false, 0)
}

/// The machine that an evaluation starts from: with colour, a reset is
/// queued.
pub open spec fn start(allow_color: bool, bash_prompt: bool, out: Seq<char>) -> Machine {
    Machine {
        queue: if allow_color {
            seq![CommandView::Text(styled(CompleteStyle::plain(), bash_prompt))]
        } else {
            Seq::empty()
        },
        out,
    }
}

/// A whole evaluation, appended to the output `out`: the output after it,
/// and why it stopped if it did.
///
/// With colour, a reset is queued before the tree and written behind it
/// if the tree printed. Without colour no escape is written.
pub open spec fn evaluate(
    tree: Seq<ExprView>,
    stats: Stats,
    allow_color: bool,
    bash_prompt: bool,
    out: Seq<char>,
) -> (Seq<char>, Result<(), ErrView>) {
    let step = interpret_tree(
        tree,
        CompleteStyle::plain(),
        Env { stats, allow_color, bash_prompt },
        start(allow_color, bash_prompt, out),
    );
    match step.result {
        Err(err) => (step.out, Err(err)),
        Ok(wrote) => (
            if wrote && allow_color {
                step.out + styled(CompleteStyle::plain(), bash_prompt)
            } else {
                step.out
            },
            Ok(()),
        ),
    }
}

} // verus!
