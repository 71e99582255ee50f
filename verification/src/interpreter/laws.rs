//! What holds of every evaluation.

use vstd::prelude::*;
use crate::ast::{CompleteStyle, Delimiter, ExprView, Name};
use crate::git::Stats;
use crate::interpreter::model::{
    evaluate, interpret, interpret_tree, start, tree_from, value, CommandView, Env, ErrView,
    Machine, Step,
};

verus! {

/// Whether a step either printed and left the queue empty, or printed
/// nothing and left the machine `m` as it was, or stopped.
pub open spec fn committed_or_rolled_back(step: Step, m: Machine) -> bool {
    match step.result {
        Ok(true) => step.queue.len() == 0,
        Ok(false) => step.machine() == m,
        Err(_) => true,
    }
}

/// Whether the queue of `m` can be what it says in the middle of a tree:
/// separators are pending only behind an expression that printed, and
/// behind such an expression nothing else is queued.
pub open spec fn coherent(m: Machine, wrote: bool, pending: nat) -> bool {
    if wrote {
        m.queue.len() == pending
    } else {
        pending == 0
    }
}

/// Commit or roll back, for the rest of a tree: what is left of a tree
/// either prints and leaves the queue empty, or prints nothing, in which
/// case nothing before it in the tree printed and the machine is as it
/// was.
pub proof fn lemma_tree_from(
    tree: Seq<ExprView>,
    ctx: CompleteStyle,
    env: Env,
    m: Machine,
    wrote: bool,
    pending: nat,
)
    requires
        coherent(m, wrote, pending),
    ensures
        committed_or_rolled_back(tree_from(tree, ctx, env, m, wrote, pending), m),
        tree_from(tree, ctx, env, m, wrote, pending).result == Ok::<bool, ErrView>(false) ==> !wrote,
    decreases tree, 0nat,
{
    if tree.len() == 0 {
        assert(m.drain(pending).queue =~= if wrote {
            Seq::<CommandView>::empty()
        } else {
            m.queue
        });
    } else {
        let rest = tree.drop_first();
        match tree[0] {
            ExprView::Separator(s) => {
                if wrote {
                    let next = m.push(CommandView::Text(seq![s.glyph()]));
                    lemma_tree_from(rest, ctx, env, next, wrote, pending + 1);
                } else {
                    lemma_tree_from(rest, ctx, env, m, wrote, pending);
                }
            },
            e => {
                lemma_interpret(e, ctx, env, m);
                let step = interpret(e, ctx, env, m);
                match step.result {
                    Err(_) => {},
                    Ok(true) => {
                        lemma_tree_from(rest, ctx, env, step.machine(), true, 0);
                    },
                    Ok(false) => {
                        let next = step.machine().drain(pending);
                        assert(next.queue =~= if wrote {
                            Seq::<CommandView>::empty()
                        } else {
                            m.queue
                        });
                        lemma_tree_from(rest, ctx, env, next, wrote, 0);
                    },
                }
            },
        }
    }
}

/// Commit or roll back, for a tree.
pub proof fn lemma_interpret_tree(tree: Seq<ExprView>, ctx: CompleteStyle, env: Env, m: Machine)
    ensures
        committed_or_rolled_back(interpret_tree(tree, ctx, env, m), m),
    decreases tree, 1nat,
{
    lemma_tree_from(tree, ctx, env, m, false, 0);
}

/// Commit or roll back, for an expression: it either prints, and then
/// everything that was queued before it has been written, or it prints
/// nothing, and then neither the output nor the queue has changed.
pub proof fn lemma_interpret(e: ExprView, ctx: CompleteStyle, env: Env, m: Machine)
    ensures
        committed_or_rolled_back(interpret(e, ctx, env, m), m),
    decreases e, 3nat,
{
    match e {
        ExprView::Literal(_) => {},
        ExprView::Named { name: Name::Quote, sub } => {},
        ExprView::Named { name, sub } => {
            let flushed = m.flush(env.bash_prompt);
            if value(env.stats, name).len() != 0 && sub.len() != 0 {
                lemma_interpret_tree(sub, ctx, env, flushed);
            }
        },
        ExprView::Group { d, sub } => {
            if sub.len() != 0 {
                let start = m.push(CommandView::Text(seq![d.left_glyph()]));
                lemma_interpret_tree(sub, ctx, env, start);
                assert(start.roll_back(m.queue.len()).queue =~= m.queue);
            }
        },
        ExprView::Format { style, sub } => {
            let inside = ctx.combine(style);
            if env.allow_color {
                let start = m.push(CommandView::Context(inside));
                lemma_interpret_tree(sub, inside, env, start);
                assert(start.roll_back(m.queue.len()).queue =~= m.queue);
            } else {
                lemma_interpret_tree(sub, inside, env, m);
            }
        },
        ExprView::Separator(_) => {},
    }
}

/// Elision: an evaluation whose tree prints nothing writes nothing, with
/// or without colour, and ends well.
pub proof fn lemma_elision(
    tree: Seq<ExprView>,
    stats: Stats,
    allow_color: bool,
    bash_prompt: bool,
    out: Seq<char>,
)
    requires
        interpret_tree(
            tree,
            CompleteStyle::plain(),
            Env { stats, allow_color, bash_prompt },
            start(allow_color, bash_prompt, out),
        ).result == Ok::<bool, ErrView>(false),
    ensures
        evaluate(tree, stats, allow_color, bash_prompt, out) == (out, Ok::<(), ErrView>(())),
{
    lemma_interpret_tree(
        tree,
        CompleteStyle::plain(),
        Env { stats, allow_color, bash_prompt },
        start(allow_color, bash_prompt, out),
    );
}

/// A name by itself, other than the quote, prints nothing from an empty
/// snapshot.
pub proof fn lemma_empty_stats_empty_result(
    name: Name,
    stats: Stats,
    allow_color: bool,
    bash_prompt: bool,
    out: Seq<char>,
)
    requires
        name != Name::Quote,
        stats.is_empty(),
    ensures
        evaluate(
            seq![ExprView::Named { name, sub: Seq::empty() }],
            stats,
            allow_color,
            bash_prompt,
            out,
        ) == (out, Ok::<(), ErrView>(())),
{
    lemma_lone_name(
        name,
        Env { stats, allow_color, bash_prompt },
        CompleteStyle::plain(),
        start(allow_color, bash_prompt, out),
    );
}

/// A tree of one name without a value prints nothing and leaves the
/// machine as it was.
pub proof fn lemma_lone_name(name: Name, env: Env, ctx: CompleteStyle, m: Machine)
    requires
        name != Name::Quote,
        env.stats.is_empty(),
    ensures
        interpret_tree(seq![ExprView::Named { name, sub: Seq::empty() }], ctx, env, m)
            == m.idle(),
{
    let e = ExprView::Named { name, sub: Seq::empty() };
    let tree = seq![e];
    assert(tree[0] == e);
    assert(value(env.stats, name).len() == 0);
    assert(interpret(e, ctx, env, m) == m.idle());
    let rest = tree.drop_first();
    assert(rest.len() == 0);
    assert(m.drain(0).queue =~= m.queue);
    assert(tree_from(rest, ctx, env, m.drain(0), false, 0) == m.idle());
    reveal_with_fuel(tree_from, 2);
}

/// A group around a name without a value, other than the quote, prints
/// nothing from an empty snapshot, whatever its brackets.
pub proof fn lemma_empty_group_empty_result(
    d: Delimiter,
    name: Name,
    stats: Stats,
    allow_color: bool,
    bash_prompt: bool,
    out: Seq<char>,
)
    requires
        name != Name::Quote,
        stats.is_empty(),
    ensures
        evaluate(
            seq![ExprView::Group { d, sub: seq![ExprView::Named { name, sub: Seq::empty() }] }],
            stats,
            allow_color,
            bash_prompt,
            out,
        ) == (out, Ok::<(), ErrView>(())),
{
    let env = Env { stats, allow_color, bash_prompt };
    let ctx = CompleteStyle::plain();
    let m = start(allow_color, bash_prompt, out);
    let sub = seq![ExprView::Named { name, sub: Seq::empty() }];
    let e = ExprView::Group { d, sub };
    let pushed = m.push(CommandView::Text(seq![d.left_glyph()]));
    lemma_lone_name(name, env, ctx, pushed);
    assert(pushed.roll_back(m.queue.len()).queue =~= m.queue);
    assert(interpret(e, ctx, env, m) == m.idle());
    lemma_lone_idle(e, ctx, env, m);
}

/// A tree of one expression that prints nothing prints nothing and
/// leaves the machine as it was.
pub proof fn lemma_lone_idle(e: ExprView, ctx: CompleteStyle, env: Env, m: Machine)
    requires
        !(e is Separator),
        interpret(e, ctx, env, m) == m.idle(),
    ensures
        interpret_tree(seq![e], ctx, env, m) == m.idle(),
{
    let tree = seq![e];
    assert(tree[0] == e);
    let rest = tree.drop_first();
    assert(rest.len() == 0);
    assert(m.drain(0).queue =~= m.queue);
    assert(tree_from(rest, ctx, env, m.drain(0), false, 0) == m.idle());
    reveal_with_fuel(tree_from, 2);
}

/// A format around a name without a value, other than the quote, prints
/// nothing from an empty snapshot, with colour, whatever its style and
/// with or without the markers of a shell prompt.
pub proof fn lemma_empty_format_empty_result(
    style: CompleteStyle,
    name: Name,
    stats: Stats,
    bash_prompt: bool,
    out: Seq<char>,
)
    requires
        name != Name::Quote,
        stats.is_empty(),
    ensures
        evaluate(
            seq![
                ExprView::Format { style, sub: seq![ExprView::Named { name, sub: Seq::empty() }] },
            ],
            stats,
            true,
            bash_prompt,
            out,
        ) == (out, Ok::<(), ErrView>(())),
{
    let env = Env { stats, allow_color: true, bash_prompt };
    let ctx = CompleteStyle::plain();
    let m = start(true, bash_prompt, out);
    let sub = seq![ExprView::Named { name, sub: Seq::empty() }];
    let e = ExprView::Format { style, sub };
    let inside = ctx.combine(style);
    let pushed = m.push(CommandView::Context(inside));
    lemma_lone_name(name, env, inside, pushed);
    assert(pushed.roll_back(m.queue.len()).queue =~= m.queue);
    assert(interpret(e, ctx, env, m) == m.idle());
    lemma_lone_idle(e, ctx, env, m);
}

} // verus!
