//! What an evaluation prints, said directly: which expressions print, and
//! what each of them prints, without a word of the queue. The queue is how
//! the interpreter gets there; [`lemma_evaluate`] shows that it does.

use vstd::prelude::*;
use crate::ast::{CompleteStyle, ExprView, Name};
use crate::color::{styled, transition};
use crate::git::Stats;
use crate::interpreter::laws::coherent;
use crate::interpreter::model::{
    command_text, evaluate, group, interpret, interpret_tree, named, prefix, queue_text, start,
    tree_from, value, CommandView, Env, Machine, Step,
};

verus! {

/// Whether an expression prints: a literal always, even an empty one; a
/// name if its value is not empty; a group and a format if something in
/// them prints; a separator never by itself.
pub open spec fn prints(e: ExprView, stats: Stats) -> bool
    decreases e, 0nat,
{
    match e {
        ExprView::Literal(_) => true,
        ExprView::Named { name, .. } => value(stats, name).len() > 0,
        ExprView::Group { sub, .. } => tree_prints(sub, stats),
        ExprView::Format { sub, .. } => tree_prints(sub, stats),
        ExprView::Separator(_) => false,
    }
}

/// Whether an expression of a tree prints.
pub open spec fn tree_prints(tree: Seq<ExprView>, stats: Stats) -> bool
    decreases tree, 1nat,
{
    tree.len() > 0 && (prints(tree[0], stats) || tree_prints(tree.drop_first(), stats))
}

/// What an expression that prints writes in the style context `ctx`: a
/// literal its text; a name its value, behind what its sub-tree prints or
/// else behind its prefix; a group what its sub-tree prints, between its
/// brackets; a format what its sub-tree prints in the style it makes of
/// the context, with colour between the escapes that switch that style on
/// and the way back to the context, and without colour with nothing around
/// it.
pub open spec fn body(e: ExprView, ctx: CompleteStyle, env: Env) -> Seq<char>
    decreases e, 0nat,
{
    match e {
        ExprView::Literal(text) => text,
        ExprView::Named { name, sub } => if tree_prints(sub, env.stats) {
            tree_body(sub, ctx, env) + value(env.stats, name)
        } else {
            prefix(name) + value(env.stats, name)
        },
        ExprView::Group { d, sub } => seq![d.left_glyph()] + tree_body(sub, ctx, env) + seq![
            d.right_glyph(),
        ],
        ExprView::Format { style, sub } => if env.allow_color {
            styled(ctx.combine(style), env.bash_prompt) + tree_body(sub, ctx.combine(style), env)
                + transition(ctx.combine(style), ctx, env.bash_prompt)
        } else {
            tree_body(sub, ctx.combine(style), env)
        },
        ExprView::Separator(_) => Seq::empty(),
    }
}

/// What the rest of a tree writes, where `wrote` says whether an earlier
/// expression of the tree printed and `pending` holds the separators that
/// stand between it and the rest.
///
/// The pending separators are written in front of the next expression if
/// that expression prints, and dropped if it does not. A separator joins
/// the pending ones if an earlier expression printed.
pub open spec fn body_from(
    tree: Seq<ExprView>,
    ctx: CompleteStyle,
    env: Env,
    wrote: bool,
    pending: Seq<char>,
) -> Seq<char>
    decreases tree, 1nat,
{
    if tree.len() == 0 {
        Seq::empty()
    } else {
        let rest = tree.drop_first();
        match tree[0] {
            ExprView::Separator(s) => body_from(
                rest,
                ctx,
                env,
                wrote,
                if wrote {
                    pending.push(s.glyph())
                } else {
                    pending
                },
            ),
            e => if prints(e, env.stats) {
                pending + body(e, ctx, env) + body_from(rest, ctx, env, true, Seq::empty())
            } else {
                body_from(rest, ctx, env, wrote, Seq::empty())
            },
        }
    }
}

/// What a tree writes in the style context `ctx`.
pub open spec fn tree_body(tree: Seq<ExprView>, ctx: CompleteStyle, env: Env) -> Seq<char>
    decreases tree, 2nat,
{
    body_from(tree, ctx, env, false, Seq::empty())
}

/// Whether the evaluation of an expression stops: at a quote with a
/// sub-tree, where the evaluation gets there. The sub-tree of a name
/// without a value is not evaluated.
pub open spec fn stops(e: ExprView, stats: Stats) -> bool
    decreases e, 0nat,
{
    match e {
        ExprView::Named { name: Name::Quote, sub } => sub.len() > 0,
        ExprView::Named { name, sub } => value(stats, name).len() > 0 && tree_stops(sub, stats),
        ExprView::Group { sub, .. } => tree_stops(sub, stats),
        ExprView::Format { sub, .. } => tree_stops(sub, stats),
        _ => false,
    }
}

/// Whether the evaluation of a tree stops: at one of its expressions.
pub open spec fn tree_stops(tree: Seq<ExprView>, stats: Stats) -> bool
    decreases tree, 1nat,
{
    tree.len() > 0 && (stops(tree[0], stats) || tree_stops(tree.drop_first(), stats))
}

/// What a whole evaluation writes: nothing if the tree prints nothing;
/// else what the tree writes, between two resets if colour is allowed.
/// Without colour no escape is written, neither around the tree nor by a
/// format in it.
pub open spec fn rendered(
    tree: Seq<ExprView>,
    stats: Stats,
    allow_color: bool,
    bash_prompt: bool,
) -> Seq<char> {
    let reset = if allow_color {
        styled(CompleteStyle::plain(), bash_prompt)
    } else {
        Seq::empty()
    };
    if tree_prints(tree, stats) {
        reset + tree_body(tree, CompleteStyle::plain(), Env { stats, allow_color, bash_prompt }) + reset
    } else {
        Seq::empty()
    }
}

/// The step of an expression that prints `text` on the machine `m`: the
/// queue is written, then `text`.
pub open spec fn commit(m: Machine, text: Seq<char>, bash_prompt: bool) -> Step {
    Step {
        queue: Seq::empty(),
        out: m.out + queue_text(m.queue, bash_prompt) + text,
        result: Ok(true),
    }
}

/// The text of a queue with one more fragment.
pub proof fn lemma_queue_text_push(queue: Seq<CommandView>, command: CommandView, bash: bool)
    ensures
        queue_text(queue.push(command), bash) == queue_text(queue, bash) + command_text(
            command,
            bash,
        ),
{
    assert(queue.push(command).drop_last() =~= queue);
}

/// Writing the queue and `a`, and then `b`, is writing the queue and
/// then `a` and `b`.
pub proof fn lemma_commit_more(m: Machine, a: Seq<char>, b: Seq<char>, bash_prompt: bool)
    ensures
        commit(m, a, bash_prompt).machine().write(b).wrote() == commit(m, a + b, bash_prompt),
{
    let queued = queue_text(m.queue, bash_prompt);
    assert(m.out + queued + a + b =~= m.out + queued + (a + b));
}

/// Writing a queue with one more fragment and `a` is writing the queue
/// and then the fragment and `a`.
pub proof fn lemma_commit_pushed(m: Machine, command: CommandView, a: Seq<char>, bash: bool)
    ensures
        commit(m.push(command), a, bash) == commit(m, command_text(command, bash) + a, bash),
{
    lemma_queue_text_push(m.queue, command, bash);
    let queued = queue_text(m.queue, bash);
    let own = command_text(command, bash);
    assert(m.out + (queued + own) + a =~= m.out + queued + (own + a));
}

/// A name other than the quote, where it does not stop.
pub proof fn lemma_named(name: Name, sub: Seq<ExprView>, ctx: CompleteStyle, env: Env, m: Machine)
    requires
        name != Name::Quote,
        named(name, sub, ctx, env, m).result is Ok,
    ensures
        named(name, sub, ctx, env, m) == if value(env.stats, name).len() > 0 {
            commit(m, body(ExprView::Named { name, sub }, ctx, env), env.bash_prompt)
        } else {
            m.idle()
        },
    decreases sub, 3nat,
{
    let bash = env.bash_prompt;
    let text = value(env.stats, name);
    let flushed = m.flush(bash);
    let none = Seq::<char>::empty();
    if text.len() != 0 {
        assert(flushed == commit(m, none, bash).machine()) by {
            assert(m.out + queue_text(m.queue, bash) + none =~= m.out + queue_text(m.queue, bash));
        }
        if sub.len() == 0 {
            assert(!tree_prints(sub, env.stats));
            lemma_commit_more(m, none, prefix(name) + text, bash);
            assert(none + (prefix(name) + text) =~= prefix(name) + text);
        } else {
            lemma_interpret_tree(sub, ctx, env, flushed);
            let inner = interpret_tree(sub, ctx, env, flushed);
            if tree_prints(sub, env.stats) {
                let printed = tree_body(sub, ctx, env);
                assert(queue_text(flushed.queue, bash) =~= none);
                assert(inner == commit(m, printed, bash)) by {
                    assert(flushed.out + none + printed =~= m.out + queue_text(m.queue, bash)
                        + printed);
                }
                lemma_commit_more(m, printed, text, bash);
            } else {
                lemma_commit_more(m, none, prefix(name) + text, bash);
                assert(none + (prefix(name) + text) =~= prefix(name) + text);
            }
        }
    }
}

/// A group, where it does not stop.
pub proof fn lemma_group(
    left: char,
    right: char,
    sub: Seq<ExprView>,
    ctx: CompleteStyle,
    env: Env,
    m: Machine,
)
    requires
        group(left, right, sub, ctx, env, m).result is Ok,
    ensures
        group(left, right, sub, ctx, env, m) == if tree_prints(sub, env.stats) {
            commit(m, seq![left] + tree_body(sub, ctx, env) + seq![right], env.bash_prompt)
        } else {
            m.idle()
        },
    decreases sub, 3nat,
{
    let bash = env.bash_prompt;
    if sub.len() != 0 {
        let open = CommandView::Text(seq![left]);
        let pushed = m.push(open);
        lemma_interpret_tree(sub, ctx, env, pushed);
        if tree_prints(sub, env.stats) {
            let printed = tree_body(sub, ctx, env);
            lemma_commit_pushed(m, open, printed, bash);
            lemma_commit_more(m, seq![left] + printed, seq![right], bash);
        } else {
            assert(pushed.roll_back(m.queue.len()).queue =~= m.queue);
        }
    }
}

/// A format, where it does not stop.
pub proof fn lemma_format(
    style: CompleteStyle,
    sub: Seq<ExprView>,
    ctx: CompleteStyle,
    env: Env,
    m: Machine,
)
    requires
        crate::interpreter::model::format(style, sub, ctx, env, m).result is Ok,
    ensures
        crate::interpreter::model::format(style, sub, ctx, env, m) == if tree_prints(sub, env.stats) {
            commit(m, body(ExprView::Format { style, sub }, ctx, env), env.bash_prompt)
        } else {
            m.idle()
        },
    decreases sub, 3nat,
{
    let bash = env.bash_prompt;
    let inside = ctx.combine(style);
    if env.allow_color {
        let enter = CommandView::Context(inside);
        let pushed = m.push(enter);
        lemma_interpret_tree(sub, inside, env, pushed);
        if tree_prints(sub, env.stats) {
            let printed = tree_body(sub, inside, env);
            lemma_commit_pushed(m, enter, printed, bash);
            lemma_commit_more(
                m,
                styled(inside, bash) + printed,
                transition(inside, ctx, bash),
                bash,
            );
        } else {
            assert(pushed.roll_back(m.queue.len()).queue =~= m.queue);
        }
    } else {
        lemma_interpret_tree(sub, inside, env, m);
    }
}

/// An expression that does not stop either prints, and then the queue is
/// written and behind it what the expression writes, or prints nothing and
/// leaves the machine as it was.
pub proof fn lemma_interpret(e: ExprView, ctx: CompleteStyle, env: Env, m: Machine)
    requires
        interpret(e, ctx, env, m).result is Ok,
    ensures
        interpret(e, ctx, env, m) == if prints(e, env.stats) {
            commit(m, body(e, ctx, env), env.bash_prompt)
        } else {
            m.idle()
        },
    decreases e, 4nat,
{
    match e {
        ExprView::Literal(_) => {},
        ExprView::Named { name: Name::Quote, sub } => {
            assert(!tree_prints(sub, env.stats));
            assert(prefix(Name::Quote) + value(env.stats, Name::Quote) =~= seq!['\'']);
        },
        ExprView::Named { name, sub } => {
            lemma_named(name, sub, ctx, env, m);
        },
        ExprView::Group { d, sub } => {
            lemma_group(d.left_glyph(), d.right_glyph(), sub, ctx, env, m);
        },
        ExprView::Format { style, sub } => {
            lemma_format(style, sub, ctx, env, m);
        },
        ExprView::Separator(_) => {},
    }
}

/// A tree that does not stop either prints, and then the queue is written
/// and behind it what the tree writes, or prints nothing and leaves the
/// machine as it was.
pub proof fn lemma_interpret_tree(tree: Seq<ExprView>, ctx: CompleteStyle, env: Env, m: Machine)
    requires
        interpret_tree(tree, ctx, env, m).result is Ok,
    ensures
        interpret_tree(tree, ctx, env, m) == if tree_prints(tree, env.stats) {
            commit(m, tree_body(tree, ctx, env), env.bash_prompt)
        } else {
            m.idle()
        },
    decreases tree, 2nat,
{
    lemma_tree_from(tree, ctx, env, m, false, 0);
}

/// What the rest of a tree that does not stop comes to. Behind an
/// expression that printed, the queue holds the pending separators, and
/// the rest writes what it writes with them pending. Where nothing
/// printed yet, the rest either prints, and then the queue is written and
/// behind it what the rest writes, or leaves the machine as it was.
pub open spec fn rest_of_tree(
    tree: Seq<ExprView>,
    ctx: CompleteStyle,
    env: Env,
    m: Machine,
    wrote: bool,
) -> Step {
    if wrote {
        Step {
            queue: Seq::empty(),
            out: m.out + body_from(tree, ctx, env, true, queue_text(m.queue, env.bash_prompt)),
            result: Ok(true),
        }
    } else if tree_prints(tree, env.stats) {
        commit(m, body_from(tree, ctx, env, false, Seq::empty()), env.bash_prompt)
    } else {
        m.idle()
    }
}

/// The rest of a tree that does not stop, where it starts with an
/// expression that prints.
proof fn lemma_tree_from_printing(
    tree: Seq<ExprView>,
    ctx: CompleteStyle,
    env: Env,
    m: Machine,
    wrote: bool,
    pending: nat,
)
    requires
        tree.len() > 0,
        !(tree[0] is Separator),
        prints(tree[0], env.stats),
        coherent(m, wrote, pending),
        tree_from(tree, ctx, env, m, wrote, pending).result is Ok,
    ensures
        tree_from(tree, ctx, env, m, wrote, pending) == rest_of_tree(tree, ctx, env, m, wrote),
    decreases tree, 0nat,
{
    let bash = env.bash_prompt;
    let none = Seq::<char>::empty();
    let queued = queue_text(m.queue, bash);
    let e = tree[0];
    let rest = tree.drop_first();
    lemma_interpret(e, ctx, env, m);
    let own = body(e, ctx, env);
    let step = commit(m, own, bash);
    assert(interpret(e, ctx, env, m) == step);
    let next = step.machine();
    assert(tree_from(tree, ctx, env, m, wrote, pending) == tree_from(
        rest,
        ctx,
        env,
        next,
        true,
        0,
    ));
    lemma_tree_from(rest, ctx, env, next, true, 0);
    assert(queue_text(next.queue, bash) =~= none);
    let after = body_from(rest, ctx, env, true, none);
    assert(tree_from(rest, ctx, env, next, true, 0).out == next.out + after);
    assert(next.out == m.out + queued + own);
    if wrote {
        assert(body_from(tree, ctx, env, true, queued) == queued + own + after);
        assert(m.out + queued + own + after =~= m.out + (queued + own + after));
    } else {
        assert(body_from(tree, ctx, env, false, none) == none + own + after);
        assert(m.out + queued + own + after =~= m.out + queued + (none + own + after));
    }
}

/// The rest of a tree that does not stop, where it starts with an
/// expression that prints nothing.
proof fn lemma_tree_from_idle(
    tree: Seq<ExprView>,
    ctx: CompleteStyle,
    env: Env,
    m: Machine,
    wrote: bool,
    pending: nat,
)
    requires
        tree.len() > 0,
        !(tree[0] is Separator),
        !prints(tree[0], env.stats),
        coherent(m, wrote, pending),
        tree_from(tree, ctx, env, m, wrote, pending).result is Ok,
    ensures
        tree_from(tree, ctx, env, m, wrote, pending) == rest_of_tree(tree, ctx, env, m, wrote),
    decreases tree, 0nat,
{
    let bash = env.bash_prompt;
    let none = Seq::<char>::empty();
    let e = tree[0];
    let rest = tree.drop_first();
    lemma_interpret(e, ctx, env, m);
    assert(interpret(e, ctx, env, m) == m.idle());
    let next = m.drain(pending);
    assert(next.queue =~= if wrote {
        Seq::<CommandView>::empty()
    } else {
        m.queue
    });
    assert(tree_from(tree, ctx, env, m, wrote, pending) == tree_from(
        rest,
        ctx,
        env,
        next,
        wrote,
        0,
    ));
    lemma_tree_from(rest, ctx, env, next, wrote, 0);
    if wrote {
        assert(queue_text(next.queue, bash) =~= none);
        assert(body_from(tree, ctx, env, true, queue_text(m.queue, bash)) == body_from(
            rest,
            ctx,
            env,
            true,
            none,
        ));
    } else {
        assert(next == m);
        assert(body_from(tree, ctx, env, false, none) == body_from(rest, ctx, env, false, none));
        assert(tree_prints(tree, env.stats) == tree_prints(rest, env.stats));
    }
}

/// The rest of a tree that does not stop, where it starts with a
/// separator.
proof fn lemma_tree_from_separator(
    tree: Seq<ExprView>,
    ctx: CompleteStyle,
    env: Env,
    m: Machine,
    wrote: bool,
    pending: nat,
)
    requires
        tree.len() > 0,
        tree[0] is Separator,
        coherent(m, wrote, pending),
        tree_from(tree, ctx, env, m, wrote, pending).result is Ok,
    ensures
        tree_from(tree, ctx, env, m, wrote, pending) == rest_of_tree(tree, ctx, env, m, wrote),
    decreases tree, 0nat,
{
    let bash = env.bash_prompt;
    let none = Seq::<char>::empty();
    let rest = tree.drop_first();
    let glyph = tree[0]->Separator_0.glyph();
    if wrote {
        let sep = CommandView::Text(seq![glyph]);
        let next = m.push(sep);
        lemma_queue_text_push(m.queue, sep, bash);
        let queued = queue_text(m.queue, bash);
        assert(queue_text(next.queue, bash) =~= queued.push(glyph)) by {
            assert(queued + seq![glyph] =~= queued.push(glyph));
        }
        assert(tree_from(tree, ctx, env, m, wrote, pending) == tree_from(
            rest,
            ctx,
            env,
            next,
            wrote,
            pending + 1,
        ));
        lemma_tree_from(rest, ctx, env, next, wrote, pending + 1);
        assert(body_from(tree, ctx, env, true, queued) == body_from(
            rest,
            ctx,
            env,
            true,
            queued.push(glyph),
        ));
    } else {
        assert(tree_from(tree, ctx, env, m, wrote, pending) == tree_from(
            rest,
            ctx,
            env,
            m,
            wrote,
            pending,
        ));
        lemma_tree_from(rest, ctx, env, m, wrote, pending);
        assert(body_from(tree, ctx, env, false, none) == body_from(rest, ctx, env, false, none));
        assert(!prints(tree[0], env.stats));
        assert(tree_prints(tree, env.stats) == tree_prints(rest, env.stats));
    }
}

/// The rest of a tree that does not stop comes to what is said of it
/// directly.
pub proof fn lemma_tree_from(
    tree: Seq<ExprView>,
    ctx: CompleteStyle,
    env: Env,
    m: Machine,
    wrote: bool,
    pending: nat,
)
    requires
        coherent(m, wrote, pending),
        tree_from(tree, ctx, env, m, wrote, pending).result is Ok,
    ensures
        tree_from(tree, ctx, env, m, wrote, pending) == rest_of_tree(tree, ctx, env, m, wrote),
    decreases tree, 1nat,
{
    if tree.len() == 0 {
        assert(m.drain(pending).queue =~= if wrote {
            Seq::<CommandView>::empty()
        } else {
            m.queue
        });
        assert(m.out + Seq::<char>::empty() =~= m.out);
    } else if tree[0] is Separator {
        lemma_tree_from_separator(tree, ctx, env, m, wrote, pending);
    } else if prints(tree[0], env.stats) {
        lemma_tree_from_printing(tree, ctx, env, m, wrote, pending);
    } else {
        lemma_tree_from_idle(tree, ctx, env, m, wrote, pending);
    }
}

/// The evaluation of an expression stops exactly where it is said to,
/// whatever the machine.
pub proof fn lemma_stops(e: ExprView, ctx: CompleteStyle, env: Env, m: Machine)
    ensures
        interpret(e, ctx, env, m).result is Err <==> stops(e, env.stats),
    decreases e, 2nat,
{
    match e {
        ExprView::Named { name: Name::Quote, sub } => {},
        ExprView::Named { name, sub } => {
            if value(env.stats, name).len() != 0 && sub.len() != 0 {
                lemma_tree_stops(sub, ctx, env, m.flush(env.bash_prompt), false, 0);
            }
        },
        ExprView::Group { d, sub } => {
            if sub.len() != 0 {
                lemma_tree_stops(
                    sub,
                    ctx,
                    env,
                    m.push(CommandView::Text(seq![d.left_glyph()])),
                    false,
                    0,
                );
            }
        },
        ExprView::Format { style, sub } => {
            let inside = ctx.combine(style);
            if env.allow_color {
                lemma_tree_stops(sub, inside, env, m.push(CommandView::Context(inside)), false, 0);
            } else {
                lemma_tree_stops(sub, inside, env, m, false, 0);
            }
        },
        _ => {},
    }
}

/// The evaluation of the rest of a tree stops exactly where it is said
/// to, whatever the machine.
pub proof fn lemma_tree_stops(
    tree: Seq<ExprView>,
    ctx: CompleteStyle,
    env: Env,
    m: Machine,
    wrote: bool,
    pending: nat,
)
    ensures
        tree_from(tree, ctx, env, m, wrote, pending).result is Err <==> tree_stops(tree, env.stats),
    decreases tree, 1nat,
{
    if tree.len() > 0 {
        let rest = tree.drop_first();
        match tree[0] {
            ExprView::Separator(s) => {
                assert(!stops(tree[0], env.stats));
                if wrote {
                    let next = m.push(CommandView::Text(seq![s.glyph()]));
                    lemma_tree_stops(rest, ctx, env, next, wrote, pending + 1);
                } else {
                    lemma_tree_stops(rest, ctx, env, m, wrote, pending);
                }
            },
            e => {
                lemma_stops(e, ctx, env, m);
                let step = interpret(e, ctx, env, m);
                match step.result {
                    Err(_) => {
                        assert(tree_from(tree, ctx, env, m, wrote, pending) == step);
                    },
                    Ok(true) => {
                        lemma_tree_stops(rest, ctx, env, step.machine(), true, 0);
                        assert(tree_from(tree, ctx, env, m, wrote, pending) == tree_from(
                            rest,
                            ctx,
                            env,
                            step.machine(),
                            true,
                            0,
                        ));
                    },
                    Ok(false) => {
                        lemma_tree_stops(rest, ctx, env, step.machine().drain(pending), wrote, 0);
                        assert(tree_from(tree, ctx, env, m, wrote, pending) == tree_from(
                            rest,
                            ctx,
                            env,
                            step.machine().drain(pending),
                            wrote,
                            0,
                        ));
                    },
                }
            },
        }
    }
}

/// An evaluation ends well exactly if it does not get to a quote with a
/// sub-tree.
pub proof fn lemma_evaluate_stops(
    tree: Seq<ExprView>,
    stats: Stats,
    allow_color: bool,
    bash_prompt: bool,
    out: Seq<char>,
)
    ensures
        evaluate(tree, stats, allow_color, bash_prompt, out).1 is Ok <==> !tree_stops(tree, stats),
{
    lemma_tree_stops(
        tree,
        CompleteStyle::plain(),
        Env { stats, allow_color, bash_prompt },
        start(allow_color, bash_prompt, out),
        false,
        0,
    );
}

/// An evaluation that does not stop appends what is said of the tree
/// directly: nothing if the tree prints nothing, and else what the
/// expressions that print write, with the brackets, styles and separators
/// around them, between two resets if colour is allowed.
pub proof fn lemma_evaluate(
    tree: Seq<ExprView>,
    stats: Stats,
    allow_color: bool,
    bash_prompt: bool,
    out: Seq<char>,
)
    requires
        evaluate(tree, stats, allow_color, bash_prompt, out).1 is Ok,
    ensures
        evaluate(tree, stats, allow_color, bash_prompt, out).0 == out + rendered(
            tree,
            stats,
            allow_color,
            bash_prompt,
        ),
{
    let env = Env { stats, allow_color, bash_prompt };
    let m = start(allow_color, bash_prompt, out);
    let reset = styled(CompleteStyle::plain(), bash_prompt);
    let none = Seq::<char>::empty();
    lemma_interpret_tree(tree, CompleteStyle::plain(), env, m);
    if allow_color {
        lemma_queue_text_push(
            Seq::<CommandView>::empty(),
            CommandView::Text(reset),
            bash_prompt,
        );
        assert(m.queue =~= Seq::<CommandView>::empty().push(CommandView::Text(reset)));
        assert(queue_text(m.queue, bash_prompt) =~= reset);
    } else {
        assert(queue_text(m.queue, bash_prompt) =~= none);
    }
    let inner = tree_body(tree, CompleteStyle::plain(), env);
    if tree_prints(tree, stats) {
        if allow_color {
            assert(out + reset + inner + reset =~= out + (reset + inner + reset));
        } else {
            assert(out + none + inner =~= out + (none + inner + none));
        }
    } else {
        assert(out =~= out + none);
    }
}

/// The characters that only an escape brings: the escape character, and
/// the two markers that stand around an escape in a shell prompt.
pub open spec fn is_control(c: char) -> bool {
    c == '\u{1b}' || c == '\u{01}' || c == '\u{02}'
}

/// Whether an expression brings the character `c` with it: in the text of
/// a literal, or in the value of a name.
pub open spec fn brings(e: ExprView, stats: Stats, c: char) -> bool
    decreases e, 0nat,
{
    match e {
        ExprView::Literal(text) => text.contains(c),
        ExprView::Named { name, sub } => value(stats, name).contains(c) || tree_brings(
            sub,
            stats,
            c,
        ),
        ExprView::Group { sub, .. } => tree_brings(sub, stats, c),
        ExprView::Format { sub, .. } => tree_brings(sub, stats, c),
        ExprView::Separator(_) => false,
    }
}

/// Whether an expression of a tree brings the character `c` with it.
pub open spec fn tree_brings(tree: Seq<ExprView>, stats: Stats, c: char) -> bool
    decreases tree, 1nat,
{
    tree.len() > 0 && (brings(tree[0], stats, c) || tree_brings(tree.drop_first(), stats, c))
}

/// A character of two texts, one after the other, is a character of one
/// of them.
pub proof fn lemma_contains_concat(a: Seq<char>, b: Seq<char>, c: char)
    requires
        (a + b).contains(c),
    ensures
        a.contains(c) || b.contains(c),
{
    let i = choose|i: int| 0 <= i < (a + b).len() && (a + b)[i] == c;
    if i < a.len() {
        assert(a[i] == c);
    } else {
        assert(b[i - a.len()] == c);
    }
}

/// Without colour, an escape character in what an expression writes was
/// brought by a literal or by a value.
pub proof fn lemma_plain_body(e: ExprView, ctx: CompleteStyle, env: Env, c: char)
    requires
        !env.allow_color,
        is_control(c),
        body(e, ctx, env).contains(c),
    ensures
        brings(e, env.stats, c),
    decreases e, 2nat,
{
    match e {
        ExprView::Literal(_) => {},
        ExprView::Named { name, sub } => {
            let text = value(env.stats, name);
            if tree_prints(sub, env.stats) {
                lemma_contains_concat(tree_body(sub, ctx, env), text, c);
                if !text.contains(c) {
                    lemma_plain_body_from(sub, ctx, env, false, Seq::empty(), c);
                }
            } else {
                lemma_contains_concat(prefix(name), text, c);
            }
        },
        ExprView::Group { d, sub } => {
            let inner = tree_body(sub, ctx, env);
            lemma_contains_concat(seq![d.left_glyph()] + inner, seq![d.right_glyph()], c);
            if (seq![d.left_glyph()] + inner).contains(c) {
                lemma_contains_concat(seq![d.left_glyph()], inner, c);
            }
            if inner.contains(c) {
                lemma_plain_body_from(sub, ctx, env, false, Seq::empty(), c);
            }
        },
        ExprView::Format { style, sub } => {
            lemma_plain_body_from(sub, ctx.combine(style), env, false, Seq::empty(), c);
        },
        ExprView::Separator(_) => {},
    }
}

/// Without colour, an escape character in what the rest of a tree writes
/// was pending or was brought by a literal or by a value.
pub proof fn lemma_plain_body_from(
    tree: Seq<ExprView>,
    ctx: CompleteStyle,
    env: Env,
    wrote: bool,
    pending: Seq<char>,
    c: char,
)
    requires
        !env.allow_color,
        is_control(c),
        body_from(tree, ctx, env, wrote, pending).contains(c),
    ensures
        pending.contains(c) || tree_brings(tree, env.stats, c),
    decreases tree, 1nat,
{
    let none = Seq::<char>::empty();
    if tree.len() > 0 {
        let rest = tree.drop_first();
        match tree[0] {
            ExprView::Separator(s) => {
                if wrote {
                    lemma_plain_body_from(rest, ctx, env, wrote, pending.push(s.glyph()), c);
                    if pending.push(s.glyph()).contains(c) {
                        assert(pending.push(s.glyph()) =~= pending + seq![s.glyph()]);
                        lemma_contains_concat(pending, seq![s.glyph()], c);
                    }
                } else {
                    lemma_plain_body_from(rest, ctx, env, wrote, pending, c);
                }
            },
            e => {
                if prints(e, env.stats) {
                    let own = body(e, ctx, env);
                    let after = body_from(rest, ctx, env, true, none);
                    lemma_contains_concat(pending + own, after, c);
                    if (pending + own).contains(c) {
                        lemma_contains_concat(pending, own, c);
                        if own.contains(c) {
                            lemma_plain_body(e, ctx, env, c);
                        }
                    } else {
                        lemma_plain_body_from(rest, ctx, env, true, none, c);
                    }
                } else {
                    lemma_plain_body_from(rest, ctx, env, wrote, none, c);
                }
            },
        }
    }
}

/// Without colour no escape is written: what an evaluation writes holds
/// no escape character and no marker of a shell prompt that a literal or
/// a value did not bring.
pub proof fn lemma_no_colour_no_escape(
    tree: Seq<ExprView>,
    stats: Stats,
    bash_prompt: bool,
    c: char,
)
    requires
        is_control(c),
        rendered(tree, stats, false, bash_prompt).contains(c),
    ensures
        tree_brings(tree, stats, c),
{
    let env = Env { stats, allow_color: false, bash_prompt };
    let none = Seq::<char>::empty();
    let inner = tree_body(tree, CompleteStyle::plain(), env);
    assert(none + inner + none =~= inner);
    lemma_plain_body_from(tree, CompleteStyle::plain(), env, false, none, c);
}

/// Without colour, what an expression writes depends neither on the style
/// context nor on whether escapes would stand between markers.
pub proof fn lemma_plain_body_alike(
    e: ExprView,
    ctx: CompleteStyle,
    other: CompleteStyle,
    stats: Stats,
    bash_prompt: bool,
)
    ensures
        body(e, ctx, Env { stats, allow_color: false, bash_prompt }) == body(
            e,
            other,
            Env { stats, allow_color: false, bash_prompt: !bash_prompt },
        ),
    decreases e, 2nat,
{
    match e {
        ExprView::Named { name, sub } => {
            lemma_plain_tree_alike(sub, ctx, other, stats, bash_prompt, false, Seq::empty());
        },
        ExprView::Group { d, sub } => {
            lemma_plain_tree_alike(sub, ctx, other, stats, bash_prompt, false, Seq::empty());
        },
        ExprView::Format { style, sub } => {
            lemma_plain_tree_alike(
                sub,
                ctx.combine(style),
                other.combine(style),
                stats,
                bash_prompt,
                false,
                Seq::empty(),
            );
        },
        _ => {},
    }
}

/// Without colour, what the rest of a tree writes depends neither on the
/// style context nor on whether escapes would stand between markers.
pub proof fn lemma_plain_tree_alike(
    tree: Seq<ExprView>,
    ctx: CompleteStyle,
    other: CompleteStyle,
    stats: Stats,
    bash_prompt: bool,
    wrote: bool,
    pending: Seq<char>,
)
    ensures
        body_from(tree, ctx, Env { stats, allow_color: false, bash_prompt }, wrote, pending)
            == body_from(
            tree,
            other,
            Env { stats, allow_color: false, bash_prompt: !bash_prompt },
            wrote,
            pending,
        ),
    decreases tree, 1nat,
{
    if tree.len() > 0 {
        let rest = tree.drop_first();
        match tree[0] {
            ExprView::Separator(s) => {
                lemma_plain_tree_alike(
                    rest,
                    ctx,
                    other,
                    stats,
                    bash_prompt,
                    wrote,
                    if wrote {
                        pending.push(s.glyph())
                    } else {
                        pending
                    },
                );
            },
            e => {
                lemma_plain_body_alike(e, ctx, other, stats, bash_prompt);
                lemma_plain_tree_alike(rest, ctx, other, stats, bash_prompt, true, Seq::empty());
                lemma_plain_tree_alike(rest, ctx, other, stats, bash_prompt, wrote, Seq::empty());
            },
        }
    }
}

/// Without colour, what an evaluation writes does not depend on whether
/// escapes would stand between the markers of a shell prompt.
pub proof fn lemma_no_colour_no_marker(tree: Seq<ExprView>, stats: Stats, bash_prompt: bool)
    ensures
        rendered(tree, stats, false, bash_prompt) == rendered(tree, stats, false, !bash_prompt),
{
    lemma_plain_tree_alike(
        tree,
        CompleteStyle::plain(),
        CompleteStyle::plain(),
        stats,
        bash_prompt,
        false,
        Seq::empty(),
    );
}

} // verus!
