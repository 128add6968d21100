//! The layout of a window's panes as a list of steps: which pane is split,
//! in which direction, for which configured pane, and which pane runs which
//! commands. Panes are numbered in the order they come into being: the
//! window's first pane is 0, and each split makes the next number.
//!
//! A pane list is laid out by splitting its first pane once for each further
//! pane, each split cutting the pane made by the one before; then each pane
//! of the list is set up in turn: one with panes of its own lays those out
//! the same way, in its own split direction; one without runs its commands.
//! How large each split makes the new pane follows from the panes' ratios,
//! which the steps point to by where the pane list stands (`at`).
use vstd::prelude::*;
use crate::config::{Pane, Window};
use crate::text::text_of;
use crate::tmux::{leaf_commands, leaf_commands_spec, split_flag, split_flag_spec, window_split_flag};

verus! {

/// A layout step, stated over text and numbers.
pub enum LayoutStep {
    /// Split pane `target` in direction `flag`, making the pane for child
    /// `child` of the pane list at `at`.
    Split(int, Seq<char>, Seq<int>, int),
    /// Run the commands in pane `slot`.
    Run(int, Seq<Seq<char>>),
}

/// One step of laying out a window.
#[derive(Debug)]
pub enum LayoutOp {
    /// Split pane `target` with the tmux flag `flag`; the new pane is the
    /// one for child `child` (never the first) of the pane list found by
    /// following the child positions `at` from the window's panes, and takes
    /// the next pane number.
    Split { target: usize, flag: String, at: Vec<usize>, child: usize },
    /// Run `commands` in pane `slot`.
    Run { slot: usize, commands: Vec<String> },
}

/// The positions `at`, as integers.
pub open spec fn at_view(at: Seq<usize>) -> Seq<int> {
    at.map_values(|x: usize| x as int)
}

/// A step, stated over text and numbers.
pub open spec fn op_view(o: LayoutOp) -> LayoutStep {
    match o {
        LayoutOp::Split { target, flag, at, child } => LayoutStep::Split(
            target as int,
            flag@,
            at_view(at@),
            child as int,
        ),
        LayoutOp::Run { slot, commands } => LayoutStep::Run(slot as int, text_of(commands@)),
    }
}

/// Steps, stated over text and numbers.
pub open spec fn ops_view(v: Seq<LayoutOp>) -> Seq<LayoutStep> {
    v.map_values(|o: LayoutOp| op_view(o))
}

/// The number of splits among `s`.
pub open spec fn count_splits(s: Seq<LayoutStep>) -> int
    decreases s.len(),
{
    if s.len() == 0 {
        0
    } else {
        count_splits(s.drop_last()) + match s.last() {
            LayoutStep::Split(..) => 1int,
            LayoutStep::Run(..) => 0int,
        }
    }
}

/// The steps that set up pane `p`, numbered `slot`, where `made` panes have
/// been made by splits so far; and the number made after them.
pub open spec fn pane_steps(p: Pane, slot: int, made: int, at: Seq<int>) -> (Seq<LayoutStep>, int)
    decreases p, 0int, 0int,
{
    if p.panes.len() > 0 {
        list_steps(p.panes@, split_flag_spec(p.split), slot, made, at)
    } else {
        match leaf_commands_spec(p) {
            Some(c) => (seq![LayoutStep::Run(slot, text_of(c))], made),
            None => (Seq::empty(), made),
        }
    }
}

/// The splits that make the panes of a pane list whose first pane is
/// `parent`: split `i` cuts the pane made by split `i - 1` (the first cuts
/// `parent`) and makes the pane for child `i + 1`.
pub open spec fn list_splits(n: int, flag: Seq<char>, parent: int, made: int, at: Seq<int>) -> Seq<
    LayoutStep,
> {
    Seq::new(
        (if n > 0 {
            n - 1
        } else {
            0
        }) as nat,
        |i: int|
            LayoutStep::Split(
                if i == 0 {
                    parent
                } else {
                    made + i
                },
                flag,
                at,
                i + 1,
            ),
    )
}

/// The steps that lay out the pane list `ps` at `at`, split in direction
/// `flag` from the pane `parent`: first the splits, then the set-up of each
/// pane of the list in order.
pub open spec fn list_steps(
    ps: Seq<Pane>,
    flag: Seq<char>,
    parent: int,
    made: int,
    at: Seq<int>,
) -> (Seq<LayoutStep>, int)
    decreases ps, 1int, 0int,
{
    let n = ps.len() as int;
    let k = if n > 0 {
        n - 1
    } else {
        0
    };
    let rest = children_steps(ps, 0, parent, made, made + k, at);
    (list_splits(n, flag, parent, made, at) + rest.0, rest.1)
}

/// The set-up of panes `k..` of the list `ps`, whose first pane is `parent`
/// and whose pane `j > 0` is number `first + j` (`first` being the number
/// of panes made before the list's splits).
pub open spec fn children_steps(
    ps: Seq<Pane>,
    k: int,
    parent: int,
    first: int,
    made: int,
    at: Seq<int>,
) -> (Seq<LayoutStep>, int)
    decreases ps, 0int, ps.len() - k,
{
    if k < 0 || k >= ps.len() {
        (Seq::empty(), made)
    } else {
        let slot = if k == 0 {
            parent
        } else {
            first + k
        };
        let a = pane_steps(ps[k], slot, made, at.push(k));
        let b = children_steps(ps, k + 1, parent, first, a.1, at);
        (a.0 + b.0, b.1)
    }
}

/// The steps that lay out window `w`: its panes, side by side, from its
/// first pane (number 0).
pub open spec fn window_steps(w: Window) -> Seq<LayoutStep> {
    list_steps(w.panes@, "-h"@, 0, 0, Seq::empty()).0
}

/// Every step refers to a pane that exists when it is taken: pane 0, or one
/// made by an earlier split.
pub open spec fn well_numbered(s: Seq<LayoutStep>) -> bool {
    forall|q: int|
        0 <= q < s.len() ==> match #[trigger] s[q] {
            LayoutStep::Split(t, _, _, _) => 0 <= t <= count_splits(s.take(q)),
            LayoutStep::Run(slot, _) => 0 <= slot <= count_splits(s.take(q)),
        }
}

/// Every `Run` step has commands to run.
pub open spec fn runs_something(s: Seq<LayoutStep>) -> bool {
    forall|q: int|
        0 <= q < s.len() ==> match #[trigger] s[q] {
            LayoutStep::Run(_, c) => c.len() > 0,
            _ => true,
        }
}

/// The pane that a step runs commands in, where it is a `Run` step.
pub open spec fn run_slot(s: LayoutStep) -> Option<int> {
    match s {
        LayoutStep::Run(x, _) => Some(x),
        _ => None,
    }
}

/// No two `Run` steps run in the same pane.
pub open spec fn distinct_runs(s: Seq<LayoutStep>) -> bool {
    forall|a: int, b: int|
        0 <= a < b < s.len() && (#[trigger] run_slot(s[a])) is Some ==> run_slot(s[a])
            != #[trigger] run_slot(s[b])
}

/// Every `Run` step runs in a pane numbered `made` or lower.
pub open spec fn runs_below(s: Seq<LayoutStep>, made: int) -> bool {
    forall|q: int|
        0 <= q < s.len() ==> (#[trigger] run_slot(s[q]) matches Some(x) ==> x <= made)
}

/// No `Run` step runs in pane `x`.
pub open spec fn no_run_in(s: Seq<LayoutStep>, x: int) -> bool {
    forall|q: int| 0 <= q < s.len() ==> #[trigger] run_slot(s[q]) != Some(x)
}

/// Whether pane `x` belongs to one of the panes `k..n` of a pane list whose
/// first pane is `parent` and whose pane `j > 0` is `first + j`.
pub open spec fn is_child_slot(x: int, k: int, parent: int, first: int, n: int) -> bool {
    (k == 0 && x == parent) || (k <= x - first && 0 < x - first < n)
}

proof fn lemma_push_run(s: Seq<LayoutStep>, x: LayoutStep, made: int)
    requires
        distinct_runs(s),
        runs_below(s, made),
        run_slot(x) matches Some(v) ==> no_run_in(s, v) && v <= made,
    ensures
        distinct_runs(s.push(x)),
        runs_below(s.push(x), made),
{
    let t = s.push(x);
    assert forall|a: int, b: int|
        0 <= a < b < t.len() && (#[trigger] run_slot(t[a])) is Some implies run_slot(t[a])
        != #[trigger] run_slot(t[b]) by {
        assert(t[a] == s[a]);
        if b < s.len() {
            assert(t[b] == s[b]);
        }
    }
    assert forall|q: int| 0 <= q < t.len() implies (#[trigger] run_slot(t[q]) matches Some(
        v,
    ) ==> v <= made) by {
        if q < s.len() {
            assert(t[q] == s[q]);
        }
    }
}

proof fn lemma_push_non_run(s: Seq<LayoutStep>, x: LayoutStep, made: int, parent: int)
    requires
        run_slot(x) is None,
        distinct_runs(s),
        runs_below(s, made),
        no_run_in(s, parent),
    ensures
        distinct_runs(s.push(x)),
        runs_below(s.push(x), made),
        no_run_in(s.push(x), parent),
{
    lemma_push_run(s, x, made);
    let t = s.push(x);
    assert forall|q: int| 0 <= q < t.len() implies #[trigger] run_slot(t[q]) != Some(parent) by {
        if q < s.len() {
            assert(t[q] == s[q]);
        }
    }
}

proof fn lemma_count_splits_le_len(s: Seq<LayoutStep>)
    ensures
        0 <= count_splits(s) <= s.len(),
    decreases s.len(),
{
    if s.len() > 0 {
        lemma_count_splits_le_len(s.drop_last());
    }
}

proof fn lemma_push_keeps(s: Seq<LayoutStep>, x: LayoutStep)
    requires
        well_numbered(s),
        runs_something(s),
        match x {
            LayoutStep::Split(t, _, _, _) => 0 <= t <= count_splits(s),
            LayoutStep::Run(slot, c) => 0 <= slot <= count_splits(s) && c.len() > 0,
        },
    ensures
        well_numbered(s.push(x)),
        runs_something(s.push(x)),
        count_splits(s.push(x)) == count_splits(s) + match x {
            LayoutStep::Split(..) => 1int,
            LayoutStep::Run(..) => 0int,
        },
{
    let t = s.push(x);
    assert(t.drop_last() =~= s);
    assert forall|q: int| 0 <= q < t.len() implies match #[trigger] t[q] {
        LayoutStep::Split(tt, _, _, _) => 0 <= tt <= count_splits(t.take(q)),
        LayoutStep::Run(slot, _) => 0 <= slot <= count_splits(t.take(q)),
    } by {
        if q < s.len() {
            assert(t.take(q) =~= s.take(q));
            assert(t[q] == s[q]);
        } else {
            assert(t.take(q) =~= s);
        }
    }
    assert forall|q: int| 0 <= q < t.len() implies match #[trigger] t[q] {
        LayoutStep::Run(_, c) => c.len() > 0,
        _ => true,
    } by {
        if q < s.len() {
            assert(t[q] == s[q]);
        }
    }
}

/// The commands of pane `p`, as text, where it has any.
pub open spec fn commands_text(p: Pane) -> Seq<Seq<char>> {
    match p.commands {
        Some(c) => c@.map_values(|s: String| s@),
        None => Seq::empty(),
    }
}

/// `p` has no panes of its own and at least one command.
pub open spec fn runs_commands(p: Pane) -> bool {
    p.panes@.len() == 0 && (p.commands matches Some(c) && c@.len() > 0)
}

/// A pane without panes of its own that has commands is set up by a single
/// step: running all of its commands, in order, in its own pane.
pub proof fn lemma_leaf_runs_all_its_commands(p: Pane, slot: int, made: int, at: Seq<int>)
    requires
        runs_commands(p),
    ensures
        pane_steps(p, slot, made, at) == (seq![LayoutStep::Run(slot, commands_text(p))], made),
{
    assert(text_of(p.commands->0@) =~= commands_text(p));
}

proof fn lemma_children_of_leaves(
    ps: Seq<Pane>,
    k: int,
    parent: int,
    first: int,
    made: int,
    at: Seq<int>,
)
    requires
        0 <= k <= ps.len(),
        forall|j: int| 0 <= j < ps.len() ==> runs_commands(#[trigger] ps[j]),
    ensures
        children_steps(ps, k, parent, first, made, at) == (
            Seq::new(
                (ps.len() - k) as nat,
                |j: int|
                    LayoutStep::Run(
                        if k + j == 0 {
                            parent
                        } else {
                            first + k + j
                        },
                        commands_text(ps[k + j]),
                    ),
            ),
            made,
        ),
    decreases ps.len() - k,
{
    if k < ps.len() {
        let slot = if k == 0 {
            parent
        } else {
            first + k
        };
        lemma_leaf_runs_all_its_commands(ps[k], slot, made, at.push(k));
        lemma_children_of_leaves(ps, k + 1, parent, first, made, at);
        let a = pane_steps(ps[k], slot, made, at.push(k));
        let b = children_steps(ps, k + 1, parent, first, a.1, at);
        assert(a.0 + b.0 =~= Seq::new(
            (ps.len() - k) as nat,
            |j: int|
                LayoutStep::Run(
                    if k + j == 0 {
                        parent
                    } else {
                        first + k + j
                    },
                    commands_text(ps[k + j]),
                ),
        ));
    } else {
        assert(Seq::<LayoutStep>::empty() =~= Seq::new(
            (ps.len() - k) as nat,
            |j: int|
                LayoutStep::Run(
                    if k + j == 0 {
                        parent
                    } else {
                        first + k + j
                    },
                    commands_text(ps[k + j]),
                ),
        ));
    }
}

/// A window whose panes all run commands, with no panes of their own, is
/// laid out by the splits that make its panes, then one step per pane, in
/// order: pane `j` runs all of its commands, in order, in pane number `j`.
pub proof fn lemma_window_of_leaves(w: Window)
    requires
        w.panes@.len() > 0,
        forall|j: int| 0 <= j < w.panes@.len() ==> runs_commands(#[trigger] w.panes@[j]),
    ensures
        window_steps(w).len() == 2 * w.panes@.len() - 1,
        forall|j: int|
            0 <= j < w.panes@.len() ==> #[trigger] window_steps(w)[w.panes@.len() - 1 + j]
                == LayoutStep::Run(j, commands_text(w.panes@[j])),
{
    let ps = w.panes@;
    let n = ps.len() as int;
    lemma_children_of_leaves(ps, 0, 0, 0, n - 1, Seq::empty());
    let splits = list_splits(n, "-h"@, 0, 0, Seq::empty());
    let rest = children_steps(ps, 0, 0, 0, n - 1, Seq::empty());
    assert(window_steps(w) == splits + rest.0);
    assert forall|j: int| 0 <= j < n implies #[trigger] window_steps(w)[n - 1 + j]
        == LayoutStep::Run(j, commands_text(ps[j])) by {
        assert(window_steps(w)[n - 1 + j] == rest.0[j]);
    }
}

fn push_op(ops: &mut Vec<LayoutOp>, op: LayoutOp)
    requires
        well_numbered(ops_view(old(ops)@)),
        runs_something(ops_view(old(ops)@)),
        match op_view(op) {
            LayoutStep::Split(t, _, _, _) => 0 <= t <= count_splits(ops_view(old(ops)@)),
            LayoutStep::Run(slot, c) => 0 <= slot <= count_splits(ops_view(old(ops)@)) && c.len()
                > 0,
        },
    ensures
        ops_view(final(ops)@) == ops_view(old(ops)@).push(op_view(op)),
        well_numbered(ops_view(final(ops)@)),
        runs_something(ops_view(final(ops)@)),
        count_splits(ops_view(final(ops)@)) == count_splits(ops_view(old(ops)@)) + match op_view(
            op,
        ) {
            LayoutStep::Split(..) => 1int,
            LayoutStep::Run(..) => 0int,
        },
        count_splits(ops_view(final(ops)@)) <= final(ops)@.len(),
        final(ops)@.len() <= usize::MAX,
        forall|made: int|
            distinct_runs(ops_view(old(ops)@)) && runs_below(ops_view(old(ops)@), made) && (run_slot(
                op_view(op),
            ) matches Some(v) ==> no_run_in(ops_view(old(ops)@), v) && v <= made) ==> #[trigger] runs_below(ops_view(final(ops)@), made)
                && distinct_runs(ops_view(final(ops)@)),
{
    let ghost before = ops_view(ops@);
    let ghost x = op_view(op);
    ops.push(op);
    assert(ops_view(ops@) =~= before.push(x));
    proof {
        lemma_push_keeps(before, x);
        lemma_count_splits_le_len(ops_view(ops@));
        assert forall|made: int|
            distinct_runs(before) && runs_below(before, made) && (run_slot(x) matches Some(v)
                ==> no_run_in(before, v) && v <= made) implies #[trigger] runs_below(
            ops_view(ops@),
            made,
        ) && distinct_runs(ops_view(ops@)) by {
            lemma_push_run(before, x, made);
        }
    }
    let _ = ops.len();
}

fn push_position(at: &Vec<usize>, k: usize) -> (r: Vec<usize>)
    ensures
        at_view(r@) == at_view(at@).push(k as int),
{
    let mut r = at.clone();
    r.push(k);
    assert(at_view(r@) =~= at_view(at@).push(k as int));
    r
}

fn plan_pane(p: &Pane, slot: usize, made: usize, at: &Vec<usize>, ops: &mut Vec<LayoutOp>) -> (r: usize)
    requires
        made == count_splits(ops_view(old(ops)@)),
        slot <= made,
        well_numbered(ops_view(old(ops)@)),
        runs_something(ops_view(old(ops)@)),
        distinct_runs(ops_view(old(ops)@)),
        runs_below(ops_view(old(ops)@), made as int),
        no_run_in(ops_view(old(ops)@), slot as int),
    ensures
        ops_view(final(ops)@) == ops_view(old(ops)@) + pane_steps(
            *p,
            slot as int,
            made as int,
            at_view(at@),
        ).0,
        r == pane_steps(*p, slot as int, made as int, at_view(at@)).1,
        r == count_splits(ops_view(final(ops)@)),
        made <= r,
        well_numbered(ops_view(final(ops)@)),
        runs_something(ops_view(final(ops)@)),
        distinct_runs(ops_view(final(ops)@)),
        runs_below(ops_view(final(ops)@), r as int),
        forall|q: int|
            old(ops)@.len() <= q < final(ops)@.len() ==> (#[trigger] run_slot(
                ops_view(final(ops)@)[q],
            ) matches Some(x) ==> x == slot || made < x <= r),
    decreases p, 0int, 0int,
{
    if p.panes.len() > 0 {
        let flag = split_flag(p.split);
        assert(decreases_to!(p => p.panes));
        plan_list(&p.panes, flag, slot, made, at, ops)
    } else {
        match leaf_commands(p) {
            Some(c) => {
                let ghost before = ops_view(ops@);
                push_op(ops, LayoutOp::Run { slot, commands: c });
                assert(ops_view(ops@) =~= before + seq![
                    LayoutStep::Run(slot as int, text_of(leaf_commands_spec(*p)->0)),
                ]);
                made
            },
            None => {
                assert(ops_view(ops@) =~= ops_view(ops@) + Seq::<LayoutStep>::empty());
                made
            },
        }
    }
}

fn push_splits(
    n: usize,
    flag: &String,
    parent: usize,
    made: usize,
    at: &Vec<usize>,
    ops: &mut Vec<LayoutOp>,
) -> (cur: usize)
    requires
        made == count_splits(ops_view(old(ops)@)),
        parent <= made,
        well_numbered(ops_view(old(ops)@)),
        runs_something(ops_view(old(ops)@)),
        distinct_runs(ops_view(old(ops)@)),
        runs_below(ops_view(old(ops)@), made as int),
        no_run_in(ops_view(old(ops)@), parent as int),
    ensures
        ops_view(final(ops)@) == ops_view(old(ops)@) + list_splits(
            n as int,
            flag@,
            parent as int,
            made as int,
            at_view(at@),
        ),
        cur == count_splits(ops_view(final(ops)@)),
        cur == made + if n > 0 {
            n - 1
        } else {
            0
        },
        well_numbered(ops_view(final(ops)@)),
        runs_something(ops_view(final(ops)@)),
        distinct_runs(ops_view(final(ops)@)),
        runs_below(ops_view(final(ops)@), made as int),
        no_run_in(ops_view(final(ops)@), parent as int),
{
    let ghost before = ops_view(ops@);
    let ghost splits = list_splits(n as int, flag@, parent as int, made as int, at_view(at@));
    let mut cur = made;
    let mut i: usize = 0;
    while i + 1 < n
        invariant
            i + 1 <= n || (n == 0 && i == 0),
            cur == made + i,
            cur == count_splits(ops_view(ops@)),
            parent <= made,
            ops_view(ops@) == before + splits.take(i as int),
            splits == list_splits(n as int, flag@, parent as int, made as int, at_view(at@)),
            well_numbered(ops_view(ops@)),
            runs_something(ops_view(ops@)),
            distinct_runs(ops_view(ops@)),
            runs_below(ops_view(ops@), made as int),
            no_run_in(ops_view(ops@), parent as int),
        decreases n - i,
    {
        let target = if i == 0 {
            parent
        } else {
            made + i
        };
        let ghost pre = ops_view(ops@);
        let op = LayoutOp::Split { target, flag: flag.clone(), at: at.clone(), child: i + 1 };
        assert(op_view(op) == splits[i as int]);
        push_op(ops, op);
        proof {
            lemma_push_non_run(pre, splits[i as int], made as int, parent as int);
        }
        assert(splits.take(i + 1) =~= splits.take(i as int).push(splits[i as int]));
        assert(ops_view(ops@) =~= before + splits.take(i + 1));
        cur = cur + 1;
        i = i + 1;
    }
    assert(splits.take(i as int) =~= splits);
    cur
}

fn plan_list(
    ps: &Vec<Pane>,
    flag: String,
    parent: usize,
    made: usize,
    at: &Vec<usize>,
    ops: &mut Vec<LayoutOp>,
) -> (r: usize)
    requires
        made == count_splits(ops_view(old(ops)@)),
        parent <= made,
        well_numbered(ops_view(old(ops)@)),
        runs_something(ops_view(old(ops)@)),
        distinct_runs(ops_view(old(ops)@)),
        runs_below(ops_view(old(ops)@), made as int),
        no_run_in(ops_view(old(ops)@), parent as int),
    ensures
        ops_view(final(ops)@) == ops_view(old(ops)@) + list_steps(
            ps@,
            flag@,
            parent as int,
            made as int,
            at_view(at@),
        ).0,
        r == list_steps(ps@, flag@, parent as int, made as int, at_view(at@)).1,
        r == count_splits(ops_view(final(ops)@)),
        made <= r,
        well_numbered(ops_view(final(ops)@)),
        runs_something(ops_view(final(ops)@)),
        distinct_runs(ops_view(final(ops)@)),
        runs_below(ops_view(final(ops)@), r as int),
        forall|q: int|
            old(ops)@.len() <= q < final(ops)@.len() ==> (#[trigger] run_slot(
                ops_view(final(ops)@)[q],
            ) matches Some(x) ==> x == parent || made < x <= r),
    decreases ps@, 1int, 0int,
{
    let n = ps.len();
    let ghost before = ops_view(ops@);
    let ghost splits = list_splits(n as int, flag@, parent as int, made as int, at_view(at@));
    let cur = push_splits(n, &flag, parent, made, at, ops);
    let ghost mid = ops_view(ops@);
    let ghost mid_len = ops@.len();
    assert forall|q: int| 0 <= q < mid.len() implies (#[trigger] run_slot(mid[q]) matches Some(
        x,
    ) ==> !is_child_slot(x, 0, parent as int, made as int, n as int)) by {}
    let r = plan_children(ps, 0, parent, made, cur, at, ops);
    assert(ops_view(ops@) =~= before + (splits + children_steps(
        ps@,
        0,
        parent as int,
        made as int,
        cur as int,
        at_view(at@),
    ).0));
    assert forall|q: int| before.len() <= q < ops@.len() implies (#[trigger] run_slot(
        ops_view(ops@)[q],
    ) matches Some(x) ==> x == parent || made < x <= r) by {
        if q < mid_len {
            assert(ops_view(ops@)[q] == mid[q]);
            assert(mid[q] == splits[q - before.len()]);
        }
    }
    r
}

fn plan_children(
    ps: &Vec<Pane>,
    k: usize,
    parent: usize,
    first: usize,
    made: usize,
    at: &Vec<usize>,
    ops: &mut Vec<LayoutOp>,
) -> (r: usize)
    requires
        made == count_splits(ops_view(old(ops)@)),
        parent <= made,
        first + ps.len() - 1 <= made,
        parent <= first,
        k <= ps.len(),
        well_numbered(ops_view(old(ops)@)),
        runs_something(ops_view(old(ops)@)),
        distinct_runs(ops_view(old(ops)@)),
        runs_below(ops_view(old(ops)@), made as int),
        forall|q: int|
            0 <= q < old(ops)@.len() ==> (#[trigger] run_slot(ops_view(old(ops)@)[q]) matches Some(
                x,
            ) ==> !is_child_slot(x, k as int, parent as int, first as int, ps.len() as int)),
    ensures
        ops_view(final(ops)@) == ops_view(old(ops)@) + children_steps(
            ps@,
            k as int,
            parent as int,
            first as int,
            made as int,
            at_view(at@),
        ).0,
        r == children_steps(ps@, k as int, parent as int, first as int, made as int, at_view(at@)).1,
        r == count_splits(ops_view(final(ops)@)),
        made <= r,
        well_numbered(ops_view(final(ops)@)),
        runs_something(ops_view(final(ops)@)),
        distinct_runs(ops_view(final(ops)@)),
        runs_below(ops_view(final(ops)@), r as int),
        forall|q: int|
            old(ops)@.len() <= q < final(ops)@.len() ==> (#[trigger] run_slot(
                ops_view(final(ops)@)[q],
            ) matches Some(x) ==> is_child_slot(
                x,
                k as int,
                parent as int,
                first as int,
                ps.len() as int,
            ) || made < x <= r),
    decreases ps@, 0int, ps.len() - k,
{
    if k >= ps.len() {
        assert(ops_view(ops@) =~= ops_view(ops@) + Seq::<LayoutStep>::empty());
        return made;
    }
    let slot = if k == 0 {
        parent
    } else {
        first + k
    };
    let here = push_position(at, k);
    let ghost before = ops_view(ops@);
    let ghost n = ps.len() as int;
    assert(is_child_slot(slot as int, k as int, parent as int, first as int, n));
    assert forall|q: int| 0 <= q < before.len() implies #[trigger] run_slot(before[q]) != Some(
        slot as int,
    ) by {}
    assert(decreases_to!(ps@ => ps@[k as int]));
    let m = plan_pane(&ps[k], slot, made, &here, ops);
    let ghost mid = ops_view(ops@);
    let ghost mid_len = ops@.len();
    assert forall|q: int| 0 <= q < mid.len() implies (#[trigger] run_slot(mid[q]) matches Some(
        x,
    ) ==> !is_child_slot(x, k + 1, parent as int, first as int, n)) by {
        if q < before.len() {
            assert(mid[q] == before[q]);
        }
    }
    let r = plan_children(ps, k + 1, parent, first, m, at, ops);
    assert(ops_view(ops@) =~= before + (pane_steps(
        ps@[k as int],
        slot as int,
        made as int,
        at_view(at@).push(k as int),
    ).0 + children_steps(ps@, k + 1, parent as int, first as int, m as int, at_view(at@)).0));
    assert forall|q: int| before.len() <= q < ops@.len() implies (#[trigger] run_slot(
        ops_view(ops@)[q],
    ) matches Some(x) ==> is_child_slot(x, k as int, parent as int, first as int, n) || made < x
        <= r) by {
        if q < mid_len {
            assert(ops_view(ops@)[q] == mid[q]);
        }
    }
    r
}

/// The steps that lay out `window`. Each step refers to a pane made before
/// it, each `Run` step has commands, and no two `Run` steps run in the same
/// pane. A window has at least one pane.
pub fn plan_window(window: &Window) -> (r: Vec<LayoutOp>)
    requires
        window.panes.len() > 0,
    ensures
        ops_view(r@) == window_steps(*window),
        well_numbered(ops_view(r@)),
        runs_something(ops_view(r@)),
        distinct_runs(ops_view(r@)),
{
    let mut ops: Vec<LayoutOp> = Vec::new();
    let at: Vec<usize> = Vec::new();
    assert(at_view(at@) =~= Seq::<int>::empty());
    assert(ops_view(ops@) =~= Seq::<LayoutStep>::empty());
    let _ = plan_list(&window.panes, window_split_flag(), 0, 0, &at, &mut ops);
    assert(ops_view(ops@) =~= Seq::<LayoutStep>::empty() + window_steps(*window));
    ops
}

} // verus!
