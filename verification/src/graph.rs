//! The links between steps: which steps a step leads to, the checks drawn on
//! the canvas, the per-link drawing style, and the letters of the connectors
//! that stand for links drawn upwards.
use vstd::prelude::*;

use crate::models::{
    option_string_view, options_view, steps_view, step_view, Algorithm,
    AlgorithmView, OptionLinkView, Step, StepKind, StepKindView, StepView,
};

verus! {

broadcast use {crate::models::lemma_steps_view_index, crate::models::lemma_steps_view_len};


// ---------------------------------------------------------------------------
// Targets of a step
// ---------------------------------------------------------------------------

/// An optional link as a sequence of at most one target.
pub open spec fn opt_target(o: Option<u128>) -> Seq<u128> {
    match o {
        Some(t) => seq![t],
        None => Seq::empty(),
    }
}

/// The targets of a list of options, in order, skipping unlinked options.
pub open spec fn option_targets(opts: Seq<OptionLinkView>) -> Seq<u128>
    decreases opts.len(),
{
    if opts.len() == 0 {
        Seq::empty()
    } else {
        option_targets(opts.drop_last()) + opt_target(opts.last().next_step_id)
    }
}

/// The steps a step leads to, in the order of its exits: the options of a
/// standard step, the normal then abnormal exit of a measurement, the exit of
/// a safety warning, the success then failure exit of a sub-procedure.
pub open spec fn targets_of(s: StepView) -> Seq<u128> {
    match s.kind {
        StepKindView::Standard => option_targets(s.options),
        StepKindView::Measurement { next_if_normal, next_if_abnormal, .. } => opt_target(
            next_if_normal,
        ) + opt_target(next_if_abnormal),
        StepKindView::SafetyWarning { next_step_id, .. } => opt_target(next_step_id),
        StepKindView::Subprocess { next_if_success, next_if_failure, .. } => opt_target(
            next_if_success,
        ) + opt_target(next_if_failure),
    }
}

fn push_opt(v: &mut Vec<u128>, o: Option<u128>)
    ensures
        final(v)@ == old(v)@ + opt_target(o),
{
    match o {
        Some(t) => {
            v.push(t);
        },
        None => {
            assert(old(v)@ + opt_target(o) =~= old(v)@);
        },
    }
}

/// The steps that `step` leads to, in the order of its exits.
pub fn step_targets(step: &Step) -> (r: Vec<u128>)
    ensures
        r@ == targets_of(step@),
{
    let mut r: Vec<u128> = Vec::new();
    match &step.kind {
        StepKind::Standard => {
            let n = step.options.len();
            for i in 0..n
                invariant
                    n == step.options@.len(),
                    r@ == option_targets(options_view(step.options@).take(i as int)),
            {
                proof {
                    let ov = options_view(step.options@);
                    assert(ov.take(i + 1).drop_last() =~= ov.take(i as int));
                }
                push_opt(&mut r, step.options[i].next_step_id);
            }
            assert(options_view(step.options@).take(n as int) =~= options_view(step.options@));
        },
        StepKind::Measurement { next_if_normal, next_if_abnormal, .. } => {
            push_opt(&mut r, *next_if_normal);
            push_opt(&mut r, *next_if_abnormal);
            assert(r@ =~= targets_of(step@));
        },
        StepKind::SafetyWarning { next_step_id, .. } => {
            push_opt(&mut r, *next_step_id);
            assert(r@ =~= targets_of(step@));
        },
        StepKind::Subprocess { next_if_success, next_if_failure, .. } => {
            push_opt(&mut r, *next_if_success);
            push_opt(&mut r, *next_if_failure);
            assert(r@ =~= targets_of(step@));
        },
    }
    r
}

fn seq_contains(v: &Vec<u128>, x: u128) -> (r: bool)
    ensures
        r == v@.contains(x),
{
    for i in 0..v.len()
        invariant
            forall|j: int| 0 <= j < i ==> v@[j] != x,
    {
        if v[i] == x {
            return true;
        }
    }
    false
}

// ---------------------------------------------------------------------------
// Canvas checks
// ---------------------------------------------------------------------------

/// Some link of the procedure leads to `id`, or `id` is the start step.
pub open spec fn has_incoming(a: AlgorithmView, id: u128) -> bool {
    a.first_step_id == Some(id) || exists|j: int|
        0 <= j < a.steps.len() && (#[trigger] targets_of(a.steps[j])).contains(id)
}

/// Some exit of the step is not linked: an option of a standard step that has
/// options, an exit of a measurement or of a sub-procedure, or the exit of a
/// safety warning.
pub open spec fn has_unlinked_branch(s: StepView) -> bool {
    match s.kind {
        StepKindView::Standard => s.options.len() > 0 && exists|i: int|
            0 <= i < s.options.len() && (#[trigger] s.options[i]).next_step_id is None,
        StepKindView::Measurement { next_if_normal, next_if_abnormal, .. } => next_if_normal is None
            || next_if_abnormal is None,
        StepKindView::SafetyWarning { next_step_id, .. } => next_step_id is None,
        StepKindView::Subprocess { next_if_success, next_if_failure, .. } => next_if_success is None
            || next_if_failure is None,
    }
}

/// A warning shown on a step of the canvas.
#[derive(Debug, Clone, Copy, PartialEq, Eq, Structural)]
pub enum LintIssue {
    /// Nothing leads to the step and it is not the start step.
    Unreachable,
    /// Some exit of the step leads nowhere.
    IncompleteBranches,
}

/// The warning for step `s` of procedure `a`: unreachability first, then
/// incomplete branches.
pub open spec fn lint_of(a: AlgorithmView, s: StepView) -> Option<LintIssue> {
    if !has_incoming(a, s.id) {
        Some(LintIssue::Unreachable)
    } else if has_unlinked_branch(s) {
        Some(LintIssue::IncompleteBranches)
    } else {
        None
    }
}

fn incoming_exists(algo: &Algorithm, id: u128) -> (r: bool)
    ensures
        r == has_incoming(algo@, id),
{
    if algo.first_step_id == Some(id) {
        return true;
    }
    let n = algo.steps.len();
    assert(algo@.steps == steps_view(algo.steps@));
    for j in 0..n
        invariant
            n == algo.steps@.len(),
            n == algo@.steps.len(),
            algo@.steps == steps_view(algo.steps@),
            algo.first_step_id != Some(id),
            forall|k: int| 0 <= k < j ==> !(#[trigger] targets_of(algo@.steps[k])).contains(id),
    {
        let t = step_targets(&algo.steps[j]);
        assert(algo@.steps[j as int] == algo.steps@[j as int]@);
        if seq_contains(&t, id) {
            assert(targets_of(algo@.steps[j as int]).contains(id));
            return true;
        }
    }
    false
}

fn unlinked_exists(step: &Step) -> (r: bool)
    ensures
        r == has_unlinked_branch(step@),
{
    match &step.kind {
        StepKind::Standard => {
            if step.options.len() == 0 {
                return false;
            }
            assert(step@.options == options_view(step.options@));
            assert(step@.kind == StepKindView::Standard);
            for i in 0..step.options.len()
                invariant
                    step@.options == options_view(step.options@),
                    step@.kind == StepKindView::Standard,
                    step.options@.len() > 0,
                    forall|k: int| 0 <= k < i ==> (#[trigger] step.options@[k]).next_step_id is Some,
            {
                if step.options[i].next_step_id.is_none() {
                    assert(step@.options[i as int] == step.options@[i as int]@);
                    assert(step@.options[i as int].next_step_id is None);
                    return true;
                }
            }
            assert forall|k: int| 0 <= k < step@.options.len() implies (
            #[trigger] step@.options[k]).next_step_id is Some by {
                assert(step@.options[k] == step.options@[k]@);
            }
            false
        },
        StepKind::Measurement { next_if_normal, next_if_abnormal, .. } => next_if_normal.is_none()
            || next_if_abnormal.is_none(),
        StepKind::SafetyWarning { next_step_id, .. } => next_step_id.is_none(),
        StepKind::Subprocess { next_if_success, next_if_failure, .. } => next_if_success.is_none()
            || next_if_failure.is_none(),
    }
}

/// The warning drawn on `step` of `algo` in the builder.
pub fn lint_step(algo: &Algorithm, step: &Step) -> (r: Option<LintIssue>)
    ensures
        r == lint_of(algo@, step@),
{
    if !incoming_exists(algo, step.id) {
        Some(LintIssue::Unreachable)
    } else if unlinked_exists(step) {
        Some(LintIssue::IncompleteBranches)
    } else {
        None
    }
}

// ---------------------------------------------------------------------------
// Connector letters
// ---------------------------------------------------------------------------

/// The targets of links from `from` (exits `ts`, in order) that are drawn
/// upwards, appended to `acc` when not listed yet.
pub open spec fn upward_from(acc: Seq<u128>, from: u128, ts: Seq<u128>, up: Seq<(u128, u128)>) -> Seq<
    u128,
>
    decreases ts.len(),
{
    if ts.len() == 0 {
        acc
    } else {
        let a = upward_from(acc, from, ts.drop_last(), up);
        let t = ts.last();
        if up.contains((from, t)) && !a.contains(t) {
            a.push(t)
        } else {
            a
        }
    }
}

/// The steps that some link drawn upwards leads to, once each, in the order
/// of the steps the links leave from and then of their exits. `up` lists the
/// links (from, to) that the canvas draws upwards.
pub open spec fn upward_targets(ss: Seq<StepView>, up: Seq<(u128, u128)>) -> Seq<u128>
    decreases ss.len(),
{
    if ss.len() == 0 {
        Seq::empty()
    } else {
        upward_from(upward_targets(ss.drop_last(), up), ss.last().id, targets_of(ss.last()), up)
    }
}

/// The letter of the connector at position `i`: `A` to `Z`, and `A` again
/// from the 27th on.
pub open spec fn connector_letter(i: int) -> Seq<char> {
    if 0 <= i < 26 {
        seq![(65 + i) as char]
    } else {
        seq!['A']
    }
}

fn letter_str(i: usize) -> (r: &'static str)
    ensures
        r@ == connector_letter(i as int),
{
    proof {
        reveal_strlit("A");
        reveal_strlit("B");
        reveal_strlit("C");
        reveal_strlit("D");
        reveal_strlit("E");
        reveal_strlit("F");
        reveal_strlit("G");
        reveal_strlit("H");
        reveal_strlit("I");
        reveal_strlit("J");
        reveal_strlit("K");
        reveal_strlit("L");
        reveal_strlit("M");
        reveal_strlit("N");
        reveal_strlit("O");
        reveal_strlit("P");
        reveal_strlit("Q");
        reveal_strlit("R");
        reveal_strlit("S");
        reveal_strlit("T");
        reveal_strlit("U");
        reveal_strlit("V");
        reveal_strlit("W");
        reveal_strlit("X");
        reveal_strlit("Y");
        reveal_strlit("Z");
    }
    if i == 0 {
        "A"
    } else if i == 1 {
        "B"
    } else if i == 2 {
        "C"
    } else if i == 3 {
        "D"
    } else if i == 4 {
        "E"
    } else if i == 5 {
        "F"
    } else if i == 6 {
        "G"
    } else if i == 7 {
        "H"
    } else if i == 8 {
        "I"
    } else if i == 9 {
        "J"
    } else if i == 10 {
        "K"
    } else if i == 11 {
        "L"
    } else if i == 12 {
        "M"
    } else if i == 13 {
        "N"
    } else if i == 14 {
        "O"
    } else if i == 15 {
        "P"
    } else if i == 16 {
        "Q"
    } else if i == 17 {
        "R"
    } else if i == 18 {
        "S"
    } else if i == 19 {
        "T"
    } else if i == 20 {
        "U"
    } else if i == 21 {
        "V"
    } else if i == 22 {
        "W"
    } else if i == 23 {
        "X"
    } else if i == 24 {
        "Y"
    } else if i == 25 {
        "Z"
    } else {
        "A"
    }
}

fn pair_listed(up: &Vec<(u128, u128)>, a: u128, b: u128) -> (r: bool)
    ensures
        r == up@.contains((a, b)),
{
    for i in 0..up.len()
        invariant
            forall|j: int| 0 <= j < i ==> up@[j] != (a, b),
    {
        if up[i].0 == a && up[i].1 == b {
            assert(up@[i as int] == (a, b));
            return true;
        }
    }
    false
}

/// The letters of the connectors that stand for links drawn upwards: each
/// step that such a link leads to, in the order of `upward_targets`, with the
/// letter of its position. `up` lists the links (from, to) drawn upwards.
pub fn build_connector_letter_map(steps: &Vec<Step>, up: &Vec<(u128, u128)>) -> (r: Vec<
    (u128, String),
>)
    ensures
        r@.len() == upward_targets(steps_view(steps@), up@).len(),
        forall|i: int|
            0 <= i < r@.len() ==> (#[trigger] r@[i]).0 == upward_targets(steps_view(steps@), up@)[i]
                && r@[i].1@ == connector_letter(i),
{
    let ghost ss = steps_view(steps@);
    let mut acc: Vec<u128> = Vec::new();
    for i in 0..steps.len()
        invariant
            ss == steps_view(steps@),
            ss.len() == steps@.len(),
            acc@ == upward_targets(ss.take(i as int), up@),
    {
        let ts = step_targets(&steps[i]);
        let id = steps[i].id;
        let ghost a0 = acc@;
        proof {
            assert(ss.take(i + 1).drop_last() =~= ss.take(i as int));
            assert(ss.take(i + 1).last() == ss[i as int]);
            assert(ss[i as int] == steps@[i as int]@);
        }
        for k in 0..ts.len()
            invariant
                acc@ == upward_from(a0, id, ts@.take(k as int), up@),
        {
            proof {
                assert(ts@.take(k + 1).drop_last() =~= ts@.take(k as int));
                assert(ts@.take(k + 1).last() == ts@[k as int]);
            }
            let t = ts[k];
            if pair_listed(up, id, t) && !seq_contains(&acc, t) {
                acc.push(t);
            }
        }
        proof {
            assert(ts@.take(ts@.len() as int) =~= ts@);
        }
    }
    proof {
        assert(ss.take(ss.len() as int) =~= ss);
    }
    let mut r: Vec<(u128, String)> = Vec::new();
    for i in 0..acc.len()
        invariant
            r@.len() == i,
            forall|j: int|
                0 <= j < i ==> (#[trigger] r@[j]).0 == acc@[j] && r@[j].1@ == connector_letter(j),
    {
        r.push((acc[i], String::from_str(letter_str(i))));
    }
    r
}

// ---------------------------------------------------------------------------
// Laws of the canvas checks
// ---------------------------------------------------------------------------

/// Some exit of step `t` leads to `id`: an option of a standard step, either
/// exit of a measurement or of a sub-procedure, or the exit of a safety
/// warning.
pub open spec fn an_exit_leads_to(t: StepView, id: u128) -> bool {
    match t.kind {
        StepKindView::Standard => exists|k: int|
            0 <= k < t.options.len() && (#[trigger] t.options[k]).next_step_id == Some(id),
        StepKindView::Measurement { next_if_normal, next_if_abnormal, .. } => next_if_normal
            == Some(id) || next_if_abnormal == Some(id),
        StepKindView::SafetyWarning { next_step_id, .. } => next_step_id == Some(id),
        StepKindView::Subprocess { next_if_success, next_if_failure, .. } => next_if_success
            == Some(id) || next_if_failure == Some(id),
    }
}

proof fn lemma_option_targets_contains(opts: Seq<OptionLinkView>, id: u128)
    ensures
        option_targets(opts).contains(id) <==> exists|k: int|
            0 <= k < opts.len() && (#[trigger] opts[k]).next_step_id == Some(id),
    decreases opts.len(),
{
    if opts.len() > 0 {
        let pre = opts.drop_last();
        lemma_option_targets_contains(pre, id);
        let last = opt_target(opts.last().next_step_id);
        let r = option_targets(opts);
        assert(r == option_targets(pre) + last);
        if r.contains(id) {
            let q = choose|q: int| 0 <= q < r.len() && r[q] == id;
            if q < option_targets(pre).len() {
                assert(option_targets(pre).contains(id));
                let k = choose|k: int|
                    0 <= k < pre.len() && (#[trigger] pre[k]).next_step_id == Some(id);
                assert(opts[k] == pre[k]);
            } else {
                assert(last[q - option_targets(pre).len()] == id);
                assert(opts[opts.len() - 1].next_step_id == Some(id));
            }
        }
        if exists|k: int| 0 <= k < opts.len() && (#[trigger] opts[k]).next_step_id == Some(id) {
            let k = choose|k: int|
                0 <= k < opts.len() && (#[trigger] opts[k]).next_step_id == Some(id);
            if k < pre.len() {
                assert(pre[k] == opts[k]);
                assert(option_targets(pre).contains(id));
                let q = choose|q: int|
                    0 <= q < option_targets(pre).len() && option_targets(pre)[q] == id;
                assert(r[q] == id);
            } else {
                assert(r[option_targets(pre).len() as int] == id);
            }
        }
    }
}

proof fn lemma_targets_of_contains(t: StepView, id: u128)
    ensures
        targets_of(t).contains(id) <==> an_exit_leads_to(t, id),
{
    match t.kind {
        StepKindView::Standard => {
            lemma_option_targets_contains(t.options, id);
        },
        StepKindView::Measurement { next_if_normal, next_if_abnormal, .. } => {
            let r = targets_of(t);
            if next_if_normal == Some(id) {
                assert(r[0] == id);
            } else if next_if_abnormal == Some(id) {
                assert(r[opt_target(next_if_normal).len() as int] == id);
            }
        },
        StepKindView::SafetyWarning { next_step_id, .. } => {
            if next_step_id == Some(id) {
                assert(targets_of(t)[0] == id);
            }
        },
        StepKindView::Subprocess { next_if_success, next_if_failure, .. } => {
            let r = targets_of(t);
            if next_if_success == Some(id) {
                assert(r[0] == id);
            } else if next_if_failure == Some(id) {
                assert(r[opt_target(next_if_success).len() as int] == id);
            }
        },
    }
}

/// A step is flagged unreachable exactly when it is not the start step and
/// no exit of any step of the procedure leads to it.
pub proof fn law_lint_unreachable(a: AlgorithmView, s: StepView)
    ensures
        lint_of(a, s) == Some(LintIssue::Unreachable) <==> (a.first_step_id != Some(s.id)
            && forall|j: int| 0 <= j < a.steps.len() ==> !an_exit_leads_to(#[trigger] a.steps[j], s.id)),
{
    assert forall|j: int| 0 <= j < a.steps.len() implies targets_of(#[trigger] a.steps[j]).contains(
        s.id,
    ) == an_exit_leads_to(a.steps[j], s.id) by {
        lemma_targets_of_contains(a.steps[j], s.id);
    }
}

/// A step that is not flagged unreachable is flagged for incomplete
/// branches exactly when one of its exits leads nowhere: an option of a
/// standard step, the normal or the abnormal exit of a measurement, the exit
/// of a safety warning, the success or the failure exit of a sub-procedure;
/// otherwise it gets no warning.
pub proof fn law_lint_incomplete_branches(a: AlgorithmView, s: StepView)
    requires
        lint_of(a, s) != Some(LintIssue::Unreachable),
    ensures
        lint_of(a, s) == Some(LintIssue::IncompleteBranches) <==> match s.kind {
            StepKindView::Standard => exists|k: int|
                0 <= k < s.options.len() && (#[trigger] s.options[k]).next_step_id is None,
            StepKindView::Measurement { next_if_normal, next_if_abnormal, .. } => next_if_normal
                is None || next_if_abnormal is None,
            StepKindView::SafetyWarning { next_step_id, .. } => next_step_id is None,
            StepKindView::Subprocess { next_if_success, next_if_failure, .. } => next_if_success
                is None || next_if_failure is None,
        },
        lint_of(a, s) is None || lint_of(a, s) == Some(LintIssue::IncompleteBranches),
{
}

} // verus!
