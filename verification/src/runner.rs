//! The diagnostic runner: it walks a procedure step by step, keeps the route
//! taken, enters nested sub-procedures and comes back out of them through
//! their success or failure exit.
use vstd::prelude::*;

use crate::editor::{
    same_archive, same_prefs, same_saved, same_search, same_tab, AlgoApp,
};
use crate::layout::{find_step_index, index_of_id, lemma_index_of_id};
use crate::models::{steps_view, Algorithm, AlgorithmView, StepKind, StepKindView};

verus! {

broadcast use {crate::models::lemma_steps_view_index, crate::models::lemma_steps_view_len};

/// Where the runner came from when it entered a sub-procedure.
#[derive(Debug)]
pub struct RunnerCallFrame {
    /// The sub-procedure step of the parent procedure.
    pub parent_step_id: u128,
    /// The parent procedure.
    pub parent_algo: Algorithm,
    /// The route taken in the parent procedure.
    pub parent_history: Vec<u128>,
    /// Whether an abnormal measurement was met in the parent before entering.
    pub had_abnormality: bool,
}

/// The state of a diagnostic run.
#[derive(Debug)]
pub struct RunnerState {
    /// The step shown, if any; none once the run is finished.
    pub current_step_id: Option<u128>,
    /// The steps passed in the current procedure, oldest first.
    pub history: Vec<u128>,
    /// The text typed for the current measurement.
    pub measurement_input: String,
    /// Whether the current safety warning is acknowledged.
    pub safety_acknowledged: bool,
    /// The sub-procedures entered, outermost first.
    pub call_stack: Vec<RunnerCallFrame>,
    /// Whether an abnormal measurement was met in the current procedure.
    pub had_abnormality: bool,
}

pub ghost struct CallFrameView {
    pub parent_step_id: u128,
    pub parent_algo: AlgorithmView,
    pub parent_history: Seq<u128>,
    pub had_abnormality: bool,
}

pub ghost struct RunnerView {
    pub current_step_id: Option<u128>,
    pub history: Seq<u128>,
    pub measurement_input: Seq<char>,
    pub safety_acknowledged: bool,
    pub call_stack: Seq<CallFrameView>,
    pub had_abnormality: bool,
}

impl View for RunnerCallFrame {
    type V = CallFrameView;

    open spec fn view(&self) -> CallFrameView {
        CallFrameView {
            parent_step_id: self.parent_step_id,
            parent_algo: self.parent_algo@,
            parent_history: self.parent_history@,
            had_abnormality: self.had_abnormality,
        }
    }
}

pub open spec fn frames_view(s: Seq<RunnerCallFrame>) -> Seq<CallFrameView> {
    s.map_values(|f: RunnerCallFrame| f@)
}

impl View for RunnerState {
    type V = RunnerView;

    open spec fn view(&self) -> RunnerView {
        RunnerView {
            current_step_id: self.current_step_id,
            history: self.history@,
            measurement_input: self.measurement_input@,
            safety_acknowledged: self.safety_acknowledged,
            call_stack: frames_view(self.call_stack@),
            had_abnormality: self.had_abnormality,
        }
    }
}

impl Default for RunnerState {
    /// A run that has not started.
    fn default() -> (r: Self)
        ensures
            r@ == (RunnerView {
                current_step_id: None,
                history: Seq::empty(),
                measurement_input: Seq::empty(),
                safety_acknowledged: false,
                call_stack: Seq::empty(),
                had_abnormality: false,
            }),
    {
        let r = RunnerState {
            current_step_id: None,
            history: Vec::new(),
            measurement_input: String::new(),
            safety_acknowledged: false,
            call_stack: Vec::new(),
            had_abnormality: false,
        };
        assert(frames_view(r.call_stack@) =~= Seq::<CallFrameView>::empty());
        r
    }
}

// ---------------------------------------------------------------------------
// Moving through a run
// ---------------------------------------------------------------------------

/// The procedure shown by the runner and the state of the run.
pub ghost struct RunState {
    pub algo: AlgorithmView,
    pub runner: RunnerView,
}

/// The nested procedure of step `id` of `a`, when that step is a
/// sub-procedure.
pub open spec fn subprocess_at(a: AlgorithmView, id: u128) -> Option<AlgorithmView> {
    match index_of_id(a.steps, id) {
        Some(i) => match a.steps[i].kind {
            StepKindView::Subprocess { sub_algo, .. } => Some(sub_algo),
            _ => None,
        },
        None => None,
    }
}

/// Where the run continues after the sub-procedure of step `id` of `a`
/// ends: its failure exit when an abnormal measurement was met in it, else
/// its success exit.
pub open spec fn exit_of(a: AlgorithmView, id: u128, failed: bool) -> Option<u128> {
    match index_of_id(a.steps, id) {
        Some(i) => match a.steps[i].kind {
            StepKindView::Subprocess { next_if_success, next_if_failure, .. } => if failed {
                next_if_failure
            } else {
                next_if_success
            },
            _ => None,
        },
        None => None,
    }
}

/// The run with the current step added to the route.
pub open spec fn recorded(st: RunState) -> RunState {
    RunState {
        algo: st.algo,
        runner: RunnerView {
            history: match st.runner.current_step_id {
                Some(c) => st.runner.history.push(c),
                None => st.runner.history,
            },
            ..st.runner
        },
    }
}

/// The run after entering the nested procedure `sub` of step `nid`: the
/// parent procedure, its route and its abnormality record are kept in a new
/// frame, and the run starts at the start step of `sub` with a fresh route.
pub open spec fn entered(st: RunState, nid: u128, sub: AlgorithmView) -> RunState {
    let r = st.runner;
    RunState {
        algo: sub,
        runner: RunnerView {
            current_step_id: sub.first_step_id,
            history: Seq::empty(),
            measurement_input: Seq::empty(),
            safety_acknowledged: false,
            call_stack: r.call_stack.push(
                CallFrameView {
                    parent_step_id: nid,
                    parent_algo: st.algo,
                    parent_history: r.history,
                    had_abnormality: r.had_abnormality,
                },
            ),
            had_abnormality: false,
        },
    }
}

/// The run after the innermost nested procedure ends: the parent procedure
/// is shown again, the sub-procedure step joins its route, and the run goes
/// on at the failure exit when an abnormal measurement was met inside, else
/// at the success exit.
pub open spec fn left(st: RunState) -> RunState {
    let r = st.runner;
    let f = r.call_stack.last();
    RunState {
        algo: f.parent_algo,
        runner: RunnerView {
            current_step_id: exit_of(f.parent_algo, f.parent_step_id, r.had_abnormality),
            history: f.parent_history.push(f.parent_step_id),
            measurement_input: Seq::empty(),
            safety_acknowledged: false,
            call_stack: r.call_stack.drop_last(),
            had_abnormality: f.had_abnormality || r.had_abnormality,
        },
    }
}

/// The run showing `next`, with the typed measurement and the
/// acknowledgement cleared.
pub open spec fn shown(st: RunState, next: Option<u128>) -> RunState {
    RunState {
        algo: st.algo,
        runner: RunnerView {
            current_step_id: next,
            measurement_input: Seq::empty(),
            safety_acknowledged: false,
            ..st.runner
        },
    }
}

/// The run after moving on to `next`. The current step joins the route.
/// Moving to a sub-procedure step enters its nested procedure; moving
/// nowhere inside a nested procedure leaves it; any other move just shows
/// `next`.
pub open spec fn navigated(st: RunState, next: Option<u128>) -> RunState {
    let st1 = recorded(st);
    if next is Some && subprocess_at(st.algo, next->0) is Some {
        entered(st1, next->0, subprocess_at(st.algo, next->0)->0)
    } else if next is None && st.runner.call_stack.len() > 0 {
        left(st1)
    } else {
        shown(st1, next)
    }
}

/// The run after a step back: the last step of the route is shown again;
/// at the start of a nested procedure the run goes back to the
/// sub-procedure step of the parent procedure. Nothing changes at the very
/// start of a run.
pub open spec fn stepped_back(st: RunState) -> RunState {
    let r = st.runner;
    if r.history.len() > 0 {
        RunState {
            algo: st.algo,
            runner: RunnerView {
                current_step_id: Some(r.history.last()),
                history: r.history.drop_last(),
                measurement_input: Seq::empty(),
                safety_acknowledged: false,
                ..r
            },
        }
    } else if r.call_stack.len() > 0 {
        let f = r.call_stack.last();
        RunState {
            algo: f.parent_algo,
            runner: RunnerView {
                current_step_id: Some(f.parent_step_id),
                history: f.parent_history,
                measurement_input: Seq::empty(),
                safety_acknowledged: false,
                call_stack: r.call_stack.drop_last(),
                had_abnormality: f.had_abnormality,
            },
        }
    } else {
        st
    }
}

/// The run started anew at the start step of the outermost procedure.
pub open spec fn restarted(st: RunState) -> RunState {
    let algo = if st.runner.call_stack.len() > 0 {
        st.runner.call_stack[0].parent_algo
    } else {
        st.algo
    };
    RunState {
        algo,
        runner: RunnerView {
            current_step_id: algo.first_step_id,
            history: Seq::empty(),
            measurement_input: Seq::empty(),
            safety_acknowledged: false,
            call_stack: Seq::empty(),
            had_abnormality: false,
        },
    }
}

/// The run taken back to the `idx`-th step of the route, which is shown
/// again; the route keeps the steps before it.
pub open spec fn rolled_back(st: RunState, idx: int) -> RunState {
    RunState {
        algo: st.algo,
        runner: RunnerView {
            current_step_id: Some(st.runner.history[idx]),
            history: st.runner.history.take(idx),
            measurement_input: Seq::empty(),
            safety_acknowledged: false,
            ..st.runner
        },
    }
}

/// Everything but the procedure shown and the run is unchanged.
pub open spec fn run_frame(a: &AlgoApp, b: &AlgoApp) -> bool {
    &&& same_tab(a, b)
    &&& same_prefs(a, b)
    &&& same_saved(a, b)
    &&& same_search(a, b)
    &&& same_archive(a, b)
    &&& a.undo_stack@ == b.undo_stack@
    &&& a.redo_stack@ == b.redo_stack@
    &&& a.selected_step_ids@ == b.selected_step_ids@
}

fn exit_target(a: &Algorithm, id: u128, failed: bool) -> (r: Option<u128>)
    ensures
        r == exit_of(a@, id, failed),
{
    proof {
        assert(a@.steps == steps_view(a.steps@));
        lemma_index_of_id(a@.steps, id);
    }
    match find_step_index(&a.steps, id) {
        Some(i) => {
            assert(a@.steps[i as int] == a.steps@[i as int]@);
            match &a.steps[i].kind {
                StepKind::Subprocess { next_if_success, next_if_failure, .. } => {
                    if failed {
                        *next_if_failure
                    } else {
                        *next_if_success
                    }
                },
                _ => None,
            }
        },
        None => None,
    }
}

fn subprocess_copy(a: &Algorithm, id: u128) -> (r: Option<Algorithm>)
    ensures
        match r {
            Some(s) => subprocess_at(a@, id) == Some(s@),
            None => subprocess_at(a@, id) is None,
        },
{
    proof {
        assert(a@.steps == steps_view(a.steps@));
        lemma_index_of_id(a@.steps, id);
    }
    match find_step_index(&a.steps, id) {
        Some(i) => {
            assert(a@.steps[i as int] == a.steps@[i as int]@);
            match &a.steps[i].kind {
                StepKind::Subprocess { sub_algo, .. } => Some(sub_algo.deep_clone()),
                _ => None,
            }
        },
        None => None,
    }
}

impl AlgoApp {
    /// The procedure shown by the runner and the state of the run.
    pub open spec fn run_state(&self) -> RunState {
        RunState { algo: self.active_algo@, runner: self.runner@ }
    }

    fn record_current(&mut self)
        ensures
            final(self).run_state() == recorded(old(self).run_state()),
            run_frame(old(self), final(self)),
    {
        if let Some(curr) = self.runner.current_step_id {
            self.runner.history.push(curr);
        }
    }

    fn enter_subprocess(&mut self, nid: u128, sub: Algorithm)
        ensures
            final(self).run_state() == entered(old(self).run_state(), nid, sub@),
            run_frame(old(self), final(self)),
    {
        let first = sub.first_step_id;
        let mut parent = sub;
        std::mem::swap(&mut self.active_algo, &mut parent);
        let mut parent_history: Vec<u128> = Vec::new();
        std::mem::swap(&mut parent_history, &mut self.runner.history);
        let frame = RunnerCallFrame {
            parent_step_id: nid,
            parent_algo: parent,
            parent_history,
            had_abnormality: self.runner.had_abnormality,
        };
        let ghost frames0 = frames_view(self.runner.call_stack@);
        self.runner.call_stack.push(frame);
        assert(frames_view(self.runner.call_stack@) =~= frames0.push(frame@));
        self.runner.had_abnormality = false;
        self.runner.current_step_id = first;
        self.runner.measurement_input = String::new();
        self.runner.safety_acknowledged = false;
    }

    fn leave_subprocess(&mut self)
        requires
            old(self).runner.call_stack@.len() > 0,
        ensures
            final(self).run_state() == left(old(self).run_state()),
            run_frame(old(self), final(self)),
    {
        let ghost frames0 = frames_view(self.runner.call_stack@);
        if let Some(frame) = self.runner.call_stack.pop() {
            assert(frames_view(self.runner.call_stack@) =~= frames0.drop_last());
            let sub_had = self.runner.had_abnormality;
            let RunnerCallFrame { parent_step_id, parent_algo, parent_history, had_abnormality } =
                frame;
            let target = exit_target(&parent_algo, parent_step_id, sub_had);
            self.active_algo = parent_algo;
            self.runner.history = parent_history;
            self.runner.history.push(parent_step_id);
            self.runner.had_abnormality = had_abnormality || sub_had;
            self.runner.current_step_id = target;
            self.runner.measurement_input = String::new();
            self.runner.safety_acknowledged = false;
        }
    }

    fn show_step(&mut self, next_id: Option<u128>)
        ensures
            final(self).run_state() == shown(old(self).run_state(), next_id),
            run_frame(old(self), final(self)),
    {
        self.runner.current_step_id = next_id;
        self.runner.measurement_input = String::new();
        self.runner.safety_acknowledged = false;
    }

    /// Moves the run on to `next` (see `navigated`) and returns the step now
    /// shown, for the canvas to bring into view.
    pub fn navigate_runner(&mut self, next_id: Option<u128>) -> (focus: Option<u128>)
        ensures
            final(self).run_state() == navigated(old(self).run_state(), next_id),
            focus == final(self).runner.current_step_id,
            run_frame(old(self), final(self)),
    {
        let sub = match next_id {
            Some(nid) => subprocess_copy(&self.active_algo, nid),
            None => None,
        };
        let leaving = next_id.is_none() && self.runner.call_stack.len() > 0;
        self.record_current();
        match sub {
            Some(s) => {
                self.enter_subprocess(next_id.unwrap(), s);
            },
            None => {
                if leaving {
                    self.leave_subprocess();
                } else {
                    self.show_step(next_id);
                }
            },
        }
        self.runner.current_step_id
    }

    /// Records that a measurement was out of tolerance and moves the run on
    /// to `next` (see `navigated`).
    pub fn report_abnormal(&mut self, next_id: Option<u128>) -> (focus: Option<u128>)
        ensures
            final(self).run_state() == navigated(
                RunState {
                    algo: old(self).active_algo@,
                    runner: RunnerView { had_abnormality: true, ..old(self).runner@ },
                },
                next_id,
            ),
            focus == final(self).runner.current_step_id,
            run_frame(old(self), final(self)),
    {
        self.runner.had_abnormality = true;
        self.navigate_runner(next_id)
    }

    /// Takes the run one step back (see `stepped_back`) and returns the step
    /// now shown, if the run moved.
    pub fn navigate_runner_back(&mut self) -> (focus: Option<u128>)
        ensures
            final(self).run_state() == stepped_back(old(self).run_state()),
            focus == (if old(self).runner@.history.len() > 0 || old(
                self,
            ).runner@.call_stack.len() > 0 {
                final(self).runner.current_step_id
            } else {
                None
            }),
            run_frame(old(self), final(self)),
    {
        if let Some(prev) = self.runner.history.pop() {
            self.runner.current_step_id = Some(prev);
            self.runner.measurement_input = String::new();
            self.runner.safety_acknowledged = false;
            return Some(prev);
        }
        let ghost frames0 = frames_view(self.runner.call_stack@);
        if let Some(frame) = self.runner.call_stack.pop() {
            assert(frames_view(self.runner.call_stack@) =~= frames0.drop_last());
            let RunnerCallFrame { parent_step_id, parent_algo, parent_history, had_abnormality } =
                frame;
            self.active_algo = parent_algo;
            self.runner.history = parent_history;
            self.runner.had_abnormality = had_abnormality;
            self.runner.current_step_id = Some(parent_step_id);
            self.runner.measurement_input = String::new();
            self.runner.safety_acknowledged = false;
            return Some(parent_step_id);
        }
        None
    }

    /// Starts the run anew (see `restarted`) and returns its start step.
    pub fn reset_runner(&mut self) -> (focus: Option<u128>)
        ensures
            final(self).run_state() == restarted(old(self).run_state()),
            focus == final(self).runner.current_step_id,
            run_frame(old(self), final(self)),
    {
        if self.runner.call_stack.len() > 0 {
            let mut stack: Vec<RunnerCallFrame> = Vec::new();
            std::mem::swap(&mut stack, &mut self.runner.call_stack);
            let first = stack.swap_remove(0);
            proof {
                assert(first@ == frames_view(old(self).runner.call_stack@)[0]);
            }
            self.active_algo = first.parent_algo;
        }
        self.runner.call_stack = Vec::new();
        assert(frames_view(self.runner.call_stack@) =~= Seq::<CallFrameView>::empty());
        self.runner.had_abnormality = false;
        self.runner.current_step_id = self.active_algo.first_step_id;
        self.runner.history = Vec::new();
        self.runner.measurement_input = String::new();
        self.runner.safety_acknowledged = false;
        self.runner.current_step_id
    }

    /// A copy of the outermost procedure of the run: the procedure the first
    /// entered sub-procedure was left from, or the procedure shown.
    pub fn root_procedure(&self) -> (r: Algorithm)
        ensures
            r@ == restarted(self.run_state()).algo,
    {
        if self.runner.call_stack.len() > 0 {
            proof {
                assert(self.runner.call_stack@[0]@ == frames_view(self.runner.call_stack@)[0]);
            }
            self.runner.call_stack[0].parent_algo.deep_clone()
        } else {
            self.active_algo.deep_clone()
        }
    }

    /// Takes the run back to the `idx`-th step of its route (see
    /// `rolled_back`) and returns that step.
    pub fn rollback_runner_to(&mut self, idx: usize) -> (focus: u128)
        requires
            idx < old(self).runner.history@.len(),
        ensures
            final(self).run_state() == rolled_back(old(self).run_state(), idx as int),
            focus == old(self).runner.history@[idx as int],
            run_frame(old(self), final(self)),
    {
        let target = self.runner.history[idx];
        self.runner.history.truncate(idx);
        self.runner.current_step_id = Some(target);
        self.runner.measurement_input = String::new();
        self.runner.safety_acknowledged = false;
        target
    }
}

/// A step back after an ordinary move gives back the step and the route of
/// before the move.
pub proof fn law_back_undoes_step(st: RunState, next: Option<u128>)
    requires
        st.runner.current_step_id is Some,
        !(next is Some && subprocess_at(st.algo, next->0) is Some),
        !(next is None && st.runner.call_stack.len() > 0),
    ensures
        stepped_back(navigated(st, next)) == (RunState {
            algo: st.algo,
            runner: RunnerView {
                measurement_input: Seq::empty(),
                safety_acknowledged: false,
                ..st.runner
            },
        }),
{
    assert(st.runner.history.push(st.runner.current_step_id->0).drop_last() =~= st.runner.history);
}

/// A step back right after entering a sub-procedure returns to the parent
/// procedure, on the sub-procedure step, with the route and the abnormality
/// record of before.
pub proof fn law_back_leaves_entered_subprocess(st: RunState, nid: u128)
    requires
        subprocess_at(st.algo, nid) is Some,
    ensures
        stepped_back(navigated(st, Some(nid))) == (RunState {
            algo: st.algo,
            runner: RunnerView {
                current_step_id: Some(nid),
                history: match st.runner.current_step_id {
                    Some(c) => st.runner.history.push(c),
                    None => st.runner.history,
                },
                measurement_input: Seq::empty(),
                safety_acknowledged: false,
                call_stack: st.runner.call_stack,
                had_abnormality: st.runner.had_abnormality,
            },
        }),
{
    let s1 = navigated(st, Some(nid));
    assert(s1.runner.call_stack.drop_last() =~= st.runner.call_stack);
}

/// Moving on to a sub-procedure step `nid` (the first step of the procedure
/// with that identifier) enters its nested procedure: the run starts at the
/// nested start step with an empty route and no abnormality recorded, and a
/// new frame keeps the parent procedure, its route (with the step left) and
/// its abnormality record.
pub proof fn law_entering_a_sub_procedure(st: RunState, nid: u128, i: int)
    requires
        0 <= i < st.algo.steps.len(),
        st.algo.steps[i].id == nid,
        forall|j: int| 0 <= j < i ==> st.algo.steps[j].id != nid,
        st.algo.steps[i].kind is Subprocess,
    ensures
        ({
            let r = navigated(st, Some(nid));
            let sub = st.algo.steps[i].kind->Subprocess_sub_algo;
            &&& r.algo == sub
            &&& r.runner.current_step_id == sub.first_step_id
            &&& r.runner.history == Seq::<u128>::empty()
            &&& !r.runner.had_abnormality
            &&& r.runner.call_stack.len() == st.runner.call_stack.len() + 1
            &&& r.runner.call_stack.drop_last() == st.runner.call_stack
            &&& r.runner.call_stack.last().parent_step_id == nid
            &&& r.runner.call_stack.last().parent_algo == st.algo
            &&& r.runner.call_stack.last().had_abnormality == st.runner.had_abnormality
            &&& r.runner.call_stack.last().parent_history == match st.runner.current_step_id {
                Some(c) => st.runner.history.push(c),
                None => st.runner.history,
            }
        }),
{
    lemma_index_of_id(st.algo.steps, nid);
    let r = navigated(st, Some(nid));
    assert(r.runner.call_stack.drop_last() =~= st.runner.call_stack);
}

/// When the run reaches the end of a nested procedure (it moves on to no
/// step), the parent procedure is shown again and the run continues at the
/// failure exit of the sub-procedure step exactly when an abnormal
/// measurement was reported inside the nested procedure (the runner's record
/// at that moment), else at its success exit; what the parent had recorded
/// before entering does not choose the exit. The parent's route gains the
/// sub-procedure step, the frame is dropped, and the abnormality record of
/// the parent becomes its own record or the one from inside.
pub proof fn law_leaving_takes_the_exit_of_what_happened_inside(st: RunState, i: int)
    requires
        st.runner.call_stack.len() > 0,
        0 <= i < st.runner.call_stack.last().parent_algo.steps.len(),
        st.runner.call_stack.last().parent_algo.steps[i].id
            == st.runner.call_stack.last().parent_step_id,
        forall|j: int|
            0 <= j < i ==> st.runner.call_stack.last().parent_algo.steps[j].id
                != st.runner.call_stack.last().parent_step_id,
        st.runner.call_stack.last().parent_algo.steps[i].kind is Subprocess,
    ensures
        ({
            let f = st.runner.call_stack.last();
            let k = f.parent_algo.steps[i].kind;
            let r = navigated(st, None);
            &&& r.algo == f.parent_algo
            &&& r.runner.current_step_id == if st.runner.had_abnormality {
                k->Subprocess_next_if_failure
            } else {
                k->Subprocess_next_if_success
            }
            &&& r.runner.history == f.parent_history.push(f.parent_step_id)
            &&& r.runner.call_stack == st.runner.call_stack.drop_last()
            &&& r.runner.had_abnormality == (f.had_abnormality || st.runner.had_abnormality)
        }),
{
    let f = st.runner.call_stack.last();
    lemma_index_of_id(f.parent_algo.steps, f.parent_step_id);
    let r = navigated(st, None);
    assert(recorded(st).runner.call_stack == st.runner.call_stack);
}

/// Which exit a nested procedure leaves by does not depend on the
/// abnormality record kept for the parent: two runs that differ only in
/// that record continue at the same step.
pub proof fn law_exit_ignores_the_parent_record(st: RunState, parent_had: bool)
    requires
        st.runner.call_stack.len() > 0,
    ensures
        ({
            let n = st.runner.call_stack.len();
            let f = st.runner.call_stack.last();
            let other = RunState {
                runner: RunnerView {
                    call_stack: st.runner.call_stack.update(
                        n - 1,
                        CallFrameView { had_abnormality: parent_had, ..f },
                    ),
                    ..st.runner
                },
                ..st
            };
            navigated(other, None).runner.current_step_id == navigated(
                st,
                None,
            ).runner.current_step_id
        }),
{
}

} // verus!
