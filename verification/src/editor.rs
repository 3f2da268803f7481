//! The state of the editor: the procedure being edited, the undo and redo
//! history, the selection on the canvas, the search over steps, the
//! diagnostic run and the archive catalogue, with the operations the
//! interface performs on them.
use std::collections::HashSet;
use vstd::prelude::*;

use crate::i18n::Language;
use crate::ids::new_uuid;
use crate::models::{is_random_uuid, same_procedure, steps_view, Algorithm, AlgorithmView, StepView, WireStyle};
use crate::runner::{restarted, run_frame, RunnerState, RunnerView};
use crate::settings::AppSettings;
use crate::text::{has_substring, lowercase, str_contains, to_lower, trim_str, trimmed};

verus! {

broadcast use {
    vstd::std_specs::hash::group_hash_axioms,
    crate::models::lemma_steps_view_index,
    crate::models::lemma_steps_view_len,
};

/// The most snapshots the undo history keeps.
pub const MAX_UNDO_DEPTH: usize = 40;

/// The editor.
pub struct AlgoApp {
    /// The tab shown: "Конструктор", "Диагностика" or "Архив".
    pub current_tab: String,
    pub settings: AppSettings,
    /// The procedure being edited or run.
    pub active_algo: Algorithm,
    /// The procedure as last saved or loaded.
    pub last_saved_algo: Option<Algorithm>,
    /// Earlier states of the procedure, oldest first.
    pub undo_stack: Vec<Algorithm>,
    /// Undone states of the procedure, the most recently undone last.
    pub redo_stack: Vec<Algorithm>,
    /// The steps selected on the canvas.
    pub selected_step_ids: HashSet<u128>,
    pub show_search_bar: bool,
    pub search_query: String,
    /// The steps whose title or description contains the query.
    pub search_results: Vec<u128>,
    /// The position of the highlighted match in `search_results`.
    pub current_search_idx: usize,
    pub runner: RunnerState,
    pub show_passport_modal: bool,
    pub show_close_modal: bool,
    pub force_close: bool,
    /// The saved procedures, the most recently updated first.
    pub archive_list: Vec<Algorithm>,
    pub archive_search: String,
    pub archive_loaded: bool,
    pub archive_selected_mfg: Option<String>,
    pub archive_selected_model: Option<String>,
    /// The archived procedure the user asked to delete, and its name.
    pub confirm_delete_target: Option<(u128, String)>,
}

pub open spec fn algos_view(s: Seq<Algorithm>) -> Seq<AlgorithmView> {
    s.map_values(|a: Algorithm| a@)
}

pub open spec fn opt_algo_view(o: Option<Algorithm>) -> Option<AlgorithmView> {
    match o {
        Some(a) => Some(a@),
        None => None,
    }
}

pub open spec fn opt_text_view(o: Option<String>) -> Option<Seq<char>> {
    match o {
        Some(s) => Some(s@),
        None => None,
    }
}

// ---------------------------------------------------------------------------
// Undo and redo
// ---------------------------------------------------------------------------

/// The procedure with its undo and redo history.
pub ghost struct History {
    pub active: AlgorithmView,
    pub undo: Seq<AlgorithmView>,
    pub redo: Seq<AlgorithmView>,
}

/// The history after a snapshot is taken before an edit: unless the latest
/// snapshot already equals the procedure (as `same_procedure` compares),
/// the procedure is pushed (the
/// oldest snapshot dropped beyond the depth limit) and the redo history is
/// cleared.
pub open spec fn snapshotted(h: History) -> History {
    if h.undo.len() > 0 && same_procedure(h.undo.last(), h.active) {
        h
    } else {
        let u = h.undo.push(h.active);
        History {
            active: h.active,
            undo: if u.len() > MAX_UNDO_DEPTH {
                u.drop_first()
            } else {
                u
            },
            redo: Seq::empty(),
        }
    }
}

/// The history after an undo: the latest snapshot becomes the procedure and
/// the procedure goes to the redo history. Nothing changes when there is no
/// snapshot.
pub open spec fn undone(h: History) -> History {
    if h.undo.len() == 0 {
        h
    } else {
        History { active: h.undo.last(), undo: h.undo.drop_last(), redo: h.redo.push(h.active) }
    }
}

/// The history after a redo: the most recently undone state becomes the
/// procedure and the procedure goes back to the undo history. Nothing
/// changes when nothing was undone.
pub open spec fn redone(h: History) -> History {
    if h.redo.len() == 0 {
        h
    } else {
        History { active: h.redo.last(), undo: h.undo.push(h.active), redo: h.redo.drop_last() }
    }
}

/// The procedure has a step with identifier `id`.
pub open spec fn has_step(a: AlgorithmView, id: u128) -> bool {
    exists|i: int| 0 <= i < a.steps.len() && (#[trigger] a.steps[i]).id == id
}

/// The selection `sel` without the steps that `a` does not have.
pub open spec fn retained(sel: Set<u128>, a: AlgorithmView) -> Set<u128> {
    sel.filter(|id: u128| has_step(a, id))
}

/// The tab shown is the same in `a` and `b`.
pub open spec fn same_tab(a: &AlgoApp, b: &AlgoApp) -> bool {
    a.current_tab@ == b.current_tab@
}

/// The preferences, the open dialogs and the search text are the same.
pub open spec fn same_prefs(a: &AlgoApp, b: &AlgoApp) -> bool {
    &&& a.settings == b.settings
    &&& a.show_search_bar == b.show_search_bar
    &&& a.search_query@ == b.search_query@
    &&& a.show_passport_modal == b.show_passport_modal
    &&& a.show_close_modal == b.show_close_modal
    &&& a.force_close == b.force_close
}

/// The procedure last saved or loaded is the same.
pub open spec fn same_saved(a: &AlgoApp, b: &AlgoApp) -> bool {
    opt_algo_view(a.last_saved_algo) == opt_algo_view(b.last_saved_algo)
}

/// The search matches and the highlighted match are the same.
pub open spec fn same_search(a: &AlgoApp, b: &AlgoApp) -> bool {
    &&& a.search_results@ == b.search_results@
    &&& a.current_search_idx == b.current_search_idx
}

/// The diagnostic run is the same.
pub open spec fn same_runner(a: &AlgoApp, b: &AlgoApp) -> bool {
    a.runner@ == b.runner@
}

/// The archive catalogue and its filters are the same.
pub open spec fn same_archive(a: &AlgoApp, b: &AlgoApp) -> bool {
    &&& algos_view(a.archive_list@) == algos_view(b.archive_list@)
    &&& a.archive_search@ == b.archive_search@
    &&& a.archive_loaded == b.archive_loaded
    &&& opt_text_view(a.archive_selected_mfg) == opt_text_view(b.archive_selected_mfg)
    &&& opt_text_view(a.archive_selected_model) == opt_text_view(b.archive_selected_model)
    &&& a.confirm_delete_target matches Some(t) ==> b.confirm_delete_target matches Some(u) && t.0
        == u.0 && t.1@ == u.1@
    &&& a.confirm_delete_target is None ==> b.confirm_delete_target is None
}

/// Everything but the procedure, its history and the selection is the same
/// in `a` and `b`.
pub open spec fn same_surroundings(a: &AlgoApp, b: &AlgoApp) -> bool {
    &&& same_tab(a, b)
    &&& same_prefs(a, b)
    &&& same_saved(a, b)
    &&& same_search(a, b)
    &&& same_runner(a, b)
    &&& same_archive(a, b)
}

impl AlgoApp {
    /// The procedure with its undo and redo history.
    pub open spec fn history(&self) -> History {
        History {
            active: self.active_algo@,
            undo: algos_view(self.undo_stack@),
            redo: algos_view(self.redo_stack@),
        }
    }

    /// The undo and redo histories together hold at most `MAX_UNDO_DEPTH`
    /// states.
    pub open spec fn history_ok(&self) -> bool {
        self.undo_stack@.len() + self.redo_stack@.len() <= MAX_UNDO_DEPTH
    }

    /// Records the procedure in the undo history before an edit (see
    /// `snapshotted`).
    pub fn snapshot_for_undo(&mut self)
        ensures
            final(self).history() == snapshotted(old(self).history()),
            old(self).history_ok() ==> final(self).history_ok(),
            final(self).selected_step_ids@ == old(self).selected_step_ids@,
            same_surroundings(old(self), final(self)),
    {
        let ghost h = self.history();
        let n = self.undo_stack.len();
        let same_top = n > 0 && self.undo_stack[n - 1].equals(&self.active_algo);
        if !same_top {
            let copy = self.active_algo.deep_clone();
            self.undo_stack.push(copy);
            assert(algos_view(self.undo_stack@) =~= h.undo.push(h.active));
            if self.undo_stack.len() > MAX_UNDO_DEPTH {
                let ghost u = algos_view(self.undo_stack@);
                self.undo_stack.remove(0);
                assert(algos_view(self.undo_stack@) =~= u.drop_first());
            }
            self.redo_stack.clear();
            assert(algos_view(self.redo_stack@) =~= Seq::<AlgorithmView>::empty());
        }
    }

    /// Keeps selected only the steps that the procedure has.
    fn retain_selection(&mut self)
        ensures
            final(self).selected_step_ids@ == retained(
                old(self).selected_step_ids@,
                old(self).active_algo@,
            ),
            final(self).history() == old(self).history(),
            final(self).undo_stack@.len() == old(self).undo_stack@.len(),
            final(self).redo_stack@.len() == old(self).redo_stack@.len(),
            same_surroundings(old(self), final(self)),
    {
        let ghost a = self.active_algo@;
        let ghost sel = self.selected_step_ids@;
        let mut kept: HashSet<u128> = HashSet::new();
        let n = self.active_algo.steps.len();
        assert(a.steps == steps_view(self.active_algo.steps@));
        for i in 0..n
            invariant
                n == a.steps.len(),
                a == self.active_algo@,
                a.steps == steps_view(self.active_algo.steps@),
                sel == self.selected_step_ids@,
                kept@ == Set::new(
                    |id: u128|
                        sel.contains(id) && exists|j: int|
                            0 <= j < i && (#[trigger] a.steps[j]).id == id,
                ),
        {
            let id = self.active_algo.steps[i].id;
            assert(a.steps[i as int] == self.active_algo.steps@[i as int]@);
            if self.selected_step_ids.contains(&id) {
                kept.insert(id);
            }
            assert(kept@ =~= Set::new(
                |x: u128| sel.contains(x) && exists|j: int| 0 <= j < i + 1 && (#[trigger] a.steps[j]).id == x,
            ));
        }
        assert(kept@ =~= retained(sel, a));
        self.selected_step_ids = kept;
    }

    /// Undoes the last edit (see `undone`); the selection keeps only steps
    /// of the restored procedure.
    pub fn undo(&mut self)
        ensures
            final(self).history() == undone(old(self).history()),
            old(self).history_ok() ==> final(self).history_ok(),
            old(self).undo_stack@.len() > 0 ==> final(self).selected_step_ids@ == retained(
                old(self).selected_step_ids@,
                final(self).active_algo@,
            ),
            old(self).undo_stack@.len() == 0 ==> final(self).selected_step_ids@ == old(
                self,
            ).selected_step_ids@,
            same_surroundings(old(self), final(self)),
    {
        let ghost h = self.history();
        match self.undo_stack.pop() {
            Some(prev) => {
                assert(algos_view(self.undo_stack@) =~= h.undo.drop_last());
                let mut prev = prev;
                std::mem::swap(&mut self.active_algo, &mut prev);
                self.redo_stack.push(prev);
                assert(algos_view(self.redo_stack@) =~= h.redo.push(h.active));
                self.retain_selection();
            },
            None => {},
        }
    }

    /// Redoes the last undone edit (see `redone`); the selection keeps only
    /// steps of the restored procedure.
    pub fn redo(&mut self)
        ensures
            final(self).history() == redone(old(self).history()),
            old(self).history_ok() ==> final(self).history_ok(),
            old(self).redo_stack@.len() > 0 ==> final(self).selected_step_ids@ == retained(
                old(self).selected_step_ids@,
                final(self).active_algo@,
            ),
            old(self).redo_stack@.len() == 0 ==> final(self).selected_step_ids@ == old(
                self,
            ).selected_step_ids@,
            same_surroundings(old(self), final(self)),
    {
        let ghost h = self.history();
        match self.redo_stack.pop() {
            Some(next) => {
                assert(algos_view(self.redo_stack@) =~= h.redo.drop_last());
                let mut next = next;
                std::mem::swap(&mut self.active_algo, &mut next);
                self.undo_stack.push(next);
                assert(algos_view(self.undo_stack@) =~= h.undo.push(h.active));
                self.retain_selection();
            },
            None => {},
        }
    }

    /// The procedure differs from the one last saved or loaded (as
    /// `same_procedure` compares).
    pub fn has_unsaved_changes(&self) -> (r: bool)
        ensures
            r == match opt_algo_view(self.last_saved_algo) {
                Some(saved) => !same_procedure(saved, self.active_algo@),
                None => true,
            },
    {
        match &self.last_saved_algo {
            Some(saved) => !saved.equals(&self.active_algo),
            None => true,
        }
    }

    /// A request to close the window is held back for confirmation: the user
    /// has not already chosen to close, and the procedure has unsaved
    /// changes.
    pub fn close_needs_confirmation(&self) -> (r: bool)
        ensures
            r == (!self.force_close && match opt_algo_view(self.last_saved_algo) {
                Some(saved) => !same_procedure(saved, self.active_algo@),
                None => true,
            }),
    {
        !self.force_close && self.has_unsaved_changes()
    }
}

/// Redo after undo gives back the history before the undo.
pub proof fn law_redo_after_undo(h: History)
    requires
        h.undo.len() > 0,
    ensures
        redone(undone(h)) == h,
{
    assert(undone(h).redo.drop_last() =~= h.redo);
    assert(undone(h).undo.push(undone(h).active) =~= h.undo);
}

/// Undo after redo gives back the history before the redo.
pub proof fn law_undo_after_redo(h: History)
    requires
        h.redo.len() > 0,
    ensures
        undone(redone(h)) == h,
{
    assert(redone(h).undo.drop_last() =~= h.undo);
    assert(redone(h).redo.push(redone(h).active) =~= h.redo);
}

/// An edit made after a snapshot is undone by one undo, which gives back the
/// procedure as it was before the edit, or the latest snapshot, which
/// compares equal to it; a redo then gives back the edit.
pub proof fn law_undo_reverts_edit(h: History, edited: AlgorithmView)
    ensures
        ({
            let back = undone(History { active: edited, ..snapshotted(h) }).active;
            back == h.active || same_procedure(back, h.active)
        }),
        redone(undone(History { active: edited, ..snapshotted(h) })).active == edited,
{
    let s = snapshotted(h);
    if !(h.undo.len() > 0 && same_procedure(h.undo.last(), h.active)) {
        let u = h.undo.push(h.active);
        if u.len() > MAX_UNDO_DEPTH {
            assert(u.drop_first().last() == u.last());
        }
    }
    assert(s.undo.len() > 0);
}

// ---------------------------------------------------------------------------
// Starting, saving and loading
// ---------------------------------------------------------------------------

/// The name a new procedure's equipment gets in language `lang`.
pub open spec fn default_equipment_name_text(lang: Language) -> Seq<char> {
    match lang {
        Language::Ru => "Новое оборудование"@,
        Language::En => "New Equipment"@,
    }
}

/// `a` is an empty procedure whose equipment is named for `lang`, created
/// and updated at a moment after the Unix epoch.
pub open spec fn is_fresh_procedure(a: AlgorithmView, lang: Language) -> bool {
    &&& a.metadata.created_at.secs >= 0 && a.metadata.created_at.nanos < 1_000_000_000
    &&& a.metadata.updated_at.secs >= 0 && a.metadata.updated_at.nanos < 1_000_000_000
    &&& a.steps == Seq::<StepView>::empty()
    &&& a.first_step_id is None
    &&& a.wire_styles == Seq::<(Seq<char>, WireStyle)>::empty()
    &&& a.metadata.name == default_equipment_name_text(lang)
    &&& a.metadata.manufacturer == Seq::<char>::empty()
    &&& a.metadata.eq_type == Seq::<char>::empty()
    &&& a.metadata.model == Seq::<char>::empty()
    &&& a.metadata.inv_number == Seq::<char>::empty()
    &&& a.metadata.author == Seq::<char>::empty()
}

/// An empty procedure with a new identifier, its equipment named for
/// `lang`.
fn fresh_procedure(lang: Language) -> (r: Algorithm)
    ensures
        is_fresh_procedure(r@, lang),
        is_random_uuid(r.id),
{
    let mut a = Algorithm::default();
    a.metadata.name = String::from_str(lang.default_equipment_name());
    a
}

/// The tab names.
pub open spec fn builder_tab() -> Seq<char> {
    "Конструктор"@
}

pub open spec fn runner_tab() -> Seq<char> {
    "Диагностика"@
}

pub open spec fn archive_tab() -> Seq<char> {
    "Архив"@
}

impl AlgoApp {
    /// The editor at start-up with preferences `settings`: the builder tab
    /// shows an empty procedure, counted as saved, with no history,
    /// selection, search, run or archive.
    pub fn new(settings: AppSettings) -> (r: Self)
        ensures
            r.settings == settings,
            r.current_tab@ == builder_tab(),
            is_fresh_procedure(r.active_algo@, settings.language),
            is_random_uuid(r.active_algo.id),
            opt_algo_view(r.last_saved_algo) == Some(r.active_algo@),
            r.undo_stack@.len() == 0,
            r.redo_stack@.len() == 0,
            r.selected_step_ids@ == Set::<u128>::empty(),
            !r.show_search_bar,
            r.search_query@ == Seq::<char>::empty(),
            r.search_results@ == Seq::<u128>::empty(),
            r.current_search_idx == 0,
            r.runner@ == (RunnerView {
                current_step_id: None,
                history: Seq::empty(),
                measurement_input: Seq::empty(),
                safety_acknowledged: false,
                call_stack: Seq::empty(),
                had_abnormality: false,
            }),
            !r.show_passport_modal,
            !r.show_close_modal,
            !r.force_close,
            r.archive_list@.len() == 0,
            r.archive_search@ == Seq::<char>::empty(),
            !r.archive_loaded,
            r.archive_selected_mfg is None,
            r.archive_selected_model is None,
            r.confirm_delete_target is None,
    {
        let algo = fresh_procedure(settings.language);
        let saved = algo.deep_clone();
        AlgoApp {
            current_tab: String::from_str("Конструктор"),
            settings,
            active_algo: algo,
            last_saved_algo: Some(saved),
            undo_stack: Vec::new(),
            redo_stack: Vec::new(),
            selected_step_ids: HashSet::new(),
            show_search_bar: false,
            search_query: String::new(),
            search_results: Vec::new(),
            current_search_idx: 0,
            runner: RunnerState::default(),
            show_passport_modal: false,
            show_close_modal: false,
            force_close: false,
            archive_list: Vec::new(),
            archive_search: String::new(),
            archive_loaded: false,
            archive_selected_mfg: None,
            archive_selected_model: None,
            confirm_delete_target: None,
        }
    }

    /// Replaces the procedure by an empty one, after a snapshot, counts it
    /// as saved and clears the selection.
    pub fn new_procedure(&mut self)
        ensures
            final(self).history() == edited_to(old(self).history(), final(self).active_algo@),
            is_fresh_procedure(final(self).active_algo@, old(self).settings.language),
            is_random_uuid(final(self).active_algo.id),
            opt_algo_view(final(self).last_saved_algo) == Some(final(self).active_algo@),
            final(self).selected_step_ids@ == Set::<u128>::empty(),
            old(self).history_ok() ==> final(self).history_ok(),
            same_tab(old(self), final(self)),
            same_prefs(old(self), final(self)),
            same_search(old(self), final(self)),
            same_runner(old(self), final(self)),
            same_archive(old(self), final(self)),
    {
        self.snapshot_for_undo();
        let algo = fresh_procedure(self.settings.language);
        self.active_algo = algo.deep_clone();
        self.last_saved_algo = Some(algo);
        self.selected_step_ids.clear();
    }

    /// Records the procedure as saved.
    pub fn mark_saved(&mut self)
        ensures
            opt_algo_view(final(self).last_saved_algo) == Some(old(self).active_algo@),
            final(self).history() == old(self).history(),
            final(self).undo_stack@.len() == old(self).undo_stack@.len(),
            final(self).redo_stack@.len() == old(self).redo_stack@.len(),
            final(self).selected_step_ids@ == old(self).selected_step_ids@,
            same_tab(old(self), final(self)),
            same_prefs(old(self), final(self)),
            same_search(old(self), final(self)),
            same_runner(old(self), final(self)),
            same_archive(old(self), final(self)),
    {
        self.last_saved_algo = Some(self.active_algo.deep_clone());
    }

    /// Opens `algo` in the builder: it becomes the procedure, counted as
    /// saved, with its start step selected, and the builder tab is shown.
    pub fn open_in_builder(&mut self, algo: Algorithm)
        ensures
            final(self).active_algo@ == algo@,
            opt_algo_view(final(self).last_saved_algo) == Some(algo@),
            final(self).selected_step_ids@ == match algo.first_step_id {
                Some(f) => set![f],
                None => Set::<u128>::empty(),
            },
            final(self).current_tab@ == builder_tab(),
            final(self).undo_stack@ == old(self).undo_stack@,
            final(self).redo_stack@ == old(self).redo_stack@,
            same_prefs(old(self), final(self)),
            same_search(old(self), final(self)),
            same_runner(old(self), final(self)),
            same_archive(old(self), final(self)),
    {
        self.active_algo = algo.deep_clone();
        let first = algo.first_step_id;
        self.last_saved_algo = Some(algo);
        self.selected_step_ids.clear();
        if let Some(f) = first {
            self.selected_step_ids.insert(f);
            assert(self.selected_step_ids@ =~= set![f]);
        }
        self.current_tab = String::from_str("Конструктор");
    }

    /// Opens `algo` in the runner: it becomes the procedure, counted as
    /// saved, the run starts anew at its start step and the runner tab is
    /// shown. Returns the start step.
    pub fn open_in_runner(&mut self, algo: Algorithm) -> (focus: Option<u128>)
        ensures
            opt_algo_view(final(self).last_saved_algo) == Some(algo@),
            final(self).run_state() == restarted(
                crate::runner::RunState { algo: algo@, runner: old(self).runner@ },
            ),
            focus == final(self).runner.current_step_id,
            final(self).current_tab@ == runner_tab(),
            final(self).undo_stack@ == old(self).undo_stack@,
            final(self).redo_stack@ == old(self).redo_stack@,
            final(self).selected_step_ids@ == old(self).selected_step_ids@,
            same_prefs(old(self), final(self)),
            same_search(old(self), final(self)),
            same_archive(old(self), final(self)),
    {
        self.active_algo = algo.deep_clone();
        self.last_saved_algo = Some(algo);
        let focus = self.reset_runner();
        self.current_tab = String::from_str("Диагностика");
        focus
    }

    /// Makes the imported `algo` the procedure, after a snapshot, counts it
    /// as saved and clears the selection.
    pub fn adopt_imported(&mut self, algo: Algorithm)
        ensures
            final(self).history() == edited_to(old(self).history(), algo@),
            opt_algo_view(final(self).last_saved_algo) == Some(algo@),
            final(self).selected_step_ids@ == Set::<u128>::empty(),
            old(self).history_ok() ==> final(self).history_ok(),
            same_tab(old(self), final(self)),
            same_prefs(old(self), final(self)),
            same_search(old(self), final(self)),
            same_runner(old(self), final(self)),
            same_archive(old(self), final(self)),
    {
        self.snapshot_for_undo();
        self.active_algo = algo.deep_clone();
        self.last_saved_algo = Some(algo);
        self.selected_step_ids.clear();
    }

    /// Gives an imported `algo` a new identifier when an archived procedure
    /// already has its identifier.
    pub fn fresh_import_id(&self, algo: &mut Algorithm)
        ensures
            (exists|i: int|
                0 <= i < self.archive_list@.len() && (#[trigger] self.archive_list@[i]).id
                    == old(algo).id) ==> is_random_uuid(final(algo).id) && final(algo)@ == (
            AlgorithmView { id: final(algo).id, ..old(algo)@ }),
            !(exists|i: int|
                0 <= i < self.archive_list@.len() && (#[trigger] self.archive_list@[i]).id
                    == old(algo).id) ==> final(algo)@ == old(algo)@,
    {
        if self.archive_has_id(algo.id) {
            algo.id = new_uuid();
        }
    }

    /// Some archived procedure has identifier `id`.
    pub fn archive_has_id(&self, id: u128) -> (r: bool)
        ensures
            r == exists|i: int|
                0 <= i < self.archive_list@.len() && (#[trigger] self.archive_list@[i]).id == id,
    {
        for i in 0..self.archive_list.len()
            invariant
                forall|j: int| 0 <= j < i ==> (#[trigger] self.archive_list@[j]).id != id,
        {
            if self.archive_list[i].id == id {
                return true;
            }
        }
        false
    }

    /// Shows the builder tab.
    pub fn show_builder_tab(&mut self)
        ensures
            final(self).current_tab@ == builder_tab(),
            final(self).history() == old(self).history(),
            final(self).undo_stack@ == old(self).undo_stack@,
            final(self).redo_stack@ == old(self).redo_stack@,
            final(self).selected_step_ids@ == old(self).selected_step_ids@,
            same_prefs(old(self), final(self)),
            same_saved(old(self), final(self)),
            same_search(old(self), final(self)),
            same_runner(old(self), final(self)),
            same_archive(old(self), final(self)),
    {
        self.current_tab = String::from_str("Конструктор");
    }

    /// Shows the runner tab with the run started anew; returns its start
    /// step.
    pub fn show_runner_tab(&mut self) -> (focus: Option<u128>)
        ensures
            final(self).current_tab@ == runner_tab(),
            final(self).run_state() == restarted(old(self).run_state()),
            focus == final(self).runner.current_step_id,
            final(self).undo_stack@ == old(self).undo_stack@,
            final(self).redo_stack@ == old(self).redo_stack@,
            final(self).selected_step_ids@ == old(self).selected_step_ids@,
            same_prefs(old(self), final(self)),
            same_saved(old(self), final(self)),
            same_search(old(self), final(self)),
            same_archive(old(self), final(self)),
    {
        let focus = self.reset_runner();
        self.current_tab = String::from_str("Диагностика");
        focus
    }

    /// Shows the archive tab.
    pub fn show_archive_tab(&mut self)
        ensures
            final(self).current_tab@ == archive_tab(),
            final(self).history() == old(self).history(),
            final(self).undo_stack@ == old(self).undo_stack@,
            final(self).redo_stack@ == old(self).redo_stack@,
            final(self).selected_step_ids@ == old(self).selected_step_ids@,
            same_prefs(old(self), final(self)),
            same_saved(old(self), final(self)),
            same_search(old(self), final(self)),
            same_runner(old(self), final(self)),
            same_archive(old(self), final(self)),
    {
        self.current_tab = String::from_str("Архив");
    }
}

/// The history after an edit that left the procedure `a`.
pub open spec fn edited_to(h: History, a: AlgorithmView) -> History {
    History { active: a, ..snapshotted(h) }
}

// ---------------------------------------------------------------------------
// Search over the steps
// ---------------------------------------------------------------------------

/// What the search looks for: the query trimmed and in lower case.
pub open spec fn search_key(query: Seq<char>) -> Seq<char> {
    lowercase(trimmed(query))
}

/// The lower-case title or description of `s` contains `q`.
pub open spec fn step_matches(s: StepView, q: Seq<char>) -> bool {
    has_substring(lowercase(s.title), q) || has_substring(lowercase(s.description), q)
}

/// The identifiers of the steps of `ss` that match `q`, in order.
pub open spec fn search_hits(ss: Seq<StepView>, q: Seq<char>) -> Seq<u128>
    decreases ss.len(),
{
    if ss.len() == 0 {
        Seq::empty()
    } else {
        search_hits(ss.drop_last(), q) + if step_matches(ss.last(), q) {
            seq![ss.last().id]
        } else {
            Seq::<u128>::empty()
        }
    }
}

/// The position after `i` among `n` matches, wrapping around.
pub open spec fn next_index(i: int, n: int) -> int {
    (i + 1) % n
}

/// The position before `i` among `n` matches, wrapping around.
pub open spec fn prev_index(i: int, n: int) -> int {
    if i == 0 {
        n - 1
    } else {
        i - 1
    }
}

/// Nothing but the search matches, the highlighted match and the selection
/// changes.
pub open spec fn search_frame(a: &AlgoApp, b: &AlgoApp) -> bool {
    &&& a.history() == b.history()
    &&& a.undo_stack@.len() == b.undo_stack@.len()
    &&& a.redo_stack@.len() == b.redo_stack@.len()
    &&& same_tab(a, b)
    &&& same_prefs(a, b)
    &&& same_saved(a, b)
    &&& same_runner(a, b)
    &&& same_archive(a, b)
}

impl AlgoApp {
    /// Searches the steps for the query (see `search_key` and
    /// `search_hits`); an empty query clears the matches. The highlighted
    /// match goes back to the first when it is past the matches.
    pub fn update_search_query(&mut self)
        ensures
            search_key(old(self).search_query@).len() == 0 ==> final(self).search_results@
                == Seq::<u128>::empty() && final(self).current_search_idx == 0,
            search_key(old(self).search_query@).len() > 0 ==> {
                let hits = search_hits(
                    old(self).active_algo@.steps,
                    search_key(old(self).search_query@),
                );
                &&& final(self).search_results@ == hits
                &&& final(self).current_search_idx == if old(self).current_search_idx
                    >= hits.len() {
                    0
                } else {
                    old(self).current_search_idx
                }
            },
            final(self).selected_step_ids@ == old(self).selected_step_ids@,
            search_frame(old(self), final(self)),
    {
        let q = to_lower(trim_str(self.search_query.as_str()));
        if q.as_str().unicode_len() == 0 {
            self.search_results = Vec::new();
            self.current_search_idx = 0;
            return;
        }
        let ghost ss = self.active_algo@.steps;
        let n = self.active_algo.steps.len();
        let mut lowered: Vec<(u128, String, String)> = Vec::new();
        proof {
            assert(ss == steps_view(self.active_algo.steps@));
        }
        for i in 0..n
            invariant
                n == ss.len(),
                ss == steps_view(self.active_algo.steps@),
                lowered@.len() == i,
                forall|j: int|
                    0 <= j < i ==> (#[trigger] lowered_view(lowered@)[j]) == lowered_step(ss[j]),
        {
            proof {
                assert(ss[i as int] == self.active_algo.steps@[i as int]@);
            }
            let step = &self.active_algo.steps[i];
            let ghost l0 = lowered@;
            lowered.push((step.id, to_lower(step.title.as_str()), to_lower(step.description.as_str())));
            proof {
                assert(lowered_view(lowered@)[i as int] == lowered_step(ss[i as int]));
                assert forall|j: int| 0 <= j < i implies (#[trigger] lowered_view(lowered@)[j])
                    == lowered_step(ss[j]) by {
                    assert(lowered@[j] == l0[j]);
                    assert(lowered_view(l0)[j] == lowered_step(ss[j]));
                }
            }
        }
        proof {
            assert(lowered_view(lowered@) =~= ss.map_values(|s: StepView| lowered_step(s)));
            lemma_search_hits_lowered(ss, q@);
        }
        let hits = search_hits_lowered(&lowered, q.as_str());
        self.search_results = hits;
        if self.current_search_idx >= self.search_results.len() {
            self.current_search_idx = 0;
        }
    }

    /// Selects only the highlighted match and returns it, for the canvas to
    /// bring into view; nothing happens when there is none.
    pub fn jump_to_current_search_match(&mut self) -> (focus: Option<u128>)
        ensures
            old(self).current_search_idx < old(self).search_results@.len() ==> {
                let id = old(self).search_results@[old(self).current_search_idx as int];
                &&& focus == Some(id)
                &&& final(self).selected_step_ids@ == set![id]
            },
            old(self).current_search_idx >= old(self).search_results@.len() ==> focus is None
                && final(self).selected_step_ids@ == old(self).selected_step_ids@,
            same_search(old(self), final(self)),
            search_frame(old(self), final(self)),
    {
        if self.current_search_idx < self.search_results.len() {
            let id = self.search_results[self.current_search_idx];
            self.selected_step_ids.clear();
            self.selected_step_ids.insert(id);
            assert(self.selected_step_ids@ =~= set![id]);
            Some(id)
        } else {
            None
        }
    }

    /// Highlights the next match, after the last the first, and jumps to
    /// it; nothing happens without matches.
    pub fn next_search_match(&mut self) -> (focus: Option<u128>)
        ensures
            old(self).search_results@.len() > 0 ==> {
                let i = next_index(
                    old(self).current_search_idx as int,
                    old(self).search_results@.len() as int,
                );
                &&& final(self).current_search_idx == i
                &&& focus == Some(old(self).search_results@[i])
                &&& final(self).selected_step_ids@ == set![old(self).search_results@[i]]
            },
            old(self).search_results@.len() == 0 ==> focus is None && final(self).current_search_idx
                == old(self).current_search_idx && final(self).selected_step_ids@ == old(
                self,
            ).selected_step_ids@,
            final(self).search_results@ == old(self).search_results@,
            search_frame(old(self), final(self)),
    {
        let n = self.search_results.len();
        if n == 0 {
            return None;
        }
        self.current_search_idx = (self.current_search_idx % n + 1) % n;
        proof {
            lemma_next_index(old(self).current_search_idx as int, n as int);
        }
        self.jump_to_current_search_match()
    }

    /// Highlights the previous match, before the first the last, and jumps
    /// to it; nothing happens without matches.
    pub fn prev_search_match(&mut self) -> (focus: Option<u128>)
        ensures
            old(self).search_results@.len() > 0 ==> {
                let i = prev_index(
                    old(self).current_search_idx as int,
                    old(self).search_results@.len() as int,
                );
                &&& final(self).current_search_idx == i
                &&& (0 <= i < old(self).search_results@.len() ==> focus == Some(
                    old(self).search_results@[i],
                ) && final(self).selected_step_ids@ == set![old(self).search_results@[i]])
                &&& (i >= old(self).search_results@.len() ==> focus is None
                    && final(self).selected_step_ids@ == old(self).selected_step_ids@)
            },
            old(self).search_results@.len() == 0 ==> focus is None && final(self).current_search_idx
                == old(self).current_search_idx && final(self).selected_step_ids@ == old(
                self,
            ).selected_step_ids@,
            final(self).search_results@ == old(self).search_results@,
            search_frame(old(self), final(self)),
    {
        let n = self.search_results.len();
        if n == 0 {
            return None;
        }
        if self.current_search_idx == 0 {
            self.current_search_idx = n - 1;
        } else {
            self.current_search_idx = self.current_search_idx - 1;
        }
        self.jump_to_current_search_match()
    }
}

proof fn lemma_next_index(i: int, n: int)
    requires
        0 <= i,
        n > 0,
    ensures
        (i % n + 1) % n == next_index(i, n),
        0 <= next_index(i, n) < n,
{
    vstd::arithmetic::div_mod::lemma_add_mod_noop_right(1, i, n);
    vstd::arithmetic::div_mod::lemma_mod_bound(i + 1, n);
}

/// Going to the next match and then to the previous one comes back to the
/// same match, and the other way round.
pub proof fn law_next_prev_inverse(i: int, n: int)
    requires
        0 <= i < n,
    ensures
        prev_index(next_index(i, n), n) == i,
        next_index(prev_index(i, n), n) == i,
{
    if i + 1 < n {
        assert((i + 1) % n == i + 1) by (nonlinear_arith)
            requires
                0 <= i + 1 < n,
        {
            vstd::arithmetic::div_mod::lemma_small_mod((i + 1) as nat, n as nat);
        }
    } else {
        assert((i + 1) % n == 0) by (nonlinear_arith)
            requires
                i + 1 == n,
                n > 0,
        {
            vstd::arithmetic::div_mod::lemma_mod_self_0(n);
        }
    }
    if i == 0 {
        assert(n % n == 0) by (nonlinear_arith)
            requires
                n > 0,
        {
            vstd::arithmetic::div_mod::lemma_mod_self_0(n);
        }
    } else {
        assert(i % n == i) by (nonlinear_arith)
            requires
                0 <= i < n,
        {
            vstd::arithmetic::div_mod::lemma_small_mod(i as nat, n as nat);
        }
    }
}

// ---------------------------------------------------------------------------
// Zoom
// ---------------------------------------------------------------------------

/// The zoom, in percent, one step in or out from `pct`: to the next
/// multiple of ten in that direction (ten more or less when `pct` is a
/// multiple already), kept between 30 and 250.
pub open spec fn zoom_step(pct: int, zoom_in: bool) -> int {
    let raw = if zoom_in {
        if pct % 10 == 0 {
            pct + 10
        } else {
            (pct / 10 + 1) * 10
        }
    } else if pct % 10 == 0 {
        pct - 10
    } else {
        (pct / 10) * 10
    };
    if raw < 30 {
        30
    } else if raw > 250 {
        250
    } else {
        raw
    }
}

/// One zoom step from `pct` percent (see `zoom_step`).
pub fn zoom_step_percent(pct: u32, zoom_in: bool) -> (r: u32)
    ensures
        r == zoom_step(pct as int, zoom_in),
{
    let p = pct as u64;
    let raw: u64 = if zoom_in {
        if p % 10 == 0 {
            p + 10
        } else {
            (p / 10 + 1) * 10
        }
    } else if p % 10 == 0 {
        if p >= 10 {
            p - 10
        } else {
            0
        }
    } else {
        (p / 10) * 10
    };
    if raw < 30 {
        30
    } else if raw > 250 {
        250
    } else {
        raw as u32
    }
}

/// A step as the search sees it: its identifier, its title and its
/// description, both in lower case.
pub open spec fn lowered_step(s: StepView) -> (u128, Seq<char>, Seq<char>) {
    (s.id, lowercase(s.title), lowercase(s.description))
}

pub open spec fn lowered_view(v: Seq<(u128, String, String)>) -> Seq<(u128, Seq<char>, Seq<char>)> {
    v.map_values(|e: (u128, String, String)| (e.0, e.1@, e.2@))
}

/// The identifiers of the entries whose lower-case title or description
/// contains `q`, in order.
pub open spec fn hits_of_lowered(v: Seq<(u128, Seq<char>, Seq<char>)>, q: Seq<char>) -> Seq<u128>
    decreases v.len(),
{
    if v.len() == 0 {
        Seq::empty()
    } else {
        hits_of_lowered(v.drop_last(), q) + if has_substring(v.last().1, q) || has_substring(
            v.last().2,
            q,
        ) {
            seq![v.last().0]
        } else {
            Seq::<u128>::empty()
        }
    }
}

proof fn lemma_search_hits_lowered(ss: Seq<StepView>, q: Seq<char>)
    ensures
        search_hits(ss, q) == hits_of_lowered(ss.map_values(|s: StepView| lowered_step(s)), q),
    decreases ss.len(),
{
    if ss.len() > 0 {
        lemma_search_hits_lowered(ss.drop_last(), q);
        assert(ss.map_values(|s: StepView| lowered_step(s)).drop_last() =~= ss.drop_last().map_values(
            |s: StepView| lowered_step(s),
        ));
    } else {
        assert(ss.map_values(|s: StepView| lowered_step(s)) =~= Seq::<(u128, Seq<char>, Seq<char>)>::empty());
    }
}

/// The identifiers of the entries of `lowered` (identifier, lower-case
/// title, lower-case description) whose title or description contains `q`,
/// in order.
pub fn search_hits_lowered(lowered: &Vec<(u128, String, String)>, q: &str) -> (r: Vec<u128>)
    ensures
        r@ == hits_of_lowered(lowered_view(lowered@), q@),
{
    let ghost lv = lowered_view(lowered@);
    let mut hits: Vec<u128> = Vec::new();
    for i in 0..lowered.len()
        invariant
            lv == lowered_view(lowered@),
            hits@ == hits_of_lowered(lv.take(i as int), q@),
    {
        proof {
            assert(lv.take(i + 1).drop_last() =~= lv.take(i as int));
            assert(lv.take(i + 1).last() == lv[i as int]);
        }
        let e = &lowered[i];
        if str_contains(e.1.as_str(), q) || str_contains(e.2.as_str(), q) {
            hits.push(e.0);
        }
    }
    assert(lv.take(lowered@.len() as int) =~= lv);
    hits
}

} // verus!
