//! The edits the builder makes to the procedure: deleting and duplicating
//! the selected steps, adding steps, drawing and cutting links, choosing the
//! start step and the style of a link. Each edit first records the procedure
//! in the undo history.
use std::collections::HashSet;
use vstd::prelude::*;

use crate::editor::{edited_to, same_surroundings, AlgoApp, History};
use crate::i18n::{decimal, Language};
use crate::ids::new_uuid;
use crate::layout::{find_step_index, index_of_id, lemma_index_of_id};
use crate::links::{
    connect_step, connected, cut_if, cut_links_into, disconnect_step, disconnected, relinked,
    style_lookup, style_set, toggled, wire_key, wire_key_text, without_links_into, LinkKind,
};
use crate::models::{
    clone_opt_string, clone_options, is_random_uuid, keys_unique, options_view, steps_view, AlgorithmView,
    CanvasPos, OptionLink, OptionLinkView, Step, StepKind, StepKindView, StepView, WireStyle,
};

verus! {

broadcast use {
    vstd::std_specs::hash::group_hash_axioms,
    crate::models::lemma_steps_view_index,
    crate::models::lemma_steps_view_len,
};

// ---------------------------------------------------------------------------
// Deleting the selection
// ---------------------------------------------------------------------------

/// The steps of `ss` whose identifiers are not in `del`, in order, each
/// without its links into `del`.
pub open spec fn kept_after_delete(ss: Seq<StepView>, del: Set<u128>) -> Seq<StepView>
    decreases ss.len(),
{
    if ss.len() == 0 {
        Seq::empty()
    } else {
        kept_after_delete(ss.drop_last(), del) + if del.contains(ss.last().id) {
            Seq::<StepView>::empty()
        } else {
            seq![without_links_into(ss.last(), del)]
        }
    }
}

/// Procedure `a` after the steps in `del` are deleted: the other steps keep
/// their order and lose their links into `del`; a deleted start step is
/// replaced by the first remaining step, if any.
pub open spec fn after_delete(a: AlgorithmView, del: Set<u128>) -> AlgorithmView {
    let kept = kept_after_delete(a.steps, del);
    AlgorithmView {
        steps: kept,
        first_step_id: match a.first_step_id {
            Some(f) => if del.contains(f) {
                if kept.len() > 0 {
                    Some(kept[0].id)
                } else {
                    None
                }
            } else {
                Some(f)
            },
            None => None,
        },
        ..a
    }
}

impl AlgoApp {
    /// Deletes the selected steps (see `after_delete`) and clears the
    /// selection; nothing happens when nothing is selected.
    pub fn delete_selected(&mut self)
        ensures
            old(self).selected_step_ids@.is_empty() ==> final(self).history() == old(
                self,
            ).history() && final(self).selected_step_ids@ == old(self).selected_step_ids@,
            !old(self).selected_step_ids@.is_empty() ==> final(self).history() == edited_to(
                old(self).history(),
                after_delete(old(self).active_algo@, old(self).selected_step_ids@),
            ) && final(self).selected_step_ids@ == Set::<u128>::empty(),
            old(self).history_ok() ==> final(self).history_ok(),
            same_surroundings(old(self), final(self)),
    {
        if self.selected_step_ids.is_empty() {
            return;
        }
        self.snapshot_for_undo();
        let ghost a = self.active_algo@;
        let ghost del = self.selected_step_ids@;
        let n = self.active_algo.steps.len();
        let mut kept: Vec<Step> = Vec::new();
        proof {
            assert(a.steps == steps_view(self.active_algo.steps@));
        }
        for i in 0..n
            invariant
                n == a.steps.len(),
                a == self.active_algo@,
                a.steps == steps_view(self.active_algo.steps@),
                del == self.selected_step_ids@,
                steps_view(kept@) == kept_after_delete(a.steps.take(i as int), del),
        {
            proof {
                assert(a.steps.take(i + 1).drop_last() =~= a.steps.take(i as int));
                assert(a.steps.take(i + 1).last() == a.steps[i as int]);
                assert(a.steps[i as int] == self.active_algo.steps@[i as int]@);
            }
            if !self.selected_step_ids.contains(&self.active_algo.steps[i].id) {
                let mut c = self.active_algo.steps[i].deep_clone();
                cut_links_into(&mut c, &self.selected_step_ids);
                proof {
                    crate::models::lemma_steps_view_push(kept@, c);
                }
                kept.push(c);
            }
        }
        proof {
            assert(a.steps.take(n as int) =~= a.steps);
        }
        let first = match self.active_algo.first_step_id {
            Some(f) => {
                if self.selected_step_ids.contains(&f) {
                    if kept.len() > 0 {
                        Some(kept[0].id)
                    } else {
                        None
                    }
                } else {
                    Some(f)
                }
            },
            None => None,
        };
        self.active_algo.steps = kept;
        self.active_algo.first_step_id = first;
        self.selected_step_ids.clear();
    }
}

/// Exit `t` leads to one of the steps in `del`.
pub open spec fn leads_into(t: Option<u128>, del: Set<u128>) -> bool {
    t matches Some(x) && del.contains(x)
}

/// `after` is `before` with every option, measurement exit and safety exit
/// that led into `del` emptied; all else, the exits of a sub-procedure
/// included, is as it was.
pub open spec fn exits_cut(before: StepView, after: StepView, del: Set<u128>) -> bool {
    &&& after.id == before.id
    &&& after.title == before.title
    &&& after.description == before.description
    &&& after.image_path == before.image_path
    &&& after.pos == before.pos
    &&& after.options.len() == before.options.len()
    &&& forall|k: int|
        0 <= k < before.options.len() ==> (#[trigger] after.options[k]).text
            == before.options[k].text && after.options[k].next_step_id == if leads_into(
            before.options[k].next_step_id,
            del,
        ) {
            None
        } else {
            before.options[k].next_step_id
        }
    &&& match before.kind {
        StepKindView::Measurement { unit, min_val, max_val, next_if_normal, next_if_abnormal } =>
            after.kind == StepKindView::Measurement {
            unit,
            min_val,
            max_val,
            next_if_normal: if leads_into(next_if_normal, del) {
                None
            } else {
                next_if_normal
            },
            next_if_abnormal: if leads_into(next_if_abnormal, del) {
                None
            } else {
                next_if_abnormal
            },
        },
        StepKindView::SafetyWarning { ack_text, next_step_id } => after.kind
            == StepKindView::SafetyWarning {
            ack_text,
            next_step_id: if leads_into(next_step_id, del) {
                None
            } else {
                next_step_id
            },
        },
        k => after.kind == k,
    }
}

/// Step `s` is some step of `ss` that is not in `del`, with its exits into
/// `del` emptied (see `exits_cut`).
pub open spec fn comes_from(ss: Seq<StepView>, s: StepView, del: Set<u128>) -> bool {
    exists|j: int| 0 <= j < ss.len() && !del.contains(ss[j].id) && exits_cut(ss[j], s, del)
}

/// Some step of `ss` has identifier `id`.
pub open spec fn has_step_id(ss: Seq<StepView>, id: u128) -> bool {
    exists|i: int| 0 <= i < ss.len() && (#[trigger] ss[i]).id == id
}

/// After a deletion no step of the procedure is one of the deleted steps,
/// and no option, measurement exit or safety exit leads to one.
pub proof fn law_deleted_steps_are_gone(a: AlgorithmView, del: Set<u128>)
    ensures
        forall|i: int|
            0 <= i < after_delete(a, del).steps.len() ==> !del.contains(
                (#[trigger] after_delete(a, del).steps[i]).id,
            ),
        forall|i: int, k: int|
            0 <= i < after_delete(a, del).steps.len() && 0 <= k < after_delete(
                a,
                del,
            ).steps[i].options.len() ==> match (#[trigger] after_delete(a, del).steps[i].options[k]).next_step_id {
                Some(t) => !del.contains(t),
                None => true,
            },
        forall|i: int|
            0 <= i < after_delete(a, del).steps.len() ==> match (#[trigger] after_delete(
                a,
                del,
            ).steps[i]).kind {
                StepKindView::Measurement { next_if_normal, next_if_abnormal, .. } => !leads_into(
                    next_if_normal,
                    del,
                ) && !leads_into(next_if_abnormal, del),
                StepKindView::SafetyWarning { next_step_id, .. } => !leads_into(next_step_id, del),
                _ => true,
            },
{
    lemma_kept_after_delete(a.steps, del);
    lemma_kept_steps_are_cut(a.steps, del);
    let r = after_delete(a, del).steps;
    assert forall|i: int| 0 <= i < r.len() implies match (#[trigger] r[i]).kind {
        StepKindView::Measurement { next_if_normal, next_if_abnormal, .. } => !leads_into(
            next_if_normal,
            del,
        ) && !leads_into(next_if_abnormal, del),
        StepKindView::SafetyWarning { next_step_id, .. } => !leads_into(next_step_id, del),
        _ => true,
    } by {
        assert(comes_from(a.steps, r[i], del));
        let j = choose|j: int|
            0 <= j < a.steps.len() && !del.contains(a.steps[j].id) && exits_cut(
                a.steps[j],
                r[i],
                del,
            );
        assert(exits_cut(a.steps[j], r[i], del));
    }
}

/// The steps left by a deletion are the steps not deleted, each with its
/// exits into the deleted steps emptied (see `exits_cut`): every step left
/// comes from a step that was not deleted, and every step that was not
/// deleted is left.
pub proof fn law_deletion_keeps_the_rest(a: AlgorithmView, del: Set<u128>)
    ensures
        forall|i: int|
            0 <= i < after_delete(a, del).steps.len() ==> comes_from(
                a.steps,
                #[trigger] after_delete(a, del).steps[i],
                del,
            ),
        forall|j: int|
            0 <= j < a.steps.len() && !del.contains(#[trigger] a.steps[j].id) ==> has_step_id(
                after_delete(a, del).steps,
                a.steps[j].id,
            ),
{
    lemma_kept_steps_are_cut(a.steps, del);
}

/// Cutting the links into `del` from one step is `exits_cut`.
proof fn lemma_without_links_into(s: StepView, del: Set<u128>)
    ensures
        exits_cut(s, without_links_into(s, del), del),
{
    let w = without_links_into(s, del);
    assert forall|k: int| 0 <= k < s.options.len() implies (#[trigger] w.options[k]).text
        == s.options[k].text && w.options[k].next_step_id == if leads_into(
        s.options[k].next_step_id,
        del,
    ) {
        None
    } else {
        s.options[k].next_step_id
    } by {
        assert(w.options[k] == relinked(s.options[k], cut_if(s.options[k].next_step_id, del)));
    }
}

/// Every step kept by `kept_after_delete` comes from a step not in `del`
/// with its exits cut, and every step not in `del` is kept.
proof fn lemma_kept_steps_are_cut(ss: Seq<StepView>, del: Set<u128>)
    ensures
        forall|i: int|
            0 <= i < kept_after_delete(ss, del).len() ==> comes_from(
                ss,
                #[trigger] kept_after_delete(ss, del)[i],
                del,
            ),
        forall|j: int|
            0 <= j < ss.len() && !del.contains(#[trigger] ss[j].id) ==> has_step_id(
                kept_after_delete(ss, del),
                ss[j].id,
            ),
    decreases ss.len(),
{
    if ss.len() > 0 {
        let pre = ss.drop_last();
        lemma_kept_steps_are_cut(pre, del);
        let p = kept_after_delete(pre, del);
        let r = kept_after_delete(ss, del);
        let last = ss.last();
        lemma_without_links_into(last, del);
        assert forall|i: int| 0 <= i < r.len() implies comes_from(ss, #[trigger] r[i], del) by {
            if i < p.len() {
                assert(r[i] == p[i]);
                assert(comes_from(pre, p[i], del));
                let j = choose|j: int|
                    0 <= j < pre.len() && !del.contains(pre[j].id) && exits_cut(
                        pre[j],
                        p[i],
                        del,
                    );
                assert(pre[j] == ss[j]);
            } else {
                assert(r[i] == without_links_into(last, del));
                assert(ss[ss.len() - 1] == last);
            }
        }
        assert forall|j: int| 0 <= j < ss.len() && !del.contains(#[trigger] ss[j].id) implies has_step_id(
            r,
            ss[j].id,
        ) by {
            if j < pre.len() {
                assert(pre[j] == ss[j]);
                assert(!del.contains(pre[j].id));
                assert(has_step_id(p, pre[j].id));
                let i = choose|i: int| 0 <= i < p.len() && (#[trigger] p[i]).id == pre[j].id;
                assert(r[i] == p[i]);
            } else {
                assert(ss[j] == last);
                assert(r[p.len() as int] == without_links_into(last, del));
            }
        }
    }
}

proof fn lemma_kept_after_delete(ss: Seq<StepView>, del: Set<u128>)
    ensures
        forall|i: int|
            0 <= i < kept_after_delete(ss, del).len() ==> !del.contains(
                (#[trigger] kept_after_delete(ss, del)[i]).id,
            ),
        forall|i: int, k: int|
            0 <= i < kept_after_delete(ss, del).len() && 0 <= k < kept_after_delete(
                ss,
                del,
            )[i].options.len() ==> match (#[trigger] kept_after_delete(ss, del)[i].options[k]).next_step_id {
                Some(t) => !del.contains(t),
                None => true,
            },
    decreases ss.len(),
{
    if ss.len() > 0 {
        lemma_kept_after_delete(ss.drop_last(), del);
        let p = kept_after_delete(ss.drop_last(), del);
        let r = kept_after_delete(ss, del);
        assert forall|i: int| 0 <= i < r.len() implies !del.contains((#[trigger] r[i]).id) by {
            if i < p.len() {
                assert(r[i] == p[i]);
            }
        }
        assert forall|i: int, k: int| 0 <= i < r.len() && 0 <= k < r[i].options.len() implies match (
        #[trigger] r[i].options[k]).next_step_id {
            Some(t) => !del.contains(t),
            None => true,
        } by {
            if i < p.len() {
                assert(r[i] == p[i]);
                assert(r[i].options[k] == p[i].options[k]);
            } else {
                let w = without_links_into(ss.last(), del);
                let o = ss.last().options[k];
                assert(i == p.len());
                assert(r[i] == w);
                assert(w.options.len() == ss.last().options.len());
                assert(w.options[k] == relinked(o, cut_if(o.next_step_id, del)));
                assert(relinked(o, cut_if(o.next_step_id, del)).next_step_id == cut_if(
                    o.next_step_id,
                    del,
                ));
            }
        }
    }
}

// ---------------------------------------------------------------------------
// Duplicating the selection
// ---------------------------------------------------------------------------

/// The steps of `ss` whose identifiers are in `sel`, in order.
pub open spec fn selected_in_order(ss: Seq<StepView>, sel: Set<u128>) -> Seq<StepView>
    decreases ss.len(),
{
    if ss.len() == 0 {
        Seq::empty()
    } else {
        selected_in_order(ss.drop_last(), sel) + if sel.contains(ss.last().id) {
            seq![ss.last()]
        } else {
            Seq::<StepView>::empty()
        }
    }
}

/// What the title of a copy ends with.
pub open spec fn copy_suffix_text(lang: Language) -> Seq<char> {
    match lang {
        Language::Ru => " (копия)"@,
        Language::En => " (copy)"@,
    }
}

/// A copy of `src` with identifier `id` and the copy suffix on its title.
pub open spec fn duplicate_of(src: StepView, id: u128, lang: Language) -> StepView {
    StepView { id, title: src.title + copy_suffix_text(lang), ..src }
}

/// The copies of `srcs` with the identifiers `pairs[k].1`.
pub open spec fn duplicates(srcs: Seq<StepView>, pairs: Seq<(u128, u128)>, lang: Language) -> Seq<
    StepView,
> {
    Seq::new(srcs.len(), |k: int| duplicate_of(srcs[k], pairs[k].1, lang))
}

// ---------------------------------------------------------------------------
// Adding steps
// ---------------------------------------------------------------------------

/// The default title of the `n`-th step.
pub open spec fn step_name_text(lang: Language, n: nat) -> Seq<char> {
    (match lang {
        Language::Ru => "Шаг "@,
        Language::En => "Step "@,
    }) + decimal(n)
}

/// A new standard step with identifier `id`, title `title` at `pos`.
pub open spec fn fresh_step(id: u128, title: Seq<char>, pos: CanvasPos) -> StepView {
    StepView {
        id,
        title,
        description: Seq::empty(),
        kind: StepKindView::Standard,
        options: Seq::empty(),
        image_path: None,
        pos,
    }
}

/// Procedure `a` with the steps listed in `moves` placed anew: each step
/// takes the position of the first entry with its identifier.
pub open spec fn moved(a: AlgorithmView, moves: Seq<(u128, CanvasPos)>) -> AlgorithmView {
    AlgorithmView {
        steps: a.steps.map_values(
            |s: StepView|
                if exists|k: int| 0 <= k < moves.len() && (#[trigger] moves[k]).0 == s.id {
                    StepView { pos: moves[first_move(moves, s.id)].1, ..s }
                } else {
                    s
                },
        ),
        ..a
    }
}

/// The index of the first entry of `moves` for step `id`.
pub open spec fn first_move(moves: Seq<(u128, CanvasPos)>, id: u128) -> int {
    choose|k: int|
        0 <= k < moves.len() && (#[trigger] moves[k]).0 == id && forall|j: int|
            0 <= j < k ==> (#[trigger] moves[j]).0 != id
}

proof fn lemma_first_move(moves: Seq<(u128, CanvasPos)>, id: u128, w: int)
    requires
        0 <= w < moves.len(),
        moves[w].0 == id,
        forall|j: int| 0 <= j < w ==> (#[trigger] moves[j]).0 != id,
    ensures
        first_move(moves, id) == w,
{
    let k = first_move(moves, id);
    assert(0 <= k < moves.len() && moves[k].0 == id && forall|j: int|
        0 <= j < k ==> (#[trigger] moves[j]).0 != id);
    if k < w {
    } else if k > w {
        assert(moves[w].0 != id);
    }
}

/// The selection after a click on step `id`: with shift the step is added
/// or removed; without shift it becomes the only selected step unless it is
/// selected already.
pub open spec fn clicked_selection(sel: Set<u128>, id: u128, shift: bool) -> Set<u128> {
    if shift {
        if sel.contains(id) {
            sel.remove(id)
        } else {
            sel.insert(id)
        }
    } else if sel.contains(id) {
        sel
    } else {
        set![id]
    }
}

impl AlgoApp {
    /// Adds a copy of each selected step, in step order, at the end of the
    /// procedure (see `duplicate_of`), and selects the copies. Returns, for
    /// each copy, the identifier of its original and its own. Nothing
    /// happens when nothing is selected.
    pub fn duplicate_selected(&mut self) -> (r: Vec<(u128, u128)>)
        ensures
            old(self).selected_step_ids@.is_empty() ==> r@.len() == 0 && final(self).history()
                == old(self).history() && final(self).selected_step_ids@ == old(
                self,
            ).selected_step_ids@,
            !old(self).selected_step_ids@.is_empty() ==> {
                let srcs = selected_in_order(
                    old(self).active_algo@.steps,
                    old(self).selected_step_ids@,
                );
                &&& r@.len() == srcs.len()
                &&& forall|k: int|
                    0 <= k < r@.len() ==> (#[trigger] r@[k]).0 == srcs[k].id && is_random_uuid(
                        r@[k].1,
                    )
                &&& final(self).history() == edited_to(
                    old(self).history(),
                    AlgorithmView {
                        steps: old(self).active_algo@.steps + duplicates(
                            srcs,
                            r@,
                            old(self).settings.language,
                        ),
                        ..old(self).active_algo@
                    },
                )
                &&& final(self).selected_step_ids@ == Set::new(
                    |id: u128| exists|k: int| 0 <= k < r@.len() && (#[trigger] r@[k]).1 == id,
                )
            },
            old(self).history_ok() ==> final(self).history_ok(),
            same_surroundings(old(self), final(self)),
    {
        if self.selected_step_ids.is_empty() {
            return Vec::new();
        }
        self.snapshot_for_undo();
        let ghost a = self.active_algo@;
        let ghost sel = self.selected_step_ids@;
        let lang = self.settings.language;
        let n = self.active_algo.steps.len();
        let mut sources: Vec<Step> = Vec::new();
        proof {
            assert(a.steps == steps_view(self.active_algo.steps@));
        }
        for i in 0..n
            invariant
                n == a.steps.len(),
                a == self.active_algo@,
                a.steps == steps_view(self.active_algo.steps@),
                sel == self.selected_step_ids@,
                steps_view(sources@) == selected_in_order(a.steps.take(i as int), sel),
        {
            proof {
                assert(a.steps.take(i + 1).drop_last() =~= a.steps.take(i as int));
                assert(a.steps.take(i + 1).last() == a.steps[i as int]);
                assert(a.steps[i as int] == self.active_algo.steps@[i as int]@);
            }
            if self.selected_step_ids.contains(&self.active_algo.steps[i].id) {
                let c = self.active_algo.steps[i].deep_clone();
                proof {
                    crate::models::lemma_steps_view_push(sources@, c);
                }
                sources.push(c);
            }
        }
        proof {
            assert(a.steps.take(n as int) =~= a.steps);
        }
        let ghost srcs = steps_view(sources@);
        let mut pairs: Vec<(u128, u128)> = Vec::new();
        let mut new_sel: HashSet<u128> = HashSet::new();
        let mut steps: Vec<Step> = Vec::new();
        std::mem::swap(&mut steps, &mut self.active_algo.steps);
        let m = sources.len();
        for k in 0..m
            invariant
                m == srcs.len(),
                srcs == steps_view(sources@),
                pairs@.len() == k,
                forall|j: int|
                    0 <= j < k ==> (#[trigger] pairs@[j]).0 == srcs[j].id && is_random_uuid(
                        pairs@[j].1,
                    ),
                steps_view(steps@) == a.steps + duplicates(srcs.take(k as int), pairs@, lang),
                new_sel@ == Set::new(
                    |id: u128| exists|j: int| 0 <= j < k && (#[trigger] pairs@[j]).1 == id,
                ),
        {
            let src = &sources[k];
            proof {
                assert(srcs[k as int] == sources@[k as int]@);
            }
            let title = lang.copy_suffix(src.title.as_str());
            let copy = Step {
                id: new_uuid(),
                title,
                description: src.description.clone(),
                kind: src.kind.deep_clone(),
                options: clone_options(&src.options),
                image_path: clone_opt_string(&src.image_path),
                pos: src.pos,
            };
            let id = copy.id;
            proof {
                crate::models::lemma_steps_view_push(steps@, copy);
            }
            steps.push(copy);
            let ghost p0 = pairs@;
            let ghost s0 = new_sel@;
            pairs.push((src.id, id));
            new_sel.insert(id);
            proof {
                assert(pairs@.drop_last() =~= p0);
                assert(duplicates(srcs.take(k + 1), pairs@, lang) =~= duplicates(
                    srcs.take(k as int),
                    p0,
                    lang,
                ).push(duplicate_of(srcs[k as int], id, lang)));
                assert forall|x: u128| new_sel@.contains(x) == (exists|j: int|
                    0 <= j < k + 1 && (#[trigger] pairs@[j]).1 == x) by {
                    if x == id {
                        assert(pairs@[k as int].1 == id);
                    }
                    if exists|j: int| 0 <= j < k + 1 && (#[trigger] pairs@[j]).1 == x {
                        let j = choose|j: int| 0 <= j < k + 1 && (#[trigger] pairs@[j]).1 == x;
                        if j < k {
                            assert(p0[j] == pairs@[j]);
                        }
                    }
                    if s0.contains(x) {
                        let j = choose|j: int| 0 <= j < k && (#[trigger] p0[j]).1 == x;
                        assert(pairs@[j] == p0[j]);
                    }
                }
                assert(new_sel@ =~= Set::new(
                    |x: u128| exists|j: int| 0 <= j < k + 1 && (#[trigger] pairs@[j]).1 == x,
                ));
            }
        }
        proof {
            assert(srcs.take(m as int) =~= srcs);
        }
        self.active_algo.steps = steps;
        self.selected_step_ids = new_sel;
        pairs
    }
}

impl AlgoApp {
    fn push_new_step(&mut self, pos: CanvasPos, count: usize, make_start: bool) -> (id: u128)
        ensures
            is_random_uuid(id),
            final(self).history() == edited_to(
                old(self).history(),
                AlgorithmView {
                    steps: old(self).active_algo@.steps.push(
                        fresh_step(id, step_name_text(old(self).settings.language, count as nat), pos),
                    ),
                    first_step_id: if make_start || old(self).active_algo@.first_step_id is None {
                        Some(id)
                    } else {
                        old(self).active_algo@.first_step_id
                    },
                    ..old(self).active_algo@
                },
            ),
            final(self).selected_step_ids@ == set![id],
            old(self).history_ok() ==> final(self).history_ok(),
            same_surroundings(old(self), final(self)),
    {
        self.snapshot_for_undo();
        let title = self.settings.language.step_default_name(count);
        let step = Step::new(title, pos);
        let id = step.id;
        if make_start || self.active_algo.first_step_id.is_none() {
            self.active_algo.first_step_id = Some(id);
        }
        proof {
            crate::models::lemma_steps_view_push(self.active_algo.steps@, step);
        }
        self.active_algo.steps.push(step);
        self.selected_step_ids.clear();
        self.selected_step_ids.insert(id);
        assert(self.selected_step_ids@ =~= set![id]);
        id
    }

    /// Adds a standard step titled after its number (one more than the
    /// number of steps) at `pos`, makes it the start step when there is
    /// none, and selects only it. Returns its identifier.
    pub fn add_step_at(&mut self, pos: CanvasPos) -> (id: u128)
        requires
            old(self).active_algo@.steps.len() < usize::MAX,
        ensures
            is_random_uuid(id),
            final(self).history() == edited_to(
                old(self).history(),
                AlgorithmView {
                    steps: old(self).active_algo@.steps.push(
                        fresh_step(
                            id,
                            step_name_text(
                                old(self).settings.language,
                                (old(self).active_algo@.steps.len() + 1) as nat,
                            ),
                            pos,
                        ),
                    ),
                    first_step_id: if old(self).active_algo@.first_step_id is None {
                        Some(id)
                    } else {
                        old(self).active_algo@.first_step_id
                    },
                    ..old(self).active_algo@
                },
            ),
            final(self).selected_step_ids@ == set![id],
            old(self).history_ok() ==> final(self).history_ok(),
            same_surroundings(old(self), final(self)),
    {
        proof {
            assert(self.active_algo@.steps == steps_view(self.active_algo.steps@));
        }
        let count = self.active_algo.steps.len() + 1;
        self.push_new_step(pos, count, false)
    }

    /// Adds the first step, titled as step 1, at `pos` on an empty canvas,
    /// makes it the start step and selects only it. Returns its identifier.
    pub fn add_first_step_at(&mut self, pos: CanvasPos) -> (id: u128)
        ensures
            is_random_uuid(id),
            final(self).history() == edited_to(
                old(self).history(),
                AlgorithmView {
                    steps: old(self).active_algo@.steps.push(
                        fresh_step(id, step_name_text(old(self).settings.language, 1), pos),
                    ),
                    first_step_id: Some(id),
                    ..old(self).active_algo@
                },
            ),
            final(self).selected_step_ids@ == set![id],
            old(self).history_ok() ==> final(self).history_ok(),
            same_surroundings(old(self), final(self)),
    {
        self.push_new_step(pos, 1, true)
    }

    /// Makes step `id` the start step.
    pub fn set_start_step(&mut self, id: u128)
        ensures
            final(self).history() == edited_to(
                old(self).history(),
                AlgorithmView { first_step_id: Some(id), ..old(self).active_algo@ },
            ),
            final(self).selected_step_ids@ == old(self).selected_step_ids@,
            old(self).history_ok() ==> final(self).history_ok(),
            same_surroundings(old(self), final(self)),
    {
        self.snapshot_for_undo();
        self.active_algo.first_step_id = Some(id);
    }

    /// Draws a link from step `from` to step `to` (see `connected`); a link
    /// from a step to itself is refused and changes nothing.
    pub fn connect_nodes(&mut self, from: u128, to: u128)
        requires
            forall|i: int|
                0 <= i < old(self).active_algo@.steps.len() ==> (#[trigger] old(
                    self,
                ).active_algo@.steps[i]).options.len() < usize::MAX,
        ensures
            from == to ==> final(self).history() == old(self).history(),
            from != to ==> final(self).history() == edited_to(
                old(self).history(),
                match index_of_id(old(self).active_algo@.steps, from) {
                    Some(i) => AlgorithmView {
                        steps: old(self).active_algo@.steps.update(
                            i,
                            connected(
                                old(self).active_algo@.steps[i],
                                to,
                                old(self).settings.language,
                            ),
                        ),
                        ..old(self).active_algo@
                    },
                    None => old(self).active_algo@,
                },
            ),
            final(self).selected_step_ids@ == old(self).selected_step_ids@,
            old(self).history_ok() ==> final(self).history_ok(),
            same_surroundings(old(self), final(self)),
    {
        if from == to {
            return;
        }
        self.snapshot_for_undo();
        let lang = self.settings.language;
        let ghost a = self.active_algo@;
        proof {
            assert(a.steps == steps_view(self.active_algo.steps@));
            lemma_index_of_id(a.steps, from);
        }
        if let Some(i) = find_step_index(&self.active_algo.steps, from) {
            assert(self.active_algo.steps@[i as int]@ == a.steps[i as int]);
            connect_step(&mut self.active_algo.steps[i], to, lang);
            assert(steps_view(self.active_algo.steps@) =~= a.steps.update(
                i as int,
                connected(a.steps[i as int], to, lang),
            ));
        }
    }

    /// Cuts the link of exit `link` of step `step_id` (see `disconnected`).
    pub fn disconnect_link(&mut self, step_id: u128, link: LinkKind)
        ensures
            final(self).history() == edited_to(
                old(self).history(),
                match index_of_id(old(self).active_algo@.steps, step_id) {
                    Some(i) => AlgorithmView {
                        steps: old(self).active_algo@.steps.update(
                            i,
                            disconnected(old(self).active_algo@.steps[i], link),
                        ),
                        ..old(self).active_algo@
                    },
                    None => old(self).active_algo@,
                },
            ),
            final(self).selected_step_ids@ == old(self).selected_step_ids@,
            old(self).history_ok() ==> final(self).history_ok(),
            same_surroundings(old(self), final(self)),
    {
        self.snapshot_for_undo();
        let ghost a = self.active_algo@;
        proof {
            assert(a.steps == steps_view(self.active_algo.steps@));
            lemma_index_of_id(a.steps, step_id);
        }
        if let Some(i) = find_step_index(&self.active_algo.steps, step_id) {
            assert(self.active_algo.steps@[i as int]@ == a.steps[i as int]);
            disconnect_step(&mut self.active_algo.steps[i], link);
            assert(steps_view(self.active_algo.steps@) =~= a.steps.update(
                i as int,
                disconnected(a.steps[i as int], link),
            ));
        }
    }

    /// Switches the drawing style of the link from `from` to `to` between
    /// curved and orthogonal, starting from the style it is drawn with (its
    /// own, else the default one), and returns the new style.
    pub fn toggle_wire_style(&mut self, from: u128, to: u128) -> (r: WireStyle)
        ensures
            r == toggled(
                match style_lookup(old(self).active_algo@.wire_styles, wire_key_text(from, to)) {
                    Some(s) => s,
                    None => old(self).settings.default_wire_style,
                },
            ),
            final(self).history() == edited_to(
                old(self).history(),
                AlgorithmView {
                    wire_styles: style_set(
                        old(self).active_algo@.wire_styles,
                        wire_key_text(from, to),
                        r,
                    ),
                    ..old(self).active_algo@
                },
            ),
            final(self).selected_step_ids@ == old(self).selected_step_ids@,
            old(self).history_ok() ==> final(self).history_ok(),
            same_surroundings(old(self), final(self)),
            keys_unique(old(self).active_algo@.wire_styles) ==> keys_unique(
                final(self).active_algo@.wire_styles,
            ),
    {
        self.snapshot_for_undo();
        let cur = self.active_algo.wire_style_for(from, to, self.settings.default_wire_style);
        let new_style = match cur {
            WireStyle::Curved => WireStyle::Orthogonal,
            WireStyle::Orthogonal => WireStyle::Curved,
        };
        self.active_algo.set_wire_style(wire_key(from, to), new_style);
        new_style
    }

    /// Places the steps listed in `moves` anew (see `moved`); the history is
    /// left alone (a drag takes its snapshot when it starts).
    pub fn move_steps(&mut self, moves: &Vec<(u128, CanvasPos)>)
        ensures
            final(self).history() == (History {
                active: moved(old(self).active_algo@, moves@),
                ..old(self).history()
            }),
            final(self).undo_stack@.len() == old(self).undo_stack@.len(),
            final(self).redo_stack@.len() == old(self).redo_stack@.len(),
            final(self).selected_step_ids@ == old(self).selected_step_ids@,
            same_surroundings(old(self), final(self)),
    {
        let ghost a = self.active_algo@;
        let n = self.active_algo.steps.len();
        let ghost mv = moves@;
        proof {
            assert(a.steps == steps_view(self.active_algo.steps@));
        }
        let mut steps: Vec<Step> = Vec::new();
        std::mem::swap(&mut steps, &mut self.active_algo.steps);
        for i in 0..n
            invariant
                n == steps@.len(),
                n == a.steps.len(),
                mv == moves@,
                forall|j: int| 0 <= j < i ==> (#[trigger] steps_view(steps@)[j]) == moved(a, mv).steps[j],
                forall|j: int| i <= j < n ==> (#[trigger] steps_view(steps@)[j]) == a.steps[j],
        {
            let id = steps[i].id;
            proof {
                assert(steps_view(steps@)[i as int] == steps@[i as int]@);
            }
            let mut k: usize = 0;
            while k < moves.len()
                invariant
                    k <= moves@.len(),
                    mv == moves@,
                    forall|j: int| 0 <= j < k ==> (#[trigger] mv[j]).0 != id,
                ensures
                    k <= moves@.len(),
                    forall|j: int| 0 <= j < k ==> (#[trigger] mv[j]).0 != id,
                    k < moves@.len() ==> mv[k as int].0 == id,
                decreases moves@.len() - k,
            {
                if moves[k].0 == id {
                    break;
                }
                k += 1;
            }
            let ghost before = steps_view(steps@);
            if k < moves.len() {
                proof {
                    lemma_first_move(mv, id, k as int);
                }
                steps[i].pos = moves[k].1;
                assert(steps_view(steps@) =~= before.update(
                    i as int,
                    StepView { pos: mv[k as int].1, ..before[i as int] },
                ));
            } else {
                assert(!exists|j: int| 0 <= j < mv.len() && (#[trigger] mv[j]).0 == id);
            }
        }
        self.active_algo.steps = steps;
        assert(steps_view(self.active_algo.steps@) =~= moved(a, mv).steps);
    }

    /// Updates the selection after a click on step `id` (see
    /// `clicked_selection`).
    pub fn click_step(&mut self, id: u128, shift: bool)
        ensures
            final(self).selected_step_ids@ == clicked_selection(
                old(self).selected_step_ids@,
                id,
                shift,
            ),
            final(self).history() == old(self).history(),
            final(self).undo_stack@.len() == old(self).undo_stack@.len(),
            final(self).redo_stack@.len() == old(self).redo_stack@.len(),
            same_surroundings(old(self), final(self)),
    {
        if shift {
            if self.selected_step_ids.contains(&id) {
                self.selected_step_ids.remove(&id);
            } else {
                self.selected_step_ids.insert(id);
            }
        } else if !self.selected_step_ids.contains(&id) {
            self.selected_step_ids.clear();
            self.selected_step_ids.insert(id);
            assert(self.selected_step_ids@ =~= set![id]);
        }
    }

    /// Adds the steps `ids` to the selection.
    pub fn add_to_selection(&mut self, ids: &Vec<u128>)
        ensures
            final(self).selected_step_ids@ == old(self).selected_step_ids@ + ids@.to_set(),
            final(self).history() == old(self).history(),
            final(self).undo_stack@.len() == old(self).undo_stack@.len(),
            final(self).redo_stack@.len() == old(self).redo_stack@.len(),
            same_surroundings(old(self), final(self)),
    {
        let ghost s0 = self.selected_step_ids@;
        for i in 0..ids.len()
            invariant
                forall|x: u128|
                    #![trigger self.selected_step_ids@.contains(x)]
                    self.selected_step_ids@.contains(x) == (s0.contains(x) || exists|j: int|
                        0 <= j < i && ids@[j] == x),
                self.history() == old(self).history(),
                self.undo_stack@.len() == old(self).undo_stack@.len(),
                self.redo_stack@.len() == old(self).redo_stack@.len(),
                same_surroundings(old(self), self),
        {
            let ghost before = self.selected_step_ids@;
            self.selected_step_ids.insert(ids[i]);
            assert forall|x: u128| self.selected_step_ids@.contains(x) == (s0.contains(x) || exists|j: int|
                0 <= j < i + 1 && ids@[j] == x) by {
                assert(self.selected_step_ids@.contains(x) == (before.contains(x) || x == ids@[i as int]));
                if x == ids@[i as int] {
                    assert(exists|j: int| 0 <= j < i + 1 && ids@[j] == x);
                }
            }
        }
        assert(self.selected_step_ids@ =~= s0 + ids@.to_set());
    }

    /// Clears the selection.
    pub fn clear_selection(&mut self)
        ensures
            final(self).selected_step_ids@ == Set::<u128>::empty(),
            final(self).history() == old(self).history(),
            final(self).undo_stack@.len() == old(self).undo_stack@.len(),
            final(self).redo_stack@.len() == old(self).redo_stack@.len(),
            same_surroundings(old(self), final(self)),
    {
        self.selected_step_ids.clear();
    }
}

// ---------------------------------------------------------------------------
// Editing one step in the inspector
// ---------------------------------------------------------------------------

/// The place of a kind in the inspector's kind list.
pub open spec fn kind_choice_of(k: StepKindView) -> int {
    match k {
        StepKindView::Standard => 0,
        StepKindView::Measurement { .. } => 1,
        StepKindView::SafetyWarning { .. } => 2,
        StepKindView::Subprocess { .. } => 3,
    }
}

/// The bit pattern of the `f64` 200.0, the lower tolerance bound a new
/// measurement gets.
pub const DEFAULT_MIN_BITS: u64 = 0x4069_0000_0000_0000u64;

/// The bit pattern of the `f64` 240.0, the upper tolerance bound a new
/// measurement gets.
pub const DEFAULT_MAX_BITS: u64 = 0x406e_0000_0000_0000u64;

/// The kind a step gets when entry `choice` of the kind list is picked in
/// language `lang`: a measurement of 200 to 240 in the default unit, a
/// safety warning with the default acknowledgement, or a standard step.
pub open spec fn kind_for_choice_view(choice: int, lang: Language) -> StepKindView {
    if choice == 1 {
        StepKindView::Measurement {
            unit: match lang {
                Language::Ru => "В"@,
                Language::En => "V"@,
            },
            min_val: DEFAULT_MIN_BITS,
            max_val: DEFAULT_MAX_BITS,
            next_if_normal: None,
            next_if_abnormal: None,
        }
    } else if choice == 2 {
        StepKindView::SafetyWarning {
            ack_text: match lang {
                Language::Ru => "Оборудование обесточено"@,
                Language::En => "Equipment de-energized"@,
            },
            next_step_id: None,
        }
    } else {
        StepKindView::Standard
    }
}

/// The kind for entry `choice` of the kind list (see `kind_for_choice_view`).
pub fn kind_for_choice(choice: usize, lang: Language) -> (r: StepKind)
    ensures
        r@ == kind_for_choice_view(choice as int, lang),
{
    if choice == 1 {
        StepKind::Measurement {
            unit: String::from_str(lang.default_unit()),
            min_val: DEFAULT_MIN_BITS,
            max_val: DEFAULT_MAX_BITS,
            next_if_normal: None,
            next_if_abnormal: None,
        }
    } else if choice == 2 {
        StepKind::SafetyWarning {
            ack_text: String::from_str(lang.default_safety_ack()),
            next_step_id: None,
        }
    } else {
        StepKind::Standard
    }
}

/// The step with only its kind replaced by `kind`.
pub open spec fn with_kind(s: StepView, kind: StepKindView) -> StepView {
    StepView { kind, ..s }
}

impl Step {
    /// The place of the step's kind in the inspector's kind list.
    pub fn kind_choice(&self) -> (r: usize)
        ensures
            r == kind_choice_of(self@.kind),
    {
        match &self.kind {
            StepKind::Standard => 0,
            StepKind::Measurement { .. } => 1,
            StepKind::SafetyWarning { .. } => 2,
            StepKind::Subprocess { .. } => 3,
        }
    }

    /// Picks entry `choice` of the kind list: a different entry gives the
    /// step a new kind of that entry (see `kind_for_choice_view`); picking
    /// the entry of the current kind changes nothing.
    pub fn choose_kind(&mut self, choice: usize, lang: Language)
        ensures
            final(self)@ == if choice == kind_choice_of(old(self)@.kind) {
                old(self)@
            } else {
                with_kind(old(self)@, kind_for_choice_view(choice as int, lang))
            },
    {
        if choice != self.kind_choice() {
            self.kind = kind_for_choice(choice, lang);
        }
    }

    /// Adds an answer in the default wording that leads nowhere yet.
    pub fn add_branch(&mut self, lang: Language)
        ensures
            final(self)@ == (StepView {
                options: old(self)@.options.push(
                    OptionLinkView {
                        text: match lang {
                            Language::Ru => "Да"@,
                            Language::En => "Yes"@,
                        },
                        next_step_id: None,
                    },
                ),
                ..old(self)@
            }),
    {
        let ghost before = self.options@;
        self.options.push(
            OptionLink { text: String::from_str(lang.default_branch_yes()), next_step_id: None },
        );
        assert(options_view(self.options@) =~= options_view(before).push(
            self.options@[before.len() as int]@,
        ));
    }

    /// Removes answer `idx`; the later answers move up by one.
    pub fn remove_option(&mut self, idx: usize)
        requires
            idx < old(self).options.len(),
        ensures
            final(self)@ == (StepView {
                options: old(self)@.options.remove(idx as int),
                ..old(self)@
            }),
    {
        let ghost before = self.options@;
        self.options.remove(idx);
        assert(options_view(self.options@) =~= options_view(before).remove(idx as int));
    }
}

} // verus!
