//! The archive catalogue: saved procedures listed newest first, filtered by
//! manufacturer, model and a text query.
use vstd::prelude::*;

use crate::editor::{algos_view, opt_text_view, same_prefs, same_runner, same_saved, same_search, same_tab, AlgoApp};
use crate::i18n::Language;
use crate::models::{timestamp_before, Algorithm, AlgorithmView, Timestamp};
use crate::text::{
    has_substring, lemma_text_less_irreflexive, lemma_text_less_total, lemma_text_less_transitive,
    lowercase, str_contains, text_less, text_lt, to_lower, trim_str, trimmed,
};

verus! {

broadcast use {vstd::seq_lib::to_multiset_build, vstd::seq_lib::to_multiset_insert};

// ---------------------------------------------------------------------------
// Newest first
// ---------------------------------------------------------------------------

/// `a` was updated before `b`.
pub open spec fn updated_before(a: AlgorithmView, b: AlgorithmView) -> bool {
    timestamp_before(a.metadata.updated_at, b.metadata.updated_at)
}

/// `x` inserted into `s` after every procedure of `s` updated no earlier.
pub open spec fn insert_by_update(s: Seq<AlgorithmView>, x: AlgorithmView) -> Seq<AlgorithmView>
    decreases s.len(),
{
    if s.len() == 0 || !updated_before(s.last(), x) {
        s.push(x)
    } else {
        insert_by_update(s.drop_last(), x).push(s.last())
    }
}

/// `s` ordered by update time, the most recent first; procedures updated at
/// the same time keep their order (a stable sort).
pub open spec fn newest_first(s: Seq<AlgorithmView>) -> Seq<AlgorithmView>
    decreases s.len(),
{
    if s.len() == 0 {
        Seq::empty()
    } else {
        insert_by_update(newest_first(s.drop_last()), s.last())
    }
}

/// No procedure of `s` was updated before one that follows it.
pub open spec fn is_newest_first(s: Seq<AlgorithmView>) -> bool {
    forall|i: int, j: int| 0 <= i < j < s.len() ==> !updated_before(#[trigger] s[i], #[trigger] s[j])
}

fn ts_before(a: Timestamp, b: Timestamp) -> (r: bool)
    ensures
        r == timestamp_before(a, b),
{
    a.secs < b.secs || (a.secs == b.secs && a.nanos < b.nanos)
}

proof fn lemma_insert_at(s: Seq<AlgorithmView>, x: AlgorithmView, p: int)
    requires
        0 <= p <= s.len(),
        forall|j: int| p <= j < s.len() ==> updated_before(#[trigger] s[j], x),
        p == 0 || !updated_before(s[p - 1], x),
    ensures
        insert_by_update(s, x) == s.insert(p, x),
    decreases s.len(),
{
    if p == s.len() {
        assert(s.push(x) =~= s.insert(p, x));
    } else {
        lemma_insert_at(s.drop_last(), x, p);
        assert(s.drop_last().insert(p, x).push(s.last()) =~= s.insert(p, x));
    }
}

/// The procedures `list` ordered by update time, the most recent first
/// (see `newest_first`).
pub fn sort_by_updated_desc(list: &Vec<Algorithm>) -> (r: Vec<Algorithm>)
    ensures
        algos_view(r@) == newest_first(algos_view(list@)),
{
    let ghost lv = algos_view(list@);
    let mut r: Vec<Algorithm> = Vec::new();
    for i in 0..list.len()
        invariant
            lv == algos_view(list@),
            algos_view(r@) == newest_first(lv.take(i as int)),
    {
        let x = list[i].deep_clone();
        let key = x.metadata.updated_at;
        let ghost rv = algos_view(r@);
        let mut p = r.len();
        while p > 0 && ts_before(r[p - 1].metadata.updated_at, key)
            invariant
                p <= r@.len(),
                rv == algos_view(r@),
                key == x@.metadata.updated_at,
                forall|j: int| p <= j < rv.len() ==> updated_before(#[trigger] rv[j], x@),
            decreases p,
        {
            assert(rv[p - 1] == r@[p - 1]@);
            p -= 1;
        }
        proof {
            if p > 0 {
                assert(rv[p - 1] == r@[p - 1]@);
            }
            lemma_insert_at(rv, x@, p as int);
            assert(lv.take(i + 1).drop_last() =~= lv.take(i as int));
            assert(lv.take(i + 1).last() == x@);
        }
        r.insert(p, x);
        assert(algos_view(r@) =~= rv.insert(p as int, x@));
    }
    assert(lv.take(list@.len() as int) =~= lv);
    r
}

proof fn lemma_insert_by_update(t: Seq<AlgorithmView>, x: AlgorithmView)
    ensures
        insert_by_update(t, x).to_multiset() == t.to_multiset().insert(x),
        is_newest_first(t) ==> is_newest_first(insert_by_update(t, x)),
        forall|i: int|
            0 <= i < insert_by_update(t, x).len() ==> #[trigger] insert_by_update(t, x)[i] == x
                || t.contains(insert_by_update(t, x)[i]),
        insert_by_update(t, x).len() == t.len() + 1,
    decreases t.len(),
{
    if t.len() == 0 || !updated_before(t.last(), x) {
        let r = t.push(x);
        assert forall|i: int| 0 <= i < r.len() implies #[trigger] r[i] == x || t.contains(r[i]) by {
            if i < t.len() {
                assert(r[i] == t[i]);
            }
        }
        if is_newest_first(t) && t.len() > 0 {
            assert forall|i: int, j: int| 0 <= i < j < r.len() implies !updated_before(
                #[trigger] r[i],
                #[trigger] r[j],
            ) by {
                if j == t.len() {
                    if i < t.len() - 1 {
                        assert(!updated_before(t[i], t[t.len() - 1]));
                    }
                } else {
                    assert(r[i] == t[i] && r[j] == t[j]);
                }
            }
        }
    } else {
        let d = t.drop_last();
        lemma_insert_by_update(d, x);
        let m = insert_by_update(d, x);
        let r = m.push(t.last());
        assert(t =~= d.push(t.last()));
        assert forall|i: int| 0 <= i < r.len() implies #[trigger] r[i] == x || t.contains(r[i]) by {
            if i < m.len() {
                assert(r[i] == m[i]);
                if m[i] != x {
                    let k = choose|k: int| 0 <= k < d.len() && d[k] == m[i];
                    assert(t[k] == d[k]);
                }
            } else {
                assert(t[t.len() - 1] == t.last());
            }
        }
        if is_newest_first(t) {
            assert(is_newest_first(d)) by {
                assert forall|i: int, j: int| 0 <= i < j < d.len() implies !updated_before(
                    #[trigger] d[i],
                    #[trigger] d[j],
                ) by {
                    assert(d[i] == t[i] && d[j] == t[j]);
                }
            }
            assert forall|i: int, j: int| 0 <= i < j < r.len() implies !updated_before(
                #[trigger] r[i],
                #[trigger] r[j],
            ) by {
                if j == m.len() {
                    assert(r[j] == t.last());
                    assert(r[i] == m[i]);
                    if m[i] != x {
                        let k = choose|k: int| 0 <= k < d.len() && d[k] == m[i];
                        assert(t[k] == d[k]);
                        assert(!updated_before(t[k], t[t.len() - 1]));
                    }
                } else {
                    assert(r[i] == m[i] && r[j] == m[j]);
                }
            }
        }
    }
}

/// The ordered list holds the same procedures as the list it orders.
pub proof fn law_newest_first_permutes(s: Seq<AlgorithmView>)
    ensures
        newest_first(s).to_multiset() == s.to_multiset(),
    decreases s.len(),
{
    if s.len() > 0 {
        law_newest_first_permutes(s.drop_last());
        lemma_insert_by_update(newest_first(s.drop_last()), s.last());
        assert(s =~= s.drop_last().push(s.last()));
        assert(s.drop_last().push(s.last()).to_multiset() == s.drop_last().to_multiset().insert(
            s.last(),
        ));
        assert(newest_first(s) == insert_by_update(newest_first(s.drop_last()), s.last()));
    } else {
        assert(s =~= Seq::<AlgorithmView>::empty());
        assert(newest_first(s) =~= Seq::<AlgorithmView>::empty());
    }
}

/// In the ordered list no procedure was updated before one that follows it.
pub proof fn law_newest_first_ordered(s: Seq<AlgorithmView>)
    ensures
        is_newest_first(newest_first(s)),
    decreases s.len(),
{
    if s.len() > 0 {
        law_newest_first_ordered(s.drop_last());
        lemma_insert_by_update(newest_first(s.drop_last()), s.last());
    }
}

// ---------------------------------------------------------------------------
// Filtering the catalogue
// ---------------------------------------------------------------------------

/// The group a passport text puts a procedure in: the text trimmed, or
/// `fallback` when nothing is left.
pub open spec fn group_label(text: Seq<char>, fallback: Seq<char>) -> Seq<char> {
    if trimmed(text).len() == 0 {
        fallback
    } else {
        trimmed(text)
    }
}

pub open spec fn no_manufacturer_text(lang: Language) -> Seq<char> {
    match lang {
        Language::Ru => "Без бренда"@,
        Language::En => "Unspecified Brand"@,
    }
}

pub open spec fn no_model_text(lang: Language) -> Seq<char> {
    match lang {
        Language::Ru => "Общее"@,
        Language::En => "General"@,
    }
}

/// The manufacturer group of `a`.
pub open spec fn manufacturer_label(a: AlgorithmView, lang: Language) -> Seq<char> {
    group_label(a.metadata.manufacturer, no_manufacturer_text(lang))
}

/// The model group of `a`.
pub open spec fn model_label(a: AlgorithmView, lang: Language) -> Seq<char> {
    group_label(a.metadata.model, no_model_text(lang))
}

/// The query `q` (already trimmed and in lower case) is empty or occurs in
/// the lower-case name, manufacturer, model, type, inventory number or
/// author of `a`.
pub open spec fn query_matches(a: AlgorithmView, q: Seq<char>) -> bool {
    let m = a.metadata;
    q.len() == 0 || has_substring(lowercase(m.name), q) || has_substring(
        lowercase(m.manufacturer),
        q,
    ) || has_substring(lowercase(m.model), q) || has_substring(lowercase(m.eq_type), q)
        || has_substring(lowercase(m.inv_number), q) || has_substring(lowercase(m.author), q)
}

/// `a` is listed under the chosen manufacturer and model groups (when
/// chosen) and matches the query.
pub open spec fn shown_in_archive(
    a: AlgorithmView,
    mfg: Option<Seq<char>>,
    model: Option<Seq<char>>,
    q: Seq<char>,
    lang: Language,
) -> bool {
    &&& (match mfg {
        Some(m) => manufacturer_label(a, lang) == m,
        None => true,
    })
    &&& (match model {
        Some(m) => model_label(a, lang) == m,
        None => true,
    })
    &&& query_matches(a, q)
}

/// The positions in `list` of the procedures shown, in order.
pub open spec fn shown_indices(
    list: Seq<AlgorithmView>,
    mfg: Option<Seq<char>>,
    model: Option<Seq<char>>,
    q: Seq<char>,
    lang: Language,
) -> Seq<usize>
    decreases list.len(),
{
    if list.len() == 0 {
        Seq::empty()
    } else {
        shown_indices(list.drop_last(), mfg, model, q, lang) + if shown_in_archive(
            list.last(),
            mfg,
            model,
            q,
            lang,
        ) {
            seq![(list.len() - 1) as usize]
        } else {
            Seq::<usize>::empty()
        }
    }
}

/// The positions listed by `shown_indices` are in increasing order, and a
/// position is listed exactly when the procedure there is shown.
proof fn lemma_shown_indices(
    list: Seq<AlgorithmView>,
    mfg: Option<Seq<char>>,
    model: Option<Seq<char>>,
    q: Seq<char>,
    lang: Language,
)
    requires
        list.len() <= usize::MAX,
    ensures
        forall|x: usize|
            #[trigger] shown_indices(list, mfg, model, q, lang).contains(x) <==> (x < list.len()
                && shown_in_archive(list[x as int], mfg, model, q, lang)),
        forall|a: int, b: int|
            0 <= a < b < shown_indices(list, mfg, model, q, lang).len() ==> #[trigger] shown_indices(
                list,
                mfg,
                model,
                q,
                lang,
            )[a] < #[trigger] shown_indices(list, mfg, model, q, lang)[b],
    decreases list.len(),
{
    if list.len() > 0 {
        let pre = list.drop_last();
        lemma_shown_indices(pre, mfg, model, q, lang);
        let p = shown_indices(pre, mfg, model, q, lang);
        let r = shown_indices(list, mfg, model, q, lang);
        let n = (list.len() - 1) as usize;
        assert forall|x: usize| #[trigger] r.contains(x) <==> (x < list.len() && shown_in_archive(
            list[x as int],
            mfg,
            model,
            q,
            lang,
        )) by {
            if x < pre.len() {
                assert(pre[x as int] == list[x as int]);
            }
            if r.contains(x) {
                let k = choose|k: int| 0 <= k < r.len() && r[k] == x;
                if k < p.len() {
                    assert(p[k] == x);
                    assert(p.contains(x));
                } else {
                    assert(x == n);
                }
            }
            if x < list.len() && shown_in_archive(list[x as int], mfg, model, q, lang) {
                if x < pre.len() {
                    assert(p.contains(x));
                    let k = choose|k: int| 0 <= k < p.len() && p[k] == x;
                    assert(r[k] == x);
                } else {
                    assert(r[p.len() as int] == x);
                }
            }
        }
        assert forall|a: int, b: int| 0 <= a < b < r.len() implies #[trigger] r[a] < #[trigger] r[b] by {
            if b < p.len() {
                assert(r[a] == p[a] && r[b] == p[b]);
            } else {
                assert(r[a] == p[a]);
                assert(p.contains(p[a]));
                assert(r[b] == n);
            }
        }
    }
}

/// The archive lists, in increasing order of position, exactly the
/// procedures that belong to the chosen manufacturer and model groups (when
/// chosen) and whose lower-case name, manufacturer, model, type, inventory
/// number or author contains the search text `q` (every procedure when `q`
/// is empty).
pub proof fn law_archive_listing(
    list: Seq<AlgorithmView>,
    mfg: Option<Seq<char>>,
    model: Option<Seq<char>>,
    q: Seq<char>,
    lang: Language,
)
    requires
        list.len() <= usize::MAX,
    ensures
        forall|x: usize|
            x < list.len() ==> (#[trigger] shown_indices(list, mfg, model, q, lang).contains(x) <==> {
                let m = list[x as int].metadata;
                &&& (mfg matches Some(g) ==> manufacturer_label(list[x as int], lang) == g)
                &&& (model matches Some(g) ==> model_label(list[x as int], lang) == g)
                &&& (q.len() == 0 || has_substring(lowercase(m.name), q) || has_substring(
                    lowercase(m.manufacturer),
                    q,
                ) || has_substring(lowercase(m.model), q) || has_substring(
                    lowercase(m.eq_type),
                    q,
                ) || has_substring(lowercase(m.inv_number), q) || has_substring(
                    lowercase(m.author),
                    q,
                ))
            }),
        forall|x: usize|
            #[trigger] shown_indices(list, mfg, model, q, lang).contains(x) ==> x < list.len(),
        forall|a: int, b: int|
            0 <= a < b < shown_indices(list, mfg, model, q, lang).len() ==> #[trigger] shown_indices(
                list,
                mfg,
                model,
                q,
                lang,
            )[a] < #[trigger] shown_indices(list, mfg, model, q, lang)[b],
{
    lemma_shown_indices(list, mfg, model, q, lang);
}

/// The group of a passport text (see `group_label`).
pub fn group_label_of(text: &String, fallback: &str) -> (r: String)
    ensures
        r@ == group_label(text@, fallback@),
{
    let t = trim_str(text.as_str());
    if t.unicode_len() == 0 {
        String::from_str(fallback)
    } else {
        String::from_str(t)
    }
}

/// `q` is empty or occurs in one of `fields`.
pub open spec fn any_field_contains(fields: Seq<Seq<char>>, q: Seq<char>) -> bool {
    q.len() == 0 || exists|i: int| 0 <= i < fields.len() && has_substring(#[trigger] fields[i], q)
}

/// Whether `q` is empty or occurs in one of the (lower-case) `fields`.
pub fn query_hits(fields: &Vec<String>, q: &str) -> (r: bool)
    ensures
        r == any_field_contains(strings_view(fields@), q@),
{
    if q.unicode_len() == 0 {
        return true;
    }
    let ghost fv = strings_view(fields@);
    for i in 0..fields.len()
        invariant
            fv == strings_view(fields@),
            q@.len() > 0,
            forall|j: int| 0 <= j < i ==> !has_substring(#[trigger] fv[j], q@),
    {
        if str_contains(fields[i].as_str(), q) {
            assert(has_substring(fv[i as int], q@));
            return true;
        }
    }
    false
}

fn matches_query(a: &Algorithm, q: &String) -> (r: bool)
    ensures
        r == query_matches(a@, q@),
{
    let m = &a.metadata;
    let fields = vec![
        to_lower(m.name.as_str()),
        to_lower(m.manufacturer.as_str()),
        to_lower(m.model.as_str()),
        to_lower(m.eq_type.as_str()),
        to_lower(m.inv_number.as_str()),
        to_lower(m.author.as_str()),
    ];
    let r = query_hits(&fields, q.as_str());
    proof {
        let fv = strings_view(fields@);
        assert(fv[0] == lowercase(a@.metadata.name));
        assert(fv[1] == lowercase(a@.metadata.manufacturer));
        assert(fv[2] == lowercase(a@.metadata.model));
        assert(fv[3] == lowercase(a@.metadata.eq_type));
        assert(fv[4] == lowercase(a@.metadata.inv_number));
        assert(fv[5] == lowercase(a@.metadata.author));
        if any_field_contains(fv, q@) && q@.len() > 0 {
            let i = choose|i: int| 0 <= i < fv.len() && has_substring(#[trigger] fv[i], q@);
            assert(0 <= i < 6);
        }
    }
    r
}

fn in_group(label: &String, chosen: &Option<String>) -> (r: bool)
    ensures
        r == match opt_text_view(*chosen) {
            Some(m) => label@ == m,
            None => true,
        },
{
    match chosen {
        Some(c) => *label == *c,
        None => true,
    }
}

/// The name a procedure is listed under: its name, or "untitled" in
/// language `lang` when the name is blank.
pub open spec fn display_name_text(a: AlgorithmView, lang: Language) -> Seq<char> {
    if trimmed(a.metadata.name).len() == 0 {
        match lang {
            Language::Ru => "Без названия"@,
            Language::En => "Untitled"@,
        }
    } else {
        a.metadata.name
    }
}

/// The name `algo` is listed under (see `display_name_text`).
pub fn display_name(algo: &Algorithm, lang: Language) -> (r: String)
    ensures
        r@ == display_name_text(algo@, lang),
{
    if trim_str(algo.metadata.name.as_str()).unicode_len() == 0 {
        String::from_str(lang.untitled())
    } else {
        algo.metadata.name.clone()
    }
}

impl AlgoApp {
    /// The positions in the archive list of the procedures shown under the
    /// chosen groups and the search text (trimmed, in lower case).
    pub fn filtered_archive(&self) -> (r: Vec<usize>)
        ensures
            r@ == shown_indices(
                algos_view(self.archive_list@),
                opt_text_view(self.archive_selected_mfg),
                opt_text_view(self.archive_selected_model),
                lowercase(trimmed(self.archive_search@)),
                self.settings.language,
            ),
    {
        let lang = self.settings.language;
        let q = to_lower(trim_str(self.archive_search.as_str()));
        let ghost lv = algos_view(self.archive_list@);
        let ghost mfg = opt_text_view(self.archive_selected_mfg);
        let ghost model = opt_text_view(self.archive_selected_model);
        let mut r: Vec<usize> = Vec::new();
        for i in 0..self.archive_list.len()
            invariant
                lv == algos_view(self.archive_list@),
                lang == self.settings.language,
                mfg == opt_text_view(self.archive_selected_mfg),
                model == opt_text_view(self.archive_selected_model),
                r@ == shown_indices(lv.take(i as int), mfg, model, q@, lang),
        {
            let a = &self.archive_list[i];
            proof {
                assert(lv.take(i + 1).drop_last() =~= lv.take(i as int));
                assert(lv.take(i + 1).last() == a@);
            }
            let mfg_label = group_label_of(&a.metadata.manufacturer, lang.no_manufacturer());
            let model_label = group_label_of(&a.metadata.model, lang.no_model());
            if in_group(&mfg_label, &self.archive_selected_mfg) && in_group(
                &model_label,
                &self.archive_selected_model,
            ) && matches_query(a, &q) {
                r.push(i);
            }
        }
        assert(lv.take(self.archive_list@.len() as int) =~= lv);
        r
    }

    /// Installs the procedures read from the archive, newest first, and
    /// records the archive as loaded.
    pub fn set_archive(&mut self, list: Vec<Algorithm>)
        ensures
            algos_view(final(self).archive_list@) == newest_first(algos_view(list@)),
            final(self).archive_loaded,
            final(self).archive_search@ == old(self).archive_search@,
            opt_text_view(final(self).archive_selected_mfg) == opt_text_view(
                old(self).archive_selected_mfg,
            ),
            opt_text_view(final(self).archive_selected_model) == opt_text_view(
                old(self).archive_selected_model,
            ),
            final(self).history() == old(self).history(),
            final(self).undo_stack@.len() == old(self).undo_stack@.len(),
            final(self).redo_stack@.len() == old(self).redo_stack@.len(),
            final(self).selected_step_ids@ == old(self).selected_step_ids@,
            same_tab(old(self), final(self)),
            same_prefs(old(self), final(self)),
            same_saved(old(self), final(self)),
            same_search(old(self), final(self)),
            same_runner(old(self), final(self)),
    {
        self.archive_list = sort_by_updated_desc(&list);
        self.archive_loaded = true;
    }
}

// ---------------------------------------------------------------------------
// The catalogue tree
// ---------------------------------------------------------------------------

/// The number of times `k` occurs in `keys`.
pub open spec fn occurrences(keys: Seq<Seq<char>>, k: Seq<char>) -> nat
    decreases keys.len(),
{
    if keys.len() == 0 {
        0
    } else {
        occurrences(keys.drop_last(), k) + if keys.last() == k {
            1nat
        } else {
            0nat
        }
    }
}

/// The entries of `out` are in the order of their texts.
pub open spec fn tally_ordered(out: Seq<(Seq<char>, usize)>) -> bool {
    forall|i: int, j: int|
        0 <= i < j < out.len() ==> text_less(#[trigger] out[i].0, #[trigger] out[j].0)
}

/// Each entry of `out` holds a text of `keys` and the number of times it
/// occurs there.
pub open spec fn tally_counts(keys: Seq<Seq<char>>, out: Seq<(Seq<char>, usize)>) -> bool {
    forall|i: int|
        0 <= i < out.len() ==> keys.contains((#[trigger] out[i]).0) && out[i].1 == occurrences(
            keys,
            out[i].0,
        )
}

/// Text `t` has an entry in `out`.
pub open spec fn has_entry(out: Seq<(Seq<char>, usize)>, t: Seq<char>) -> bool {
    exists|i: int| 0 <= i < out.len() && (#[trigger] out[i]).0 == t
}

/// Each text of `keys` has an entry in `out`.
pub open spec fn tally_covers(keys: Seq<Seq<char>>, out: Seq<(Seq<char>, usize)>) -> bool {
    forall|j: int| 0 <= j < keys.len() ==> has_entry(out, #[trigger] keys[j])
}

/// `out` lists every text of `keys` once, in the order of texts, with the
/// number of times it occurs in `keys`.
pub open spec fn is_tally(keys: Seq<Seq<char>>, out: Seq<(Seq<char>, usize)>) -> bool {
    &&& tally_ordered(out)
    &&& tally_counts(keys, out)
    &&& tally_covers(keys, out)
}

pub open spec fn strings_view(s: Seq<String>) -> Seq<Seq<char>> {
    s.map_values(|x: String| x@)
}

pub open spec fn tally_view(s: Seq<(String, usize)>) -> Seq<(Seq<char>, usize)> {
    s.map_values(|e: (String, usize)| (e.0@, e.1))
}

proof fn lemma_occurrences_zero(keys: Seq<Seq<char>>, k: Seq<char>)
    requires
        !keys.contains(k),
    ensures
        occurrences(keys, k) == 0,
    decreases keys.len(),
{
    if keys.len() > 0 {
        assert(keys.last() == keys[keys.len() - 1]);
        assert(!keys.drop_last().contains(k)) by {
            if keys.drop_last().contains(k) {
                let j = choose|j: int| 0 <= j < keys.drop_last().len() && keys.drop_last()[j] == k;
                assert(keys[j] == k);
            }
        }
        lemma_occurrences_zero(keys.drop_last(), k);
    }
}

proof fn lemma_tally_bump(
    pre: Seq<Seq<char>>,
    k: Seq<char>,
    ov: Seq<(Seq<char>, usize)>,
    p: int,
    c: usize,
)
    requires
        is_tally(pre, ov),
        0 <= p < ov.len(),
        ov[p].0 == k,
        ov[p].1 == c,
        c + 1 <= usize::MAX,
    ensures
        is_tally(pre.push(k), ov.update(p, (k, (c + 1) as usize))),
{
    let post = pre.push(k);
    let nv = ov.update(p, (k, (c + 1) as usize));
    assert(post.drop_last() =~= pre);
    assert forall|j: int| 0 <= j < nv.len() implies post.contains((#[trigger] nv[j]).0) && nv[j].1
        == occurrences(post, nv[j].0) by {
        assert(post[pre.len() as int] == k);
        if j != p {
            lemma_text_less_irreflexive(ov[j].0);
            if j < p {
                assert(text_less(ov[j].0, ov[p].0));
            } else {
                assert(text_less(ov[p].0, ov[j].0));
            }
            assert(nv[j] == ov[j]);
            assert(pre.contains(ov[j].0));
            let q = choose|q: int| 0 <= q < pre.len() && pre[q] == ov[j].0;
            assert(post[q] == pre[q]);
        }
    }
    assert forall|j: int| 0 <= j < post.len() implies has_entry(nv, #[trigger] post[j]) by {
        if j < pre.len() {
            assert(post[j] == pre[j]);
            assert(has_entry(ov, pre[j]));
            let x = choose|x: int| 0 <= x < ov.len() && (#[trigger] ov[x]).0 == pre[j];
            assert(nv[x].0 == ov[x].0);
        } else {
            assert(nv[p].0 == post[j]);
        }
    }
}

/// Inserting `k` at `p`, after the texts before it and before the texts
/// after it, keeps the entries in the order of texts.
proof fn lemma_insert_keeps_order(ov: Seq<(Seq<char>, usize)>, k: Seq<char>, p: int)
    requires
        tally_ordered(ov),
        0 <= p <= ov.len(),
        forall|j: int| 0 <= j < p ==> text_less((#[trigger] ov[j]).0, k),
        p < ov.len() ==> ov[p].0 != k && !text_less(ov[p].0, k),
    ensures
        tally_ordered(ov.insert(p, (k, 1usize))),
{
    let nv = ov.insert(p, (k, 1usize));
    assert(nv.len() == ov.len() + 1);
    assert(nv[p] == (k, 1usize));
    if p < ov.len() {
        lemma_text_less_total(ov[p].0, k);
        assert(text_less(k, ov[p].0));
    }
    assert forall|a: int, b: int| 0 <= a < b < nv.len() implies text_less(
        #[trigger] nv[a].0,
        #[trigger] nv[b].0,
    ) by {
        if a == p {
            assert(nv[b] == ov[b - 1]);
            if b > p + 1 {
                assert(text_less(ov[p].0, ov[b - 1].0));
                lemma_text_less_transitive(k, ov[p].0, ov[b - 1].0);
            }
        } else if b == p {
            assert(nv[a] == ov[a]);
            assert(text_less(ov[a].0, k));
        } else if a < p && b > p {
            assert(nv[a] == ov[a] && nv[b] == ov[b - 1]);
            assert(text_less(ov[a].0, ov[b - 1].0));
        } else if b < p {
            assert(nv[a] == ov[a] && nv[b] == ov[b]);
            assert(text_less(ov[a].0, ov[b].0));
        } else {
            assert(nv[a] == ov[a - 1] && nv[b] == ov[b - 1]);
            assert(text_less(ov[a - 1].0, ov[b - 1].0));
        }
    }
}

/// A text that does not occur yet occurs once after it is appended; every
/// other text occurs as often as before.
proof fn lemma_occurrences_push(pre: Seq<Seq<char>>, k: Seq<char>, x: Seq<char>)
    ensures
        occurrences(pre.push(k), x) == occurrences(pre, x) + if x == k {
            1nat
        } else {
            0nat
        },
{
    let post = pre.push(k);
    assert(post.drop_last() =~= pre);
    assert(post.last() == k);
}

/// After `k`, which `pre` does not hold, is appended and inserted at `p`
/// with the count one, each entry holds a text of the keys and its count.
proof fn lemma_insert_keeps_counts(
    pre: Seq<Seq<char>>,
    k: Seq<char>,
    ov: Seq<(Seq<char>, usize)>,
    p: int,
)
    requires
        tally_counts(pre, ov),
        !pre.contains(k),
        0 <= p <= ov.len(),
    ensures
        tally_counts(pre.push(k), ov.insert(p, (k, 1usize))),
{
    let post = pre.push(k);
    let nv = ov.insert(p, (k, 1usize));
    lemma_occurrences_zero(pre, k);
    assert(post[pre.len() as int] == k);
    assert forall|j: int| 0 <= j < nv.len() implies post.contains((#[trigger] nv[j]).0) && nv[j].1
        == occurrences(post, nv[j].0) by {
        if j == p {
            assert(nv[j] == (k, 1usize));
            lemma_occurrences_push(pre, k, k);
        } else {
            let oj = if j < p {
                j
            } else {
                j - 1
            };
            assert(nv[j] == ov[oj]);
            assert(pre.contains(ov[oj].0));
            let q = choose|q: int| 0 <= q < pre.len() && pre[q] == ov[oj].0;
            assert(post[q] == pre[q]);
            assert(ov[oj].0 != k);
            lemma_occurrences_push(pre, k, ov[oj].0);
        }
    }
}

/// After `k` is appended and inserted at `p`, every key has an entry.
proof fn lemma_insert_keeps_cover(
    pre: Seq<Seq<char>>,
    k: Seq<char>,
    ov: Seq<(Seq<char>, usize)>,
    p: int,
)
    requires
        tally_covers(pre, ov),
        0 <= p <= ov.len(),
    ensures
        tally_covers(pre.push(k), ov.insert(p, (k, 1usize))),
{
    let post = pre.push(k);
    let nv = ov.insert(p, (k, 1usize));
    assert forall|j: int| 0 <= j < post.len() implies has_entry(nv, #[trigger] post[j]) by {
        if j < pre.len() {
            assert(post[j] == pre[j]);
            assert(has_entry(ov, pre[j]));
            let x = choose|x: int| 0 <= x < ov.len() && (#[trigger] ov[x]).0 == pre[j];
            if x < p {
                assert(nv[x] == ov[x]);
            } else {
                assert(nv[x + 1] == ov[x]);
            }
        } else {
            assert(post[j] == k);
            assert(nv[p] == (k, 1usize));
        }
    }
}

proof fn lemma_tally_insert(pre: Seq<Seq<char>>, k: Seq<char>, ov: Seq<(Seq<char>, usize)>, p: int)
    requires
        is_tally(pre, ov),
        0 <= p <= ov.len(),
        forall|j: int| 0 <= j < p ==> text_less((#[trigger] ov[j]).0, k),
        p < ov.len() ==> ov[p].0 != k && !text_less(ov[p].0, k),
    ensures
        is_tally(pre.push(k), ov.insert(p, (k, 1usize))),
{
    assert(!pre.contains(k)) by {
        if pre.contains(k) {
            let q = choose|q: int| 0 <= q < pre.len() && pre[q] == k;
            let x = choose|x: int| 0 <= x < ov.len() && (#[trigger] ov[x]).0 == pre[q];
            if x < p {
                lemma_text_less_irreflexive(k);
            } else if x > p {
                assert(text_less(ov[p].0, ov[x].0));
                lemma_text_less_total(ov[p].0, k);
                lemma_text_less_transitive(k, ov[p].0, ov[x].0);
                lemma_text_less_irreflexive(k);
            }
        }
    }
    lemma_insert_keeps_order(ov, k, p);
    lemma_insert_keeps_counts(pre, k, ov, p);
    lemma_insert_keeps_cover(pre, k, ov, p);
}

/// Each text of `keys` once, in the order of texts, with the number of
/// times it occurs (see `is_tally`).
pub fn tally(keys: &Vec<String>) -> (out: Vec<(String, usize)>)
    ensures
        is_tally(strings_view(keys@), tally_view(out@)),
{
    let ghost kv = strings_view(keys@);
    let mut out: Vec<(String, usize)> = Vec::new();
    for i in 0..keys.len()
        invariant
            kv == strings_view(keys@),
            kv.len() == keys@.len(),
            is_tally(kv.take(i as int), tally_view(out@)),
            forall|j: int| 0 <= j < out@.len() ==> (#[trigger] out@[j]).1 <= i,
    {
        let key = &keys[i];
        let ghost k = key@;
        let ghost ov = tally_view(out@);
        proof {
            assert(kv.take(i + 1) =~= kv.take(i as int).push(k));
        }
        let mut p: usize = 0;
        while p < out.len() && text_lt(out[p].0.as_str(), key.as_str())
            invariant
                p <= out@.len(),
                ov == tally_view(out@),
                k == key@,
                forall|j: int| 0 <= j < p ==> text_less((#[trigger] ov[j]).0, k),
            decreases out@.len() - p,
        {
            p += 1;
        }
        if p < out.len() && out[p].0 == *key {
            let c = out[p].1;
            proof {
                lemma_tally_bump(kv.take(i as int), k, ov, p as int, c);
            }
            out.set(p, (key.clone(), c + 1));
            assert(tally_view(out@) =~= ov.update(p as int, (k, (c + 1) as usize)));
        } else {
            proof {
                lemma_tally_insert(kv.take(i as int), k, ov, p as int);
            }
            out.insert(p, (key.clone(), 1));
            assert(tally_view(out@) =~= ov.insert(p as int, (k, 1usize)));
        }
    }
    proof {
        assert(kv.take(keys@.len() as int) =~= kv);
    }
    out
}

/// A manufacturer group of the catalogue: its label, the number of
/// procedures in it, and its model groups with their numbers.
pub struct CatalogueGroup {
    pub manufacturer: String,
    pub count: usize,
    pub models: Vec<(String, usize)>,
}

pub ghost struct CatalogueGroupView {
    pub manufacturer: Seq<char>,
    pub count: usize,
    pub models: Seq<(Seq<char>, usize)>,
}

impl View for CatalogueGroup {
    type V = CatalogueGroupView;

    open spec fn view(&self) -> CatalogueGroupView {
        CatalogueGroupView {
            manufacturer: self.manufacturer@,
            count: self.count,
            models: tally_view(self.models@),
        }
    }
}

/// The manufacturer labels and counts of the groups, as a tally.
pub open spec fn groups_view(g: Seq<CatalogueGroup>) -> Seq<(Seq<char>, usize)> {
    g.map_values(|x: CatalogueGroup| (x@.manufacturer, x@.count))
}

/// The manufacturer group of each procedure of `list`.
pub open spec fn manufacturer_labels(list: Seq<AlgorithmView>, lang: Language) -> Seq<Seq<char>> {
    list.map_values(|a: AlgorithmView| manufacturer_label(a, lang))
}

/// The model group of each procedure of `list` in manufacturer group `m`.
pub open spec fn model_labels_under(list: Seq<AlgorithmView>, lang: Language, m: Seq<char>) -> Seq<
    Seq<char>,
>
    decreases list.len(),
{
    if list.len() == 0 {
        Seq::empty()
    } else {
        model_labels_under(list.drop_last(), lang, m) + if manufacturer_label(list.last(), lang)
            == m {
            seq![model_label(list.last(), lang)]
        } else {
            Seq::<Seq<char>>::empty()
        }
    }
}

impl AlgoApp {
    fn manufacturer_label_list(&self) -> (r: Vec<String>)
        ensures
            strings_view(r@) == manufacturer_labels(
                algos_view(self.archive_list@),
                self.settings.language,
            ),
    {
        let lang = self.settings.language;
        let ghost lv = algos_view(self.archive_list@);
        let mut r: Vec<String> = Vec::new();
        for i in 0..self.archive_list.len()
            invariant
                lv == algos_view(self.archive_list@),
                lang == self.settings.language,
                strings_view(r@) == manufacturer_labels(lv.take(i as int), lang),
        {
            let l = group_label_of(&self.archive_list[i].metadata.manufacturer, lang.no_manufacturer());
            let ghost r0 = strings_view(r@);
            r.push(l);
            proof {
                assert(lv[i as int] == self.archive_list@[i as int]@);
                assert forall|j: int| 0 <= j < i implies r0[j] == manufacturer_label(
                    lv.take(i + 1)[j],
                    lang,
                ) by {
                    assert(lv.take(i as int)[j] == lv.take(i + 1)[j]);
                }
                assert(strings_view(r@) =~= r0.push(l@));
            }
            assert(strings_view(r@) =~= manufacturer_labels(lv.take(i + 1), lang));
        }
        assert(lv.take(self.archive_list@.len() as int) =~= lv);
        r
    }

    fn model_label_list(&self, m: &String) -> (r: Vec<String>)
        ensures
            strings_view(r@) == model_labels_under(
                algos_view(self.archive_list@),
                self.settings.language,
                m@,
            ),
    {
        let lang = self.settings.language;
        let ghost lv = algos_view(self.archive_list@);
        let mut r: Vec<String> = Vec::new();
        for i in 0..self.archive_list.len()
            invariant
                lv == algos_view(self.archive_list@),
                lang == self.settings.language,
                strings_view(r@) == model_labels_under(lv.take(i as int), lang, m@),
        {
            let a = &self.archive_list[i];
            proof {
                assert(lv.take(i + 1).drop_last() =~= lv.take(i as int));
                assert(lv.take(i + 1).last() == a@);
            }
            let l = group_label_of(&a.metadata.manufacturer, lang.no_manufacturer());
            if l == *m {
                let ml = group_label_of(&a.metadata.model, lang.no_model());
                r.push(ml);
            }
            assert(strings_view(r@) =~= model_labels_under(lv.take(i + 1), lang, m@));
        }
        assert(lv.take(self.archive_list@.len() as int) =~= lv);
        r
    }

    /// The catalogue tree of the archive: the manufacturer groups in the
    /// order of texts with their numbers of procedures, and in each the
    /// model groups in the order of texts with theirs.
    pub fn archive_catalogue(&self) -> (r: Vec<CatalogueGroup>)
        ensures
            is_tally(
                manufacturer_labels(algos_view(self.archive_list@), self.settings.language),
                groups_view(r@),
            ),
            forall|i: int|
                0 <= i < r@.len() ==> is_tally(
                    model_labels_under(
                        algos_view(self.archive_list@),
                        self.settings.language,
                        (#[trigger] r@[i])@.manufacturer,
                    ),
                    r@[i]@.models,
                ),
    {
        let labels = self.manufacturer_label_list();
        let makers = tally(&labels);
        let mut r: Vec<CatalogueGroup> = Vec::new();
        for i in 0..makers.len()
            invariant
                r@.len() == i,
                forall|j: int|
                    0 <= j < i ==> (#[trigger] r@[j]).manufacturer@ == makers@[j].0@ && r@[j].count
                        == makers@[j].1 && is_tally(
                        model_labels_under(
                            algos_view(self.archive_list@),
                            self.settings.language,
                            r@[j].manufacturer@,
                        ),
                        tally_view(r@[j].models@),
                    ),
        {
            let m = makers[i].0.clone();
            let models = tally(&self.model_label_list(&m));
            r.push(CatalogueGroup { manufacturer: m, count: makers[i].1, models });
        }
        assert(groups_view(r@) =~= tally_view(makers@));
        r
    }
}

} // verus!
