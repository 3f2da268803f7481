//! Editing the links of a procedure: linking one step to another, cutting a
//! link, dropping the links into deleted steps, and the drawing style kept
//! for individual links.
use std::collections::HashSet;
use vstd::prelude::*;

use crate::i18n::{decimal, Language};
use crate::ids::{uuid_string, uuid_text};
use crate::models::{
    keys_unique, options_view, wire_styles_view, Algorithm, OptionLink, OptionLinkView, Step, StepKind,
    StepKindView, StepView, WireStyle,
};

verus! {

broadcast use vstd::std_specs::hash::group_hash_axioms;

// ---------------------------------------------------------------------------
// Linking a step to another
// ---------------------------------------------------------------------------

/// The index of the first option that leads nowhere.
pub open spec fn first_unlinked(opts: Seq<OptionLinkView>) -> Option<int> {
    if exists|k: int| 0 <= k < opts.len() && (#[trigger] opts[k]).next_step_id is None {
        Some(
            choose|k: int|
                0 <= k < opts.len() && (#[trigger] opts[k]).next_step_id is None && forall|j: int|
                    0 <= j < k ==> (#[trigger] opts[j]).next_step_id is Some,
        )
    } else {
        None
    }
}

proof fn lemma_first_unlinked_witness(opts: Seq<OptionLinkView>, w: int)
    requires
        0 <= w < opts.len(),
        opts[w].next_step_id is None,
    ensures
        exists|k: int|
            0 <= k < opts.len() && (#[trigger] opts[k]).next_step_id is None && forall|j: int|
                0 <= j < k ==> (#[trigger] opts[j]).next_step_id is Some,
    decreases w,
{
    if exists|j: int| 0 <= j < w && (#[trigger] opts[j]).next_step_id is None {
        let j = choose|j: int| 0 <= j < w && (#[trigger] opts[j]).next_step_id is None;
        lemma_first_unlinked_witness(opts, j);
    } else {
        assert(forall|j: int| 0 <= j < w ==> (#[trigger] opts[j]).next_step_id is Some);
    }
}

/// What `first_unlinked` picks.
pub proof fn lemma_first_unlinked(opts: Seq<OptionLinkView>)
    ensures
        match first_unlinked(opts) {
            Some(k) => 0 <= k < opts.len() && opts[k].next_step_id is None && forall|j: int|
                0 <= j < k ==> (#[trigger] opts[j]).next_step_id is Some,
            None => forall|j: int| 0 <= j < opts.len() ==> (#[trigger] opts[j]).next_step_id is Some,
        },
{
    if exists|k: int| 0 <= k < opts.len() && (#[trigger] opts[k]).next_step_id is None {
        let w = choose|k: int| 0 <= k < opts.len() && (#[trigger] opts[k]).next_step_id is None;
        lemma_first_unlinked_witness(opts, w);
    }
}

/// The text of the option added when a standard step with `n - 1` options
/// is linked once more.
pub open spec fn new_option_text(lang: Language, n: nat) -> Seq<char> {
    (match lang {
        Language::Ru => "Переход "@,
        Language::En => "Option "@,
    }) + decimal(n)
}

/// `o` with its target set to `t`.
pub open spec fn relinked(o: OptionLinkView, t: Option<u128>) -> OptionLinkView {
    OptionLinkView { text: o.text, next_step_id: t }
}

/// Step `s` after a link to `to` is drawn from it: the first option that
/// leads nowhere is linked, or else a new option is added; a measurement
/// links its normal exit, else its abnormal exit, else relinks its normal
/// exit; a safety warning relinks its exit; a sub-procedure links its
/// success exit, else its failure exit, else relinks its success exit.
pub open spec fn connected(s: StepView, to: u128, lang: Language) -> StepView {
    match s.kind {
        StepKindView::Standard => match first_unlinked(s.options) {
            Some(k) => StepView {
                options: s.options.update(k, relinked(s.options[k], Some(to))),
                ..s
            },
            None => StepView {
                options: s.options.push(
                    OptionLinkView {
                        text: new_option_text(lang, s.options.len() + 1),
                        next_step_id: Some(to),
                    },
                ),
                ..s
            },
        },
        StepKindView::Measurement { unit, min_val, max_val, next_if_normal, next_if_abnormal } => {
            let (n, a) = if next_if_normal is None {
                (Some(to), next_if_abnormal)
            } else if next_if_abnormal is None {
                (next_if_normal, Some(to))
            } else {
                (Some(to), next_if_abnormal)
            };
            StepView {
                kind: StepKindView::Measurement {
                    unit,
                    min_val,
                    max_val,
                    next_if_normal: n,
                    next_if_abnormal: a,
                },
                ..s
            }
        },
        StepKindView::SafetyWarning { ack_text, .. } => StepView {
            kind: StepKindView::SafetyWarning { ack_text, next_step_id: Some(to) },
            ..s
        },
        StepKindView::Subprocess { sub_algo, next_if_success, next_if_failure } => {
            let (y, f) = if next_if_success is None {
                (Some(to), next_if_failure)
            } else if next_if_failure is None {
                (next_if_success, Some(to))
            } else {
                (Some(to), next_if_failure)
            };
            StepView {
                kind: StepKindView::Subprocess {
                    sub_algo,
                    next_if_success: y,
                    next_if_failure: f,
                },
                ..s
            }
        },
    }
}

fn first_unlinked_index(opts: &Vec<OptionLink>) -> (r: Option<usize>)
    ensures
        match r {
            Some(k) => first_unlinked(options_view(opts@)) == Some(k as int),
            None => first_unlinked(options_view(opts@)) is None,
        },
{
    let ghost ov = options_view(opts@);
    proof {
        lemma_first_unlinked(ov);
    }
    for i in 0..opts.len()
        invariant
            ov == options_view(opts@),
            ov.len() == opts@.len(),
            forall|j: int| 0 <= j < i ==> (#[trigger] ov[j]).next_step_id is Some,
            match first_unlinked(ov) {
                Some(k) => 0 <= k < ov.len() && ov[k].next_step_id is None && forall|j: int|
                    0 <= j < k ==> (#[trigger] ov[j]).next_step_id is Some,
                None => forall|j: int| 0 <= j < ov.len() ==> (#[trigger] ov[j]).next_step_id is Some,
            },
    {
        assert(ov[i as int] == opts@[i as int]@);
        if opts[i].next_step_id.is_none() {
            return Some(i);
        }
    }
    None
}

/// Draws a link from `step` to the step `to` (see `connected`).
pub fn connect_step(step: &mut Step, to: u128, lang: Language)
    requires
        old(step).options@.len() < usize::MAX,
    ensures
        final(step)@ == connected(old(step)@, to, lang),
{
    match &mut step.kind {
        StepKind::Standard => {
            match first_unlinked_index(&step.options) {
                Some(k) => {
                    let ghost ov = options_view(step.options@);
                    proof {
                        lemma_first_unlinked(ov);
                    }
                    step.options[k].next_step_id = Some(to);
                    assert(options_view(step.options@) =~= ov.update(
                        k as int,
                        relinked(ov[k as int], Some(to)),
                    ));
                },
                None => {
                    let ghost ov = options_view(step.options@);
                    let text = lang.default_option_link_text(step.options.len() + 1);
                    step.options.push(OptionLink { text, next_step_id: Some(to) });
                    assert(options_view(step.options@) =~= ov.push(
                        OptionLinkView {
                            text: new_option_text(lang, ov.len() + 1),
                            next_step_id: Some(to),
                        },
                    ));
                },
            }
        },
        StepKind::Measurement { next_if_normal, next_if_abnormal, .. } => {
            if next_if_normal.is_none() {
                *next_if_normal = Some(to);
            } else if next_if_abnormal.is_none() {
                *next_if_abnormal = Some(to);
            } else {
                *next_if_normal = Some(to);
            }
        },
        StepKind::SafetyWarning { next_step_id, .. } => {
            *next_step_id = Some(to);
        },
        StepKind::Subprocess { next_if_success, next_if_failure, .. } => {
            if next_if_success.is_none() {
                *next_if_success = Some(to);
            } else if next_if_failure.is_none() {
                *next_if_failure = Some(to);
            } else {
                *next_if_success = Some(to);
            }
        },
    }
}

// ---------------------------------------------------------------------------
// Cutting links
// ---------------------------------------------------------------------------

/// An exit of a step, as the canvas names the link drawn from it.
#[derive(Debug, Clone, Copy, PartialEq, Eq, Structural)]
pub enum LinkKind {
    /// The option at this index.
    Option(usize),
    /// The normal exit of a measurement.
    Normal,
    /// The abnormal exit of a measurement.
    Abnormal,
    /// The exit of a safety warning.
    Safety,
    /// The success exit of a sub-procedure.
    Success,
    /// The failure exit of a sub-procedure.
    Failure,
}

/// Step `s` with the link of exit `link` cut; an exit the step does not have
/// leaves it unchanged.
pub open spec fn disconnected(s: StepView, link: LinkKind) -> StepView {
    match link {
        LinkKind::Option(i) => if i < s.options.len() {
            StepView {
                options: s.options.update(i as int, relinked(s.options[i as int], None)),
                ..s
            }
        } else {
            s
        },
        LinkKind::Normal => match s.kind {
            StepKindView::Measurement { unit, min_val, max_val, next_if_abnormal, .. } => StepView {
                kind: StepKindView::Measurement {
                    unit,
                    min_val,
                    max_val,
                    next_if_normal: None,
                    next_if_abnormal,
                },
                ..s
            },
            _ => s,
        },
        LinkKind::Abnormal => match s.kind {
            StepKindView::Measurement { unit, min_val, max_val, next_if_normal, .. } => StepView {
                kind: StepKindView::Measurement {
                    unit,
                    min_val,
                    max_val,
                    next_if_normal,
                    next_if_abnormal: None,
                },
                ..s
            },
            _ => s,
        },
        LinkKind::Safety => match s.kind {
            StepKindView::SafetyWarning { ack_text, .. } => StepView {
                kind: StepKindView::SafetyWarning { ack_text, next_step_id: None },
                ..s
            },
            _ => s,
        },
        LinkKind::Success => match s.kind {
            StepKindView::Subprocess { sub_algo, next_if_failure, .. } => StepView {
                kind: StepKindView::Subprocess { sub_algo, next_if_success: None, next_if_failure },
                ..s
            },
            _ => s,
        },
        LinkKind::Failure => match s.kind {
            StepKindView::Subprocess { sub_algo, next_if_success, .. } => StepView {
                kind: StepKindView::Subprocess { sub_algo, next_if_success, next_if_failure: None },
                ..s
            },
            _ => s,
        },
    }
}

/// Cuts the link of exit `link` of `step` (see `disconnected`).
pub fn disconnect_step(step: &mut Step, link: LinkKind)
    ensures
        final(step)@ == disconnected(old(step)@, link),
{
    match link {
        LinkKind::Option(i) => {
            if i < step.options.len() {
                let ghost ov = options_view(step.options@);
                step.options[i].next_step_id = None;
                assert(options_view(step.options@) =~= ov.update(
                    i as int,
                    relinked(ov[i as int], None),
                ));
            }
        },
        LinkKind::Normal => {
            if let StepKind::Measurement { next_if_normal, .. } = &mut step.kind {
                *next_if_normal = None;
            }
        },
        LinkKind::Abnormal => {
            if let StepKind::Measurement { next_if_abnormal, .. } = &mut step.kind {
                *next_if_abnormal = None;
            }
        },
        LinkKind::Safety => {
            if let StepKind::SafetyWarning { next_step_id, .. } = &mut step.kind {
                *next_step_id = None;
            }
        },
        LinkKind::Success => {
            if let StepKind::Subprocess { next_if_success, .. } = &mut step.kind {
                *next_if_success = None;
            }
        },
        LinkKind::Failure => {
            if let StepKind::Subprocess { next_if_failure, .. } = &mut step.kind {
                *next_if_failure = None;
            }
        },
    }
}

/// `t`, or nothing when it leads into `del`.
pub open spec fn cut_if(t: Option<u128>, del: Set<u128>) -> Option<u128> {
    match t {
        Some(x) => if del.contains(x) {
            None
        } else {
            t
        },
        None => None,
    }
}

/// Step `s` with its options, measurement exits and safety exit cut where
/// they lead into `del`; the exits of a sub-procedure are kept.
pub open spec fn without_links_into(s: StepView, del: Set<u128>) -> StepView {
    StepView {
        options: s.options.map_values(
            |o: OptionLinkView| relinked(o, cut_if(o.next_step_id, del)),
        ),
        kind: match s.kind {
            StepKindView::Measurement { unit, min_val, max_val, next_if_normal, next_if_abnormal } =>
                StepKindView::Measurement {
                unit,
                min_val,
                max_val,
                next_if_normal: cut_if(next_if_normal, del),
                next_if_abnormal: cut_if(next_if_abnormal, del),
            },
            StepKindView::SafetyWarning { ack_text, next_step_id } => StepKindView::SafetyWarning {
                ack_text,
                next_step_id: cut_if(next_step_id, del),
            },
            k => k,
        },
        ..s
    }
}

fn cut_opt(t: &mut Option<u128>, del: &HashSet<u128>)
    ensures
        *final(t) == cut_if(*old(t), del@),
{
    if let Some(x) = *t {
        if del.contains(&x) {
            *t = None;
        }
    }
}

/// Cuts the links of `step` that lead into `del` (see `without_links_into`).
pub fn cut_links_into(step: &mut Step, del: &HashSet<u128>)
    ensures
        final(step)@ == without_links_into(old(step)@, del@),
{
    let ghost s0 = step@;
    let ghost ov0 = options_view(step.options@);
    let n = step.options.len();
    for i in 0..n
        invariant
            n == step.options@.len(),
            ov0.len() == n,
            ov0 == s0.options,
            step@ == (StepView { options: options_view(step.options@), ..s0 }),
            forall|j: int|
                0 <= j < i ==> (#[trigger] options_view(step.options@)[j]) == relinked(
                    ov0[j],
                    cut_if(ov0[j].next_step_id, del@),
                ),
            forall|j: int| i <= j < n ==> (#[trigger] options_view(step.options@)[j]) == ov0[j],
    {
        let ghost ov1 = options_view(step.options@);
        assert(ov1[i as int] == ov0[i as int]);
        assert(ov1[i as int] == step.options@[i as int]@);
        if let Some(x) = step.options[i].next_step_id {
            if del.contains(&x) {
                step.options[i].next_step_id = None;
            }
        }
        assert(options_view(step.options@) =~= ov1.update(
            i as int,
            relinked(ov0[i as int], cut_if(ov0[i as int].next_step_id, del@)),
        ));
    }
    assert(options_view(step.options@) =~= ov0.map_values(
        |o: OptionLinkView| relinked(o, cut_if(o.next_step_id, del@)),
    ));
    match &mut step.kind {
        StepKind::Measurement { next_if_normal, next_if_abnormal, .. } => {
            cut_opt(next_if_normal, del);
            cut_opt(next_if_abnormal, del);
        },
        StepKind::SafetyWarning { next_step_id, .. } => {
            cut_opt(next_step_id, del);
        },
        _ => {},
    }
}

// ---------------------------------------------------------------------------
// Drawing style of individual links
// ---------------------------------------------------------------------------

/// The key under which the style of the link from `from` to `to` is kept:
/// the two identifiers in hyphenated form joined by `:`.
pub open spec fn wire_key_text(from: u128, to: u128) -> Seq<char> {
    uuid_text(from) + ":"@ + uuid_text(to)
}

/// The index of the first entry of `ws` with key `key` (its properties are
/// given by `lemma_key_index`).
#[verifier::opaque]
pub open spec fn key_index(ws: Seq<(Seq<char>, WireStyle)>, key: Seq<char>) -> Option<int> {
    if exists|i: int| 0 <= i < ws.len() && (#[trigger] ws[i]).0 == key {
        Some(
            choose|i: int|
                0 <= i < ws.len() && (#[trigger] ws[i]).0 == key && forall|j: int|
                    0 <= j < i ==> (#[trigger] ws[j]).0 != key,
        )
    } else {
        None
    }
}

proof fn lemma_key_index_witness(ws: Seq<(Seq<char>, WireStyle)>, key: Seq<char>, w: int)
    requires
        0 <= w < ws.len(),
        ws[w].0 == key,
    ensures
        exists|i: int|
            0 <= i < ws.len() && (#[trigger] ws[i]).0 == key && forall|j: int|
                0 <= j < i ==> (#[trigger] ws[j]).0 != key,
    decreases w,
{
    if exists|j: int| 0 <= j < w && (#[trigger] ws[j]).0 == key {
        let j = choose|j: int| 0 <= j < w && (#[trigger] ws[j]).0 == key;
        lemma_key_index_witness(ws, key, j);
    } else {
        assert(forall|j: int| 0 <= j < w ==> (#[trigger] ws[j]).0 != key);
    }
}

/// What `key_index` picks.
pub proof fn lemma_key_index(ws: Seq<(Seq<char>, WireStyle)>, key: Seq<char>)
    ensures
        match key_index(ws, key) {
            Some(i) => 0 <= i < ws.len() && ws[i].0 == key && forall|j: int|
                0 <= j < i ==> (#[trigger] ws[j]).0 != key,
            None => forall|j: int| 0 <= j < ws.len() ==> (#[trigger] ws[j]).0 != key,
        },
{
    reveal(key_index);
    if exists|i: int| 0 <= i < ws.len() && (#[trigger] ws[i]).0 == key {
        let w = choose|i: int| 0 <= i < ws.len() && (#[trigger] ws[i]).0 == key;
        lemma_key_index_witness(ws, key, w);
    }
}

/// The style kept under `key`, if any.
pub open spec fn style_lookup(ws: Seq<(Seq<char>, WireStyle)>, key: Seq<char>) -> Option<
    WireStyle,
> {
    match key_index(ws, key) {
        Some(i) => Some(ws[i].1),
        None => None,
    }
}

/// `ws` with `style` kept under `key`: the entry of `key` is updated in
/// place, or a new entry is added at the end.
pub open spec fn style_set(ws: Seq<(Seq<char>, WireStyle)>, key: Seq<char>, style: WireStyle) -> Seq<
    (Seq<char>, WireStyle),
> {
    match key_index(ws, key) {
        Some(i) => ws.update(i, (key, style)),
        None => ws.push((key, style)),
    }
}

/// The other style.
pub open spec fn toggled(s: WireStyle) -> WireStyle {
    match s {
        WireStyle::Curved => WireStyle::Orthogonal,
        WireStyle::Orthogonal => WireStyle::Curved,
    }
}

/// The key of the style of the link from `from` to `to`.
pub fn wire_key(from: u128, to: u128) -> (r: String)
    ensures
        r@ == wire_key_text(from, to),
{
    let mut k = uuid_string(from);
    k.append(":");
    let t = uuid_string(to);
    k.append(t.as_str());
    k
}

fn find_key(ws: &Vec<(String, WireStyle)>, key: &String) -> (r: Option<usize>)
    ensures
        match r {
            Some(i) => key_index(wire_styles_view(ws@), key@) == Some(i as int),
            None => key_index(wire_styles_view(ws@), key@) is None,
        },
{
    let ghost wv = wire_styles_view(ws@);
    proof {
        lemma_key_index(wv, key@);
    }
    for i in 0..ws.len()
        invariant
            wv == wire_styles_view(ws@),
            wv.len() == ws@.len(),
            forall|j: int| 0 <= j < i ==> (#[trigger] wv[j]).0 != key@,
            match key_index(wv, key@) {
                Some(c) => 0 <= c < wv.len() && wv[c].0 == key@ && forall|j: int|
                    0 <= j < c ==> (#[trigger] wv[j]).0 != key@,
                None => forall|j: int| 0 <= j < wv.len() ==> (#[trigger] wv[j]).0 != key@,
            },
    {
        assert(wv[i as int].0 == ws@[i as int].0@);
        if ws[i].0 == *key {
            return Some(i);
        }
    }
    None
}

/// The style kept under `key`, if any.
pub fn lookup_style(ws: &Vec<(String, WireStyle)>, key: &String) -> (r: Option<WireStyle>)
    ensures
        r == style_lookup(wire_styles_view(ws@), key@),
{
    match find_key(ws, key) {
        Some(i) => {
            proof {
                lemma_key_index(wire_styles_view(ws@), key@);
            }
            Some(ws[i].1)
        },
        None => None,
    }
}

impl Algorithm {
    /// The style of the link from `from` to `to`: the one kept for it, else
    /// `default`.
    pub fn wire_style_for(&self, from: u128, to: u128, default: WireStyle) -> (r: WireStyle)
        ensures
            r == match style_lookup(self@.wire_styles, wire_key_text(from, to)) {
                Some(s) => s,
                None => default,
            },
    {
        let key = wire_key(from, to);
        match find_key(&self.wire_styles, &key) {
            Some(i) => {
                proof {
                    lemma_key_index(self@.wire_styles, key@);
                }
                self.wire_styles[i].1
            },
            None => default,
        }
    }

    /// Keeps `style` for the link with key `key`.
    pub fn set_wire_style(&mut self, key: String, style: WireStyle)
        ensures
            final(self)@ == (crate::models::AlgorithmView {
                wire_styles: style_set(old(self)@.wire_styles, key@, style),
                ..old(self)@
            }),
            keys_unique(old(self)@.wire_styles) ==> keys_unique(final(self)@.wire_styles),
    {
        proof {
            if keys_unique(self@.wire_styles) {
                law_style_set_keeps_keys_unique(self@.wire_styles, key@, style);
            }
        }
        let ghost wv = wire_styles_view(self.wire_styles@);
        let ghost k = key@;
        match find_key(&self.wire_styles, &key) {
            Some(i) => {
                proof {
                    lemma_key_index(wv, k);
                }
                self.wire_styles.set(i, (key, style));
                assert(wire_styles_view(self.wire_styles@) =~= wv.update(i as int, (k, style)));
            },
            None => {
                self.wire_styles.push((key, style));
                assert(wire_styles_view(self.wire_styles@) =~= wv.push((k, style)));
            },
        }
    }
}

/// A style kept for a link is the style then found for it; the styles of
/// other links are unchanged.
pub proof fn law_style_set_then_lookup(
    ws: Seq<(Seq<char>, WireStyle)>,
    key: Seq<char>,
    other: Seq<char>,
    style: WireStyle,
)
    requires
        other != key,
    ensures
        style_lookup(style_set(ws, key, style), key) == Some(style),
        style_lookup(style_set(ws, key, style), other) == style_lookup(ws, other),
{
    let r = style_set(ws, key, style);
    lemma_key_index(ws, key);
    lemma_key_index(ws, other);
    lemma_key_index(r, key);
    lemma_key_index(r, other);
    match key_index(ws, key) {
        Some(i) => {
            assert(r[i].0 == key);
            match key_index(r, key) {
                Some(k) => {
                    if k < i {
                        assert(r[k] == ws[k]);
                    } else if k > i {
                    }
                },
                None => {},
            }
            match (key_index(r, other), key_index(ws, other)) {
                (Some(a), Some(b)) => {
                    assert(r[a] == ws[a]);
                    if a < b {
                    } else if b < a {
                        assert(r[b] == ws[b]);
                    }
                },
                (Some(a), None) => {
                    assert(r[a] == ws[a]);
                },
                (None, Some(b)) => {
                    assert(r[b] == ws[b]);
                },
                (None, None) => {},
            }
        },
        None => {
            assert(r[ws.len() as int].0 == key);
            match key_index(r, key) {
                Some(k) => {
                    if k < ws.len() {
                        assert(r[k] == ws[k]);
                    }
                },
                None => {},
            }
            match (key_index(r, other), key_index(ws, other)) {
                (Some(a), Some(b)) => {
                    assert(r[a] == ws[a]);
                    if a < b {
                    } else if b < a {
                        assert(r[b] == ws[b]);
                    }
                },
                (Some(a), None) => {
                    assert(r[a] == ws[a]);
                },
                (None, Some(b)) => {
                    assert(r[b] == ws[b]);
                },
                (None, None) => {},
            }
        },
    }
}

/// Keeping a style for a link never makes a key occur twice.
pub proof fn law_style_set_keeps_keys_unique(
    ws: Seq<(Seq<char>, WireStyle)>,
    key: Seq<char>,
    style: WireStyle,
)
    requires
        keys_unique(ws),
    ensures
        keys_unique(style_set(ws, key, style)),
{
    let r = style_set(ws, key, style);
    lemma_key_index(ws, key);
    match key_index(ws, key) {
        Some(k) => {
            assert forall|i: int, j: int| 0 <= i < j < r.len() implies (#[trigger] r[i]).0 != (
            #[trigger] r[j]).0 by {
                if i != k && j != k {
                    assert(r[i] == ws[i] && r[j] == ws[j]);
                } else if i == k {
                    assert(r[j] == ws[j]);
                    assert(ws[k].0 != ws[j].0);
                } else {
                    assert(r[i] == ws[i]);
                    assert(ws[i].0 != ws[k].0);
                }
            }
        },
        None => {
            assert forall|i: int, j: int| 0 <= i < j < r.len() implies (#[trigger] r[i]).0 != (
            #[trigger] r[j]).0 by {
                assert(r[i] == ws[i]);
                if j < ws.len() {
                    assert(r[j] == ws[j]);
                }
            }
        },
    }
}

/// Cutting a link empties exactly the exit it names: option `k` when the
/// link is `Option(k)`, the normal or abnormal exit of a measurement, the
/// exit of a safety warning, the success or failure exit of a sub-procedure.
/// Every other exit, the texts of the options and the rest of the step are
/// left as they were.
pub proof fn law_disconnect_cuts_the_named_exit(s: StepView, link: LinkKind)
    ensures
        ({
            let r = disconnected(s, link);
            &&& r.id == s.id
            &&& r.title == s.title
            &&& r.description == s.description
            &&& r.image_path == s.image_path
            &&& r.pos == s.pos
            &&& r.options.len() == s.options.len()
            &&& forall|k: int|
                0 <= k < s.options.len() ==> (#[trigger] r.options[k]).text == s.options[k].text
                    && r.options[k].next_step_id == if (link matches LinkKind::Option(j) && j == k) {
                    None
                } else {
                    s.options[k].next_step_id
                }
            &&& match s.kind {
                StepKindView::Standard => r.kind == StepKindView::Standard,
                StepKindView::Measurement {
                    unit,
                    min_val,
                    max_val,
                    next_if_normal,
                    next_if_abnormal,
                } => r.kind == StepKindView::Measurement {
                    unit,
                    min_val,
                    max_val,
                    next_if_normal: if link == LinkKind::Normal {
                        None
                    } else {
                        next_if_normal
                    },
                    next_if_abnormal: if link == LinkKind::Abnormal {
                        None
                    } else {
                        next_if_abnormal
                    },
                },
                StepKindView::SafetyWarning { ack_text, next_step_id } => r.kind
                    == StepKindView::SafetyWarning {
                    ack_text,
                    next_step_id: if link == LinkKind::Safety {
                        None
                    } else {
                        next_step_id
                    },
                },
                StepKindView::Subprocess { sub_algo, next_if_success, next_if_failure } => r.kind
                    == StepKindView::Subprocess {
                    sub_algo,
                    next_if_success: if link == LinkKind::Success {
                        None
                    } else {
                        next_if_success
                    },
                    next_if_failure: if link == LinkKind::Failure {
                        None
                    } else {
                        next_if_failure
                    },
                },
            }
        }),
{
    let r = disconnected(s, link);
    match link {
        LinkKind::Option(i) => {
            if i < s.options.len() {
                assert forall|k: int| 0 <= k < s.options.len() implies (
                #[trigger] r.options[k]).text == s.options[k].text && r.options[k].next_step_id
                    == if (link matches LinkKind::Option(j) && j == k) {
                    None
                } else {
                    s.options[k].next_step_id
                } by {
                    if k != i {
                        assert(r.options[k] == s.options[k]);
                    }
                }
            }
        },
        _ => {},
    }
}

} // verus!
