//! The procedure model: steps, their kinds and links, and the procedure
//! itself, with the mathematical view of each.
//!
//! Identifiers are the 128-bit values of UUIDs. Canvas coordinates and
//! measurement tolerances are floating-point numbers in the application; the
//! library carries them as their IEEE-754 bit patterns, never computes with
//! them, and compares them as floating-point numbers compare (`f32_bits_eq`,
//! `f64_bits_eq`).
use vstd::prelude::*;

use crate::ids::{new_uuid, now_timestamp};
use crate::links::{key_index, lemma_key_index, lookup_style, style_lookup};

verus! {

/// How a link between two steps is drawn on the canvas.
#[derive(Debug, Clone, Copy, PartialEq, Eq, Structural)]
pub enum WireStyle {
    Curved,
    Orthogonal,
}

impl Default for WireStyle {
    fn default() -> (r: Self)
        ensures
            r == WireStyle::Curved,
    {
        WireStyle::Curved
    }
}

/// A point in time: whole seconds since the Unix epoch and the nanoseconds
/// within that second. Ordered first by seconds, then by nanoseconds.
#[derive(Debug, Clone, Copy, PartialEq, Eq, Structural)]
pub struct Timestamp {
    pub secs: i64,
    pub nanos: u32,
}

/// `a` is strictly earlier than `b`.
pub open spec fn timestamp_before(a: Timestamp, b: Timestamp) -> bool {
    a.secs < b.secs || (a.secs == b.secs && a.nanos < b.nanos)
}

/// Passport data of the equipment a procedure is written for.
#[derive(Debug, Clone, PartialEq)]
pub struct EquipmentInfo {
    pub manufacturer: String,
    pub eq_type: String,
    pub model: String,
    pub name: String,
    pub inv_number: String,
    pub created_at: Timestamp,
    pub updated_at: Timestamp,
    pub author: String,
}

/// One answer of a standard step and the step it leads to.
#[derive(Debug, Clone, PartialEq)]
pub struct OptionLink {
    pub text: String,
    pub next_step_id: Option<u128>,
}

/// What a step asks of the operator and where it leads.
///
/// `min_val` and `max_val` of a measurement are the bit patterns of the
/// tolerance bounds (`f64`).
#[derive(Debug)]
pub enum StepKind {
    Standard,
    Measurement {
        unit: String,
        min_val: u64,
        max_val: u64,
        next_if_normal: Option<u128>,
        next_if_abnormal: Option<u128>,
    },
    SafetyWarning { ack_text: String, next_step_id: Option<u128> },
    /// A nested procedure with separate exits for success and for a defect.
    Subprocess {
        sub_algo: Box<Algorithm>,
        next_if_success: Option<u128>,
        next_if_failure: Option<u128>,
    },
}

/// A canvas position: the bit patterns of the two `f32` coordinates.
#[derive(Debug, Clone, Copy, PartialEq, Eq, Structural)]
pub struct CanvasPos {
    pub x: u32,
    pub y: u32,
}

/// One block of the flowchart.
#[derive(Debug)]
pub struct Step {
    pub id: u128,
    pub title: String,
    pub description: String,
    pub kind: StepKind,
    pub options: Vec<OptionLink>,
    pub image_path: Option<String>,
    pub pos: CanvasPos,
}

/// A procedure: its passport, its steps, the start step and the drawing style
/// chosen for individual links (keyed by `"<from>:<to>"`; each key is kept
/// once, see `keys_unique`, and the styles compare as a map, see
/// `styles_map`).
#[derive(Debug)]
pub struct Algorithm {
    pub id: u128,
    pub metadata: EquipmentInfo,
    pub steps: Vec<Step>,
    pub first_step_id: Option<u128>,
    pub wire_styles: Vec<(String, WireStyle)>,
}

// ---------------------------------------------------------------------------
// Views
// ---------------------------------------------------------------------------

pub ghost struct EquipmentInfoView {
    pub manufacturer: Seq<char>,
    pub eq_type: Seq<char>,
    pub model: Seq<char>,
    pub name: Seq<char>,
    pub inv_number: Seq<char>,
    pub created_at: Timestamp,
    pub updated_at: Timestamp,
    pub author: Seq<char>,
}

pub ghost struct OptionLinkView {
    pub text: Seq<char>,
    pub next_step_id: Option<u128>,
}

pub ghost enum StepKindView {
    Standard,
    Measurement {
        unit: Seq<char>,
        min_val: u64,
        max_val: u64,
        next_if_normal: Option<u128>,
        next_if_abnormal: Option<u128>,
    },
    SafetyWarning { ack_text: Seq<char>, next_step_id: Option<u128> },
    Subprocess {
        sub_algo: AlgorithmView,
        next_if_success: Option<u128>,
        next_if_failure: Option<u128>,
    },
}

pub ghost struct StepView {
    pub id: u128,
    pub title: Seq<char>,
    pub description: Seq<char>,
    pub kind: StepKindView,
    pub options: Seq<OptionLinkView>,
    pub image_path: Option<Seq<char>>,
    pub pos: CanvasPos,
}

pub ghost struct AlgorithmView {
    pub id: u128,
    pub metadata: EquipmentInfoView,
    pub steps: Seq<StepView>,
    pub first_step_id: Option<u128>,
    pub wire_styles: Seq<(Seq<char>, WireStyle)>,
}

impl View for EquipmentInfo {
    type V = EquipmentInfoView;

    open spec fn view(&self) -> EquipmentInfoView {
        EquipmentInfoView {
            manufacturer: self.manufacturer@,
            eq_type: self.eq_type@,
            model: self.model@,
            name: self.name@,
            inv_number: self.inv_number@,
            created_at: self.created_at,
            updated_at: self.updated_at,
            author: self.author@,
        }
    }
}

impl View for OptionLink {
    type V = OptionLinkView;

    open spec fn view(&self) -> OptionLinkView {
        OptionLinkView { text: self.text@, next_step_id: self.next_step_id }
    }
}

pub open spec fn option_string_view(o: Option<String>) -> Option<Seq<char>> {
    match o {
        Some(s) => Some(s@),
        None => None,
    }
}

pub open spec fn options_view(opts: Seq<OptionLink>) -> Seq<OptionLinkView> {
    opts.map_values(|o: OptionLink| o@)
}

pub open spec fn wire_styles_view(ws: Seq<(String, WireStyle)>) -> Seq<(Seq<char>, WireStyle)> {
    ws.map_values(|e: (String, WireStyle)| (e.0@, e.1))
}

pub open spec fn algorithm_view(a: Algorithm) -> AlgorithmView
    decreases a,
{
    AlgorithmView {
        id: a.id,
        metadata: a.metadata@,
        steps: steps_view(a.steps@),
        first_step_id: a.first_step_id,
        wire_styles: wire_styles_view(a.wire_styles@),
    }
}

pub open spec fn steps_view(s: Seq<Step>) -> Seq<StepView>
    decreases s,
{
    if s.len() == 0 {
        Seq::empty()
    } else {
        steps_view(s.drop_last()).push(step_view(s.last()))
    }
}

pub open spec fn step_view(s: Step) -> StepView
    decreases s,
{
    StepView {
        id: s.id,
        title: s.title@,
        description: s.description@,
        kind: kind_view(s.kind),
        options: options_view(s.options@),
        image_path: option_string_view(s.image_path),
        pos: s.pos,
    }
}

pub open spec fn kind_view(k: StepKind) -> StepKindView
    decreases k,
{
    match k {
        StepKind::Standard => StepKindView::Standard,
        StepKind::Measurement { unit, min_val, max_val, next_if_normal, next_if_abnormal } =>
            StepKindView::Measurement {
            unit: unit@,
            min_val,
            max_val,
            next_if_normal,
            next_if_abnormal,
        },
        StepKind::SafetyWarning { ack_text, next_step_id } => StepKindView::SafetyWarning {
            ack_text: ack_text@,
            next_step_id,
        },
        StepKind::Subprocess { sub_algo, next_if_success, next_if_failure } =>
            StepKindView::Subprocess {
            sub_algo: algorithm_view(*sub_algo),
            next_if_success,
            next_if_failure,
        },
    }
}

impl View for Algorithm {
    type V = AlgorithmView;

    open spec fn view(&self) -> AlgorithmView {
        algorithm_view(*self)
    }
}

impl View for Step {
    type V = StepView;

    open spec fn view(&self) -> StepView {
        step_view(*self)
    }
}

impl View for StepKind {
    type V = StepKindView;

    open spec fn view(&self) -> StepKindView {
        kind_view(*self)
    }
}


/// The view of a sequence of steps is the sequence of their views.
pub proof fn lemma_steps_view(s: Seq<Step>)
    ensures
        steps_view(s).len() == s.len(),
        forall|i: int| 0 <= i < s.len() ==> #[trigger] steps_view(s)[i] == step_view(s[i]),
    decreases s.len(),
{
    if s.len() > 0 {
        lemma_steps_view(s.drop_last());
    }
}

/// The view of a sequence of steps has the same length and, at each index,
/// the view of the step there.
pub broadcast proof fn lemma_steps_view_index(s: Seq<Step>, i: int)
    ensures
        0 <= i < s.len() ==> #[trigger] steps_view(s)[i] == step_view(s[i]),
{
    lemma_steps_view(s);
}

/// The view of a sequence of steps has the same length.
pub broadcast proof fn lemma_steps_view_len(s: Seq<Step>)
    ensures
        #[trigger] steps_view(s).len() == s.len(),
{
    lemma_steps_view(s);
}

/// Appending a step appends its view.
pub proof fn lemma_steps_view_push(s: Seq<Step>, x: Step)
    ensures
        steps_view(s.push(x)) == steps_view(s).push(step_view(x)),
{
    assert(s.push(x).drop_last() =~= s);
}

// ---------------------------------------------------------------------------
// Comparison as the application compares procedures
// ---------------------------------------------------------------------------

/// The `f32` numbers with bit patterns `a` and `b` are equal as
/// floating-point numbers: a NaN equals nothing, not even itself, and the
/// two zeros are equal.
pub open spec fn f32_bits_eq(a: u32, b: u32) -> bool {
    let ma = a & 0x7fff_ffffu32;
    let mb = b & 0x7fff_ffffu32;
    if ma > 0x7f80_0000u32 || mb > 0x7f80_0000u32 {
        false
    } else if ma == 0 && mb == 0 {
        true
    } else {
        a == b
    }
}

/// The `f64` numbers with bit patterns `a` and `b` are equal as
/// floating-point numbers: a NaN equals nothing, not even itself, and the
/// two zeros are equal.
pub open spec fn f64_bits_eq(a: u64, b: u64) -> bool {
    let ma = a & 0x7fff_ffff_ffff_ffffu64;
    let mb = b & 0x7fff_ffff_ffff_ffffu64;
    if ma > 0x7ff0_0000_0000_0000u64 || mb > 0x7ff0_0000_0000_0000u64 {
        false
    } else if ma == 0 && mb == 0 {
        true
    } else {
        a == b
    }
}

/// Floating-point equality of two `f32` bit patterns (see `f32_bits_eq`).
pub fn f32_bits_equal(a: u32, b: u32) -> (r: bool)
    ensures
        r == f32_bits_eq(a, b),
{
    let ma = a & 0x7fff_ffffu32;
    let mb = b & 0x7fff_ffffu32;
    if ma > 0x7f80_0000u32 || mb > 0x7f80_0000u32 {
        false
    } else if ma == 0 && mb == 0 {
        true
    } else {
        a == b
    }
}

/// Floating-point equality of two `f64` bit patterns (see `f64_bits_eq`).
pub fn f64_bits_equal(a: u64, b: u64) -> (r: bool)
    ensures
        r == f64_bits_eq(a, b),
{
    let ma = a & 0x7fff_ffff_ffff_ffffu64;
    let mb = b & 0x7fff_ffff_ffff_ffffu64;
    if ma > 0x7ff0_0000_0000_0000u64 || mb > 0x7ff0_0000_0000_0000u64 {
        false
    } else if ma == 0 && mb == 0 {
        true
    } else {
        a == b
    }
}

/// Two canvas positions are equal coordinate by coordinate, as `f32`s.
pub open spec fn pos_eq(a: CanvasPos, b: CanvasPos) -> bool {
    f32_bits_eq(a.x, b.x) && f32_bits_eq(a.y, b.y)
}

/// No key occurs twice among the kept link styles.
pub open spec fn keys_unique(ws: Seq<(Seq<char>, WireStyle)>) -> bool {
    forall|i: int, j: int|
        0 <= i < j < ws.len() ==> (#[trigger] ws[i]).0 != (#[trigger] ws[j]).0
}

/// The kept link styles as a map from key to style (the first entry of a
/// key counts).
pub open spec fn styles_map(ws: Seq<(Seq<char>, WireStyle)>) -> Map<Seq<char>, WireStyle> {
    Map::new(|k: Seq<char>| style_lookup(ws, k) is Some, |k: Seq<char>| style_lookup(ws, k)->0)
}

/// Two step kinds are equal, tolerance bounds compared as `f64`s.
pub open spec fn same_kind(a: StepKindView, b: StepKindView) -> bool
    decreases a,
{
    match a {
        StepKindView::Standard => b is Standard,
        StepKindView::Measurement { unit, min_val, max_val, next_if_normal, next_if_abnormal } => {
            &&& b is Measurement
            &&& unit == b->Measurement_unit
            &&& f64_bits_eq(min_val, b->Measurement_min_val)
            &&& f64_bits_eq(max_val, b->Measurement_max_val)
            &&& next_if_normal == b->Measurement_next_if_normal
            &&& next_if_abnormal == b->Measurement_next_if_abnormal
        },
        StepKindView::SafetyWarning { ack_text, next_step_id } => {
            &&& b is SafetyWarning
            &&& ack_text == b->SafetyWarning_ack_text
            &&& next_step_id == b->SafetyWarning_next_step_id
        },
        StepKindView::Subprocess { sub_algo, next_if_success, next_if_failure } => {
            &&& b is Subprocess
            &&& next_if_success == b->Subprocess_next_if_success
            &&& next_if_failure == b->Subprocess_next_if_failure
            &&& same_procedure(sub_algo, b->Subprocess_sub_algo)
        },
    }
}

/// Two steps are equal, the position compared as `f32`s and the kind by
/// `same_kind`.
pub open spec fn same_step(a: StepView, b: StepView) -> bool
    decreases a,
{
    &&& a.id == b.id
    &&& a.title == b.title
    &&& a.description == b.description
    &&& same_kind(a.kind, b.kind)
    &&& a.options == b.options
    &&& a.image_path == b.image_path
    &&& pos_eq(a.pos, b.pos)
}

/// Two lists of steps are equal step by step (see `same_step`).
pub open spec fn same_steps(a: Seq<StepView>, b: Seq<StepView>) -> bool
    decreases a,
{
    &&& a.len() == b.len()
    &&& (a.len() == 0 || (same_steps(a.drop_last(), b.drop_last()) && same_step(
        a.last(),
        b.last(),
    )))
}

/// Two procedures are equal as the application compares them: numbers as
/// floating-point numbers, the link styles as maps.
pub open spec fn same_procedure(a: AlgorithmView, b: AlgorithmView) -> bool
    decreases a,
{
    &&& a.id == b.id
    &&& a.metadata == b.metadata
    &&& same_steps(a.steps, b.steps)
    &&& a.first_step_id == b.first_step_id
    &&& styles_map(a.wire_styles) == styles_map(b.wire_styles)
}

/// `same_steps` holds exactly when the lists have the same length and the
/// steps at each index are equal by `same_step`.
pub proof fn lemma_same_steps(a: Seq<StepView>, b: Seq<StepView>)
    ensures
        same_steps(a, b) <==> (a.len() == b.len() && forall|i: int|
            0 <= i < a.len() ==> #[trigger] same_step(a[i], b[i])),
    decreases a.len(),
{
    if a.len() > 0 && a.len() == b.len() {
        lemma_same_steps(a.drop_last(), b.drop_last());
        if same_steps(a, b) {
            assert forall|i: int| 0 <= i < a.len() implies #[trigger] same_step(a[i], b[i]) by {
                if i < a.len() - 1 {
                    assert(a.drop_last()[i] == a[i]);
                    assert(b.drop_last()[i] == b[i]);
                }
            }
        }
        if forall|i: int| 0 <= i < a.len() ==> #[trigger] same_step(a[i], b[i]) {
            assert forall|i: int| 0 <= i < a.drop_last().len() implies #[trigger] same_step(
                a.drop_last()[i],
                b.drop_last()[i],
            ) by {
                assert(same_step(a[i], b[i]));
            }
            assert(same_step(a[a.len() - 1], b[b.len() - 1]));
        }
    }
}

// ---------------------------------------------------------------------------
// Copies and comparisons by value
// ---------------------------------------------------------------------------

pub(crate) fn clone_opt_string(o: &Option<String>) -> (r: Option<String>)
    ensures
        option_string_view(r) == option_string_view(*o),
{
    match o {
        Some(s) => Some(s.clone()),
        None => None,
    }
}

fn eq_opt_string(a: &Option<String>, b: &Option<String>) -> (r: bool)
    ensures
        r == (option_string_view(*a) == option_string_view(*b)),
{
    match (a, b) {
        (Some(x), Some(y)) => *x == *y,
        (None, None) => true,
        _ => false,
    }
}

impl EquipmentInfo {
    /// A copy with the same view.
    pub fn deep_clone(&self) -> (r: Self)
        ensures
            r@ == self@,
    {
        EquipmentInfo {
            manufacturer: self.manufacturer.clone(),
            eq_type: self.eq_type.clone(),
            model: self.model.clone(),
            name: self.name.clone(),
            inv_number: self.inv_number.clone(),
            created_at: self.created_at,
            updated_at: self.updated_at,
            author: self.author.clone(),
        }
    }

    /// Equality of views.
    pub fn equals(&self, other: &Self) -> (r: bool)
        ensures
            r == (self@ == other@),
    {
        self.manufacturer == other.manufacturer && self.eq_type == other.eq_type && self.model
            == other.model && self.name == other.name && self.inv_number == other.inv_number
            && self.created_at == other.created_at && self.updated_at == other.updated_at
            && self.author == other.author
    }
}

impl OptionLink {
    /// A copy with the same view.
    pub fn deep_clone(&self) -> (r: Self)
        ensures
            r@ == self@,
    {
        OptionLink { text: self.text.clone(), next_step_id: self.next_step_id }
    }
}

/// A copy of a list of options with the same views.
pub fn clone_options(v: &Vec<OptionLink>) -> (r: Vec<OptionLink>)
    ensures
        options_view(r@) == options_view(v@),
{
    let mut r: Vec<OptionLink> = Vec::new();
    for i in 0..v.len()
        invariant
            r@.len() == i,
            forall|j: int| 0 <= j < i ==> #[trigger] r@[j]@ == v@[j]@,
    {
        r.push(v[i].deep_clone());
    }
    assert(options_view(r@) =~= options_view(v@));
    r
}

fn eq_options(a: &Vec<OptionLink>, b: &Vec<OptionLink>) -> (r: bool)
    ensures
        r == (options_view(a@) == options_view(b@)),
{
    if a.len() != b.len() {
        assert(options_view(a@).len() != options_view(b@).len());
        return false;
    }
    for i in 0..a.len()
        invariant
            a.len() == b.len(),
            forall|j: int| 0 <= j < i ==> #[trigger] a@[j]@ == b@[j]@,
    {
        if !(a[i].text == b[i].text && a[i].next_step_id == b[i].next_step_id) {
            assert(options_view(a@)[i as int] != options_view(b@)[i as int]);
            return false;
        }
    }
    assert(options_view(a@) =~= options_view(b@));
    true
}

fn clone_wire_styles(v: &Vec<(String, WireStyle)>) -> (r: Vec<(String, WireStyle)>)
    ensures
        wire_styles_view(r@) == wire_styles_view(v@),
{
    let mut r: Vec<(String, WireStyle)> = Vec::new();
    for i in 0..v.len()
        invariant
            r@.len() == i,
            forall|j: int| 0 <= j < i ==> (#[trigger] r@[j]).0@ == v@[j].0@ && r@[j].1 == v@[j].1,
    {
        let key = v[i].0.clone();
        r.push((key, v[i].1));
    }
    assert(wire_styles_view(r@) =~= wire_styles_view(v@));
    r
}

/// Each key of `wa` is looked up alike in `wa` and `wb`.
#[verifier::opaque]
spec fn lookups_agree(wa: Seq<(Seq<char>, WireStyle)>, wb: Seq<(Seq<char>, WireStyle)>) -> bool {
    forall|j: int|
        0 <= j < wa.len() ==> style_lookup(wb, (#[trigger] wa[j]).0) == style_lookup(wa, wa[j].0)
}

/// Every key of the kept styles is a key of their map, with the style of
/// its first entry.
proof fn lemma_styles_map_has(ws: Seq<(Seq<char>, WireStyle)>, i: int)
    requires
        0 <= i < ws.len(),
    ensures
        styles_map(ws).dom().contains(ws[i].0),
        styles_map(ws)[ws[i].0] == style_lookup(ws, ws[i].0)->0,
{
    lemma_key_index(ws, ws[i].0);
}

fn eq_wire_styles(a: &Vec<(String, WireStyle)>, b: &Vec<(String, WireStyle)>) -> (r: bool)
    ensures
        r == (styles_map(wire_styles_view(a@)) == styles_map(wire_styles_view(b@))),
{
    let ghost wa = wire_styles_view(a@);
    let ghost wb = wire_styles_view(b@);
    for i in 0..a.len()
        invariant
            wa == wire_styles_view(a@),
            wb == wire_styles_view(b@),
            wa.len() == a@.len(),
            forall|j: int|
                0 <= j < i ==> style_lookup(wb, (#[trigger] wa[j]).0) == style_lookup(wa, wa[j].0),
    {
        let la = lookup_style(a, &a[i].0);
        let lb = lookup_style(b, &a[i].0);
        let ghost k = wa[i as int].0;
        assert(k == a@[i as int].0@);
        let same = match (la, lb) {
            (Some(x), Some(y)) => x == y,
            (None, None) => true,
            _ => false,
        };
        if !same {
            proof {
                lemma_styles_map_has(wa, i as int);
                if styles_map(wb).dom().contains(k) {
                    assert(styles_map(wb)[k] != styles_map(wa)[k]);
                }
            }
            return false;
        }
    }
    proof {
        reveal(lookups_agree);
    }
    for i in 0..b.len()
        invariant
            wa == wire_styles_view(a@),
            wb == wire_styles_view(b@),
            wa.len() == a@.len(),
            wb.len() == b@.len(),
            lookups_agree(wa, wb),
            forall|j: int| 0 <= j < i ==> style_lookup(wa, (#[trigger] wb[j]).0) is Some,
    {
        let la = lookup_style(a, &b[i].0);
        let ghost k = wb[i as int].0;
        assert(k == b@[i as int].0@);
        if la.is_none() {
            proof {
                lemma_styles_map_has(wb, i as int);
                assert(!styles_map(wa).dom().contains(k));
            }
            return false;
        }
    }
    proof {
        reveal(lookups_agree);
        assert forall|k: Seq<char>| #[trigger] styles_map(wa).dom().contains(k)
            == styles_map(wb).dom().contains(k) && (styles_map(wa).dom().contains(k) ==> styles_map(
            wa,
        )[k] == styles_map(wb)[k]) by {
            lemma_key_index(wa, k);
            lemma_key_index(wb, k);
            if style_lookup(wa, k) is Some {
                let j = key_index(wa, k)->0;
                assert(wa[j].0 == k);
            }
            if style_lookup(wb, k) is Some {
                let j = key_index(wb, k)->0;
                assert(wb[j].0 == k);
                assert(style_lookup(wa, wb[j].0) is Some);
                let m = key_index(wa, k)->0;
                assert(wa[m].0 == k);
            }
        }
        assert(styles_map(wa) =~= styles_map(wb));
    }
    true
}

impl Algorithm {
    /// A copy with the same view, nested sub-procedures included.
    pub fn deep_clone(&self) -> (r: Self)
        ensures
            r@ == self@,
        decreases self,
    {
        let steps = clone_steps(&self.steps);
        Algorithm {
            id: self.id,
            metadata: self.metadata.deep_clone(),
            steps,
            first_step_id: self.first_step_id,
            wire_styles: clone_wire_styles(&self.wire_styles),
        }
    }

    /// Equality as the application compares procedures (see
    /// `same_procedure`), nested sub-procedures included.
    pub fn equals(&self, other: &Self) -> (r: bool)
        ensures
            r == same_procedure(self@, other@),
        decreases self,
    {
        self.id == other.id && self.first_step_id == other.first_step_id
            && self.metadata.equals(&other.metadata) && eq_wire_styles(
            &self.wire_styles,
            &other.wire_styles,
        ) && eq_steps(&self.steps, &other.steps)
    }
}

/// A copy of a list of steps with the same views.
pub fn clone_steps(v: &Vec<Step>) -> (r: Vec<Step>)
    ensures
        steps_view(r@) == steps_view(v@),
    decreases v,
{
    let mut r: Vec<Step> = Vec::new();
    for i in 0..v.len()
        invariant
            r@.len() == i,
            forall|j: int| 0 <= j < i ==> #[trigger] step_view(r@[j]) == step_view(v@[j]),
    {
        assert(decreases_to!(v => v@[i as int]));
        r.push(v[i].deep_clone());
    }
    proof {
        lemma_steps_view(r@);
        lemma_steps_view(v@);
    }
    assert(steps_view(r@) =~= steps_view(v@));
    r
}

fn eq_steps(a: &Vec<Step>, b: &Vec<Step>) -> (r: bool)
    ensures
        r == same_steps(steps_view(a@), steps_view(b@)),
    decreases a,
{
    proof {
        lemma_steps_view(a@);
        lemma_steps_view(b@);
        lemma_same_steps(steps_view(a@), steps_view(b@));
    }
    if a.len() != b.len() {
        return false;
    }
    for i in 0..a.len()
        invariant
            a.len() == b.len(),
            steps_view(a@).len() == a@.len(),
            steps_view(b@).len() == b@.len(),
            forall|j: int| 0 <= j < a@.len() ==> #[trigger] steps_view(a@)[j] == step_view(a@[j]),
            forall|j: int| 0 <= j < b@.len() ==> #[trigger] steps_view(b@)[j] == step_view(b@[j]),
            forall|j: int| 0 <= j < i ==> #[trigger] same_step(step_view(a@[j]), step_view(b@[j])),
            same_steps(steps_view(a@), steps_view(b@)) <==> (forall|j: int|
                0 <= j < a@.len() ==> #[trigger] same_step(
                    steps_view(a@)[j],
                    steps_view(b@)[j],
                )),
    {
        assert(decreases_to!(a => a@[i as int]));
        if !a[i].equals(&b[i]) {
            assert(!same_step(steps_view(a@)[i as int], steps_view(b@)[i as int]));
            return false;
        }
    }
    assert forall|j: int| 0 <= j < a@.len() implies #[trigger] same_step(
        steps_view(a@)[j],
        steps_view(b@)[j],
    ) by {
        assert(same_step(step_view(a@[j]), step_view(b@[j])));
    }
    true
}

impl Step {
    /// A copy with the same view.
    pub fn deep_clone(&self) -> (r: Self)
        ensures
            r@ == self@,
        decreases self,
    {
        Step {
            id: self.id,
            title: self.title.clone(),
            description: self.description.clone(),
            kind: self.kind.deep_clone(),
            options: clone_options(&self.options),
            image_path: clone_opt_string(&self.image_path),
            pos: self.pos,
        }
    }

    /// Equality as the application compares steps (see `same_step`).
    pub fn equals(&self, other: &Self) -> (r: bool)
        ensures
            r == same_step(self@, other@),
        decreases self,
    {
        self.id == other.id && self.title == other.title && self.description == other.description
            && f32_bits_equal(self.pos.x, other.pos.x) && f32_bits_equal(self.pos.y, other.pos.y)
            && eq_opt_string(&self.image_path, &other.image_path)
            && eq_options(&self.options, &other.options) && self.kind.equals(&other.kind)
    }
}

impl StepKind {
    /// A copy with the same view.
    pub fn deep_clone(&self) -> (r: Self)
        ensures
            r@ == self@,
        decreases self,
    {
        match self {
            StepKind::Standard => StepKind::Standard,
            StepKind::Measurement { unit, min_val, max_val, next_if_normal, next_if_abnormal } =>
                StepKind::Measurement {
                unit: unit.clone(),
                min_val: *min_val,
                max_val: *max_val,
                next_if_normal: *next_if_normal,
                next_if_abnormal: *next_if_abnormal,
            },
            StepKind::SafetyWarning { ack_text, next_step_id } => StepKind::SafetyWarning {
                ack_text: ack_text.clone(),
                next_step_id: *next_step_id,
            },
            StepKind::Subprocess { sub_algo, next_if_success, next_if_failure } => {
                let inner = sub_algo.deep_clone();
                StepKind::Subprocess {
                    sub_algo: Box::new(inner),
                    next_if_success: *next_if_success,
                    next_if_failure: *next_if_failure,
                }
            },
        }
    }

    /// Equality as the application compares step kinds (see `same_kind`).
    pub fn equals(&self, other: &Self) -> (r: bool)
        ensures
            r == same_kind(self@, other@),
        decreases self,
    {
        match (self, other) {
            (StepKind::Standard, StepKind::Standard) => true,
            (
                StepKind::Measurement {
                    unit: u1,
                    min_val: a1,
                    max_val: b1,
                    next_if_normal: n1,
                    next_if_abnormal: x1,
                },
                StepKind::Measurement {
                    unit: u2,
                    min_val: a2,
                    max_val: b2,
                    next_if_normal: n2,
                    next_if_abnormal: x2,
                },
            ) => *u1 == *u2 && f64_bits_equal(*a1, *a2) && f64_bits_equal(*b1, *b2) && n1 == n2
                && x1 == x2,
            (
                StepKind::SafetyWarning { ack_text: t1, next_step_id: n1 },
                StepKind::SafetyWarning { ack_text: t2, next_step_id: n2 },
            ) => *t1 == *t2 && n1 == n2,
            (
                StepKind::Subprocess { sub_algo: s1, next_if_success: a1, next_if_failure: b1 },
                StepKind::Subprocess { sub_algo: s2, next_if_success: a2, next_if_failure: b2 },
            ) => a1 == a2 && b1 == b2 && s1.equals(s2),
            _ => false,
        }
    }
}

// ---------------------------------------------------------------------------
// Construction
// ---------------------------------------------------------------------------

/// `id` carries the version and variant bits of a random UUID.
pub open spec fn is_random_uuid(id: u128) -> bool {
    &&& (id >> 76u128) & 15 == 4
    &&& (id >> 62u128) & 3 == 2
}

impl Default for EquipmentInfo {
    /// An empty passport named "Новое оборудование", created and updated now.
    fn default() -> (r: Self)
        ensures
            r@.manufacturer == Seq::<char>::empty(),
            r@.eq_type == Seq::<char>::empty(),
            r@.model == Seq::<char>::empty(),
            r@.name == "Новое оборудование"@,
            r@.inv_number == Seq::<char>::empty(),
            r@.author == Seq::<char>::empty(),
            r.created_at.secs >= 0 && r.created_at.nanos < 1_000_000_000,
            r.updated_at.secs >= 0 && r.updated_at.nanos < 1_000_000_000,
    {
        EquipmentInfo {
            manufacturer: String::new(),
            eq_type: String::new(),
            model: String::new(),
            name: String::from_str("Новое оборудование"),
            inv_number: String::new(),
            created_at: now_timestamp(),
            updated_at: now_timestamp(),
            author: String::new(),
        }
    }
}

impl Default for Algorithm {
    /// An empty procedure with a new identifier and a default passport.
    fn default() -> (r: Self)
        ensures
            is_random_uuid(r.id),
            r@.steps == Seq::<StepView>::empty(),
            r@.first_step_id is None,
            r@.wire_styles == Seq::<(Seq<char>, WireStyle)>::empty(),
            r@.metadata.manufacturer == Seq::<char>::empty(),
            r@.metadata.eq_type == Seq::<char>::empty(),
            r@.metadata.model == Seq::<char>::empty(),
            r@.metadata.name == "Новое оборудование"@,
            r@.metadata.inv_number == Seq::<char>::empty(),
            r@.metadata.author == Seq::<char>::empty(),
            r.metadata.created_at.secs >= 0 && r.metadata.created_at.nanos < 1_000_000_000,
            r.metadata.updated_at.secs >= 0 && r.metadata.updated_at.nanos < 1_000_000_000,
    {
        let r = Algorithm {
            id: new_uuid(),
            metadata: EquipmentInfo::default(),
            steps: Vec::new(),
            first_step_id: None,
            wire_styles: Vec::new(),
        };
        proof {
            assert(steps_view(r.steps@) =~= Seq::<StepView>::empty());
            assert(wire_styles_view(r.wire_styles@) =~= Seq::<(Seq<char>, WireStyle)>::empty());
        }
        r
    }
}

impl Step {
    /// A standard step with a new identifier, the given title and position,
    /// and no description, options or picture.
    pub fn new(title: String, pos: CanvasPos) -> (r: Self)
        ensures
            is_random_uuid(r.id),
            r@ == (StepView {
                id: r.id,
                title: title@,
                description: Seq::empty(),
                kind: StepKindView::Standard,
                options: Seq::empty(),
                image_path: None,
                pos,
            }),
    {
        let r = Step {
            id: new_uuid(),
            title,
            description: String::new(),
            kind: StepKind::Standard,
            options: Vec::new(),
            image_path: None,
            pos,
        };
        assert(options_view(r.options@) =~= Seq::<OptionLinkView>::empty());
        r
    }
}

impl Algorithm {
    /// Records that the procedure was updated now.
    pub fn touch(&mut self)
        ensures
            final(self)@ == (AlgorithmView {
                metadata: EquipmentInfoView {
                    updated_at: final(self).metadata.updated_at,
                    ..old(self)@.metadata
                },
                ..old(self)@
            }),
            final(self).metadata.updated_at.secs >= 0,
            final(self).metadata.updated_at.nanos < 1_000_000_000,
    {
        self.metadata.updated_at = now_timestamp();
    }
}

} // verus!
