//! The spell card data model: what a card holds, the text each part is
//! rendered as, and the editing rules that keep a card well formed.
//!
//! A card's overview list is keyed by overview category and its roll-outcome
//! list by degree of success; both are kept strictly sorted by that key, so
//! each category appears at most once. Every editing method replaces a
//! category's entry by removing the old entry and inserting the new one at
//! its sorted position.

use vstd::prelude::*;

use crate::keyed::{find_by_key, lemma_find_none, lemma_insert_keyed, lemma_remove_keyed, sorted_by_key};
use crate::text::dec_seq;
use crate::text::u8_to_string;

verus! {

/// How long a spell takes to cast: a number of actions, a span of actions,
/// a reaction, a free action, or a free-text longer duration.
#[derive(PartialEq, Eq, Clone, Debug)]
pub enum CastTime {
    Free,
    Reaction,
    Single,
    Double,
    Triple,
    Range(u8, u8),
    Longer(String),
}

/// The letter (or free text) a cast time is shown as in a card's header.
pub open spec fn cast_time_text(t: CastTime) -> Seq<char> {
    match t {
        CastTime::Free => "F"@,
        CastTime::Reaction => "R"@,
        CastTime::Single => "A"@,
        CastTime::Double => "D"@,
        CastTime::Triple => "T"@,
        CastTime::Range(min, max) => dec_seq(min as nat) + "-"@ + dec_seq(max as nat),
        CastTime::Longer(duration) => duration@,
    }
}

impl CastTime {
    /// The text this cast time is shown as.
    pub fn to_text(&self) -> (r: String)
        ensures
            r@ == cast_time_text(*self),
    {
        match self {
            CastTime::Free => "F".to_owned(),
            CastTime::Reaction => "R".to_owned(),
            CastTime::Single => "A".to_owned(),
            CastTime::Double => "D".to_owned(),
            CastTime::Triple => "T".to_owned(),
            CastTime::Range(min, max) => {
                let mut s = u8_to_string(*min);
                s.append("-");
                let max_text = u8_to_string(*max);
                s.append(max_text.as_str());
                s
            },
            CastTime::Longer(duration) => duration.clone(),
        }
    }
}

/// The category of a spell: cantrip, focus, ordinary spell, innate, or ritual.
#[derive(PartialEq, Eq, Structural, Clone, Copy, Debug)]
pub enum SpellType {
    Cantrip,
    Focus,
    Spell,
    Innate,
    Ritual,
}

/// The word a spell type is shown as.
pub open spec fn spell_type_text(t: SpellType) -> Seq<char> {
    match t {
        SpellType::Cantrip => "Cantrip"@,
        SpellType::Focus => "Focus"@,
        SpellType::Spell => "Spell"@,
        SpellType::Innate => "Innate"@,
        SpellType::Ritual => "Ritual"@,
    }
}

impl SpellType {
    /// The word this spell type is shown as.
    pub fn to_text(&self) -> (r: String)
        ensures
            r@ == spell_type_text(*self),
    {
        match self {
            SpellType::Cantrip => "Cantrip".to_owned(),
            SpellType::Focus => "Focus".to_owned(),
            SpellType::Spell => "Spell".to_owned(),
            SpellType::Innate => "Innate".to_owned(),
            SpellType::Ritual => "Ritual".to_owned(),
        }
    }
}

/// The shape and size of a spell's area of effect, in feet.
#[derive(PartialEq, Eq, Clone, Copy, Debug)]
pub enum Area {
    Burst(u8),
    Cone(u8),
    Emanation(u8),
    Line(u8, Option<u8>),
}

/// The text an area is shown as, e.g. "15ft burst".
pub open spec fn area_text(a: Area) -> Seq<char> {
    match a {
        Area::Burst(aoe) => dec_seq(aoe as nat) + "ft burst"@,
        Area::Cone(aoe) => dec_seq(aoe as nat) + "ft cone"@,
        Area::Emanation(aoe) => dec_seq(aoe as nat) + "ft emanation"@,
        Area::Line(length, w) => match w {
            Option::None => dec_seq(length as nat) + "ft line"@,
            Option::Some(width) => dec_seq(length as nat) + "ft long and "@ + dec_seq(width as nat)
                + "ft wide line"@,
        },
    }
}

/// The primary size of an area: its radius, length or reach.
pub open spec fn area_primary(a: Area) -> u8 {
    match a {
        Area::Burst(aoe) => aoe,
        Area::Cone(aoe) => aoe,
        Area::Emanation(aoe) => aoe,
        Area::Line(length, _) => length,
    }
}

/// The secondary size of an area: a line's width, where one is given.
pub open spec fn area_secondary(a: Area) -> Option<u8> {
    match a {
        Area::Line(_, w) => w,
        _ => Option::None,
    }
}

/// The same shape of area with its primary size replaced.
pub open spec fn area_with_primary(a: Area, aoe: u8) -> Area {
    match a {
        Area::Burst(_) => Area::Burst(aoe),
        Area::Cone(_) => Area::Cone(aoe),
        Area::Emanation(_) => Area::Emanation(aoe),
        Area::Line(_, w) => Area::Line(aoe, w),
    }
}

impl Area {
    /// The text this area is shown as.
    pub fn to_text(&self) -> (r: String)
        ensures
            r@ == area_text(*self),
    {
        match self {
            Area::Burst(aoe) => {
                let mut s = u8_to_string(*aoe);
                s.append("ft burst");
                s
            },
            Area::Cone(aoe) => {
                let mut s = u8_to_string(*aoe);
                s.append("ft cone");
                s
            },
            Area::Emanation(aoe) => {
                let mut s = u8_to_string(*aoe);
                s.append("ft emanation");
                s
            },
            Area::Line(length, None) => {
                let mut s = u8_to_string(*length);
                s.append("ft line");
                s
            },
            Area::Line(length, Some(width)) => {
                let mut s = u8_to_string(*length);
                s.append("ft long and ");
                let width_text = u8_to_string(*width);
                s.append(width_text.as_str());
                s.append("ft wide line");
                s
            },
        }
    }

    /// The primary and secondary sizes of this area.
    pub fn get_aoe_val(&self) -> (r: (u8, Option<u8>))
        ensures
            r.0 == area_primary(*self),
            r.1 == area_secondary(*self),
    {
        match self {
            Area::Burst(aoe) => (*aoe, None),
            Area::Cone(aoe) => (*aoe, None),
            Area::Emanation(aoe) => (*aoe, None),
            Area::Line(length, w) => (*length, *w),
        }
    }

    /// The same shape of area with its primary size replaced.
    pub fn with_primary(&self, aoe: u8) -> (r: Area)
        ensures
            r == area_with_primary(*self, aoe),
    {
        match self {
            Area::Burst(_) => Area::Burst(aoe),
            Area::Cone(_) => Area::Cone(aoe),
            Area::Emanation(_) => Area::Emanation(aoe),
            Area::Line(_, w) => Area::Line(aoe, *w),
        }
    }
}

/// The defence a spell is rolled against.
#[derive(PartialEq, Eq, Structural, Clone, Copy, Debug)]
pub enum Defence {
    ArmourClass,
    Fortitude,
    Reflex,
    Will,
}

/// The text a defence is shown as.
pub open spec fn defence_text(d: Defence) -> Seq<char> {
    match d {
        Defence::ArmourClass => "AC"@,
        Defence::Fortitude => "Fortitude"@,
        Defence::Reflex => "Reflex"@,
        Defence::Will => "Will"@,
    }
}

impl Defence {
    /// The text this defence is shown as.
    pub fn to_text(&self) -> (r: String)
        ensures
            r@ == defence_text(*self),
    {
        match self {
            Defence::ArmourClass => "AC".to_owned(),
            Defence::Fortitude => "Fortitude".to_owned(),
            Defence::Reflex => "Reflex".to_owned(),
            Defence::Will => "Will".to_owned(),
        }
    }
}

/// One structured fact shown beneath a card's header: its range, area,
/// targets, defence, or duration.
#[derive(PartialEq, Eq, Clone, Debug)]
pub enum SpellOverview {
    Range(u8),
    Area(Area),
    Targets(String),
    Defence(Defence),
    Duration(String),
}

/// The category of an overview fact. A card's overview list holds at most
/// one fact of each category.
#[derive(PartialEq, Eq, Structural, Clone, Copy, Debug)]
pub enum OverviewKind {
    Range,
    Area,
    Targets,
    Defence,
    Duration,
}

/// The category an overview fact belongs to.
pub open spec fn kind_of(o: SpellOverview) -> OverviewKind {
    match o {
        SpellOverview::Range(_) => OverviewKind::Range,
        SpellOverview::Area(_) => OverviewKind::Area,
        SpellOverview::Targets(_) => OverviewKind::Targets,
        SpellOverview::Defence(_) => OverviewKind::Defence,
        SpellOverview::Duration(_) => OverviewKind::Duration,
    }
}

/// The display position of an overview category; the overview list is kept
/// sorted by it.
pub open spec fn kind_index(k: OverviewKind) -> int {
    match k {
        OverviewKind::Range => 0,
        OverviewKind::Area => 1,
        OverviewKind::Targets => 2,
        OverviewKind::Defence => 3,
        OverviewKind::Duration => 4,
    }
}

/// The key function the overview list is sorted by.
pub open spec fn overview_key_fn() -> spec_fn(SpellOverview) -> int {
    |o: SpellOverview| kind_index(kind_of(o))
}

/// The label an overview category is shown under, e.g. "Range".
pub open spec fn kind_label(k: OverviewKind) -> Seq<char> {
    match k {
        OverviewKind::Range => "Range"@,
        OverviewKind::Area => "Area"@,
        OverviewKind::Targets => "Targets"@,
        OverviewKind::Defence => "Defence"@,
        OverviewKind::Duration => "Duration"@,
    }
}

/// The text an overview fact's value is shown as, e.g. "30ft" for a range.
pub open spec fn overview_value_text(o: SpellOverview) -> Seq<char> {
    match o {
        SpellOverview::Range(range) => dec_seq(range as nat) + "ft"@,
        SpellOverview::Area(area) => area_text(area),
        SpellOverview::Targets(targets) => targets@,
        SpellOverview::Defence(defence) => defence_text(defence),
        SpellOverview::Duration(duration) => duration@,
    }
}

impl OverviewKind {
    /// The display position of this category.
    pub fn index(&self) -> (r: u8)
        ensures
            r as int == kind_index(*self),
    {
        match self {
            OverviewKind::Range => 0,
            OverviewKind::Area => 1,
            OverviewKind::Targets => 2,
            OverviewKind::Defence => 3,
            OverviewKind::Duration => 4,
        }
    }

    /// The label this category is shown under.
    pub fn label(&self) -> (r: String)
        ensures
            r@ == kind_label(*self),
    {
        match self {
            OverviewKind::Range => "Range".to_owned(),
            OverviewKind::Area => "Area".to_owned(),
            OverviewKind::Targets => "Targets".to_owned(),
            OverviewKind::Defence => "Defence".to_owned(),
            OverviewKind::Duration => "Duration".to_owned(),
        }
    }
}

impl SpellOverview {
    /// The category this fact belongs to.
    pub fn kind(&self) -> (r: OverviewKind)
        ensures
            r == kind_of(*self),
    {
        match self {
            SpellOverview::Range(_) => OverviewKind::Range,
            SpellOverview::Area(_) => OverviewKind::Area,
            SpellOverview::Targets(_) => OverviewKind::Targets,
            SpellOverview::Defence(_) => OverviewKind::Defence,
            SpellOverview::Duration(_) => OverviewKind::Duration,
        }
    }

    /// The label this fact is shown under.
    pub fn label(&self) -> (r: String)
        ensures
            r@ == kind_label(kind_of(*self)),
    {
        let kind = self.kind();
        kind.label()
    }

    /// The text this fact's value is shown as.
    pub fn value_text(&self) -> (r: String)
        ensures
            r@ == overview_value_text(*self),
    {
        match self {
            SpellOverview::Range(range) => {
                let mut s = u8_to_string(*range);
                s.append("ft");
                s
            },
            SpellOverview::Area(area) => area.to_text(),
            SpellOverview::Targets(targets) => targets.clone(),
            SpellOverview::Defence(defence) => defence.to_text(),
            SpellOverview::Duration(duration) => duration.clone(),
        }
    }

    /// An identical copy of this fact.
    pub fn duplicate(&self) -> (r: SpellOverview)
        ensures
            r == *self,
    {
        match self {
            SpellOverview::Range(range) => SpellOverview::Range(*range),
            SpellOverview::Area(area) => SpellOverview::Area(*area),
            SpellOverview::Targets(targets) => SpellOverview::Targets(targets.clone()),
            SpellOverview::Defence(defence) => SpellOverview::Defence(*defence),
            SpellOverview::Duration(duration) => SpellOverview::Duration(duration.clone()),
        }
    }
}

/// Whether an overview list is well formed: strictly sorted by category,
/// so each category appears at most once.
pub open spec fn wf_overview(s: Seq<SpellOverview>) -> bool {
    sorted_by_key(s, overview_key_fn())
}

/// The entry of the given category in an overview list, if any.
pub open spec fn find_kind(s: Seq<SpellOverview>, k: OverviewKind) -> Option<SpellOverview> {
    find_by_key(s, overview_key_fn(), kind_index(k))
}

proof fn lemma_kind_index_injective(k1: OverviewKind, k2: OverviewKind)
    ensures
        (kind_index(k1) == kind_index(k2)) <==> (k1 == k2),
{
}

proof fn lemma_overview_key(o: SpellOverview)
    ensures
        overview_key_fn()(o) == kind_index(kind_of(o)),
{
}

/// Removes the entry of the given category from an overview list, if one
/// is there; every other category's entry stays as it was.
pub fn remove_overview_element(overview: &mut Vec<SpellOverview>, kind: OverviewKind)
    requires
        wf_overview(old(overview)@),
    ensures
        wf_overview(final(overview)@),
        find_kind(final(overview)@, kind) is None,
        forall|k: OverviewKind|
            k != kind ==> find_kind(final(overview)@, k) == find_kind(old(overview)@, k),
{
    let ghost s0 = overview@;
    let mut i: usize = 0;
    while i < overview.len()
        invariant
            overview@ == s0,
            old(overview)@ == s0,
            0 <= i <= s0.len(),
            wf_overview(s0),
            forall|j: int| 0 <= j < i ==> kind_of(#[trigger] s0[j]) != kind,
        decreases overview.len() - i,
    {
        if overview[i].kind() == kind {
            overview.remove(i);
            proof {
                let key = overview_key_fn();
                lemma_overview_key(s0[i as int]);
                assert(key(s0[i as int]) == kind_index(kind));
                lemma_remove_keyed(s0, key, i as int);
                assert forall|k: OverviewKind| k != kind implies find_kind(overview@, k)
                    == find_kind(s0, k) by {
                    lemma_kind_index_injective(k, kind);
                }
            }
            return ;
        }
        i += 1;
    }
    proof {
        let key = overview_key_fn();
        assert forall|j: int| 0 <= j < s0.len() implies key(#[trigger] s0[j]) != kind_index(
            kind,
        ) by {
            lemma_overview_key(s0[j]);
            lemma_kind_index_injective(kind_of(s0[j]), kind);
        }
        lemma_find_none(s0, key, kind_index(kind));
    }
}

/// Inserts an overview fact at its sorted position; no entry of its
/// category may already be there.
pub fn insert_overview_element(overview: &mut Vec<SpellOverview>, elem: SpellOverview)
    requires
        wf_overview(old(overview)@),
        find_kind(old(overview)@, kind_of(elem)) is None,
    ensures
        wf_overview(final(overview)@),
        find_kind(final(overview)@, kind_of(elem)) == Some(elem),
        forall|k: OverviewKind|
            k != kind_of(elem) ==> find_kind(final(overview)@, k) == find_kind(old(overview)@, k),
{
    let ghost s0 = overview@;
    let elem_idx = elem.kind().index();
    proof {
        let key = overview_key_fn();
        lemma_find_none(s0, key, kind_index(kind_of(elem)));
        assert forall|j: int| 0 <= j < s0.len() implies key(#[trigger] s0[j]) != elem_idx as int by {
            lemma_overview_key(s0[j]);
        }
    }
    let mut i: usize = 0;
    while i < overview.len() && overview[i].kind().index() < elem_idx
        invariant
            overview@ == s0,
            0 <= i <= s0.len(),
            wf_overview(s0),
            elem_idx as int == kind_index(kind_of(elem)),
            forall|j: int|
                0 <= j < s0.len() ==> overview_key_fn()(#[trigger] s0[j]) != elem_idx as int,
            forall|j: int| 0 <= j < i ==> overview_key_fn()(#[trigger] s0[j]) < elem_idx as int,
        decreases overview.len() - i,
    {
        proof {
            lemma_overview_key(s0[i as int]);
        }
        i += 1;
    }
    proof {
        let key = overview_key_fn();
        lemma_overview_key(elem);
        if i < overview.len() {
            lemma_overview_key(s0[i as int]);
        }
        assert forall|j: int| i <= j < s0.len() implies key(#[trigger] s0[j]) > elem_idx as int by {
            if j > i {
                assert(key(s0[i as int]) < key(s0[j]));
            }
        }
        lemma_insert_keyed(s0, key, i as int, elem);
        assert forall|k: OverviewKind| k != kind_of(elem) implies find_kind(
            s0.insert(i as int, elem),
            k,
        ) == find_kind(s0, k) by {
            lemma_kind_index_injective(k, kind_of(elem));
        }
    }
    overview.insert(i, elem);
}

/// Replaces the entry of the given category: the old entry (if any) is
/// removed, the new one (if any) is inserted at its sorted position.
pub fn set_overview_element(
    overview: &mut Vec<SpellOverview>,
    kind: OverviewKind,
    repl: Option<SpellOverview>,
)
    requires
        wf_overview(old(overview)@),
        repl is Some ==> kind_of(repl->0) == kind,
    ensures
        wf_overview(final(overview)@),
        find_kind(final(overview)@, kind) == repl,
        forall|k: OverviewKind|
            k != kind ==> find_kind(final(overview)@, k) == find_kind(old(overview)@, k),
{
    remove_overview_element(overview, kind);
    match repl {
        Some(elem) => insert_overview_element(overview, elem),
        None => (),
    }
}

/// The effect text a spell has on one degree of success of a roll.
#[derive(PartialEq, Eq, Clone, Debug)]
pub enum RollResult {
    CriticalSuccess(String),
    Success(String),
    Failure(String),
    CriticalFailure(String),
}

/// A degree of success of a roll. A card's roll-outcome list holds at most
/// one entry of each degree.
#[derive(PartialEq, Eq, Structural, Clone, Copy, Debug)]
pub enum RollDegree {
    CriticalSuccess,
    Success,
    Failure,
    CriticalFailure,
}

/// The degree of success a roll outcome belongs to.
pub open spec fn degree_of(r: RollResult) -> RollDegree {
    match r {
        RollResult::CriticalSuccess(_) => RollDegree::CriticalSuccess,
        RollResult::Success(_) => RollDegree::Success,
        RollResult::Failure(_) => RollDegree::Failure,
        RollResult::CriticalFailure(_) => RollDegree::CriticalFailure,
    }
}

/// The display position of a degree; the roll-outcome list is kept sorted
/// by it, best outcome first.
pub open spec fn degree_index(d: RollDegree) -> int {
    match d {
        RollDegree::CriticalSuccess => 0,
        RollDegree::Success => 1,
        RollDegree::Failure => 2,
        RollDegree::CriticalFailure => 3,
    }
}

/// The key function the roll-outcome list is sorted by.
pub open spec fn roll_key_fn() -> spec_fn(RollResult) -> int {
    |r: RollResult| degree_index(degree_of(r))
}

/// The label a degree of success is shown under.
pub open spec fn degree_label(d: RollDegree) -> Seq<char> {
    match d {
        RollDegree::CriticalSuccess => "Critical Success"@,
        RollDegree::Success => "Success"@,
        RollDegree::Failure => "Failure"@,
        RollDegree::CriticalFailure => "Critical Failure"@,
    }
}

/// The effect text of a roll outcome.
pub open spec fn roll_effect_text(r: RollResult) -> Seq<char> {
    match r {
        RollResult::CriticalSuccess(eff) => eff@,
        RollResult::Success(eff) => eff@,
        RollResult::Failure(eff) => eff@,
        RollResult::CriticalFailure(eff) => eff@,
    }
}

impl RollDegree {
    /// The display position of this degree.
    pub fn index(&self) -> (r: u8)
        ensures
            r as int == degree_index(*self),
    {
        match self {
            RollDegree::CriticalSuccess => 0,
            RollDegree::Success => 1,
            RollDegree::Failure => 2,
            RollDegree::CriticalFailure => 3,
        }
    }

    /// The label this degree is shown under.
    pub fn label(&self) -> (r: String)
        ensures
            r@ == degree_label(*self),
    {
        match self {
            RollDegree::CriticalSuccess => "Critical Success".to_owned(),
            RollDegree::Success => "Success".to_owned(),
            RollDegree::Failure => "Failure".to_owned(),
            RollDegree::CriticalFailure => "Critical Failure".to_owned(),
        }
    }
}

impl RollResult {
    /// The degree of success this outcome belongs to.
    pub fn degree(&self) -> (r: RollDegree)
        ensures
            r == degree_of(*self),
    {
        match self {
            RollResult::CriticalSuccess(_) => RollDegree::CriticalSuccess,
            RollResult::Success(_) => RollDegree::Success,
            RollResult::Failure(_) => RollDegree::Failure,
            RollResult::CriticalFailure(_) => RollDegree::CriticalFailure,
        }
    }

    /// The label this outcome is shown under.
    pub fn label(&self) -> (r: String)
        ensures
            r@ == degree_label(degree_of(*self)),
    {
        let degree = self.degree();
        degree.label()
    }

    /// The effect text of this outcome.
    pub fn effect_text(&self) -> (r: String)
        ensures
            r@ == roll_effect_text(*self),
    {
        match self {
            RollResult::CriticalSuccess(eff) => eff.clone(),
            RollResult::Success(eff) => eff.clone(),
            RollResult::Failure(eff) => eff.clone(),
            RollResult::CriticalFailure(eff) => eff.clone(),
        }
    }

    /// An identical copy of this outcome.
    pub fn duplicate(&self) -> (r: RollResult)
        ensures
            r == *self,
    {
        match self {
            RollResult::CriticalSuccess(eff) => RollResult::CriticalSuccess(eff.clone()),
            RollResult::Success(eff) => RollResult::Success(eff.clone()),
            RollResult::Failure(eff) => RollResult::Failure(eff.clone()),
            RollResult::CriticalFailure(eff) => RollResult::CriticalFailure(eff.clone()),
        }
    }

    /// The outcome of the given degree with the given effect text.
    pub fn of_degree(degree: RollDegree, eff: String) -> (r: RollResult)
        ensures
            degree_of(r) == degree,
            roll_effect_text(r) == eff@,
    {
        match degree {
            RollDegree::CriticalSuccess => RollResult::CriticalSuccess(eff),
            RollDegree::Success => RollResult::Success(eff),
            RollDegree::Failure => RollResult::Failure(eff),
            RollDegree::CriticalFailure => RollResult::CriticalFailure(eff),
        }
    }
}

/// Whether a roll-outcome list is well formed: strictly sorted by degree,
/// best outcome first, so each degree appears at most once.
pub open spec fn wf_rolls(s: Seq<RollResult>) -> bool {
    sorted_by_key(s, roll_key_fn())
}

/// The entry of the given degree in a roll-outcome list, if any.
pub open spec fn find_degree(s: Seq<RollResult>, d: RollDegree) -> Option<RollResult> {
    find_by_key(s, roll_key_fn(), degree_index(d))
}

proof fn lemma_degree_index_injective(d1: RollDegree, d2: RollDegree)
    ensures
        (degree_index(d1) == degree_index(d2)) <==> (d1 == d2),
{
}

proof fn lemma_roll_key(r: RollResult)
    ensures
        roll_key_fn()(r) == degree_index(degree_of(r)),
{
}

/// Removes the entry of the given degree from a roll-outcome list, if one
/// is there; every other degree's entry stays as it was.
pub fn remove_roll_element(rolls: &mut Vec<RollResult>, degree: RollDegree)
    requires
        wf_rolls(old(rolls)@),
    ensures
        wf_rolls(final(rolls)@),
        find_degree(final(rolls)@, degree) is None,
        forall|d: RollDegree|
            d != degree ==> find_degree(final(rolls)@, d) == find_degree(old(rolls)@, d),
{
    let ghost s0 = rolls@;
    let mut i: usize = 0;
    while i < rolls.len()
        invariant
            rolls@ == s0,
            old(rolls)@ == s0,
            0 <= i <= s0.len(),
            wf_rolls(s0),
            forall|j: int| 0 <= j < i ==> degree_of(#[trigger] s0[j]) != degree,
        decreases rolls.len() - i,
    {
        if rolls[i].degree() == degree {
            rolls.remove(i);
            proof {
                let key = roll_key_fn();
                lemma_roll_key(s0[i as int]);
                assert(key(s0[i as int]) == degree_index(degree));
                lemma_remove_keyed(s0, key, i as int);
                assert forall|d: RollDegree| d != degree implies find_degree(rolls@, d)
                    == find_degree(s0, d) by {
                    lemma_degree_index_injective(d, degree);
                }
            }
            return ;
        }
        i += 1;
    }
    proof {
        let key = roll_key_fn();
        assert forall|j: int| 0 <= j < s0.len() implies key(#[trigger] s0[j]) != degree_index(
            degree,
        ) by {
            lemma_roll_key(s0[j]);
            lemma_degree_index_injective(degree_of(s0[j]), degree);
        }
        lemma_find_none(s0, key, degree_index(degree));
    }
}

/// Inserts a roll outcome at its sorted position; no entry of its degree
/// may already be there.
pub fn insert_roll_element(rolls: &mut Vec<RollResult>, elem: RollResult)
    requires
        wf_rolls(old(rolls)@),
        find_degree(old(rolls)@, degree_of(elem)) is None,
    ensures
        wf_rolls(final(rolls)@),
        find_degree(final(rolls)@, degree_of(elem)) == Some(elem),
        forall|d: RollDegree|
            d != degree_of(elem) ==> find_degree(final(rolls)@, d) == find_degree(old(rolls)@, d),
{
    let ghost s0 = rolls@;
    let elem_idx = elem.degree().index();
    proof {
        let key = roll_key_fn();
        lemma_find_none(s0, key, degree_index(degree_of(elem)));
        assert forall|j: int| 0 <= j < s0.len() implies key(#[trigger] s0[j]) != elem_idx as int by {
            lemma_roll_key(s0[j]);
        }
    }
    let mut i: usize = 0;
    while i < rolls.len() && rolls[i].degree().index() < elem_idx
        invariant
            rolls@ == s0,
            0 <= i <= s0.len(),
            wf_rolls(s0),
            elem_idx as int == degree_index(degree_of(elem)),
            forall|j: int| 0 <= j < s0.len() ==> roll_key_fn()(#[trigger] s0[j]) != elem_idx as int,
            forall|j: int| 0 <= j < i ==> roll_key_fn()(#[trigger] s0[j]) < elem_idx as int,
        decreases rolls.len() - i,
    {
        proof {
            lemma_roll_key(s0[i as int]);
        }
        i += 1;
    }
    proof {
        let key = roll_key_fn();
        lemma_roll_key(elem);
        if i < rolls.len() {
            lemma_roll_key(s0[i as int]);
        }
        assert forall|j: int| i <= j < s0.len() implies key(#[trigger] s0[j]) > elem_idx as int by {
            if j > i {
                assert(key(s0[i as int]) < key(s0[j]));
            }
        }
        lemma_insert_keyed(s0, key, i as int, elem);
        assert forall|d: RollDegree| d != degree_of(elem) implies find_degree(
            s0.insert(i as int, elem),
            d,
        ) == find_degree(s0, d) by {
            lemma_degree_index_injective(d, degree_of(elem));
        }
    }
    rolls.insert(i, elem);
}

/// Replaces the entry of the given degree: the old entry (if any) is
/// removed, the new one (if any) is inserted at its sorted position.
pub fn set_roll_element(rolls: &mut Vec<RollResult>, degree: RollDegree, repl: Option<RollResult>)
    requires
        wf_rolls(old(rolls)@),
        repl is Some ==> degree_of(repl->0) == degree,
    ensures
        wf_rolls(final(rolls)@),
        find_degree(final(rolls)@, degree) == repl,
        forall|d: RollDegree|
            d != degree ==> find_degree(final(rolls)@, d) == find_degree(old(rolls)@, d),
{
    remove_roll_element(rolls, degree);
    match repl {
        Some(elem) => insert_roll_element(rolls, elem),
        None => (),
    }
}

/// A level-scaling effect: either the effect repeats every N levels above
/// the spell's own, or it applies once at a specific level.
#[derive(PartialEq, Eq, Clone, Debug)]
pub enum Heightened {
    Repeat(u8, String),
    Single(u8, String),
}

/// The ordinal text of a level: "1st", "2nd", "3rd", and "th" beyond.
pub open spec fn ordinal_text(n: nat) -> Seq<char> {
    if n == 1 {
        "1st"@
    } else if n == 2 {
        "2nd"@
    } else if n == 3 {
        "3rd"@
    } else {
        dec_seq(n) + "th"@
    }
}

/// The label a heightened entry is shown under, e.g. "Heightened (+2)" or
/// "Heightened (5th)".
pub open spec fn heightened_label(h: Heightened) -> Seq<char> {
    match h {
        Heightened::Repeat(lvl, _) => "Heightened (+"@ + dec_seq(lvl as nat) + ")"@,
        Heightened::Single(lvl, _) => "Heightened ("@ + ordinal_text(lvl as nat) + ")"@,
    }
}

/// The effect text of a heightened entry.
pub open spec fn heightened_effect_text(h: Heightened) -> Seq<char> {
    match h {
        Heightened::Repeat(_, eff) => eff@,
        Heightened::Single(_, eff) => eff@,
    }
}

/// Whether two heightened entries read the same: same kind, same level,
/// same effect text. The editor treats such entries as the same entry.
pub open spec fn heightened_like(a: Heightened, b: Heightened) -> bool {
    match (a, b) {
        (Heightened::Repeat(la, ta), Heightened::Repeat(lb, tb)) => la == lb && ta@ == tb@,
        (Heightened::Single(la, ta), Heightened::Single(lb, tb)) => la == lb && ta@ == tb@,
        _ => false,
    }
}

impl Heightened {
    /// The label this entry is shown under.
    pub fn label(&self) -> (r: String)
        ensures
            r@ == heightened_label(*self),
    {
        match self {
            Heightened::Repeat(lvl, _) => {
                let mut s = "Heightened (+".to_owned();
                let lvl_text = u8_to_string(*lvl);
                s.append(lvl_text.as_str());
                s.append(")");
                s
            },
            Heightened::Single(lvl, _) => {
                let mut s = "Heightened (".to_owned();
                if *lvl == 1 {
                    s.append("1st");
                } else if *lvl == 2 {
                    s.append("2nd");
                } else if *lvl == 3 {
                    s.append("3rd");
                } else {
                    let lvl_text = u8_to_string(*lvl);
                    s.append(lvl_text.as_str());
                    s.append("th");
                }
                s.append(")");
                s
            },
        }
    }

    /// The effect text of this entry.
    pub fn effect_text(&self) -> (r: String)
        ensures
            r@ == heightened_effect_text(*self),
    {
        match self {
            Heightened::Repeat(_, eff) => eff.clone(),
            Heightened::Single(_, eff) => eff.clone(),
        }
    }

    /// An identical copy of this entry.
    pub fn duplicate(&self) -> (r: Heightened)
        ensures
            r == *self,
    {
        match self {
            Heightened::Repeat(lvl, eff) => Heightened::Repeat(*lvl, eff.clone()),
            Heightened::Single(lvl, eff) => Heightened::Single(*lvl, eff.clone()),
        }
    }

    /// Whether this entry reads the same as another.
    pub fn like(&self, other: &Heightened) -> (r: bool)
        ensures
            r == heightened_like(*self, *other),
    {
        match (self, other) {
            (Heightened::Repeat(la, ta), Heightened::Repeat(lb, tb)) => *la == *lb && ta.eq(tb),
            (Heightened::Single(la, ta), Heightened::Single(lb, tb)) => *la == *lb && ta.eq(tb),
            _ => false,
        }
    }
}


/// Whether a heightened entry repeats every N levels (rather than applying
/// once at a specific level).
pub open spec fn heightened_is_repeat(h: Heightened) -> bool {
    h is Repeat
}

/// The level a heightened entry is keyed to: the step of a repeating entry,
/// or the specific level of a one-off entry.
pub open spec fn heightened_level(h: Heightened) -> u8 {
    match h {
        Heightened::Repeat(lvl, _) => lvl,
        Heightened::Single(lvl, _) => lvl,
    }
}

/// Whether some entry of the list reads the same as `t`.
pub open spec fn heightened_contains_like(s: Seq<Heightened>, t: Heightened) -> bool {
    exists|i: int| 0 <= i < s.len() && heightened_like(#[trigger] s[i], t)
}

/// Whether `h` is `t` with its effect text replaced by `eff`.
pub open spec fn like_retexted(h: Heightened, t: Heightened, eff: Seq<char>) -> bool {
    heightened_is_repeat(h) == heightened_is_repeat(t) && heightened_level(h)
        == heightened_level(t) && heightened_effect_text(h) == eff
}

/// Whether `h` is the blank entry the editor offers for a new row: a
/// repeating entry at step 1 with empty effect text.
pub open spec fn is_empty_draft(h: Heightened) -> bool {
    heightened_is_repeat(h) && heightened_level(h) == 1 && heightened_effect_text(h).len() == 0
}

/// The predicate a removal keeps: entries that do not read as `t`.
pub open spec fn not_like_fn(t: Heightened) -> spec_fn(Heightened) -> bool {
    |h: Heightened| !heightened_like(h, t)
}

proof fn lemma_not_like(t: Heightened, h: Heightened)
    ensures
        not_like_fn(t)(h) == !heightened_like(h, t),
{
}

/// Whether some entry of the list reads the same as `target`.
pub fn contains_heightened_like(list: &Vec<Heightened>, target: &Heightened) -> (r: bool)
    ensures
        r == heightened_contains_like(list@, *target),
{
    let mut i: usize = 0;
    while i < list.len()
        invariant
            0 <= i <= list@.len(),
            forall|j: int| 0 <= j < i ==> !heightened_like(#[trigger] list@[j], *target),
        decreases list.len() - i,
    {
        if list[i].like(target) {
            return true;
        }
        i += 1;
    }
    false
}

/// A copy of `target` with its effect text replaced.
pub fn heightened_retexted(target: &Heightened, eff: String) -> (r: Heightened)
    ensures
        like_retexted(r, *target, eff@),
{
    match target {
        Heightened::Repeat(lvl, _) => Heightened::Repeat(*lvl, eff),
        Heightened::Single(lvl, _) => Heightened::Single(*lvl, eff),
    }
}

/// Rewrites the effect text of every entry that reads as `target`; if none
/// does, appends the rewritten entry followed by a blank draft row.
pub fn update_heightened_text(list: &mut Vec<Heightened>, target: &Heightened, text: String)
    ensures
        heightened_contains_like(old(list)@, *target) ==> {
            &&& final(list)@.len() == old(list)@.len()
            &&& forall|i: int|
                0 <= i < old(list)@.len() ==> (if heightened_like(
                    #[trigger] old(list)@[i],
                    *target,
                ) {
                    like_retexted(final(list)@[i], *target, text@)
                } else {
                    final(list)@[i] == old(list)@[i]
                })
        },
        !heightened_contains_like(old(list)@, *target) ==> {
            &&& final(list)@.len() == old(list)@.len() + 2
            &&& final(list)@.take(old(list)@.len() as int) == old(list)@
            &&& like_retexted(final(list)@[old(list)@.len() as int], *target, text@)
            &&& is_empty_draft(final(list)@.last())
        },
{
    let ghost s0 = list@;
    if contains_heightened_like(list, target) {
        let mut i: usize = 0;
        while i < list.len()
            invariant
                list@.len() == s0.len(),
                0 <= i <= s0.len(),
                forall|j: int| i <= j < s0.len() ==> #[trigger] list@[j] == s0[j],
                forall|j: int|
                    0 <= j < i ==> (if heightened_like(#[trigger] s0[j], *target) {
                        like_retexted(list@[j], *target, text@)
                    } else {
                        list@[j] == s0[j]
                    }),
            decreases list.len() - i,
        {
            if list[i].like(target) {
                let repl = heightened_retexted(target, text.clone());
                list.set(i, repl);
            }
            i += 1;
        }
    } else {
        let appended = heightened_retexted(target, text);
        list.push(appended);
        list.push(Heightened::Repeat(1, String::new()));
        proof {
            assert(list@.take(s0.len() as int) =~= s0);
        }
    }
}

/// Removes every entry that reads as `target`; the rest keep their order.
pub fn remove_heightened(list: &mut Vec<Heightened>, target: &Heightened)
    ensures
        final(list)@ == old(list)@.filter(not_like_fn(*target)),
{
    let ghost s0 = list@;
    let mut out: Vec<Heightened> = Vec::new();
    proof {
        assert(s0.take(0) =~= Seq::<Heightened>::empty());
        reveal(Seq::filter);
    }
    let mut i: usize = 0;
    while i < list.len()
        invariant
            list@ == s0,
            0 <= i <= s0.len(),
            out@ == s0.take(i as int).filter(not_like_fn(*target)),
        decreases list.len() - i,
    {
        if !list[i].like(target) {
            out.push(list[i].duplicate());
        }
        proof {
            reveal(Seq::filter);
            let pred = not_like_fn(*target);
            lemma_not_like(*target, s0[i as int]);
            assert(s0.take(i + 1).drop_last() =~= s0.take(i as int));
            assert(s0.take(i + 1).last() == s0[i as int]);
            assert(s0.take(i + 1).filter(pred) == if pred(s0[i as int]) {
                s0.take(i as int).filter(pred).push(s0[i as int])
            } else {
                s0.take(i as int).filter(pred)
            });
            assert(out@ == s0.take(i + 1).filter(pred));
        }
        i += 1;
    }
    proof {
        assert(s0.take(s0.len() as int) =~= s0);
    }
    *list = out;
}

/// One spell card: identity, cast time, category and level, trait tags,
/// overview facts, effect text, roll outcomes, and heightened effects.
#[derive(PartialEq, Eq, Clone, Debug)]
pub struct SpellCard {
    pub spell_name: String,
    pub cast_time: CastTime,
    pub spell_type: SpellType,
    pub spell_level: u8,
    pub link: String,
    pub traits: Vec<String>,
    pub overview: Vec<SpellOverview>,
    pub spell_effect: String,
    pub roll_effect: Vec<RollResult>,
    pub heightened: Vec<Heightened>,
}

/// Whether two cards agree on every field but the overview list.
pub open spec fn same_except_overview(a: SpellCard, b: SpellCard) -> bool {
    &&& a.spell_name == b.spell_name
    &&& a.cast_time == b.cast_time
    &&& a.spell_type == b.spell_type
    &&& a.spell_level == b.spell_level
    &&& a.link == b.link
    &&& a.traits == b.traits
    &&& a.spell_effect == b.spell_effect
    &&& a.roll_effect == b.roll_effect
    &&& a.heightened == b.heightened
}

/// Whether two cards agree on every field but the roll-outcome list.
pub open spec fn same_except_rolls(a: SpellCard, b: SpellCard) -> bool {
    &&& a.spell_name == b.spell_name
    &&& a.cast_time == b.cast_time
    &&& a.spell_type == b.spell_type
    &&& a.spell_level == b.spell_level
    &&& a.link == b.link
    &&& a.traits == b.traits
    &&& a.overview == b.overview
    &&& a.spell_effect == b.spell_effect
    &&& a.heightened == b.heightened
}

/// Whether two cards agree on every field but the heightened list.
pub open spec fn same_except_heightened(a: SpellCard, b: SpellCard) -> bool {
    &&& a.spell_name == b.spell_name
    &&& a.cast_time == b.cast_time
    &&& a.spell_type == b.spell_type
    &&& a.spell_level == b.spell_level
    &&& a.link == b.link
    &&& a.traits == b.traits
    &&& a.overview == b.overview
    &&& a.spell_effect == b.spell_effect
    &&& a.roll_effect == b.roll_effect
}

/// Whether two cards agree on every field but the trait tags.
pub open spec fn same_except_traits(a: SpellCard, b: SpellCard) -> bool {
    &&& a.spell_name == b.spell_name
    &&& a.cast_time == b.cast_time
    &&& a.spell_type == b.spell_type
    &&& a.spell_level == b.spell_level
    &&& a.link == b.link
    &&& a.overview == b.overview
    &&& a.spell_effect == b.spell_effect
    &&& a.roll_effect == b.roll_effect
    &&& a.heightened == b.heightened
}

/// Whether two cards agree on every field but the cast time.
pub open spec fn same_except_cast_time(a: SpellCard, b: SpellCard) -> bool {
    &&& a.spell_name == b.spell_name
    &&& a.spell_type == b.spell_type
    &&& a.spell_level == b.spell_level
    &&& a.link == b.link
    &&& a.traits == b.traits
    &&& a.overview == b.overview
    &&& a.spell_effect == b.spell_effect
    &&& a.roll_effect == b.roll_effect
    &&& a.heightened == b.heightened
}

/// The area entry the editor starts from when the size field changes: the
/// card's current area if it has one, else the given fallback shape.
pub open spec fn area_base(s: Seq<SpellOverview>, fallback: Area) -> Area {
    match find_kind(s, OverviewKind::Area) {
        Option::Some(SpellOverview::Area(a)) => a,
        _ => fallback,
    }
}

/// What the pieces of a raw trait-tag string are; the editor stores them
/// as the card's trait tags.
pub uninterp spec fn trait_split(s: Seq<char>) -> Seq<Seq<char>>;

/// Relies on regex::Regex::split with the pattern of runs of whitespace or
/// commas: the pieces of the input between such runs, in order, which
/// depend on the input characters alone.
#[verifier::external_body]
fn split_trait_list(input: &str) -> (r: Vec<String>)
    ensures
        r.deep_view() == trait_split(input@),
{
    let splitter = regex::Regex::new(r"[\s,]+").unwrap();
    splitter.split(input).map(|piece| piece.to_string()).collect()
}

impl SpellCard {
    /// Whether the card is well formed: its overview and roll-outcome
    /// lists each hold at most one entry per category, in sorted order.
    pub open spec fn wf(self) -> bool {
        wf_overview(self.overview@) && wf_rolls(self.roll_effect@)
    }

    /// The blank card the editor starts from.
    pub fn new() -> (r: SpellCard)
        ensures
            r.wf(),
            r.spell_name@.len() == 0,
            r.cast_time == CastTime::Single,
            r.spell_type == SpellType::Spell,
            r.spell_level == 1,
            r.link@.len() == 0,
            r.traits@.len() == 0,
            r.overview@.len() == 0,
            r.spell_effect@.len() == 0,
            r.roll_effect@.len() == 0,
            r.heightened@.len() == 0,
    {
        SpellCard {
            spell_name: String::new(),
            cast_time: CastTime::Single,
            spell_type: SpellType::Spell,
            spell_level: 1,
            link: String::new(),
            traits: Vec::new(),
            overview: Vec::new(),
            spell_effect: String::new(),
            roll_effect: Vec::new(),
            heightened: Vec::new(),
        }
    }

    /// Whether the card is well formed, checked at run time: each list's
    /// categories must be strictly increasing. Data read from outside (say,
    /// persisted storage) can be validated with this before editing.
    pub fn is_wf(&self) -> (r: bool)
        ensures
            r == self.wf(),
    {
        let ghost so = self.overview@;
        let n = self.overview.len();
        let mut i: usize = 0;
        while i + 1 < n
            invariant
                so == self.overview@,
                n == so.len(),
                i == 0 || i < n,
                forall|p: int|
                    0 <= p < i ==> overview_key_fn()(#[trigger] so[p]) < overview_key_fn()(
                        so[p + 1],
                    ),
            decreases n - i,
        {
            let a = self.overview[i].kind().index();
            let b = self.overview[i + 1].kind().index();
            proof {
                lemma_overview_key(so[i as int]);
                lemma_overview_key(so[i + 1]);
            }
            if a >= b {
                proof {
                    if sorted_by_key(so, overview_key_fn()) {
                        assert(overview_key_fn()(so[i as int]) < overview_key_fn()(so[i + 1]));
                    }
                }
                return false;
            }
            i += 1;
        }
        proof {
            assert forall|p: int|
                0 <= p < so.len() - 1 implies overview_key_fn()(#[trigger] so[p])
                < overview_key_fn()(so[p + 1]) by {}
            crate::keyed::lemma_sorted_from_adjacent(so, overview_key_fn());
        }
        let ghost sr = self.roll_effect@;
        let m = self.roll_effect.len();
        let mut j: usize = 0;
        while j + 1 < m
            invariant
                sr == self.roll_effect@,
                m == sr.len(),
                j == 0 || j < m,
                forall|p: int|
                    0 <= p < j ==> roll_key_fn()(#[trigger] sr[p]) < roll_key_fn()(sr[p + 1]),
            decreases m - j,
        {
            let a = self.roll_effect[j].degree().index();
            let b = self.roll_effect[j + 1].degree().index();
            proof {
                lemma_roll_key(sr[j as int]);
                lemma_roll_key(sr[j + 1]);
            }
            if a >= b {
                proof {
                    if sorted_by_key(sr, roll_key_fn()) {
                        assert(roll_key_fn()(sr[j as int]) < roll_key_fn()(sr[j + 1]));
                    }
                }
                return false;
            }
            j += 1;
        }
        proof {
            assert forall|p: int|
                0 <= p < sr.len() - 1 implies roll_key_fn()(#[trigger] sr[p]) < roll_key_fn()(
                sr[p + 1],
            ) by {}
            crate::keyed::lemma_sorted_from_adjacent(sr, roll_key_fn());
        }
        true
    }

    /// The card's overview entry of the given category, if any.
    pub fn get_overview_element(&self, kind: OverviewKind) -> (r: Option<SpellOverview>)
        ensures
            r == find_kind(self.overview@, kind),
    {
        let ghost s0 = self.overview@;
        let mut i: usize = 0;
        while i < self.overview.len()
            invariant
                s0 == self.overview@,
                0 <= i <= s0.len(),
                forall|j: int| 0 <= j < i ==> kind_of(#[trigger] s0[j]) != kind,
            decreases self.overview.len() - i,
        {
            if self.overview[i].kind() == kind {
                let found = self.overview[i].duplicate();
                proof {
                    let key = overview_key_fn();
                    assert forall|j: int| 0 <= j < i implies key(#[trigger] s0[j]) != key(
                        s0[i as int],
                    ) by {
                        lemma_overview_key(s0[j]);
                        lemma_overview_key(s0[i as int]);
                        lemma_kind_index_injective(kind_of(s0[j]), kind);
                    }
                    crate::keyed::lemma_find_first(s0, key, i as int);
                    lemma_overview_key(s0[i as int]);
                }
                return Some(found);
            }
            i += 1;
        }
        proof {
            let key = overview_key_fn();
            assert forall|j: int| 0 <= j < s0.len() implies key(#[trigger] s0[j]) != kind_index(
                kind,
            ) by {
                lemma_overview_key(s0[j]);
                lemma_kind_index_injective(kind_of(s0[j]), kind);
            }
            lemma_find_none(s0, key, kind_index(kind));
        }
        None
    }

    /// The effect text of the card's roll outcome of the given degree, if any.
    pub fn get_roll_effect(&self, degree: RollDegree) -> (r: Option<String>)
        ensures
            r is Some <==> find_degree(self.roll_effect@, degree) is Some,
            r is Some ==> r->0@ == roll_effect_text(find_degree(self.roll_effect@, degree)->0),
    {
        let ghost s0 = self.roll_effect@;
        let mut i: usize = 0;
        while i < self.roll_effect.len()
            invariant
                s0 == self.roll_effect@,
                0 <= i <= s0.len(),
                forall|j: int| 0 <= j < i ==> degree_of(#[trigger] s0[j]) != degree,
            decreases self.roll_effect.len() - i,
        {
            if self.roll_effect[i].degree() == degree {
                let eff = self.roll_effect[i].effect_text();
                proof {
                    let key = roll_key_fn();
                    assert forall|j: int| 0 <= j < i implies key(#[trigger] s0[j]) != key(
                        s0[i as int],
                    ) by {
                        lemma_roll_key(s0[j]);
                        lemma_roll_key(s0[i as int]);
                        lemma_degree_index_injective(degree_of(s0[j]), degree);
                    }
                    crate::keyed::lemma_find_first(s0, key, i as int);
                    lemma_roll_key(s0[i as int]);
                }
                return Some(eff);
            }
            i += 1;
        }
        proof {
            let key = roll_key_fn();
            assert forall|j: int| 0 <= j < s0.len() implies key(#[trigger] s0[j]) != degree_index(
                degree,
            ) by {
                lemma_roll_key(s0[j]);
                lemma_degree_index_injective(degree_of(s0[j]), degree);
            }
            lemma_find_none(s0, key, degree_index(degree));
        }
        None
    }

    /// Sets the card's range: a positive value replaces the range entry,
    /// zero removes it. Every other overview entry stays as it was.
    pub fn set_overview_range(&mut self, range_val: u8)
        requires
            old(self).wf(),
        ensures
            final(self).wf(),
            same_except_overview(*old(self), *final(self)),
            find_kind(final(self).overview@, OverviewKind::Range) == (if range_val > 0 {
                Option::Some(SpellOverview::Range(range_val))
            } else {
                Option::None::<SpellOverview>
            }),
            forall|k: OverviewKind|
                k != OverviewKind::Range ==> find_kind(final(self).overview@, k) == find_kind(
                    old(self).overview@,
                    k,
                ),
    {
        let repl = if range_val > 0 {
            Some(SpellOverview::Range(range_val))
        } else {
            None
        };
        set_overview_element(&mut self.overview, OverviewKind::Range, repl);
    }

    /// Replaces the card's area entry with the given area.
    pub fn set_overview_area_type(&mut self, area: Area)
        requires
            old(self).wf(),
        ensures
            final(self).wf(),
            same_except_overview(*old(self), *final(self)),
            find_kind(final(self).overview@, OverviewKind::Area) == Option::Some(
                SpellOverview::Area(area),
            ),
            forall|k: OverviewKind|
                k != OverviewKind::Area ==> find_kind(final(self).overview@, k) == find_kind(
                    old(self).overview@,
                    k,
                ),
    {
        set_overview_element(&mut self.overview, OverviewKind::Area, Some(SpellOverview::Area(area)));
    }

    /// Sets the primary size of the card's area, keeping its shape; where
    /// the card has no area entry, the fallback shape is used. A positive
    /// size replaces the entry, zero removes it.
    pub fn set_overview_area_value(&mut self, aoe_val: u8, fallback: Area)
        requires
            old(self).wf(),
        ensures
            final(self).wf(),
            same_except_overview(*old(self), *final(self)),
            find_kind(final(self).overview@, OverviewKind::Area) == (if aoe_val > 0 {
                Option::Some(
                    SpellOverview::Area(
                        area_with_primary(area_base(old(self).overview@, fallback), aoe_val),
                    ),
                )
            } else {
                Option::None::<SpellOverview>
            }),
            forall|k: OverviewKind|
                k != OverviewKind::Area ==> find_kind(final(self).overview@, k) == find_kind(
                    old(self).overview@,
                    k,
                ),
    {
        let base = match self.get_overview_element(OverviewKind::Area) {
            Some(SpellOverview::Area(a)) => a,
            _ => fallback,
        };
        let repl = if aoe_val > 0 {
            Some(SpellOverview::Area(base.with_primary(aoe_val)))
        } else {
            None
        };
        set_overview_element(&mut self.overview, OverviewKind::Area, repl);
    }

    /// Sets the width of the card's line-shaped area: a positive width is
    /// recorded, zero clears it. A card whose area is not a line, or that
    /// has no area entry, is left as it was.
    pub fn set_overview_line_width(&mut self, width: u8)
        requires
            old(self).wf(),
        ensures
            final(self).wf(),
            same_except_overview(*old(self), *final(self)),
            (match find_kind(old(self).overview@, OverviewKind::Area) {
                Option::Some(SpellOverview::Area(Area::Line(length, _))) => {
                    &&& find_kind(final(self).overview@, OverviewKind::Area) == Option::Some(
                        SpellOverview::Area(
                            Area::Line(
                                length,
                                if width > 0 {
                                    Option::Some(width)
                                } else {
                                    Option::None
                                },
                            ),
                        ),
                    )
                    &&& forall|k: OverviewKind|
                        k != OverviewKind::Area ==> find_kind(final(self).overview@, k)
                            == find_kind(old(self).overview@, k)
                },
                _ => final(self).overview@ == old(self).overview@,
            }),
    {
        match self.get_overview_element(OverviewKind::Area) {
            Some(SpellOverview::Area(Area::Line(length, _))) => {
                let second = if width > 0 {
                    Some(width)
                } else {
                    None
                };
                set_overview_element(
                    &mut self.overview,
                    OverviewKind::Area,
                    Some(SpellOverview::Area(Area::Line(length, second))),
                );
            },
            _ => (),
        }
    }

    /// Sets the card's target description: non-empty text replaces the
    /// targets entry, empty text removes it.
    pub fn set_overview_targets(&mut self, targets: String)
        requires
            old(self).wf(),
        ensures
            final(self).wf(),
            same_except_overview(*old(self), *final(self)),
            find_kind(final(self).overview@, OverviewKind::Targets) == (if targets@.len() > 0 {
                Option::Some(SpellOverview::Targets(targets))
            } else {
                Option::None::<SpellOverview>
            }),
            forall|k: OverviewKind|
                k != OverviewKind::Targets ==> find_kind(final(self).overview@, k) == find_kind(
                    old(self).overview@,
                    k,
                ),
    {
        let repl = if targets.as_str().is_empty() {
            None
        } else {
            Some(SpellOverview::Targets(targets))
        };
        set_overview_element(&mut self.overview, OverviewKind::Targets, repl);
    }

    /// Sets the card's defence: a defence replaces the entry, none removes it.
    pub fn set_overview_defence(&mut self, defence: Option<Defence>)
        requires
            old(self).wf(),
        ensures
            final(self).wf(),
            same_except_overview(*old(self), *final(self)),
            find_kind(final(self).overview@, OverviewKind::Defence) == (match defence {
                Option::Some(d) => Option::Some(SpellOverview::Defence(d)),
                Option::None => Option::None::<SpellOverview>,
            }),
            forall|k: OverviewKind|
                k != OverviewKind::Defence ==> find_kind(final(self).overview@, k) == find_kind(
                    old(self).overview@,
                    k,
                ),
    {
        let repl = match defence {
            Some(d) => Some(SpellOverview::Defence(d)),
            None => None,
        };
        set_overview_element(&mut self.overview, OverviewKind::Defence, repl);
    }

    /// Sets the card's duration text: non-empty text replaces the duration
    /// entry, empty text removes it.
    pub fn set_overview_duration(&mut self, duration: String)
        requires
            old(self).wf(),
        ensures
            final(self).wf(),
            same_except_overview(*old(self), *final(self)),
            find_kind(final(self).overview@, OverviewKind::Duration) == (if duration@.len() > 0 {
                Option::Some(SpellOverview::Duration(duration))
            } else {
                Option::None::<SpellOverview>
            }),
            forall|k: OverviewKind|
                k != OverviewKind::Duration ==> find_kind(final(self).overview@, k) == find_kind(
                    old(self).overview@,
                    k,
                ),
    {
        let repl = if duration.as_str().is_empty() {
            None
        } else {
            Some(SpellOverview::Duration(duration))
        };
        set_overview_element(&mut self.overview, OverviewKind::Duration, repl);
    }

    /// Sets the card's roll outcome of one degree: non-empty text replaces
    /// that degree's entry, empty text removes it. Every other degree's
    /// entry stays as it was.
    pub fn set_roll_effect(&mut self, degree: RollDegree, eff: String)
        requires
            old(self).wf(),
        ensures
            final(self).wf(),
            same_except_rolls(*old(self), *final(self)),
            eff@.len() == 0 ==> find_degree(final(self).roll_effect@, degree) is None,
            eff@.len() > 0 ==> ({
                let found = find_degree(final(self).roll_effect@, degree);
                &&& found is Some
                &&& degree_of(found->0) == degree
                &&& roll_effect_text(found->0) == eff@
            }),
            forall|d: RollDegree|
                d != degree ==> find_degree(final(self).roll_effect@, d) == find_degree(
                    old(self).roll_effect@,
                    d,
                ),
    {
        let repl = if eff.as_str().is_empty() {
            None
        } else {
            Some(RollResult::of_degree(degree, eff))
        };
        set_roll_element(&mut self.roll_effect, degree, repl);
    }

    /// Sets the lower bound of a spanned cast time; a card whose cast time
    /// is not a span is left as it was.
    pub fn set_cast_time_range_min(&mut self, v: u8)
        ensures
            same_except_cast_time(*old(self), *final(self)),
            (match old(self).cast_time {
                CastTime::Range(_, max) => final(self).cast_time == CastTime::Range(v, max),
                _ => final(self).cast_time == old(self).cast_time,
            }),
    {
        let repl = match &self.cast_time {
            CastTime::Range(_, max) => Some(CastTime::Range(v, *max)),
            _ => None,
        };
        if let Some(t) = repl {
            self.cast_time = t;
        }
    }

    /// Sets the upper bound of a spanned cast time; a card whose cast time
    /// is not a span is left as it was.
    pub fn set_cast_time_range_max(&mut self, v: u8)
        ensures
            same_except_cast_time(*old(self), *final(self)),
            (match old(self).cast_time {
                CastTime::Range(min, _) => final(self).cast_time == CastTime::Range(min, v),
                _ => final(self).cast_time == old(self).cast_time,
            }),
    {
        let repl = match &self.cast_time {
            CastTime::Range(min, _) => Some(CastTime::Range(*min, v)),
            _ => None,
        };
        if let Some(t) = repl {
            self.cast_time = t;
        }
    }

    /// Replaces the card's trait tags with the pieces of a raw tag string.
    pub fn set_traits(&mut self, raw: &str)
        ensures
            same_except_traits(*old(self), *final(self)),
            final(self).traits.deep_view() == trait_split(raw@),
    {
        self.traits = split_trait_list(raw);
    }

    /// The paragraphs of the card's effect text: the pieces of the text
    /// between newlines, in order.
    pub fn spell_effect_paragraphs(&self) -> (r: Vec<String>)
        ensures
            r.deep_view() == crate::text::split_on(self.spell_effect@, '\n'),
    {
        crate::text::split_str(self.spell_effect.as_str(), '\n')
    }

    /// The card's heightened list as the editor shows it: with a blank
    /// draft row appended unless the last entry is already a repeating
    /// entry with text.
    pub fn heightened_rows(&self) -> (r: Vec<Heightened>)
        ensures
            needs_draft(self.heightened@) ==> {
                &&& r@.len() == self.heightened@.len() + 1
                &&& r@.take(self.heightened@.len() as int) == self.heightened@
                &&& is_empty_draft(r@.last())
            },
            !needs_draft(self.heightened@) ==> r@ == self.heightened@,
    {
        let mut out: Vec<Heightened> = Vec::new();
        let n = self.heightened.len();
        let mut i: usize = 0;
        while i < n
            invariant
                0 <= i <= n,
                n == self.heightened@.len(),
                out@ == self.heightened@.take(i as int),
            decreases n - i,
        {
            out.push(self.heightened[i].duplicate());
            proof {
                assert(out@ =~= self.heightened@.take(i + 1));
            }
            i += 1;
        }
        proof {
            assert(self.heightened@.take(n as int) =~= self.heightened@);
        }
        let mut push_draft = true;
        if n > 0 {
            match &self.heightened[n - 1] {
                Heightened::Repeat(_, txt) => {
                    if !txt.as_str().is_empty() {
                        push_draft = false;
                    }
                },
                Heightened::Single(_, _) => (),
            }
        }
        if push_draft {
            out.push(Heightened::Repeat(1, String::new()));
            proof {
                assert(out@.take(self.heightened@.len() as int) =~= self.heightened@);
            }
        }
        out
    }
}

/// Whether the editor owes the heightened list a blank draft row: it does
/// unless the last entry is a repeating entry with non-empty text.
pub open spec fn needs_draft(s: Seq<Heightened>) -> bool {
    !(s.len() > 0 && heightened_is_repeat(s.last()) && heightened_effect_text(s.last()).len() > 0)
}

/// In a well-formed overview list no category appears twice.
pub proof fn lemma_overview_categories_unique(s: Seq<SpellOverview>, i: int, j: int)
    requires
        wf_overview(s),
        0 <= i < j < s.len(),
    ensures
        kind_of(s[i]) != kind_of(s[j]),
{
    lemma_overview_key(s[i]);
    lemma_overview_key(s[j]);
    lemma_kind_index_injective(kind_of(s[i]), kind_of(s[j]));
}

/// In a well-formed roll-outcome list no degree appears twice.
pub proof fn lemma_roll_degrees_unique(s: Seq<RollResult>, i: int, j: int)
    requires
        wf_rolls(s),
        0 <= i < j < s.len(),
    ensures
        degree_of(s[i]) != degree_of(s[j]),
{
    lemma_roll_key(s[i]);
    lemma_roll_key(s[j]);
    lemma_degree_index_injective(degree_of(s[i]), degree_of(s[j]));
}

/// A well-formed overview list is fully determined by which entry each
/// category holds: two such lists with the same entries are the same list.
pub proof fn lemma_overview_determined(s1: Seq<SpellOverview>, s2: Seq<SpellOverview>)
    requires
        wf_overview(s1),
        wf_overview(s2),
        forall|k: OverviewKind| find_kind(s1, k) == find_kind(s2, k),
    ensures
        s1 == s2,
{
    let key = overview_key_fn();
    assert forall|k: int| find_by_key(s1, key, k) == find_by_key(s2, key, k) by {
        if 0 <= k <= 4 {
            let kd = if k == 0 {
                OverviewKind::Range
            } else if k == 1 {
                OverviewKind::Area
            } else if k == 2 {
                OverviewKind::Targets
            } else if k == 3 {
                OverviewKind::Defence
            } else {
                OverviewKind::Duration
            };
            assert(kind_index(kd) == k);
            assert(find_kind(s1, kd) == find_kind(s2, kd));
        } else {
            assert forall|j: int| 0 <= j < s1.len() implies key(#[trigger] s1[j]) != k by {
                lemma_overview_key(s1[j]);
            }
            assert forall|j: int| 0 <= j < s2.len() implies key(#[trigger] s2[j]) != k by {
                lemma_overview_key(s2[j]);
            }
            lemma_find_none(s1, key, k);
            lemma_find_none(s2, key, k);
        }
    }
    crate::keyed::lemma_sorted_same_find_equal(s1, s2, key);
}

/// A well-formed roll-outcome list is fully determined by which entry each
/// degree holds: two such lists with the same entries are the same list.
pub proof fn lemma_rolls_determined(s1: Seq<RollResult>, s2: Seq<RollResult>)
    requires
        wf_rolls(s1),
        wf_rolls(s2),
        forall|d: RollDegree| find_degree(s1, d) == find_degree(s2, d),
    ensures
        s1 == s2,
{
    let key = roll_key_fn();
    assert forall|k: int| find_by_key(s1, key, k) == find_by_key(s2, key, k) by {
        if 0 <= k <= 3 {
            let kd = if k == 0 {
                RollDegree::CriticalSuccess
            } else if k == 1 {
                RollDegree::Success
            } else if k == 2 {
                RollDegree::Failure
            } else {
                RollDegree::CriticalFailure
            };
            assert(degree_index(kd) == k);
            assert(find_degree(s1, kd) == find_degree(s2, kd));
        } else {
            assert forall|j: int| 0 <= j < s1.len() implies key(#[trigger] s1[j]) != k by {
                lemma_roll_key(s1[j]);
            }
            assert forall|j: int| 0 <= j < s2.len() implies key(#[trigger] s2[j]) != k by {
                lemma_roll_key(s2[j]);
            }
            lemma_find_none(s1, key, k);
            lemma_find_none(s2, key, k);
        }
    }
    crate::keyed::lemma_sorted_same_find_equal(s1, s2, key);
}

/// What a single trait tag is rendered as.
#[derive(PartialEq, Eq, Clone, Debug)]
pub struct SpellTraitProps {
    pub value: String,
}

/// What a card's header is rendered from: name, cast time and link on the
/// left, spell type and level on the right.
#[derive(PartialEq, Eq, Clone, Debug)]
pub struct SpellHeaderProps {
    pub spell_name: String,
    pub cast_time: CastTime,
    pub link: String,
    pub spell_type: SpellType,
    pub spell_level: u8,
}

} // verus!
