use spellbook::spell_card::remove_heightened;
use spellbook::spell_card::remove_overview_element;
use spellbook::spell_card::update_heightened_text;
use spellbook::Area;
use spellbook::CastTime;
use spellbook::Defence;
use spellbook::Heightened;
use spellbook::OverviewKind;
use spellbook::RollDegree;
use spellbook::RollResult;
use spellbook::SpellBookProps;
use spellbook::SpellCard;
use spellbook::SpellOverview;
use spellbook::SpellType;

#[test]
fn new_card_defaults() {
    let card = SpellCard::new();
    assert_eq!(card.spell_name, "");
    assert_eq!(card.cast_time, CastTime::Single);
    assert_eq!(card.spell_type, SpellType::Spell);
    assert_eq!(card.spell_level, 1);
    assert_eq!(card.link, "");
    assert!(card.traits.is_empty());
    assert!(card.overview.is_empty());
    assert_eq!(card.spell_effect, "");
    assert!(card.roll_effect.is_empty());
    assert!(card.heightened.is_empty());
}

#[test]
fn overview_entries_stay_sorted_by_category() {
    let mut card = SpellCard::new();
    card.set_overview_duration("1 minute".to_string());
    card.set_overview_defence(Some(Defence::Reflex));
    card.set_overview_targets("1 creature".to_string());
    card.set_overview_area_type(Area::Burst(5));
    card.set_overview_range(30);
    assert_eq!(
        card.overview,
        vec![
            SpellOverview::Range(30),
            SpellOverview::Area(Area::Burst(5)),
            SpellOverview::Targets("1 creature".to_string()),
            SpellOverview::Defence(Defence::Reflex),
            SpellOverview::Duration("1 minute".to_string()),
        ]
    );
}

#[test]
fn setting_a_category_replaces_its_entry() {
    let mut card = SpellCard::new();
    card.set_overview_range(30);
    card.set_overview_range(50);
    assert_eq!(card.overview, vec![SpellOverview::Range(50)]);
}

#[test]
fn zero_range_removes_the_entry() {
    let mut card = SpellCard::new();
    card.set_overview_range(30);
    card.set_overview_targets("1 creature".to_string());
    card.set_overview_range(0);
    assert_eq!(
        card.overview,
        vec![SpellOverview::Targets("1 creature".to_string())]
    );
}

#[test]
fn empty_targets_and_duration_remove_their_entries() {
    let mut card = SpellCard::new();
    card.set_overview_targets("1 creature".to_string());
    card.set_overview_duration("1 minute".to_string());
    card.set_overview_targets(String::new());
    card.set_overview_duration(String::new());
    assert!(card.overview.is_empty());
}

#[test]
fn defence_none_removes_the_entry() {
    let mut card = SpellCard::new();
    card.set_overview_defence(Some(Defence::Will));
    assert_eq!(card.overview, vec![SpellOverview::Defence(Defence::Will)]);
    card.set_overview_defence(None);
    assert!(card.overview.is_empty());
}

#[test]
fn area_value_keeps_the_shape() {
    let mut card = SpellCard::new();
    card.set_overview_area_type(Area::Cone(15));
    card.set_overview_area_value(30, Area::Burst(0));
    assert_eq!(card.overview, vec![SpellOverview::Area(Area::Cone(30))]);
}

#[test]
fn area_value_uses_fallback_shape_without_an_entry() {
    let mut card = SpellCard::new();
    card.set_overview_area_value(20, Area::Emanation(0));
    assert_eq!(card.overview, vec![SpellOverview::Area(Area::Emanation(20))]);
}

#[test]
fn zero_area_value_removes_the_entry() {
    let mut card = SpellCard::new();
    card.set_overview_area_type(Area::Burst(5));
    card.set_overview_area_value(0, Area::Burst(0));
    assert!(card.overview.is_empty());
}

#[test]
fn line_width_set_and_cleared() {
    let mut card = SpellCard::new();
    card.set_overview_area_type(Area::Line(60, None));
    card.set_overview_line_width(10);
    assert_eq!(
        card.overview,
        vec![SpellOverview::Area(Area::Line(60, Some(10)))]
    );
    card.set_overview_line_width(0);
    assert_eq!(card.overview, vec![SpellOverview::Area(Area::Line(60, None))]);
}

#[test]
fn line_width_leaves_other_shapes_alone() {
    let mut card = SpellCard::new();
    card.set_overview_area_type(Area::Burst(15));
    card.set_overview_line_width(10);
    assert_eq!(card.overview, vec![SpellOverview::Area(Area::Burst(15))]);
}

#[test]
fn get_overview_element_finds_by_category() {
    let mut card = SpellCard::new();
    card.set_overview_range(30);
    card.set_overview_defence(Some(Defence::Fortitude));
    assert_eq!(
        card.get_overview_element(OverviewKind::Range),
        Some(SpellOverview::Range(30))
    );
    assert_eq!(
        card.get_overview_element(OverviewKind::Defence),
        Some(SpellOverview::Defence(Defence::Fortitude))
    );
    assert_eq!(card.get_overview_element(OverviewKind::Duration), None);
}

#[test]
fn remove_overview_element_by_category() {
    let mut card = SpellCard::new();
    card.set_overview_range(30);
    card.set_overview_targets("1 creature".to_string());
    remove_overview_element(&mut card.overview, OverviewKind::Range);
    assert_eq!(
        card.overview,
        vec![SpellOverview::Targets("1 creature".to_string())]
    );
    remove_overview_element(&mut card.overview, OverviewKind::Range);
    assert_eq!(
        card.overview,
        vec![SpellOverview::Targets("1 creature".to_string())]
    );
}

#[test]
fn roll_effects_stay_sorted_by_degree() {
    let mut card = SpellCard::new();
    card.set_roll_effect(RollDegree::CriticalFailure, "double damage".to_string());
    card.set_roll_effect(RollDegree::CriticalSuccess, "unaffected".to_string());
    card.set_roll_effect(RollDegree::Success, "half damage".to_string());
    assert_eq!(
        card.roll_effect,
        vec![
            RollResult::CriticalSuccess("unaffected".to_string()),
            RollResult::Success("half damage".to_string()),
            RollResult::CriticalFailure("double damage".to_string()),
        ]
    );
}

#[test]
fn empty_roll_effect_removes_the_entry() {
    let mut card = SpellCard::new();
    card.set_roll_effect(RollDegree::Failure, "full damage".to_string());
    card.set_roll_effect(RollDegree::Failure, String::new());
    assert!(card.roll_effect.is_empty());
}

#[test]
fn get_roll_effect_finds_by_degree() {
    let mut card = SpellCard::new();
    card.set_roll_effect(RollDegree::Success, "half damage".to_string());
    assert_eq!(
        card.get_roll_effect(RollDegree::Success),
        Some("half damage".to_string())
    );
    assert_eq!(card.get_roll_effect(RollDegree::Failure), None);
}

#[test]
fn cast_time_span_bounds() {
    let mut card = SpellCard::new();
    card.cast_time = CastTime::Range(1, 3);
    card.set_cast_time_range_min(2);
    assert_eq!(card.cast_time, CastTime::Range(2, 3));
    card.set_cast_time_range_max(2);
    assert_eq!(card.cast_time, CastTime::Range(2, 2));
}

#[test]
fn cast_time_span_setters_leave_other_cast_times_alone() {
    let mut card = SpellCard::new();
    card.cast_time = CastTime::Reaction;
    card.set_cast_time_range_min(2);
    assert_eq!(card.cast_time, CastTime::Reaction);
}

#[test]
fn traits_split_on_commas_and_whitespace() {
    let mut card = SpellCard::new();
    card.set_traits("Fire, AoE");
    assert_eq!(card.traits, vec!["Fire".to_string(), "AoE".to_string()]);
    card.set_traits("Lightning");
    assert_eq!(card.traits, vec!["Lightning".to_string()]);
    card.set_traits("one two\nthree");
    assert_eq!(
        card.traits,
        vec!["one".to_string(), "two".to_string(), "three".to_string()]
    );
}

#[test]
fn effect_paragraphs_split_on_newlines() {
    let mut card = SpellCard::new();
    card.spell_effect = "Cast a fireball\nAvoid your friends".to_string();
    assert_eq!(
        card.spell_effect_paragraphs(),
        vec!["Cast a fireball".to_string(), "Avoid your friends".to_string()]
    );
}

#[test]
fn updating_missing_heightened_appends_entry_and_draft() {
    let mut card = SpellCard::new();
    let target = Heightened::Repeat(1, String::new());
    update_heightened_text(&mut card.heightened, &target, "extra die".to_string());
    assert_eq!(
        card.heightened,
        vec![
            Heightened::Repeat(1, "extra die".to_string()),
            Heightened::Repeat(1, String::new()),
        ]
    );
}

#[test]
fn updating_present_heightened_rewrites_its_text() {
    let mut card = SpellCard::new();
    card.heightened = vec![
        Heightened::Repeat(2, "old text".to_string()),
        Heightened::Single(5, "kept".to_string()),
    ];
    let target = Heightened::Repeat(2, "old text".to_string());
    update_heightened_text(&mut card.heightened, &target, "new text".to_string());
    assert_eq!(
        card.heightened,
        vec![
            Heightened::Repeat(2, "new text".to_string()),
            Heightened::Single(5, "kept".to_string()),
        ]
    );
}

#[test]
fn removing_heightened_filters_matching_entries() {
    let mut card = SpellCard::new();
    card.heightened = vec![
        Heightened::Repeat(2, "a".to_string()),
        Heightened::Single(5, "b".to_string()),
        Heightened::Repeat(2, "a".to_string()),
    ];
    let target = Heightened::Repeat(2, "a".to_string());
    remove_heightened(&mut card.heightened, &target);
    assert_eq!(card.heightened, vec![Heightened::Single(5, "b".to_string())]);
}

#[test]
fn heightened_rows_appends_a_draft_when_needed() {
    let mut card = SpellCard::new();
    assert_eq!(card.heightened_rows(), vec![Heightened::Repeat(1, String::new())]);

    card.heightened = vec![Heightened::Repeat(2, "extra die".to_string())];
    assert_eq!(
        card.heightened_rows(),
        vec![Heightened::Repeat(2, "extra die".to_string())]
    );

    card.heightened = vec![Heightened::Single(5, "once".to_string())];
    assert_eq!(
        card.heightened_rows(),
        vec![
            Heightened::Single(5, "once".to_string()),
            Heightened::Repeat(1, String::new()),
        ]
    );

    card.heightened = vec![Heightened::Repeat(2, String::new())];
    assert_eq!(
        card.heightened_rows(),
        vec![
            Heightened::Repeat(2, String::new()),
            Heightened::Repeat(1, String::new()),
        ]
    );
}

#[test]
fn well_formedness_check() {
    let mut card = SpellCard::new();
    assert!(card.is_wf());
    card.set_overview_range(30);
    card.set_overview_defence(Some(Defence::Will));
    card.set_roll_effect(RollDegree::Success, "half damage".to_string());
    assert!(card.is_wf());

    let mut scrambled = SpellCard::new();
    scrambled.overview = vec![
        SpellOverview::Defence(Defence::Will),
        SpellOverview::Range(30),
    ];
    assert!(!scrambled.is_wf());

    let mut doubled = SpellCard::new();
    doubled.overview = vec![SpellOverview::Range(30), SpellOverview::Range(50)];
    assert!(!doubled.is_wf());

    let mut bad_rolls = SpellCard::new();
    bad_rolls.roll_effect = vec![
        RollResult::Failure("a".to_string()),
        RollResult::Success("b".to_string()),
    ];
    assert!(!bad_rolls.is_wf());
}

#[test]
fn spell_book_starts_empty() {
    let book = SpellBookProps::new();
    assert!(book.spells.is_empty());
}
