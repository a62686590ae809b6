use spellbook::parse_u8;
use spellbook::split_str;
use spellbook::u8_to_string;
use spellbook::Area;
use spellbook::CastTime;
use spellbook::Defence;
use spellbook::Heightened;
use spellbook::RollDegree;
use spellbook::RollResult;
use spellbook::SpellOverview;
use spellbook::SpellType;

#[test]
fn decimal_rendering() {
    assert_eq!(u8_to_string(0), "0");
    assert_eq!(u8_to_string(7), "7");
    assert_eq!(u8_to_string(30), "30");
    assert_eq!(u8_to_string(100), "100");
    assert_eq!(u8_to_string(255), "255");
}

#[test]
fn decimal_parsing() {
    assert_eq!(parse_u8("0"), Some(0));
    assert_eq!(parse_u8("30"), Some(30));
    assert_eq!(parse_u8("255"), Some(255));
    assert_eq!(parse_u8("256"), None);
    assert_eq!(parse_u8("999"), None);
    assert_eq!(parse_u8(""), None);
    assert_eq!(parse_u8("12a"), None);
    assert_eq!(parse_u8("-3"), None);
}

#[test]
fn decimal_round_trip() {
    for n in [0u8, 1, 9, 10, 42, 99, 100, 199, 255] {
        assert_eq!(parse_u8(&u8_to_string(n)), Some(n));
    }
}

#[test]
fn splitting_on_newlines() {
    assert_eq!(split_str("a\nb", '\n'), vec!["a", "b"]);
    assert_eq!(split_str("one line", '\n'), vec!["one line"]);
    assert_eq!(split_str("", '\n'), vec![""]);
    assert_eq!(split_str("a\n\nb", '\n'), vec!["a", "", "b"]);
    assert_eq!(split_str("trailing\n", '\n'), vec!["trailing", ""]);
}

#[test]
fn cast_time_text() {
    assert_eq!(CastTime::Free.to_text(), "F");
    assert_eq!(CastTime::Reaction.to_text(), "R");
    assert_eq!(CastTime::Single.to_text(), "A");
    assert_eq!(CastTime::Double.to_text(), "D");
    assert_eq!(CastTime::Triple.to_text(), "T");
    assert_eq!(CastTime::Range(1, 3).to_text(), "1-3");
    assert_eq!(CastTime::Longer("10 min".to_string()).to_text(), "10 min");
}

#[test]
fn spell_type_text() {
    assert_eq!(SpellType::Cantrip.to_text(), "Cantrip");
    assert_eq!(SpellType::Focus.to_text(), "Focus");
    assert_eq!(SpellType::Spell.to_text(), "Spell");
    assert_eq!(SpellType::Innate.to_text(), "Innate");
    assert_eq!(SpellType::Ritual.to_text(), "Ritual");
}

#[test]
fn area_text() {
    assert_eq!(Area::Burst(15).to_text(), "15ft burst");
    assert_eq!(Area::Cone(30).to_text(), "30ft cone");
    assert_eq!(Area::Emanation(5).to_text(), "5ft emanation");
    assert_eq!(Area::Line(60, None).to_text(), "60ft line");
    assert_eq!(
        Area::Line(60, Some(10)).to_text(),
        "60ft long and 10ft wide line"
    );
}

#[test]
fn area_values() {
    assert_eq!(Area::Burst(15).get_aoe_val(), (15, None));
    assert_eq!(Area::Line(60, Some(10)).get_aoe_val(), (60, Some(10)));
    assert_eq!(Area::Cone(15).with_primary(30), Area::Cone(30));
    assert_eq!(
        Area::Line(60, Some(10)).with_primary(20),
        Area::Line(20, Some(10))
    );
}

#[test]
fn defence_text() {
    assert_eq!(Defence::ArmourClass.to_text(), "AC");
    assert_eq!(Defence::Fortitude.to_text(), "Fortitude");
    assert_eq!(Defence::Reflex.to_text(), "Reflex");
    assert_eq!(Defence::Will.to_text(), "Will");
}

#[test]
fn overview_labels_and_values() {
    assert_eq!(SpellOverview::Range(30).label(), "Range");
    assert_eq!(SpellOverview::Range(30).value_text(), "30ft");
    assert_eq!(SpellOverview::Area(Area::Burst(15)).label(), "Area");
    assert_eq!(
        SpellOverview::Area(Area::Burst(15)).value_text(),
        "15ft burst"
    );
    assert_eq!(
        SpellOverview::Targets("1 or 2 creatures".to_string()).label(),
        "Targets"
    );
    assert_eq!(
        SpellOverview::Targets("1 or 2 creatures".to_string()).value_text(),
        "1 or 2 creatures"
    );
    assert_eq!(SpellOverview::Defence(Defence::Will).label(), "Defence");
    assert_eq!(SpellOverview::Defence(Defence::Will).value_text(), "Will");
    assert_eq!(
        SpellOverview::Duration("1 minute".to_string()).label(),
        "Duration"
    );
    assert_eq!(
        SpellOverview::Duration("1 minute".to_string()).value_text(),
        "1 minute"
    );
}

#[test]
fn roll_result_text() {
    let crit = RollResult::CriticalSuccess("unaffected".to_string());
    assert_eq!(crit.label(), "Critical Success");
    assert_eq!(crit.effect_text(), "unaffected");
    assert_eq!(
        RollResult::Success("half damage".to_string()).label(),
        "Success"
    );
    assert_eq!(
        RollResult::Failure("full damage".to_string()).label(),
        "Failure"
    );
    assert_eq!(
        RollResult::CriticalFailure("double damage".to_string()).label(),
        "Critical Failure"
    );
    let built = RollResult::of_degree(RollDegree::Failure, "full damage".to_string());
    assert_eq!(built, RollResult::Failure("full damage".to_string()));
}

#[test]
fn heightened_labels() {
    assert_eq!(
        Heightened::Repeat(2, "more damage".to_string()).label(),
        "Heightened (+2)"
    );
    assert_eq!(Heightened::Single(1, String::new()).label(), "Heightened (1st)");
    assert_eq!(Heightened::Single(2, String::new()).label(), "Heightened (2nd)");
    assert_eq!(Heightened::Single(3, String::new()).label(), "Heightened (3rd)");
    assert_eq!(Heightened::Single(5, String::new()).label(), "Heightened (5th)");
    assert_eq!(Heightened::Single(21, String::new()).label(), "Heightened (21th)");
    assert_eq!(
        Heightened::Repeat(1, "extra die".to_string()).effect_text(),
        "extra die"
    );
}
