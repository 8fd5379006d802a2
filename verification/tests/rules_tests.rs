use car_regulations::number::Decimal;
use car_regulations::regulations::chassis::Chassis;
use car_regulations::regulations::drivetrain::Drivetrain;
use car_regulations::regulations::engine::Engine;
use car_regulations::regulations::others::{Others, ReqPart};
use car_regulations::regulations::stats::{
    blank_verdicts, failed, find, merge, reduce, Rules, Stats, Verdict,
};
use car_regulations::regulations::wheels::Wheels;
use car_regulations::regulations::{
    count_matches, name_matches, CheckError, Matching, Regulations,
};
use car_regulations::specs::{Car, RawCar, RawField};

fn dec(text: &str) -> Decimal {
    Decimal::parse(text).unwrap()
}

fn texts(items: &[&str]) -> Vec<String> {
    items.iter().map(|s| String::from(*s)).collect()
}

fn raw_of(columns: &[(&str, &str)]) -> RawCar {
    RawCar {
        fields: columns
            .iter()
            .map(|(name, value)| RawField {
                name: String::from(*name),
                value: String::from(*value),
            })
            .collect(),
    }
}

fn car() -> Car {
    Car {
        car_name: String::from("Test Car"),
        model_name: String::from("Test Model"),
        model_year: 1995,
        wheelbase: 2,
        drivability_rating: dec("45.3"),
        sportiness_rating: dec("12"),
        reliability_rating: dec("60"),
        safety_rating: dec("33"),
        practicality_rating: dec("50"),
        comfort_rating: dec("20"),
        prestige_rating: dec("10"),
        offroad_rating: dec("5"),
        cost: dec("12000"),
        service_cost: dec("800"),
        fuel_economy: dec("8"),
        engine_year: 1994,
        cylinder_count: 6,
        aspiration: String::from("Naturally Aspirated"),
        octane: dec("95"),
        fuel_type: String::from("Premium"),
        displacement: 2998,
        stroke: dec("86.5"),
        bore: dec("84"),
        intake_valves: 2,
        exhaust_valves: 2,
        compression: dec("9.5"),
        rpm: 7000,
        catalytic_converter: String::from("Three Way"),
        intake_type: String::from("Standard Intake"),
        headers: String::from("Cast"),
        wheels_front_width: 205,
        wheels_front_profile: 55,
        wheels_front_rim: 16,
        wheels_front_diameter: 630,
        wheels_rear_width: 205,
        wheels_rear_profile: 55,
        wheels_rear_rim: 16,
        wheels_rear_diameter: 630,
        wheels_compound: String::from("Medium"),
        wheels_rim_material: String::from("Alloy"),
        chassis_type: String::from("Monocoque"),
        chassis_material: String::from("Steel"),
        panel_material: String::from("Aluminium"),
        front_suspension: String::from("MacPherson"),
        rear_suspension: String::from("Multilink"),
        engine_placement: String::from("Front"),
        engine_orientation: String::from("Longitudinal"),
        drivetrain_type: String::from("Rear Wheel Drive"),
        model_body_quality: dec("0"),
        model_chassis_quality: dec("0"),
        model_body_techpool: dec("0"),
        raw: raw_of(&[("Car Name", "Test Car"), ("Trim Brake Quality", "3")]),
    }
}

fn no_stats() -> Stats {
    Stats {
        model_min_year: None,
        model_max_year: None,
        drivability: None,
        sportiness: None,
        reliability: None,
        safety: None,
        practicality: None,
        comfort: None,
        prestige: None,
        offroad: None,
        cost: None,
        service_cost: None,
        fuel_economy: None,
    }
}

fn no_engine() -> Engine {
    Engine {
        min_year: None,
        max_year: None,
        max_cylinders: None,
        turbo_max_cylinders: None,
        octane: None,
        fuel_type: None,
        max_displacement: None,
        max_stroke: None,
        max_bore: None,
        max_intake_valves: None,
        max_exhaust_valves: None,
        max_total_valves: None,
        max_compression: None,
        max_rpm: None,
        catalytic_converter_banned: None,
        intake_banned: None,
        headers_banned: None,
    }
}

fn no_wheels() -> Wheels {
    Wheels {
        must_match: None,
        front_max_width: None,
        front_max_profile: None,
        front_max_rim: None,
        front_wheel_diameter: None,
        rear_max_width: None,
        rear_max_profile: None,
        rear_max_rim: None,
        rear_wheel_diameter: None,
        banned_compounds: None,
        banned_rim_materials: None,
    }
}

fn no_others() -> Others {
    Others { required_parts: None, banned_parts: None, min_quality: None, max_quality: None }
}

fn no_regulations() -> Regulations {
    Regulations {
        stats: None,
        rules: None,
        engine: None,
        wheels: None,
        chassis: None,
        drivetrain: None,
        other: None,
    }
}

fn or_rules(groups: &[&[&str]]) -> Option<Rules> {
    Some(Rules { or: Some(groups.iter().map(|g| texts(g)).collect()) })
}

fn reasons(r: Result<(), CheckError>) -> Vec<String> {
    match r {
        Ok(()) => Vec::new(),
        Err(CheckError::ErrStats(v))
        | Err(CheckError::ErrEngine(v))
        | Err(CheckError::ErrWheels(v))
        | Err(CheckError::ErrChassis(v))
        | Err(CheckError::ErrDrivetrain(v))
        | Err(CheckError::ErrOthers(v)) => v,
        Err(other) => panic!("not the failure of a category: {:?}", other),
    }
}

fn sorted(mut v: Vec<String>) -> Vec<String> {
    v.sort();
    v
}

// The rulebook as a whole

#[test]
fn empty_rulebook_accepts_every_record() {
    let rulebook = no_regulations();
    assert!(rulebook.check_car(&car()).is_ok());
    let mut odd = car();
    odd.cylinder_count = 16;
    odd.aspiration = String::from("Turbocharged");
    odd.raw = raw_of(&[("Trim Brake Quality", "abc")]);
    assert!(rulebook.check_car(&odd).is_ok());
    assert!(rulebook.validate().is_ok());
}

#[test]
fn rulebook_with_empty_categories_accepts_a_sound_record() {
    let rulebook = Regulations {
        stats: Some(no_stats()),
        rules: Some(Rules { or: None }),
        engine: Some(no_engine()),
        wheels: Some(no_wheels()),
        chassis: Some(Chassis { banned_materials: None }),
        drivetrain: Some(Drivetrain { banned_types: None }),
        other: Some(no_others()),
    };
    assert!(rulebook.check_car(&car()).is_ok());
}

#[test]
fn every_failing_category_is_reported() {
    let mut rulebook = no_regulations();
    rulebook.stats = Some(Stats { comfort: Some(dec("30")), ..no_stats() });
    rulebook.engine = Some(Engine { max_cylinders: Some(4), ..no_engine() });
    rulebook.wheels = Some(no_wheels());
    rulebook.chassis = Some(Chassis { banned_materials: Some(texts(&["Steel"])) });
    rulebook.drivetrain = Some(Drivetrain { banned_types: Some(texts(&["front"])) });
    rulebook.other = Some(Others { banned_parts: Some(texts(&["Test Car"])), ..no_others() });
    match rulebook.check_car(&car()) {
        Err(CheckError::Regulations(list)) => {
            assert_eq!(list.len(), 4);
            assert!(matches!(&list[0], CheckError::ErrStats(v) if *v == texts(&["comfort"])));
            assert!(
                matches!(&list[1], CheckError::ErrEngine(v) if *v == texts(&["cylinder count 6"]))
            );
            assert!(matches!(
                &list[2],
                CheckError::ErrChassis(v) if *v == texts(&["banned chassis material Steel"])
            ));
            assert!(
                matches!(&list[3], CheckError::ErrOthers(v) if *v == texts(&["banned part Test Car"]))
            );
        },
        other => panic!("unexpected result: {:?}", other),
    }
}

#[test]
fn checking_twice_reports_the_same() {
    let mut rulebook = no_regulations();
    rulebook.stats = Some(Stats { comfort: Some(dec("30")), cost: Some(dec("100")), ..no_stats() });
    rulebook.engine = Some(Engine { max_rpm: Some(6000), ..no_engine() });
    rulebook.other = Some(Others {
        required_parts: Some(vec![ReqPart::Part(String::from("Roll Cage"))]),
        ..no_others()
    });
    let c = car();
    let first = format!("{:?}", rulebook.check_car(&c));
    let second = format!("{:?}", rulebook.check_car(&c));
    assert_eq!(first, second);
    assert_eq!(
        first,
        "Err(Regulations([ErrStats([\"comfort\", \"cost\"]), ErrEngine([\"max rpm 7000\"]), \
         ErrOthers([\"parts missing [Part(\\\"Roll Cage\\\")]\"])]))"
    );
}

#[test]
fn faulty_rulebook_is_reported_alone() {
    let mut rulebook = no_regulations();
    rulebook.stats = Some(no_stats());
    rulebook.rules = or_rules(&[&["comfort", "safety"], &["comfort", "cost"]]);
    rulebook.engine = Some(Engine { max_cylinders: Some(4), ..no_engine() });
    assert!(matches!(rulebook.validate(), Err(CheckError::ErrRules(1))));
    assert!(matches!(rulebook.check_car(&car()), Err(CheckError::ErrRules(1))));
}

#[test]
fn groups_are_not_consulted_without_statistics() {
    let mut rulebook = no_regulations();
    rulebook.rules = or_rules(&[&["no such key"]]);
    assert!(rulebook.validate().is_ok());
    assert!(rulebook.check_car(&car()).is_ok());
}

#[test]
fn validate_accepts_groups_that_can_be_applied() {
    let mut rulebook = no_regulations();
    rulebook.stats = Some(no_stats());
    rulebook.rules = or_rules(&[&["comfort", "safety"], &["comfort|safety", "cost"]]);
    assert!(rulebook.validate().is_ok());
    rulebook.rules = or_rules(&[]);
    assert!(rulebook.validate().is_ok());
    rulebook.rules = or_rules(&[&[]]);
    assert!(matches!(rulebook.validate(), Err(CheckError::ErrRules(0))));
    rulebook.rules = or_rules(&[&["service_cost"], &["serive_cost"]]);
    assert!(matches!(rulebook.validate(), Err(CheckError::ErrRules(1))));
}

// Statistics and OR-groups

#[test]
fn statistics_report_each_failed_key() {
    let stats = Stats {
        model_min_year: Some(1996),
        model_max_year: Some(1990),
        drivability: Some(dec("45.301")),
        sportiness: Some(dec("12")),
        reliability: Some(dec("61")),
        safety: Some(dec("34")),
        practicality: Some(dec("51")),
        comfort: Some(dec("21")),
        prestige: Some(dec("11")),
        offroad: Some(dec("6")),
        cost: Some(dec("11999.999")),
        service_cost: Some(dec("799")),
        fuel_economy: Some(dec("7.5")),
    };
    assert_eq!(
        reasons(stats.check_car(&car(), &None)),
        texts(&[
            "model_min_year",
            "model_max_year",
            "drivability",
            "reliability",
            "safety",
            "practicality",
            "comfort",
            "prestige",
            "offroad",
            "cost",
            "service_cost",
            "fuel_economy",
        ])
    );
}

#[test]
fn a_rating_just_below_its_floor_fails() {
    let mut c = car();
    c.drivability_rating = dec("4.9996");
    c.cost = dec("5.0000000004");
    let stats = Stats { drivability: Some(dec("5")), cost: Some(dec("5")), ..no_stats() };
    assert_eq!(reasons(stats.check_car(&c, &None)), texts(&["drivability", "cost"]));
    c.drivability_rating = dec("5.0000001");
    c.cost = dec("4.99999999");
    assert!(stats.check_car(&c, &None).is_ok());
}

#[test]
fn statistics_bounds_are_inclusive() {
    let stats = Stats {
        model_min_year: Some(1995),
        model_max_year: Some(1995),
        drivability: Some(dec("45.3")),
        cost: Some(dec("12000")),
        ..no_stats()
    };
    assert!(stats.check_car(&car(), &None).is_ok());
    assert!(no_stats().check_car(&car(), &None).is_ok());
}

#[test]
fn or_group_passes_if_either_member_passes() {
    let mut c = car();
    c.drivability_rating = dec("4");
    c.comfort_rating = dec("6");
    let stats = Stats { drivability: Some(dec("5")), comfort: Some(dec("3")), ..no_stats() };
    assert_eq!(reasons(stats.check_car(&c, &None)), texts(&["drivability"]));
    assert!(stats.check_car(&c, &or_rules(&[&["drivability", "comfort"]])).is_ok());
    assert!(stats.check_car(&c, &or_rules(&[&["comfort", "drivability"]])).is_ok());
}

#[test]
fn or_group_fails_if_both_members_fail() {
    let mut c = car();
    c.drivability_rating = dec("4");
    c.comfort_rating = dec("2");
    let stats = Stats { drivability: Some(dec("5")), comfort: Some(dec("3")), ..no_stats() };
    assert_eq!(
        reasons(stats.check_car(&c, &or_rules(&[&["drivability", "comfort"]]))),
        texts(&["drivability|comfort"])
    );
    assert_eq!(
        reasons(stats.check_car(&c, &or_rules(&[&["drivability", "safety"]]))),
        texts(&["comfort"])
    );
}

#[test]
fn or_groups_apply_in_order_and_may_name_earlier_groups() {
    let mut c = car();
    c.drivability_rating = dec("4");
    c.comfort_rating = dec("2");
    let stats = Stats {
        drivability: Some(dec("5")),
        comfort: Some(dec("3")),
        model_min_year: Some(2000),
        ..no_stats()
    };
    let rules = or_rules(&[&["drivability", "comfort"], &["drivability|comfort", "model_min_year"]]);
    assert_eq!(
        reasons(stats.check_car(&c, &rules)),
        texts(&["drivability|comfort|model_min_year"])
    );
    let rules = or_rules(&[&["drivability", "comfort"], &["drivability|comfort", "safety"]]);
    assert_eq!(reasons(stats.check_car(&c, &rules)), texts(&["model_min_year"]));
}

#[test]
fn or_group_with_a_spent_key_is_a_fault_of_the_rulebook() {
    let stats = no_stats();
    let rules = or_rules(&[&["drivability", "comfort"], &["comfort", "safety"]]);
    assert!(matches!(stats.check_car(&car(), &rules), Err(CheckError::ErrRules(1))));
    let rules = or_rules(&[&["horsepower"]]);
    assert!(matches!(stats.check_car(&car(), &rules), Err(CheckError::ErrRules(0))));
    let rules = or_rules(&[&["comfort"], &[]]);
    assert!(matches!(stats.check_car(&car(), &rules), Err(CheckError::ErrRules(1))));
}

#[test]
fn or_group_naming_a_member_twice_counts_it_once() {
    let mut c = car();
    c.comfort_rating = dec("2");
    let stats = Stats { comfort: Some(dec("3")), ..no_stats() };
    assert_eq!(
        reasons(stats.check_car(&c, &or_rules(&[&["comfort", "comfort"]]))),
        texts(&["comfort|comfort"])
    );
}

#[test]
fn disjoint_groups_report_the_same_set_in_any_order() {
    let mut c = car();
    c.drivability_rating = dec("4");
    c.comfort_rating = dec("2");
    c.safety_rating = dec("1");
    c.prestige_rating = dec("1");
    c.offroad_rating = dec("9");
    c.cost = dec("30000");
    let stats = Stats {
        drivability: Some(dec("5")),
        comfort: Some(dec("3")),
        safety: Some(dec("2")),
        prestige: Some(dec("2")),
        offroad: Some(dec("3")),
        cost: Some(dec("20000")),
        model_min_year: Some(2000),
        ..no_stats()
    };
    let one = or_rules(&[&["drivability", "comfort"], &["prestige", "offroad"], &["safety"]]);
    let other = or_rules(&[&["safety"], &["prestige", "offroad"], &["drivability", "comfort"]]);
    let first = reasons(stats.check_car(&c, &one));
    let second = reasons(stats.check_car(&c, &other));
    let expected = sorted(texts(&["cost", "drivability|comfort", "model_min_year", "safety"]));
    assert_eq!(first.len(), 4);
    assert_eq!(second.len(), 4);
    assert_eq!(sorted(first), expected);
    assert_eq!(sorted(second), expected);
}

#[test]
fn scoring_order_does_not_change_the_set_of_failed_keys() {
    let verdict = |key: &str, passed: bool| Verdict { key: String::from(key), passed };
    let one = vec![
        verdict("a", false),
        verdict("b", true),
        verdict("c", false),
        verdict("d", false),
        verdict("e", false),
    ];
    let other = vec![
        verdict("e", false),
        verdict("c", false),
        verdict("a", false),
        verdict("d", false),
        verdict("b", true),
    ];
    let groups = vec![texts(&["a", "b"]), texts(&["c", "d"])];
    let turned = vec![texts(&["c", "d"]), texts(&["a", "b"])];
    let first = failed(&reduce(one, &groups).unwrap());
    let second = failed(&reduce(other, &turned).unwrap());
    assert_eq!(first, texts(&["e", "c|d"]));
    assert_eq!(second, texts(&["e", "c|d"]));
    assert_eq!(sorted(first), sorted(second));
}

#[test]
fn score_lists_the_statistics_in_order() {
    let verdicts = Stats { comfort: Some(dec("30")), ..no_stats() }.score(&car());
    let keys: Vec<&str> = verdicts.iter().map(|v| v.key.as_str()).collect();
    assert_eq!(
        keys,
        vec![
            "model_min_year",
            "model_max_year",
            "drivability",
            "sportiness",
            "reliability",
            "safety",
            "practicality",
            "comfort",
            "prestige",
            "offroad",
            "cost",
            "service_cost",
            "fuel_economy",
        ]
    );
    assert!(verdicts.iter().all(|v| v.passed == (v.key != "comfort")));
    assert_eq!(blank_verdicts().len(), 13);
    assert!(blank_verdicts().iter().all(|v| v.passed));
}

#[test]
fn merge_replaces_the_members_by_the_group() {
    let verdict = |key: &str, passed: bool| Verdict { key: String::from(key), passed };
    let list = vec![verdict("a", false), verdict("b", true), verdict("c", false)];
    assert_eq!(
        merge(&list, &texts(&["c", "a"])),
        Some(vec![verdict("b", true), verdict("c|a", false)])
    );
    assert_eq!(
        merge(&list, &texts(&["a", "b"])),
        Some(vec![verdict("c", false), verdict("a|b", true)])
    );
    assert_eq!(merge(&list, &texts(&["a", "d"])), None);
    assert_eq!(merge(&list, &texts(&[])), None);
    assert_eq!(find(&list, "b"), Some(true));
    assert_eq!(find(&list, "d"), None);
    assert_eq!(failed(&list), texts(&["a", "c"]));
    assert_eq!(
        reduce(list.clone(), &vec![texts(&["a", "b"]), texts(&["a|b", "c"])]),
        Ok(vec![verdict("a|b|c", true)])
    );
    assert_eq!(reduce(list, &vec![texts(&["a", "b"]), texts(&["a", "c"])]), Err(1));
}

// Engine

#[test]
fn engine_accepts_a_record_within_every_bound() {
    let engine = Engine {
        min_year: Some(1994),
        max_year: Some(1994),
        max_cylinders: Some(6),
        turbo_max_cylinders: Some(4),
        octane: Some(dec("95")),
        fuel_type: Some(texts(&["Regular", " Premium "])),
        max_displacement: Some(2998),
        max_stroke: Some(dec("86.5")),
        max_bore: Some(dec("84")),
        max_intake_valves: Some(2),
        max_exhaust_valves: Some(2),
        max_total_valves: Some(4),
        max_compression: Some(dec("9.5")),
        max_rpm: Some(7000),
        catalytic_converter_banned: Some(texts(&["none"])),
        intake_banned: Some(texts(&["race"])),
        headers_banned: Some(texts(&["Tubular"])),
    };
    assert!(engine.check_car(&car()).is_ok());
}

#[test]
fn engine_reports_every_violated_rule_in_order() {
    let engine = Engine {
        min_year: Some(1995),
        max_year: Some(1993),
        max_cylinders: Some(5),
        turbo_max_cylinders: Some(4),
        octane: Some(dec("91.5")),
        fuel_type: Some(texts(&["Regular", "premium"])),
        max_displacement: Some(2000),
        max_stroke: Some(dec("86.4")),
        max_bore: Some(dec("83.999")),
        max_intake_valves: Some(1),
        max_exhaust_valves: Some(1),
        max_total_valves: Some(3),
        max_compression: Some(dec("9")),
        max_rpm: Some(6999),
        catalytic_converter_banned: Some(texts(&["THREE", " way ", "none"])),
        intake_banned: Some(texts(&["standard"])),
        headers_banned: Some(texts(&[" Cast ", "cast"])),
    };
    let mut c = car();
    c.aspiration = String::from("Turbocharged");
    assert_eq!(
        reasons(engine.check_car(&c)),
        texts(&[
            "engine year 1994",
            "engine year 1994",
            "cylinder count 6",
            "turbo_max_cylinders",
            "fuel octane 95",
            "illegal fuel type Premium",
            "displacement 2998",
            "stroke 86.5",
            "bore 84",
            "intake valves 2",
            "exhaust valves 2",
            "total valves 4",
            "compression 9.5",
            "max rpm 7000",
            "illegal cat conv Three Way",
            "illegal cat conv Three Way",
            "illegal intake Standard Intake",
            "illegal headers Cast",
            "illegal headers Cast",
        ])
    );
}

#[test]
fn turbo_cylinder_cap_applies_to_forced_induction_only() {
    let engine = Engine { turbo_max_cylinders: Some(6), ..no_engine() };
    let mut c = car();
    c.cylinder_count = 8;
    c.aspiration = String::from("Turbocharged");
    assert!(matches!(
        engine.check_car(&c),
        Err(CheckError::ErrEngine(v)) if v == texts(&["turbo_max_cylinders"])
    ));
    c.aspiration = String::from("Naturally Aspirated");
    assert!(engine.check_car(&c).is_ok());
    c.aspiration = String::from("Turbocharged");
    c.cylinder_count = 6;
    assert!(engine.check_car(&c).is_ok());
}

#[test]
fn banned_headers_are_searched_whatever_their_case() {
    let engine = Engine { headers_banned: Some(texts(&["race"])), ..no_engine() };
    let mut c = car();
    c.headers = String::from("Race Tubular");
    assert!(matches!(
        engine.check_car(&c),
        Err(CheckError::ErrEngine(v)) if v == texts(&["illegal headers Race Tubular"])
    ));
    c.headers = String::from("Long Tubular");
    assert!(engine.check_car(&c).is_ok());
    let spaced = Engine { headers_banned: Some(texts(&[" TUBULAR ", "cast"])), ..no_engine() };
    assert_eq!(reasons(spaced.check_car(&c)), texts(&["illegal headers Long Tubular"]));
}

#[test]
fn engine_reports_cylinders_and_octane_together() {
    let engine =
        Engine { max_cylinders: Some(4), octane: Some(dec("91")), ..no_engine() };
    assert_eq!(
        reasons(engine.check_car(&car())),
        texts(&["cylinder count 6", "fuel octane 95"])
    );
}

#[test]
fn fuel_must_be_one_of_the_allowed() {
    let mut c = car();
    let engine = Engine { fuel_type: Some(texts(&["Regular", "Premium"])), ..no_engine() };
    assert!(engine.check_car(&c).is_ok());
    c.fuel_type = String::from("Leaded");
    assert_eq!(reasons(engine.check_car(&c)), texts(&["illegal fuel type Leaded"]));
    let none_allowed = Engine { fuel_type: Some(Vec::new()), ..no_engine() };
    assert_eq!(reasons(none_allowed.check_car(&c)), texts(&["illegal fuel type Leaded"]));
}

#[test]
fn total_valves_are_added_without_overflow() {
    let engine = Engine { max_total_valves: Some(usize::MAX), ..no_engine() };
    let mut c = car();
    c.intake_valves = usize::MAX;
    c.exhaust_valves = 1;
    assert_eq!(
        reasons(engine.check_car(&c)),
        vec![format!("total valves {}", usize::MAX as u128 + 1)]
    );
}

// Wheels

#[test]
fn wheels_report_every_violated_rule_in_order() {
    let wheels = Wheels {
        must_match: Some(true),
        front_max_width: Some(204),
        front_max_profile: Some(54),
        front_max_rim: Some(15),
        front_wheel_diameter: Some(629),
        rear_max_width: Some(224),
        rear_max_profile: Some(49),
        rear_max_rim: Some(16),
        rear_wheel_diameter: Some(639),
        banned_compounds: Some(texts(&["medium", "hard"])),
        banned_rim_materials: Some(texts(&["alloy", " Alloy"])),
    };
    let mut c = car();
    c.wheels_rear_width = 225;
    c.wheels_rear_profile = 50;
    c.wheels_rear_rim = 17;
    c.wheels_rear_diameter = 640;
    assert_eq!(
        reasons(wheels.check_car(&c)),
        texts(&[
            "wheels dont match",
            "front tire width 205",
            "front tire profile 55",
            "front tire rim 16",
            "front tire diameter 630",
            "rear tire width 225",
            "rear tire profile 50",
            "rear tire rim 17",
            "rear tire diameter 640",
            "banned compound Medium",
            "banned rim material Alloy",
        ])
    );
}

#[test]
fn wheels_need_not_match_unless_asked() {
    let mut c = car();
    c.wheels_rear_width = 225;
    assert!(no_wheels().check_car(&c).is_ok());
    assert!(Wheels { must_match: Some(false), ..no_wheels() }.check_car(&c).is_ok());
    assert_eq!(
        reasons(Wheels { must_match: Some(true), ..no_wheels() }.check_car(&c)),
        texts(&["wheels dont match"])
    );
    assert!(Wheels { must_match: Some(true), ..no_wheels() }.check_car(&car()).is_ok());
}

#[test]
fn banned_compound_is_found_whatever_its_case() {
    let wheels = Wheels { banned_compounds: Some(texts(&["street"])), ..no_wheels() };
    let mut c = car();
    c.wheels_compound = String::from("Street");
    assert!(matches!(
        wheels.check_car(&c),
        Err(CheckError::ErrWheels(v)) if v == texts(&["banned compound Street"])
    ));
    c.wheels_compound = String::from(" STREET ");
    assert_eq!(reasons(wheels.check_car(&c)), texts(&["banned compound  STREET "]));
    c.wheels_compound = String::from("Street Legal");
    assert!(wheels.check_car(&c).is_ok());
}

// Chassis and drivetrain

#[test]
fn chassis_material_is_matched_as_written() {
    let chassis = Chassis { banned_materials: Some(texts(&[" Steel ", "steel", "Steel"])) };
    assert_eq!(
        reasons(chassis.check_car(&car())),
        texts(&["banned chassis material Steel", "banned chassis material Steel"])
    );
    assert!(Chassis { banned_materials: Some(texts(&["Ste"])) }.check_car(&car()).is_ok());
    assert!(Chassis { banned_materials: Some(Vec::new()) }.check_car(&car()).is_ok());
    assert!(Chassis { banned_materials: None }.check_car(&car()).is_ok());
}

#[test]
fn drivetrain_type_is_searched_whatever_its_case() {
    let drivetrain = Drivetrain { banned_types: Some(texts(&[" REAR ", "front", "wheel"])) };
    assert!(matches!(
        drivetrain.check_car(&car()),
        Err(CheckError::ErrDrivetrain(v))
            if v == texts(&["illegal drive type Rear Wheel Drive", "illegal drive type Rear Wheel Drive"])
    ));
    assert!(Drivetrain { banned_types: None }.check_car(&car()).is_ok());
}

#[test]
fn names_match_in_four_ways() {
    assert!(name_matches(Matching::Trimmed, " Steel ", "Steel\t"));
    assert!(!name_matches(Matching::Trimmed, "steel", "Steel"));
    assert!(name_matches(Matching::TrimmedEntry, " Steel ", "Steel"));
    assert!(!name_matches(Matching::TrimmedEntry, "Steel", " Steel"));
    assert!(name_matches(Matching::AnyCase, " sTEEL", "Steel "));
    assert!(name_matches(Matching::AnyCase, "ÉCLAIR", "éclair"));
    assert!(!name_matches(Matching::AnyCase, "Steel", "Steels"));
    assert!(name_matches(Matching::Within, " WHEEL ", "All Wheel Drive"));
    assert!(!name_matches(Matching::Within, "wheels", "All Wheel Drive"));
    assert_eq!(count_matches(&texts(&["a", " a", "b", "A"]), Matching::Trimmed, "a"), 2);
    assert_eq!(count_matches(&texts(&["a", " a", "b", "A"]), Matching::AnyCase, "a"), 3);
}

// The raw fields

#[test]
fn quality_out_of_bounds_is_illegal() {
    let others = Others { min_quality: Some(-15), max_quality: Some(15), ..no_others() };
    let mut c = car();
    c.raw = raw_of(&[("Trim Brake Quality", "20")]);
    assert!(matches!(
        others.check_car(&c),
        Err(CheckError::ErrOthers(v)) if v == texts(&["illegal quality Trim Brake Quality"])
    ));
    c.raw = raw_of(&[("Trim Brake Quality", "abc")]);
    assert!(matches!(
        others.check_car(&c),
        Err(CheckError::ErrOthers(v)) if v == texts(&["incorrect int Trim Brake Quality"])
    ));
}

#[test]
fn quality_bounds_default_to_fifteen_either_way() {
    let mut c = car();
    c.raw = raw_of(&[
        ("Trim Brake Quality", "15"),
        ("Trim Tyre Quality", "-15"),
        ("Trim Body Quality", "15.9"),
        ("Trim Safety Quality", "-15.9"),
        ("Trim Assist Quality", "16"),
        ("Trim Fixture Quality", "-16"),
        ("trim_interior_quality", " 16 "),
        ("Trim Aero Quality", "1.5e1"),
        ("Trim Gear Quality", "16e0"),
        ("Trim Seat Quality", "inf"),
        ("Trim Roof Quality", "nan"),
        ("Quality Control", "99"),
        ("Trim Body Techpool", "99"),
        (" Family QUALITY ", ""),
    ]);
    assert_eq!(
        reasons(no_others().check_car(&c)),
        texts(&[
            "illegal quality Trim Assist Quality",
            "illegal quality Trim Fixture Quality",
            "illegal quality trim_interior_quality",
            "illegal quality Trim Gear Quality",
            "illegal quality Trim Seat Quality",
            "incorrect int  Family QUALITY ",
        ])
    );
    let wide = Others { min_quality: Some(-20), max_quality: Some(20), ..no_others() };
    assert_eq!(
        reasons(wide.check_car(&c)),
        texts(&["illegal quality Trim Seat Quality", "incorrect int  Family QUALITY "])
    );
    let narrow = Others { min_quality: Some(0), max_quality: None, ..no_others() };
    assert_eq!(
        reasons(narrow.check_car(&c)),
        texts(&[
            "illegal quality Trim Tyre Quality",
            "illegal quality Trim Safety Quality",
            "illegal quality Trim Assist Quality",
            "illegal quality Trim Fixture Quality",
            "illegal quality trim_interior_quality",
            "illegal quality Trim Gear Quality",
            "illegal quality Trim Seat Quality",
            "incorrect int  Family QUALITY ",
        ])
    );
}

#[test]
fn banned_parts_are_reported_for_each_match() {
    let others = Others { banned_parts: Some(texts(&[" Turbo ", "Nitrous", "Turbo"])), ..no_others() };
    let mut c = car();
    c.raw = raw_of(&[("Aspiration", "Turbo"), ("Intake", "Race"), ("Extra", "Nitrous"), ("X", " Turbo")]);
    assert_eq!(
        reasons(others.check_car(&c)),
        texts(&["banned part Turbo", "banned part Turbo", "banned part Nitrous"])
    );
    assert!(Others { banned_parts: Some(Vec::new()), ..no_others() }.check_car(&c).is_ok());
}

#[test]
fn missing_parts_are_listed_in_one_reason() {
    let others = Others {
        required_parts: Some(vec![
            ReqPart::Part(String::from("Roll Cage")),
            ReqPart::Choice(texts(&["Standard 80s", "Advanced 80s"])),
            ReqPart::Part(String::from(" Race ")),
            ReqPart::Choice(texts(&["Solid \"Axle\""])),
        ]),
        ..no_others()
    };
    let mut c = car();
    c.raw = raw_of(&[("Intake", "Race"), ("Safety", "Basic 80s")]);
    assert_eq!(
        reasons(others.check_car(&c)),
        texts(&[
            "parts missing [Part(\"Roll Cage\"), Choice([\"Standard 80s\", \"Advanced 80s\"]), \
             Choice([\"Solid \\\"Axle\\\"\"])]"
        ])
    );
    c.raw = raw_of(&[
        ("Intake", "Race"),
        ("Safety", " Advanced 80s "),
        ("Cage", "Roll Cage"),
        ("Cage 2", "Roll Cage"),
        ("Axle", "Solid \"Axle\""),
    ]);
    assert!(others.check_car(&c).is_ok());
    assert!(Others { required_parts: Some(Vec::new()), ..no_others() }.check_car(&c).is_ok());
}

#[test]
fn missing_parts_text_matches_the_debug_form() {
    let parts = vec![
        ReqPart::Part(String::from("a\tb")),
        ReqPart::Choice(texts(&["x", "y'z", "\\"])),
        ReqPart::Choice(Vec::new()),
    ];
    for part in &parts {
        assert_eq!(part.to_text(), format!("{:?}", part));
    }
    let others = Others { required_parts: Some(parts.clone()), ..no_others() };
    let mut c = car();
    c.raw = raw_of(&[]);
    assert_eq!(reasons(others.check_car(&c)), vec![format!("parts missing {:?}", parts)]);
}

#[test]
fn validate_compares_trimmed_values() {
    let part = ReqPart::Part(String::from(" Roll Cage"));
    assert!(part.validate(String::from("Roll Cage ")));
    assert!(!part.validate(String::from("roll cage")));
    let choice = ReqPart::Choice(texts(&["A", " B "]));
    assert!(choice.validate(String::from("B")));
    assert!(choice.validate(String::from(" A")));
    assert!(!choice.validate(String::from("C")));
    assert!(!ReqPart::Choice(Vec::new()).validate(String::from("")));
    let fields = raw_of(&[("x", "A"), ("y", "Roll Cage")]).fields;
    assert!(part.is_found(&fields));
    assert!(choice.is_found(&fields));
    assert!(!ReqPart::Part(String::from("Z")).is_found(&fields));
}

#[test]
fn others_report_quality_then_banned_then_missing() {
    let others = Others {
        required_parts: Some(vec![ReqPart::Part(String::from("Roll Cage"))]),
        banned_parts: Some(texts(&["Race"])),
        min_quality: None,
        max_quality: Some(2),
    };
    let mut c = car();
    c.raw = raw_of(&[("Intake", "Race"), ("Trim Brake Quality", "3"), ("Headers", "Race")]);
    assert_eq!(
        reasons(others.check_car(&c)),
        texts(&[
            "illegal quality Trim Brake Quality",
            "banned part Race",
            "banned part Race",
            "parts missing [Part(\"Roll Cage\")]",
        ])
    );
}

#[test]
fn field_order_does_not_change_the_set_of_reasons() {
    let others = Others {
        required_parts: Some(vec![
            ReqPart::Part(String::from("Roll Cage")),
            ReqPart::Part(String::from("Race")),
        ]),
        banned_parts: Some(texts(&["Race", "Turbo"])),
        min_quality: Some(-1),
        max_quality: Some(1),
    };
    let fields = [
        ("Intake", "Race"),
        ("Trim Brake Quality", "3"),
        ("Aspiration", "Turbo"),
        ("Trim Tyre Quality", "x"),
        ("Trim Body Quality", "0"),
    ];
    let mut c = car();
    c.raw = raw_of(&fields);
    let expected = sorted(reasons(others.check_car(&c)));
    assert_eq!(expected.len(), 5);
    let orders: [[usize; 5]; 4] = [[4, 3, 2, 1, 0], [1, 0, 3, 2, 4], [2, 4, 0, 3, 1], [3, 1, 4, 0, 2]];
    for order in orders {
        let shuffled: Vec<(&str, &str)> = order.iter().map(|i| fields[*i]).collect();
        c.raw = raw_of(&shuffled);
        assert_eq!(sorted(reasons(others.check_car(&c))), expected);
    }
}

#[test]
fn more_fields_never_unmeet_a_requirement() {
    let others = Others {
        required_parts: Some(vec![
            ReqPart::Part(String::from("Roll Cage")),
            ReqPart::Choice(texts(&["A", "B"])),
        ]),
        ..no_others()
    };
    let mut c = car();
    c.raw = raw_of(&[("x", "Roll Cage")]);
    assert_eq!(reasons(others.check_car(&c)), texts(&["parts missing [Choice([\"A\", \"B\"])]"]));
    c.raw = raw_of(&[("y", "other"), ("x", "Roll Cage")]);
    assert_eq!(reasons(others.check_car(&c)), texts(&["parts missing [Choice([\"A\", \"B\"])]"]));
    c.raw = raw_of(&[("x", "Roll Cage"), ("y", "Roll Cage")]);
    assert_eq!(reasons(others.check_car(&c)), texts(&["parts missing [Choice([\"A\", \"B\"])]"]));
    c.raw = raw_of(&[("x", "Roll Cage"), ("y", "B")]);
    assert!(others.check_car(&c).is_ok());
    c.raw = raw_of(&[("x", "Roll Cage"), ("y", "B"), ("z", "A")]);
    assert!(others.check_car(&c).is_ok());
}
