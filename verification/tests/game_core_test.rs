use ming_rpg::game_core::{advance_date, date_time_text, Character, Realm};
use ming_rpg::numfmt::{format_i64, format_u64, format_zero_padded};

#[test]
fn test_realm_variants_exist() {
    let realms = [
        Realm::Mortal,
        Realm::QiRefining,
        Realm::Foundation,
        Realm::GoldenCore,
        Realm::NascentSoul,
    ];
    for (i, r1) in realms.iter().enumerate() {
        for (j, r2) in realms.iter().enumerate() {
            if i == j {
                assert_eq!(r1, r2, "同一境界应相等");
            } else {
                assert_ne!(r1, r2, "不同境界应不相等");
            }
        }
    }
}

#[test]
fn test_character_default_construction() {
    let character = Character {
        name: "测试角色".to_string(),
        age: 20,
    };
    assert_eq!(character.name, "测试角色");
    assert_eq!(character.age, 20);
}

#[test]
fn calendar_day_within_month() {
    assert_eq!(advance_date(1573, 1, 1, 0), (1573, 1, 1));
    assert_eq!(advance_date(1573, 1, 1, 1), (1573, 1, 2));
    assert_eq!(advance_date(1573, 1, 1, 2), (1573, 1, 3));
}

#[test]
fn calendar_crosses_month() {
    assert_eq!(advance_date(1573, 1, 30, 1), (1573, 2, 1));
}

#[test]
fn calendar_crosses_year() {
    assert_eq!(advance_date(1573, 12, 30, 1), (1574, 1, 1));
}

#[test]
fn calendar_multiple_months() {
    assert_eq!(advance_date(1573, 1, 1, 61), (1573, 3, 2));
    assert_eq!(advance_date(1573, 11, 20, 100), (1574, 2, 30));
}

#[test]
fn calendar_long_seclusion() {
    assert_eq!(advance_date(1573, 1, 1, 300), (1573, 11, 1));
    assert_eq!(advance_date(1573, 1, 1, 3600), (1583, 1, 1));
    assert_eq!(advance_date(1573, 12, 30, 1_000_000), (4351, 10, 10));
}

#[test]
fn calendar_out_of_range_inputs_follow_carry_rules() {
    assert_eq!(advance_date(1573, 14, 5, 0), (1574, 2, 5));
    assert_eq!(advance_date(1573, 0, 0, 0), (1573, 0, 0));
    assert_eq!(advance_date(-5, 25, 31, 0), (-3, 2, 1));
}

#[test]
fn calendar_text() {
    assert_eq!(date_time_text(1573, 6, 15, 14), "1573年06月15日 14:00");
    assert_eq!(date_time_text(999, 1, 1, 0), "0999年01月01日 00:00");
    assert_eq!(date_time_text(12345, 12, 30, 23), "12345年12月30日 23:00");
    assert_eq!(date_time_text(-7, 1, 1, -1), "-007年01月01日 -1:00");
}

#[test]
fn numbers_in_decimal() {
    assert_eq!(format_u64(0), "0");
    assert_eq!(format_u64(1234567890), "1234567890");
    assert_eq!(format_u64(u64::MAX), u64::MAX.to_string());
    assert_eq!(format_i64(-42), "-42");
    assert_eq!(format_i64(i64::MIN), i64::MIN.to_string());
    assert_eq!(format_i64(i64::MAX), i64::MAX.to_string());
}

#[test]
fn numbers_zero_padded_like_std() {
    for n in [-1234i64, -5, -1, 0, 7, 42, 999, 12345] {
        for w in 0usize..7 {
            assert_eq!(format_zero_padded(n, w), format!("{:0w$}", n, w = w));
        }
    }
}

#[test]
fn calendar_advancing_in_two_steps_is_one_step() {
    let start = (1573, 11, 20);
    for a in [0u64, 1, 10, 29, 30, 31, 95, 400] {
        for b in [0u64, 1, 15, 44, 100, 7200] {
            let first = advance_date(start.0, start.1, start.2, a);
            let two = advance_date(first.0, first.1, first.2, b);
            let one = advance_date(start.0, start.1, start.2, a + b);
            assert_eq!(two, one, "a={} b={}", a, b);
        }
    }
}
