use ledger::amount::Amount;
use ledger::date::Date;
use ledger::repo::diesel_repo::UserEntry;
use ledger::repo::user_repo::User;
use rust_decimal::Decimal;

#[test]
fn dates_exist_or_not() {
    assert!(Date::from_ymd_opt(2024, 2, 29).is_some());
    assert!(Date::from_ymd_opt(2023, 2, 29).is_none());
    assert!(Date::from_ymd_opt(1900, 2, 29).is_none());
    assert!(Date::from_ymd_opt(2000, 2, 29).is_some());
    assert!(Date::from_ymd_opt(2021, 4, 31).is_none());
    assert!(Date::from_ymd_opt(2021, 13, 1).is_none());
    assert!(Date::from_ymd_opt(2021, 0, 1).is_none());
    assert!(Date::from_ymd_opt(262142, 12, 31).is_some());
    assert!(Date::from_ymd_opt(262143, 1, 1).is_none());
    let d = Date::from_ymd_opt(2022, 12, 11).unwrap();
    assert_eq!(d.month_start(), Date::from_ymd_opt(2022, 12, 1).unwrap());
    assert!(d.month_start().is_before(&d));
    assert!(!d.is_before(&d));
    assert!(d.same_day(&d));
}

#[test]
fn amounts_add_and_subtract_as_decimals() {
    let a = Amount::new(150, 2).unwrap();
    let b = Amount::from_i64(2);
    assert_eq!(a.checked_add(&b), Some(Amount::new(350, 2).unwrap()));
    assert_eq!(a.checked_sub(&b), Some(Amount::new(-50, 2).unwrap()));
    assert!(Amount::new(1, 29).is_none());
    assert!(Amount::new(79228162514264337593543950336, 0).is_none());
    let max = Amount::new(79228162514264337593543950335, 0).unwrap();
    assert_eq!(max.checked_add(&Amount::from_i64(1)), None);
    assert!(Amount::from_i64(1).is_positive());
    assert!(!Amount::zero().is_positive());
    assert!(!Amount::from_i64(-1).is_positive());
}

#[test]
fn user_entries_convert_both_ways() {
    let user = User::new("id".to_string(), "hash".to_string());
    let entry = UserEntry::from(user.clone());
    assert_eq!(entry.id, "id");
    assert_eq!(entry.password_hash, "hash");
    assert_eq!(User::from(entry), user);
}

#[test]
fn amounts_compare_by_value() {
    let cases: [(i128, u32, i128, u32); 8] = [
        (150, 2, 15, 1),
        (150, 2, 151, 2),
        (0, 0, 0, 28),
        (-20, 1, -2, 0),
        (-20, 1, 2, 0),
        (1, 0, 10_000_000_000_000_000_000_000_000_000, 28),
        (79228162514264337593543950335, 0, 1, 28),
        (7, 3, 70, 5),
    ];
    for (m1, s1, m2, s2) in cases {
        let a = Amount::new(m1, s1).unwrap();
        let b = Amount::new(m2, s2).unwrap();
        let expected = Decimal::from_i128_with_scale(m1, s1) == Decimal::from_i128_with_scale(m2, s2);
        assert_eq!(a == b, expected, "{:?} {:?}", a, b);
        assert_eq!(b == a, expected);
    }
    assert_eq!(Amount::new(150, 2), Amount::new(15, 1));
    assert_ne!(Amount::from_i64(1), Amount::from_i64(-1));
}

#[test]
fn exact_sums_keep_the_larger_scale() {
    let sum = Amount::from_i64(1).checked_add(&Amount::from_i64(2)).unwrap();
    assert_eq!((sum.mantissa, sum.scale), (3, 0));
    let sum = Amount::new(150, 2).unwrap().checked_add(&Amount::from_i64(2)).unwrap();
    assert_eq!((sum.mantissa, sum.scale), (350, 2));
    let zero_first = Amount::new(0, 5).unwrap().checked_add(&Amount::new(7, 1).unwrap()).unwrap();
    assert_eq!((zero_first.mantissa, zero_first.scale), (7, 1));
    let negated = Amount::new(0, 5).unwrap().checked_sub(&Amount::new(7, 1).unwrap()).unwrap();
    assert_eq!((negated.mantissa, negated.scale), (-7, 1));
}
