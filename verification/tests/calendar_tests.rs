use dualnum::calendar::{get_rules_by_name, Cal, CalType, CalendarError, Convention, UnionCal};
use dualnum::curves::{linear_interp, LinearInterpolator};
use dualnum::fixed::Fixed;

fn fx(x: f64) -> Fixed {
    Fixed {
        m: (x * 1e12).round() as i128,
    }
}

// Timestamps of the midnights used below, in seconds since the epoch.
const MON_2015_09_07: i64 = 16685 * 86400;
const SAT_2015_09_05: i64 = 16683 * 86400;
const THU_2015_09_10: i64 = 16688 * 86400;
const SAT_2024_01_06: i64 = 19728 * 86400;
const SUN_2024_01_07: i64 = 19729 * 86400;

fn fixture_hol_cal() -> Cal {
    // a Saturday and a Monday are listed as holidays
    Cal::new(vec![SAT_2015_09_05, MON_2015_09_07], vec![5, 6])
}

#[test]
fn test_is_holiday() {
    let cal = fixture_hol_cal();
    assert!(cal.is_holiday(MON_2015_09_07));
    assert!(!cal.is_holiday(THU_2015_09_10));
    assert!(!cal.is_holiday(SAT_2024_01_06));
}

#[test]
fn test_is_weekday() {
    let cal = fixture_hol_cal();
    assert!(cal.is_weekday(MON_2015_09_07));
    assert!(cal.is_weekday(THU_2015_09_10));
    assert!(!cal.is_weekday(SAT_2024_01_06));
    assert!(!cal.is_weekday(SUN_2024_01_07));
}

#[test]
fn test_is_bus_day() {
    let cal = fixture_hol_cal();
    assert!(cal.is_bus_day(THU_2015_09_10));
    // a listed holiday is not a business day even on a weekday
    assert!(!cal.is_bus_day(MON_2015_09_07));
    assert!(!cal.is_bus_day(SAT_2024_01_06));
}

const TUE_2015_09_08: i64 = 16686 * 86400;
const WED_2015_09_09: i64 = 16687 * 86400;

#[test]
fn test_union_cal() {
    let c1 = Cal::new(vec![SAT_2015_09_05, MON_2015_09_07], vec![5, 6]);
    let c2 = Cal::new(vec![TUE_2015_09_08, THU_2015_09_10], vec![5, 6]);
    let u = UnionCal::new(vec![c1, c2], None);
    assert!(!u.is_bus_day(MON_2015_09_07));
    assert!(!u.is_bus_day(THU_2015_09_10));
    assert!(u.is_bus_day(WED_2015_09_09));
    assert!(u.is_settlement(MON_2015_09_07));
}

#[test]
fn test_union_cal_with_settle() {
    let c1 = Cal::new(vec![], vec![5, 6]);
    let settle = Cal::new(vec![TUE_2015_09_08], vec![5, 6]);
    let u = UnionCal::new(vec![c1], Some(vec![settle]));
    assert!(u.is_bus_day(TUE_2015_09_08));
    assert!(!u.is_settlement(TUE_2015_09_08));
    assert!(u.is_settlement(WED_2015_09_09));
}

#[test]
fn test_get_rules() {
    let result = get_rules_by_name(&"bus".to_string()).unwrap();
    assert_eq!(result, Vec::<String>::new());
}

#[test]
fn test_get_rules_unknown() {
    assert_eq!(
        get_rules_by_name(&"badname".to_string()).unwrap_err(),
        CalendarError::UnknownName
    );
}

#[test]
fn test_linear_interpolator_new() {
    let cal = Cal::new(vec![], vec![5, 6]);
    let li = LinearInterpolator::new(CalType::Cal(cal), Convention::Act365F);
    match li.calendar {
        CalType::Cal(c) => assert_eq!(c.week_mask, vec![5, 6]),
        CalType::UnionCal(_) => panic!("expected a single calendar"),
    }
}

#[test]
fn test_union_cal_new() {
    let u = UnionCal::new(vec![fixture_hol_cal()], None);
    assert_eq!(u.calendars.len(), 1);
    assert!(u.settlement_calendars.is_none());
}

#[test]
fn test_linear_interp_midyear() {
    // half a (leap) year between two nodes: 182 of 366 days elapsed
    let result = linear_interp(0, fx(1.0), 366 * 86400, fx(0.99), 182 * 86400);
    assert_eq!(result, fx(0.9950273224043715));
}

#[test]
fn test_linear_interp_endpoints() {
    assert_eq!(linear_interp(0, fx(1.0), 10, fx(3.0), 0), fx(1.0));
    assert_eq!(linear_interp(0, fx(1.0), 10, fx(3.0), 10), fx(3.0));
    assert_eq!(linear_interp(0, fx(1.0), 10, fx(3.0), 5), fx(2.0));
}
