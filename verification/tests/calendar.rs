use datastore_core::calendar::{floor_div, year_and_month};
use datastore_core::prune::Periods;

const DAY: i64 = 86400;

#[test]
fn floor_division() {
    assert_eq!(floor_div(0, 7), 0);
    assert_eq!(floor_div(6, 7), 0);
    assert_eq!(floor_div(7, 7), 1);
    assert_eq!(floor_div(-1, 7), -1);
    assert_eq!(floor_div(-7, 7), -1);
    assert_eq!(floor_div(-8, 7), -2);
    assert_eq!(floor_div(i64::MIN, 1), i64::MIN);
    assert_eq!(floor_div(i64::MAX, 1), i64::MAX);
    assert_eq!(floor_div(i64::MIN, i64::MAX), -2);
    assert_eq!(floor_div(i64::MIN, 86400), -106751991167301);
    for t in -50..50 {
        for unit in 1..9 {
            assert_eq!(floor_div(t, unit), t.div_euclid(unit));
        }
    }
}

#[test]
fn the_epoch() {
    assert_eq!(Periods::utc(0), Periods { hour: 0, day: 0, week: 0, month: 1970 * 12, year: 1970 });
    assert_eq!(
        Periods::utc(-1),
        Periods { hour: -1, day: -1, week: 0, month: 1969 * 12 + 11, year: 1969 }
    );
}

#[test]
fn a_day_in_june() {
    let noon = 1_592_395_200;
    assert_eq!(
        Periods::utc(noon),
        Periods { hour: 442332, day: 18430, week: 2633, month: 2020 * 12 + 5, year: 2020 }
    );
    assert_eq!(Periods::utc(noon + 12 * 3600 - 1).day, 18430);
    assert_eq!(Periods::utc(noon + 12 * 3600).day, 18431);
    assert_eq!(Periods::utc(noon + 3599).hour, 442332);
    assert_eq!(Periods::utc(noon + 3600).hour, 442333);
}

#[test]
fn weeks_begin_on_monday() {
    let monday = 18428 * DAY;
    assert_eq!(Periods::utc(monday).week, 2633);
    assert_eq!(Periods::utc(monday - 1).week, 2632);
    assert_eq!(Periods::utc(monday + 7 * DAY - 1).week, 2633);
    assert_eq!(Periods::utc(monday + 7 * DAY).week, 2634);
    assert_eq!(Periods::utc(-4 * DAY).week, -1);
    assert_eq!(Periods::utc(-3 * DAY).week, 0);
}

#[test]
fn leap_days() {
    assert_eq!(year_and_month(11016), (2000, 2));
    assert_eq!(year_and_month(11017), (2000, 3));
    assert_eq!(year_and_month(-25509), (1900, 2));
    assert_eq!(year_and_month(-25508), (1900, 3));
    assert_eq!(year_and_month(47482 + 58), (2100, 2));
    assert_eq!(year_and_month(47482 + 59), (2100, 3));
    assert_eq!(year_and_month(19782), (2024, 2));
    assert_eq!(year_and_month(19783), (2024, 3));
}

#[test]
fn ends_of_years() {
    assert_eq!(year_and_month(-1), (1969, 12));
    assert_eq!(year_and_month(0), (1970, 1));
    assert_eq!(year_and_month(364), (1970, 12));
    assert_eq!(year_and_month(365), (1971, 1));
    assert_eq!(year_and_month(10956), (1999, 12));
    assert_eq!(year_and_month(10957), (2000, 1));
    assert_eq!(year_and_month(10957 + 146096), (2399, 12));
    assert_eq!(year_and_month(10957 + 146097), (2400, 1));
    assert_eq!(year_and_month(10957 - 1 - 146097), (1599, 12));
    assert_eq!(year_and_month(-719528), (0, 1));
    assert_eq!(year_and_month(-719529), (-1, 12));
}

#[test]
fn far_times() {
    let last = Periods::utc(i64::MAX);
    assert_eq!(last.day, 106751991167300);
    assert_eq!(last.year, 292277026596);
    assert_eq!(last.month, 292277026596 * 12 + 11);
    let first = Periods::utc(i64::MIN);
    assert_eq!(first.day, -106751991167301);
    assert_eq!(first.year, -292277022657);
    assert_eq!(first.month, -292277022657 * 12);
}

/// The year and month of a day, by counting from March of the year 0.
fn by_counting(day: i64) -> (i64, u8) {
    let z = day + 719468;
    let era = z.div_euclid(146097);
    let doe = z.rem_euclid(146097);
    let yoe = (doe - doe / 1460 + doe / 36524 - doe / 146096) / 365;
    let doy = doe - (365 * yoe + yoe / 4 - yoe / 100);
    let mp = (5 * doy + 2) / 153;
    let m = if mp < 10 { mp + 3 } else { mp - 9 };
    let y = yoe + era * 400 + if m <= 2 { 1 } else { 0 };
    (y, m as u8)
}

#[test]
fn every_day_of_eight_centuries() {
    for day in -150_000..150_000 {
        assert_eq!(year_and_month(day), by_counting(day), "{}", day);
    }
}

#[test]
fn days_far_apart() {
    let mut day = -0x8000_0000_0000i64;
    while day <= 0x8000_0000_0000 {
        assert_eq!(year_and_month(day), by_counting(day), "{}", day);
        day += 0x3_1234_5677;
    }
}
