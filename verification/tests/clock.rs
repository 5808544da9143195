use secs_sim::clock::{civil_time, CivilTime};

fn at(year: u64, month: u32, day: u32, hour: u32, minute: u32, second: u32) -> CivilTime {
    CivilTime { year, month, day, hour, minute, second }
}

#[test]
fn epoch_is_new_year_1970() {
    assert_eq!(civil_time(0), at(1970, 1, 1, 0, 0, 0));
    assert_eq!(civil_time(86399), at(1970, 1, 1, 23, 59, 59));
    assert_eq!(civil_time(86400), at(1970, 1, 2, 0, 0, 0));
}

#[test]
fn leap_days_and_year_ends() {
    assert_eq!(civil_time(951782400), at(2000, 2, 29, 0, 0, 0));
    assert_eq!(civil_time(951868800), at(2000, 3, 1, 0, 0, 0));
    assert_eq!(civil_time(4107542400), at(2100, 3, 1, 0, 0, 0));
    assert_eq!(civil_time(4107456000), at(2100, 2, 28, 0, 0, 0));
    assert_eq!(civil_time(4102444799), at(2099, 12, 31, 23, 59, 59));
}

#[test]
fn an_ordinary_moment() {
    assert_eq!(civil_time(1700000000), at(2023, 11, 14, 22, 13, 20));
}
