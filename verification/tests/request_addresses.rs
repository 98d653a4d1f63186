use wsf::clock::Date;
use wsf::request::{flush_date_url, schedule_url, terminals_url, url_of};

const BASE: &str = "http://www.wsdot.wa.gov/ferries/api/schedule/rest";

#[test]
fn an_address_is_base_path_and_access_code() {
    assert_eq!(url_of("abc", "/x/y"), format!("{}/x/y?apiaccesscode=abc", BASE));
    assert_eq!(url_of("", ""), format!("{}?apiaccesscode=", BASE));
}

#[test]
fn the_flush_date_has_a_fixed_path() {
    assert_eq!(
        flush_date_url("abc"),
        "http://www.wsdot.wa.gov/ferries/api/schedule/rest/cacheflushdate?apiaccesscode=abc"
    );
}

#[test]
fn terminals_are_listed_by_day() {
    let day = Date { year: 2015, month: 7, day: 8 };
    assert_eq!(
        terminals_url("abc", &day),
        "http://www.wsdot.wa.gov/ferries/api/schedule/rest/terminals/2015-7-8?apiaccesscode=abc"
    );
    let day = Date { year: 2026, month: 12, day: 31 };
    assert_eq!(terminals_url("k", &day), format!("{}/terminals/2026-12-31?apiaccesscode=k", BASE));
}

#[test]
fn schedules_are_asked_by_day_and_pair() {
    let day = Date { year: 2015, month: 7, day: 8 };
    assert_eq!(
        schedule_url("abc", &day, 7, 3),
        "http://www.wsdot.wa.gov/ferries/api/schedule/rest/schedule/2015-7-8/7/3?apiaccesscode=abc"
    );
    assert_eq!(
        schedule_url("abc", &day, 3, 7),
        format!("{}/schedule/2015-7-8/3/7?apiaccesscode=abc", BASE)
    );
    assert_eq!(
        schedule_url("abc", &day, -1, 20),
        format!("{}/schedule/2015-7-8/-1/20?apiaccesscode=abc", BASE)
    );
}

#[test]
fn numbers_in_a_path_are_written_as_std_writes_them() {
    let day = Date { year: -44, month: 3, day: 15 };
    assert_eq!(
        schedule_url("k", &day, i32::MIN, i32::MAX),
        format!(
            "{}/schedule/{}-{}-{}/{}/{}?apiaccesscode=k",
            BASE,
            -44,
            3,
            15,
            i32::MIN,
            i32::MAX
        )
    );
    let day = Date { year: i32::MAX, month: u32::MAX, day: 0 };
    assert_eq!(
        terminals_url("k", &day),
        format!("{}/terminals/{}-{}-{}?apiaccesscode=k", BASE, i32::MAX, u32::MAX, 0)
    );
}
