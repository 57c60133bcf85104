use chrono::{DateTime, Datelike, Duration, NaiveDate, NaiveDateTime};
use remtodo::dates::{
    civil_of, day_of_civil, length_of_month, Date, Timestamp, HEADROOM, MAX_DAYS, MIN_DAYS,
};

fn day(y: i32, m: u32, d: u32) -> Date {
    let date = NaiveDate::from_ymd_opt(y, m, d).unwrap();
    Date::from_days_ce(date.num_days_from_ce()).unwrap()
}

fn time(s: &str) -> Timestamp {
    let t = NaiveDateTime::parse_from_str(s, "%Y-%m-%d %H:%M:%S%.f")
        .unwrap()
        .and_utc();
    Timestamp {
        secs: t.timestamp(),
        nanos: t.timestamp_subsec_nanos(),
    }
}

#[test]
fn calendar_ends_where_that_of_chrono_ends() {
    assert_eq!(NaiveDate::MIN.num_days_from_ce(), MIN_DAYS);
    assert_eq!(NaiveDate::MAX.num_days_from_ce(), MAX_DAYS);
    assert!(Date::from_days_ce(MIN_DAYS).is_some());
    assert!(Date::from_days_ce(MAX_DAYS).is_some());
    assert!(Date::from_days_ce(MIN_DAYS - 1).is_none());
    assert!(Date::from_days_ce(MAX_DAYS + 1).is_none());
}

#[test]
fn offsets_have_room_behind_a_date_with_headroom() {
    let last = Date::from_days_ce(MAX_DAYS - HEADROOM).unwrap();
    assert!(last.leaves_room());
    assert!(!Date::from_days_ce(MAX_DAYS - HEADROOM + 1).unwrap().leaves_room());
    assert_eq!(Date::parse_tag("255w", last).unwrap().days_ce(), MAX_DAYS);
    for text in ["255d", "255b", "255m", "255y", "mon"] {
        assert!(Date::parse_tag(text, last).is_some(), "{text}");
    }
}

#[test]
fn words_of_a_filter_have_room_around_an_inner_date() {
    let last = NaiveDate::from_num_days_from_ce_opt(MAX_DAYS - 7).unwrap();
    let first = NaiveDate::from_num_days_from_ce_opt(MIN_DAYS + 36500).unwrap();
    for (base, outer) in [(last, MAX_DAYS - 6), (first, MIN_DAYS + 36499)] {
        assert!(Date::from_days_ce(base.num_days_from_ce()).unwrap().is_inner());
        assert!(!Date::from_days_ce(outer).unwrap().is_inner());
        for word in ["overdue", "soon", "-soon", "mon", "-sun", "tomorrow", "yesterday", "dec", "-jan"]
        {
            assert!(todo_lib::human_date::human_to_date(base, word, 7).is_ok(), "{word}");
        }
    }
}

#[test]
fn dates_at_the_end_of_the_calendar_are_brought_within_reach() {
    for days in [day(2026, 2, 25).days_ce(), MIN_DAYS, MAX_DAYS - HEADROOM] {
        let date = Date::from_days_ce(days).unwrap();
        assert_eq!(date.within_reach(), date);
    }
    for days in [MAX_DAYS - HEADROOM + 1, MAX_DAYS] {
        let date = Date::from_days_ce(days).unwrap();
        assert_eq!(date.within_reach(), day(2000, 1, 1));
    }
    assert_eq!(Date::plain(), day(2000, 1, 1));
}

#[test]
fn days_are_told_as_chrono_tells_them() {
    let mut days: Vec<i32> = (MIN_DAYS..MAX_DAYS).step_by(9973).collect();
    days.extend([MIN_DAYS, MAX_DAYS, -366, -365, -1, 0, 1, 59, 60, 146096, 146097, 146098]);
    days.extend(730000..731500);
    for n in days {
        let date = NaiveDate::from_num_days_from_ce_opt(n).unwrap();
        let (y, m, d) = civil_of(n as i64);
        assert_eq!((y, m, d), (date.year() as i64, date.month() as i64, date.day() as i64));
        assert_eq!(day_of_civil(y, m, d), n as i64);
    }
    assert_eq!(length_of_month(2000, 2), 29);
    assert_eq!(length_of_month(1900, 2), 28);
    assert_eq!(length_of_month(-4, 2), 29);
    assert_eq!(length_of_month(2026, 12), 31);
}

#[test]
fn dates_are_written_and_read_back() {
    assert_eq!(day(2026, 3, 4).to_text(), "2026-03-04");
    assert_eq!(day(1, 1, 1).to_text(), "0001-01-01");
    assert_eq!(day(9999, 12, 31).to_text(), "9999-12-31");
    assert_eq!(day(9999, 12, 31).days_ce(), 3652059);
    for days in [1, 2, 365, 366, 739672, 1000000, 3652058, 3652059] {
        let d = Date::from_days_ce(days).unwrap();
        assert_eq!(Date::parse(&d.to_text()), Some(d));
        assert_eq!(Date::parse_tag(&d.to_text(), day(2026, 2, 25)), Some(d));
    }
}

#[test]
fn texts_that_are_no_dates_are_refused() {
    assert_eq!(Date::parse("2026-02-30"), None);
    assert_eq!(Date::parse("tomorrow"), None);
    assert_eq!(Date::parse(""), None);
    assert_eq!(Date::parse_tag("someday", day(2026, 2, 25)), None);
}

#[test]
fn tags_give_offsets_from_the_base() {
    let base = day(2026, 2, 25);
    assert_eq!(Date::parse_tag("1d", base), Some(day(2026, 2, 26)));
    assert_eq!(Date::parse_tag("2w", base), Some(day(2026, 3, 11)));
    assert_eq!(Date::parse_tag("2026-02-30", base), Some(day(2026, 2, 28)));
}

#[test]
fn today_is_that_of_the_local_clock() {
    let before = chrono::Local::now().date_naive().num_days_from_ce();
    let today = Date::today().days_ce();
    let after = chrono::Local::now().date_naive().num_days_from_ce();
    assert!(before <= today && today <= after);
}

#[test]
fn timestamps_are_read_in_utc() {
    let t = Timestamp::parse("2026-02-25T10:00:00Z").unwrap();
    assert_eq!(t, time("2026-02-25 10:00:00"));
    assert_eq!(
        DateTime::from_timestamp(t.secs, t.nanos).unwrap().to_rfc3339(),
        "2026-02-25T10:00:00+00:00"
    );
    assert_eq!(Timestamp::parse("2026-02-25 10:00:00"), None);
    assert_eq!(Timestamp::parse("2026-02-25T10:00:00.5Z"), None);
}

#[test]
fn later_means_by_more_than_the_tolerance() {
    let early = time("2026-02-25 10:00:00");
    let late = time("2026-02-25 10:00:02");
    assert!(late.later_than(&early, 0));
    assert!(late.later_than(&early, 1));
    assert!(!late.later_than(&early, 2));
    assert!(!early.later_than(&early, 0));
    assert!(!early.later_than(&late, 0));
    let half = time("2026-02-25 10:00:02.5");
    assert!(half.later_than(&early, 2));
    assert!(!half.later_than(&late, 1));
}

#[test]
fn later_agrees_with_chrono() {
    let times = [
        time("2026-02-25 10:00:00"),
        time("2026-02-25 10:00:00.999999999"),
        time("2026-02-25 10:00:01"),
        time("1969-12-31 23:59:59.25"),
        time("1970-01-01 00:00:00"),
    ];
    for a in times {
        for b in times {
            for d in [-2, -1, 0, 1, 2, 86400] {
                let x = DateTime::from_timestamp(a.secs, a.nanos).unwrap();
                let y = DateTime::from_timestamp(b.secs, b.nanos).unwrap();
                assert_eq!(a.later_than(&b, d), x > y + Duration::seconds(d));
            }
        }
    }
}
