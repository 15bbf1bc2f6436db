use blueprint_planner::types::Clock;
use blueprint_planner::types::DayOfWeek;
use blueprint_planner::types::Moment;
use blueprint_planner::types::Shift;
use blueprint_planner::types::Zone;
use blueprint_planner::types::EARLIEST;
use blueprint_planner::types::LAST_START;
use blueprint_planner::types::LATEST;
use chrono::DateTime;
use chrono::Datelike;
use chrono::FixedOffset;
use chrono::TimeZone;
use chrono::Timelike;

/// Central European time around the end of summer time 2026.
fn europe() -> Zone {
    Zone::new(
        7200,
        vec![Shift {
            at: 1_792_890_000,
            offset: 3600,
        }],
    )
    .unwrap()
}

#[test]
fn moment_is_made_within_range_only() {
    assert!(Moment::new(0, 0).is_some());
    assert!(Moment::new(EARLIEST, -86_399).is_some());
    assert!(Moment::new(LATEST, 86_399).is_some());
    assert!(Moment::new(EARLIEST - 1, 0).is_none());
    assert!(Moment::new(LATEST + 1, 0).is_none());
    assert!(Moment::new(0, 86_400).is_none());
    assert!(Moment::new(0, -86_400).is_none());
    let moment = Moment::new(1_792_742_400, 7200).unwrap();
    assert_eq!(moment.timestamp(), 1_792_742_400);
    assert_eq!(moment.offset(), 7200);
}

#[test]
fn range_of_moments_is_the_years_0000_to_9999() {
    let first = DateTime::from_timestamp(EARLIEST, 0).unwrap();
    assert_eq!(first.to_rfc3339(), "0000-01-01T00:00:00+00:00");
    let last = DateTime::from_timestamp(LATEST, 0).unwrap();
    assert_eq!(last.to_rfc3339(), "9999-12-31T23:59:59+00:00");
    assert_eq!(LAST_START, LATEST - 9 * 86_400);
}

#[test]
fn moment_renders_as_rfc3339() {
    let moment = Moment::new(1_792_742_400, 7200).unwrap();
    assert_eq!(moment.to_rfc3339(), "2026-10-23T10:00:00+02:00");
    let moment = Moment::new(1_792_742_400, 0).unwrap();
    assert_eq!(moment.to_rfc3339(), "2026-10-23T08:00:00+00:00");
    let moment = Moment::new(0, -16_200).unwrap();
    assert_eq!(moment.to_rfc3339(), "1969-12-31T19:30:00-04:30");
    let moment = Moment::new(EARLIEST, 0).unwrap();
    assert_eq!(moment.to_rfc3339(), "0000-01-01T00:00:00+00:00");
    let moment = Moment::new(LATEST, 3600).unwrap();
    assert_eq!(moment.to_rfc3339(), "+10000-01-01T00:59:59+01:00");
}

#[test]
fn hour_is_that_of_the_local_clock() {
    assert_eq!(Moment::new(0, 0).unwrap().hour(), 0);
    assert_eq!(Moment::new(0, 3600).unwrap().hour(), 1);
    assert_eq!(Moment::new(0, -3600).unwrap().hour(), 23);
    assert_eq!(Moment::new(-1, 0).unwrap().hour(), 23);
    assert_eq!(Moment::new(1_792_742_400, 7200).unwrap().hour(), 10);
    assert_eq!(Moment::new(1_792_742_400 + 3599, 7200).unwrap().hour(), 10);
    assert_eq!(Moment::new(1_792_742_400 + 3600, 7200).unwrap().hour(), 11);
    assert_eq!(Moment::new(EARLIEST, -1).unwrap().hour(), 23);
}

#[test]
fn weekday_is_that_of_the_local_date() {
    // The epoch fell on a Thursday.
    assert_eq!(Moment::new(0, 0).unwrap().weekday(), DayOfWeek::Thu);
    assert_eq!(Moment::new(-1, 0).unwrap().weekday(), DayOfWeek::Wed);
    assert_eq!(Moment::new(0, -1).unwrap().weekday(), DayOfWeek::Wed);
    assert_eq!(Moment::new(86_399, 1).unwrap().weekday(), DayOfWeek::Fri);
    // 2026-10-23 is a Friday.
    assert_eq!(
        Moment::new(1_792_742_400, 7200).unwrap().weekday(),
        DayOfWeek::Fri
    );
    assert_eq!(
        Moment::new(1_792_706_400, 7200).unwrap().weekday(),
        DayOfWeek::Fri
    );
    assert_eq!(
        Moment::new(1_792_706_400, 0).unwrap().weekday(),
        DayOfWeek::Thu
    );
}

#[test]
fn hour_and_weekday_agree_with_the_calendar_over_many_moments() {
    let days = [
        DayOfWeek::Mon,
        DayOfWeek::Tue,
        DayOfWeek::Wed,
        DayOfWeek::Thu,
        DayOfWeek::Fri,
        DayOfWeek::Sat,
        DayOfWeek::Sun,
    ];
    let offsets = [-86_399, -43_200, -16_200, -1, 0, 1, 3600, 20_700, 50_400, 86_399];
    let mut secs: i64 = -5_000_000_000;
    while secs < 8_000_000_000 {
        for offset in offsets.iter() {
            let moment = Moment::new(secs, *offset).unwrap();
            let local = secs + *offset as i64;
            assert_eq!(moment.hour() as i64, local.rem_euclid(86_400) / 3600);
            let position = (local.div_euclid(86_400) + 3).rem_euclid(7);
            assert_eq!(moment.weekday(), days[position as usize]);
            let seen = FixedOffset::east_opt(*offset)
                .unwrap()
                .timestamp_opt(secs, 0)
                .unwrap();
            assert_eq!(moment.hour() as u32, seen.hour());
            assert_eq!(
                moment.weekday().ordinal() as u32,
                seen.weekday().num_days_from_monday()
            );
            assert_eq!(moment.weekday(), DayOfWeek::from(seen.weekday()));
            assert_eq!(moment.to_rfc3339(), seen.to_rfc3339());
        }
        secs += 77_777_777;
    }
}

#[test]
fn zone_rules_must_be_valid() {
    assert!(Zone::fixed(0).is_some());
    assert!(Zone::fixed(86_399).is_some());
    assert!(Zone::fixed(86_400).is_none());
    assert!(Zone::fixed(-86_400).is_none());
    assert!(Zone::new(0, vec![]).is_some());
    assert!(Zone::new(86_400, vec![]).is_none());
    let early = Shift { at: 10, offset: 3600 };
    let late = Shift { at: 20, offset: 0 };
    assert!(Zone::new(0, vec![early, late]).is_some());
    assert!(Zone::new(0, vec![late, early]).is_none());
    assert!(Zone::new(0, vec![early, early]).is_none());
    let wide = Shift {
        at: 30,
        offset: 86_400,
    };
    assert!(Zone::new(0, vec![early, late, wide]).is_none());
}

#[test]
fn zone_offset_is_that_of_the_last_shift_before() {
    let zone = Zone::new(
        3600,
        vec![
            Shift {
                at: 100,
                offset: 7200,
            },
            Shift {
                at: 200,
                offset: 3600,
            },
            Shift {
                at: 300,
                offset: -1800,
            },
        ],
    )
    .unwrap();
    assert_eq!(zone.offset_for(i64::MIN), 3600);
    assert_eq!(zone.offset_for(99), 3600);
    assert_eq!(zone.offset_for(100), 7200);
    assert_eq!(zone.offset_for(199), 7200);
    assert_eq!(zone.offset_for(200), 3600);
    assert_eq!(zone.offset_for(299), 3600);
    assert_eq!(zone.offset_for(300), -1800);
    assert_eq!(zone.offset_for(i64::MAX), -1800);
    assert_eq!(Zone::fixed(-18_000).unwrap().offset_for(12_345), -18_000);
}

#[test]
fn zone_gives_moments_their_offset() {
    let zone = europe();
    let before = zone.moment_at(1_792_889_999).unwrap();
    assert_eq!(before.to_rfc3339(), "2026-10-25T02:59:59+02:00");
    let after = zone.moment_at(1_792_890_000).unwrap();
    assert_eq!(after.to_rfc3339(), "2026-10-25T02:00:00+01:00");
    assert!(zone.moment_at(LATEST + 1).is_none());
    assert!(zone.moment_at(EARLIEST - 1).is_none());
}

#[test]
fn clock_needs_room_for_its_window() {
    assert!(Clock::new(EARLIEST, Zone::fixed(0).unwrap()).is_some());
    assert!(Clock::new(LAST_START, Zone::fixed(0).unwrap()).is_some());
    assert!(Clock::new(LAST_START + 1, Zone::fixed(0).unwrap()).is_none());
    assert!(Clock::new(EARLIEST - 1, Zone::fixed(0).unwrap()).is_none());
    let clock = Clock::new(1_792_706_400, europe()).unwrap();
    assert_eq!(clock.reading(), 1_792_706_400);
    assert_eq!(clock.local_zone(), &europe());
}

#[test]
fn window_lasts_seven_days_where_the_offset_stays() {
    let clock = Clock::new(1_792_706_400, Zone::fixed(7200).unwrap()).unwrap();
    assert_eq!(clock.window_end(), 1_792_706_400 + 7 * 86_400);
    let clock = Clock::new(0, Zone::fixed(-3600).unwrap()).unwrap();
    assert_eq!(clock.window_end(), 604_800);
}

#[test]
fn window_ends_on_the_same_reading_of_the_clock_across_a_shift() {
    // 2026-10-23T00:00:00+02:00 to 2026-10-30T00:00:00+01:00: seven days and an hour.
    let zone = europe();
    let clock = Clock::new(1_792_706_400, europe()).unwrap();
    let end = clock.window_end();
    assert_eq!(end, 1_793_314_800);
    assert_eq!(end - clock.reading(), 7 * 86_400 + 3600);
    assert_eq!(
        zone.moment_at(clock.reading()).unwrap().to_rfc3339(),
        "2026-10-23T00:00:00+02:00"
    );
    assert_eq!(
        zone.moment_at(end).unwrap().to_rfc3339(),
        "2026-10-30T00:00:00+01:00"
    );
    // Clocks go forward: 2027-03-24T12:00:00+01:00 to 2027-03-31T12:00:00+02:00.
    let spring = Zone::new(
        3600,
        vec![Shift {
            at: 1_806_195_600,
            offset: 7200,
        }],
    )
    .unwrap();
    let start = 1_806_195_600 - 4 * 86_400 + 10 * 3600;
    let clock = Clock::new(start, spring).unwrap();
    assert_eq!(clock.window_end() - start, 7 * 86_400 - 3600);
}

#[test]
fn window_lasts_seven_times_24_hours_where_the_reading_does_not_exist() {
    // The clocks go forward by an hour half an hour before the week is over:
    // the reading of seven days later is skipped.
    let start = 1_000_000_000;
    let zone = Zone::new(
        0,
        vec![Shift {
            at: start + 7 * 86_400 - 1800,
            offset: 3600,
        }],
    )
    .unwrap();
    let clock = Clock::new(start, zone).unwrap();
    assert_eq!(clock.window_end(), start + 7 * 86_400);
}
