use blueprint_planner::types::Blueprint;
use blueprint_planner::types::BlueprintBook;
use blueprint_planner::types::DayOfWeek;
use blueprint_planner::types::Duration;
use blueprint_planner::types::HourSlot;
use blueprint_planner::types::LONGEST_TIMEDELTA;
use blueprint_planner::types::Priority;
use blueprint_planner::types::Recurrence;
use blueprint_planner::types::Slot;
use blueprint_planner::types::TimeUnit;
use blueprint_planner::types::WeekSlot;
use chrono::TimeDelta;
use chrono::Weekday;

#[test]
fn test_display() {
    let sut = Blueprint::new(
        "1",
        "Clean VAC filters",
        Duration::hours(1),
        Priority::Idle,
        Recurrence::Period {
            spacing: Duration::of(1, TimeUnit::Year),
        },
        Slot::Hour(HourSlot::Range { start: 10, end: 13 }),
    );

    assert_eq!("1 IDLE ^1y 1h 10:00-13:00", sut.to_string());

    let sut = Blueprint::new(
        "1",
        "Clean VAC filters",
        Duration::hours(1),
        Priority::Crit,
        Recurrence::Period {
            spacing: Duration::of(3, TimeUnit::Month),
        },
        Slot::Week(WeekSlot::workdays()),
    );
    assert_eq!("1 CRIT ^3mo 1h Mon-Fri", sut.to_string());
}

#[test]
fn test_dayofweek_ord() {
    assert!(DayOfWeek::Mon < DayOfWeek::Tue);
    assert!(DayOfWeek::Tue < DayOfWeek::Wed);
    assert!(DayOfWeek::Wed < DayOfWeek::Thu);
    assert!(DayOfWeek::Thu < DayOfWeek::Fri);
    assert!(DayOfWeek::Fri < DayOfWeek::Sat);
    assert!(DayOfWeek::Sat < DayOfWeek::Sun);
    assert!(DayOfWeek::Sun == DayOfWeek::Sun);
}

#[test]
fn test_timedelta() {
    let d = Duration::of(123, TimeUnit::Second);
    assert_eq!(d.timedelta(), TimeDelta::seconds(123));

    let d = Duration::minutes(123);
    assert_eq!(d.timedelta(), TimeDelta::minutes(123));

    let d = Duration::hours(123);
    assert_eq!(d.timedelta(), TimeDelta::hours(123));

    let d = Duration::of(123, TimeUnit::Day);
    assert_eq!(d.timedelta(), TimeDelta::days(123));

    let d = Duration::of(123, TimeUnit::Month);
    assert_eq!(d.timedelta(), TimeDelta::days(30 * 123));

    let d = Duration::of(123, TimeUnit::Year);
    assert_eq!(d.timedelta(), TimeDelta::days(365 * 123));
}

#[test]
fn test_add() {
    let a = Duration::of(60, TimeUnit::Second);
    let b = Duration::of(30, TimeUnit::Minute);
    let c = Duration::of(2, TimeUnit::Hour);

    assert_eq!(
        Duration::of(151, TimeUnit::Minute).seconds(),
        (a + b + c).seconds()
    );
}

#[test]
fn test_priority_ord() {
    assert!(Priority::Crit > Priority::High);
    assert!(Priority::High > Priority::Norm);
    assert!(Priority::Norm > Priority::Idle);
    assert!(Priority::Idle == Priority::Idle);
}

#[test]
fn display() {
    let sut = Recurrence::Once;
    assert_eq!("^1", sut.to_string());

    let sut = Recurrence::Times {
        count: 3,
        spacing: Duration::days(2),
    };
    assert_eq!("^{3,2d}", sut.to_string());

    let sut = Recurrence::Period {
        spacing: Duration::of(3, TimeUnit::Year),
    };
    assert_eq!("^3y", sut.to_string());
}

#[test]
fn test_is_valid() {
    let sut = HourSlot::Fixed { hour: 0 };
    assert!(sut.is_valid());

    let sut = HourSlot::Fixed { hour: 24 };
    assert!(!sut.is_valid());
}

#[test]
fn slots_test_is_valid() {
    let sut = HourSlot::Range { start: 0, end: 23 };
    assert!(sut.is_valid());

    // Wraps-around (e.g. 8:00 till 03:00 of the next day)
    let sut = HourSlot::Range { start: 8, end: 3 };
    assert!(sut.is_valid());

    let sut = HourSlot::Range { start: 8, end: 8 };
    assert!(sut.is_valid());
}

#[test]
fn test_matches() {
    let sut = HourSlot::Fixed { hour: 12 };
    assert!(sut.matches(12));
    assert!(!sut.matches(11));
    assert!(!sut.matches(13));
}

#[test]
fn slots_test_matches() {
    let sut = HourSlot::Range { start: 8, end: 3 };
    assert!(sut.matches(8));
    assert!(sut.matches(23));
    assert!(sut.matches(0));
    assert!(sut.matches(3));

    assert!(!sut.matches(4));
    assert!(!sut.matches(7));
}

#[test]
fn week_slots_test_matches() {
    let sut = WeekSlot::Fixed {
        day: DayOfWeek::Wed,
    };
    assert!(sut.matches(DayOfWeek::Wed));
    assert!(!sut.matches(DayOfWeek::Tue));
    assert!(!sut.matches(DayOfWeek::Thu));
}

#[test]
fn test_matches_wrap_around() {
    let sut = WeekSlot::Range {
        from: DayOfWeek::Fri,
        to: DayOfWeek::Mon,
    };
    assert!(sut.matches(DayOfWeek::Fri));
    assert!(sut.matches(DayOfWeek::Sat));
    assert!(sut.matches(DayOfWeek::Sun));
    assert!(sut.matches(DayOfWeek::Mon));

    assert!(!sut.matches(DayOfWeek::Thu));
    assert!(!sut.matches(DayOfWeek::Tue));
}

#[test]
fn test_timeunit_ord() {
    assert!(TimeUnit::Second < TimeUnit::Minute);
    assert!(TimeUnit::Minute < TimeUnit::Hour);
    assert!(TimeUnit::Hour < TimeUnit::Day);
    assert!(TimeUnit::Day < TimeUnit::Month);
    assert!(TimeUnit::Month < TimeUnit::Year);
    assert!(TimeUnit::Year == TimeUnit::Year);
}

#[test]
fn test_seconds() {
    assert_eq!(1, TimeUnit::Second.seconds());
    assert_eq!(60, TimeUnit::Minute.seconds());
    assert_eq!(3600, TimeUnit::Hour.seconds());
    assert_eq!(86400, TimeUnit::Day.seconds());
    assert_eq!(2592000, TimeUnit::Month.seconds());
    assert_eq!(31536000, TimeUnit::Year.seconds());
}

#[test]
fn hour_range_wraps_across_midnight_for_every_hour() {
    let sut = HourSlot::Range { start: 8, end: 3 };
    for hour in 0u8..24 {
        assert_eq!(sut.matches(hour), hour >= 8 || hour <= 3, "hour {}", hour);
    }
    let night = HourSlot::Range { start: 22, end: 3 };
    for hour in 0u8..24 {
        assert_eq!(night.matches(hour), hour >= 22 || hour <= 3, "hour {}", hour);
    }
}

#[test]
fn hour_range_of_one_hour_matches_that_hour_alone() {
    let sut = HourSlot::Range { start: 8, end: 8 };
    for hour in 0u8..24 {
        assert_eq!(sut.matches(hour), hour == 8, "hour {}", hour);
    }
}

#[test]
fn plain_hour_range_is_inclusive_at_both_ends() {
    let sut = HourSlot::Range { start: 8, end: 12 };
    assert!(!sut.matches(7));
    assert!(sut.matches(8));
    assert!(sut.matches(10));
    assert!(sut.matches(12));
    assert!(!sut.matches(13));
}

#[test]
fn hour_slot_anchor_is_fixed_hour_or_range_start() {
    assert_eq!(HourSlot::Fixed { hour: 8 }.anchor_hour(), 8);
    assert_eq!(HourSlot::Range { start: 22, end: 3 }.anchor_hour(), 22);
}

#[test]
fn hour_range_validity_needs_both_ends() {
    assert!(!HourSlot::Range { start: 24, end: 3 }.is_valid());
    assert!(!HourSlot::Range { start: 3, end: 24 }.is_valid());
    assert!(HourSlot::Fixed { hour: 23 }.is_valid());
    assert!(Slot::Week(WeekSlot::full()).is_valid());
    assert!(!Slot::Hour(HourSlot::Fixed { hour: 99 }).is_valid());
}

const DAYS: [DayOfWeek; 7] = [
    DayOfWeek::Mon,
    DayOfWeek::Tue,
    DayOfWeek::Wed,
    DayOfWeek::Thu,
    DayOfWeek::Fri,
    DayOfWeek::Sat,
    DayOfWeek::Sun,
];

#[test]
fn day_range_wraps_across_the_week_for_every_day() {
    let sut = WeekSlot::Range {
        from: DayOfWeek::Fri,
        to: DayOfWeek::Mon,
    };
    let expected = [true, false, false, false, true, true, true];
    for (day, hit) in DAYS.iter().zip(expected.iter()) {
        assert_eq!(sut.matches(*day), *hit, "{:?}", day);
    }
}

#[test]
fn day_range_of_one_day_matches_that_day_alone() {
    let sut = WeekSlot::Range {
        from: DayOfWeek::Wed,
        to: DayOfWeek::Wed,
    };
    for day in DAYS.iter() {
        assert_eq!(sut.matches(*day), *day == DayOfWeek::Wed, "{:?}", day);
    }
}

#[test]
fn named_day_ranges() {
    assert_eq!(
        WeekSlot::workdays(),
        WeekSlot::Range {
            from: DayOfWeek::Mon,
            to: DayOfWeek::Fri
        }
    );
    assert_eq!(
        WeekSlot::weekend(),
        WeekSlot::Range {
            from: DayOfWeek::Sat,
            to: DayOfWeek::Sun
        }
    );
    assert_eq!(
        WeekSlot::full(),
        WeekSlot::Range {
            from: DayOfWeek::Mon,
            to: DayOfWeek::Sun
        }
    );
    for day in DAYS.iter() {
        assert!(WeekSlot::full().matches(*day));
        assert_eq!(
            WeekSlot::workdays().matches(*day),
            !WeekSlot::weekend().matches(*day)
        );
    }
}

#[test]
fn day_positions_count_from_monday() {
    for (position, day) in DAYS.iter().enumerate() {
        assert_eq!(day.ordinal() as usize, position);
        assert_eq!(DayOfWeek::from_position(position as u8), *day);
    }
    assert_eq!(DayOfWeek::from_position(7), DayOfWeek::Sun);
    assert_eq!(DayOfWeek::from_position(255), DayOfWeek::Sun);
}

#[test]
fn day_of_week_is_the_calendar_weekday_of_the_same_name() {
    assert_eq!(DayOfWeek::from(Weekday::Mon), DayOfWeek::Mon);
    assert_eq!(DayOfWeek::from(Weekday::Tue), DayOfWeek::Tue);
    assert_eq!(DayOfWeek::from(Weekday::Wed), DayOfWeek::Wed);
    assert_eq!(DayOfWeek::from(Weekday::Thu), DayOfWeek::Thu);
    assert_eq!(DayOfWeek::from(Weekday::Fri), DayOfWeek::Fri);
    assert_eq!(DayOfWeek::from(Weekday::Sat), DayOfWeek::Sat);
    assert_eq!(DayOfWeek::from(Weekday::Sun), DayOfWeek::Sun);
    let day: DayOfWeek = Weekday::Sat.into();
    assert_eq!(day.ordinal() as u32, Weekday::Sat.num_days_from_monday());
}

#[test]
fn renders_units_priorities_and_days() {
    assert_eq!(TimeUnit::Second.as_str(), "s");
    assert_eq!(TimeUnit::Minute.as_str(), "min");
    assert_eq!(TimeUnit::Hour.as_str(), "h");
    assert_eq!(TimeUnit::Day.as_str(), "d");
    assert_eq!(TimeUnit::Month.as_str(), "mo");
    assert_eq!(TimeUnit::Year.as_str(), "y");
    assert_eq!(TimeUnit::Month.to_string(), "mo");
    assert_eq!(Priority::Idle.as_str(), "IDLE");
    assert_eq!(Priority::Norm.as_str(), "NORM");
    assert_eq!(Priority::High.as_str(), "HIGH");
    assert_eq!(Priority::Crit.as_str(), "CRIT");
    assert_eq!(Priority::Crit.to_string(), "CRIT");
    assert_eq!(DayOfWeek::Mon.as_str(), "Mon");
    assert_eq!(DayOfWeek::Sun.as_str(), "Sun");
    assert_eq!(DayOfWeek::Thu.to_string(), "Thu");
}

#[test]
fn renders_durations() {
    assert_eq!(Duration::of(3, TimeUnit::Month).to_string(), "3mo");
    assert_eq!(Duration::of(0, TimeUnit::Second).to_string(), "0s");
    assert_eq!(Duration::minutes(90).to_string(), "90min");
    assert_eq!(
        Duration::of(u64::MAX, TimeUnit::Year).to_string(),
        "18446744073709551615y"
    );
    assert_eq!(Duration::days(1000).to_string(), "1000d");
}

#[test]
fn renders_slots() {
    assert_eq!(HourSlot::Fixed { hour: 8 }.to_string(), "08:00");
    assert_eq!(HourSlot::Fixed { hour: 0 }.to_string(), "00:00");
    assert_eq!(HourSlot::Fixed { hour: 23 }.to_string(), "23:00");
    assert_eq!(
        HourSlot::Range { start: 22, end: 3 }.to_string(),
        "22:00-03:00"
    );
    assert_eq!(
        WeekSlot::Fixed {
            day: DayOfWeek::Wed
        }
        .to_string(),
        "Wed"
    );
    assert_eq!(WeekSlot::weekend().to_string(), "Sat-Sun");
    assert_eq!(Slot::Hour(HourSlot::Fixed { hour: 8 }).to_string(), "08:00");
    assert_eq!(Slot::Week(WeekSlot::workdays()).to_string(), "Mon-Fri");
}

#[test]
fn renders_recurrences_with_large_counts() {
    let sut = Recurrence::Times {
        count: 120,
        spacing: Duration::hours(36),
    };
    assert_eq!(sut.to_string(), "^{120,36h}");
    let sut = Recurrence::Times {
        count: 0,
        spacing: Duration::of(0, TimeUnit::Second),
    };
    assert_eq!(sut.to_string(), "^{0,0s}");
}

#[test]
fn renders_a_book_line_by_line() {
    let daily = Recurrence::Period {
        spacing: Duration::of(1, TimeUnit::Day),
    };
    let book = BlueprintBook::from(vec![
        Blueprint::new(
            "1",
            "Task A",
            Duration::hours(1),
            Priority::Crit,
            daily,
            Slot::Hour(HourSlot::Fixed { hour: 8 }),
        ),
        Blueprint::new(
            "2",
            "Task B",
            Duration::hours(1),
            Priority::Norm,
            daily,
            Slot::Hour(HourSlot::Range { start: 8, end: 12 }),
        ),
    ]);
    assert_eq!(
        book.to_string(),
        "1 CRIT ^1d 1h 08:00\n2 NORM ^1d 1h 08:00-12:00\n"
    );
    assert_eq!(BlueprintBook::from(vec![]).to_string(), "");
}

#[test]
fn blueprint_hands_back_what_it_was_made_of() {
    let spacing = Duration::of(3, TimeUnit::Month);
    let sut = Blueprint::new(
        "filters",
        "Clean VAC filters",
        Duration::minutes(45),
        Priority::High,
        Recurrence::Period { spacing },
        Slot::Week(WeekSlot::weekend()),
    );
    assert_eq!(sut.id(), "filters");
    assert_eq!(sut.description(), "Clean VAC filters");
    assert_eq!(sut.estimated_duration(), Duration::minutes(45));
    assert_eq!(sut.priority(), Priority::High);
    assert_eq!(sut.recurrence(), Recurrence::Period { spacing });
    assert_eq!(sut.preferred_slot(), Slot::Week(WeekSlot::weekend()));
    let book = BlueprintBook::from(vec![sut.clone()]);
    assert_eq!(book.entries(), &[sut][..]);
}

#[test]
fn duration_seconds_by_unit() {
    assert_eq!(Duration::of(7, TimeUnit::Second).seconds(), 7);
    assert_eq!(Duration::minutes(2).seconds(), 120);
    assert_eq!(Duration::hours(3).seconds(), 10_800);
    assert_eq!(Duration::days(2).seconds(), 172_800);
    assert_eq!(Duration::of(2, TimeUnit::Month).seconds(), 5_184_000);
    assert_eq!(Duration::of(2, TimeUnit::Year).seconds(), 63_072_000);
    assert_eq!(Duration::hours(3).checked_seconds(), Some(10_800));
    assert_eq!(Duration::of(u64::MAX, TimeUnit::Minute).checked_seconds(), None);
    assert_eq!(
        Duration::of(u64::MAX, TimeUnit::Second).checked_seconds(),
        Some(u64::MAX)
    );
}

#[test]
fn timedelta_goes_by_the_span_alone() {
    assert_eq!(
        Duration::minutes(2).timedelta(),
        Duration::of(120, TimeUnit::Second).timedelta()
    );
    assert_eq!(Duration::hours(48).timedelta(), Duration::days(2).timedelta());
    assert_eq!(Duration::of(0, TimeUnit::Year).timedelta(), TimeDelta::zero());
    assert_eq!(Duration::hours(2).timedelta().num_seconds(), 7200);
    let longest = Duration::of(LONGEST_TIMEDELTA, TimeUnit::Second);
    assert_eq!(longest.timedelta().num_seconds(), i64::MAX / 1000);
}

#[test]
fn timedelta_is_made_where_it_can_hold_the_span() {
    assert_eq!(LONGEST_TIMEDELTA as i64, i64::MAX / 1000);
    assert_eq!(
        Duration::hours(2).checked_timedelta(),
        Some(TimeDelta::seconds(7200))
    );
    assert_eq!(
        Duration::of(LONGEST_TIMEDELTA, TimeUnit::Second).checked_timedelta(),
        TimeDelta::try_seconds(i64::MAX / 1000)
    );
    assert_eq!(
        Duration::of(LONGEST_TIMEDELTA + 1, TimeUnit::Second).checked_timedelta(),
        None
    );
    assert_eq!(
        Duration::of(u64::MAX, TimeUnit::Year).checked_timedelta(),
        None
    );
    assert_eq!(
        Duration::of(1 << 40, TimeUnit::Year).checked_timedelta(),
        None
    );
}

#[test]
fn sum_of_durations_is_in_seconds() {
    let sum = Duration::hours(1) + Duration::minutes(30);
    assert_eq!(sum, Duration::of(5400, TimeUnit::Second));
    assert_eq!(sum.to_string(), "5400s");
}
