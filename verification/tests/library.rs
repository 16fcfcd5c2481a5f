use sstra::date::count_days;
use sstra::date::count_days_until_today;
use sstra::date::day_number;
use sstra::date::days_in_month;
use sstra::date::is_leap_year;
use sstra::date::parse_date;
use sstra::date::period_from;
use sstra::date::Date;
use sstra::date::DateError;
use sstra::pipeline::check_benchmark;
use sstra::pipeline::check_window;
use sstra::pipeline::query_window;
use sstra::pipeline::sma_window_count;
use sstra::pipeline::start_schedule;
use sstra::pipeline::BenchmarkCache;
use sstra::pipeline::ConfigError;
use sstra::pipeline::Scheduler;
use sstra::pipeline::SchedulerAction;
use sstra::pipeline::StatsError;
use sstra::text::format_header;
use sstra::text::format_row;
use sstra::text::i64_to_string;
use sstra::text::parse_period_days;
use sstra::text::period_label;
use sstra::text::u64_to_string;

#[test]
fn calculates_period() {
    let begin_date = String::from("2020-11-01");
    let end_date = String::from("2020-12-01");
    assert_eq!(
        String::from("30d"),
        count_days(&begin_date, &end_date).unwrap()
    );
}

#[test]
fn counts_days_backwards_as_negative() {
    assert_eq!(
        String::from("-30d"),
        count_days("2020-12-01", "2020-11-01").unwrap()
    );
}

#[test]
fn counts_a_single_day() {
    assert_eq!(String::from("1d"), count_days("1970-01-01", "1970-01-02").unwrap());
    assert_eq!(String::from("0d"), count_days("1970-01-01", "1970-01-01").unwrap());
}

#[test]
fn counts_days_across_leap_februaries() {
    assert_eq!(String::from("29d"), count_days("2020-02-01", "2020-03-01").unwrap());
    assert_eq!(String::from("28d"), count_days("2021-02-01", "2021-03-01").unwrap());
    assert_eq!(String::from("28d"), count_days("1900-02-01", "1900-03-01").unwrap());
    assert_eq!(String::from("29d"), count_days("2000-02-01", "2000-03-01").unwrap());
}

#[test]
fn counts_days_across_years() {
    assert_eq!(String::from("366d"), count_days("2020-01-01", "2021-01-01").unwrap());
    assert_eq!(String::from("365d"), count_days("2021-01-01", "2022-01-01").unwrap());
}

#[test]
fn counts_days_against_known_anchors() {
    // 2020-11-01 is Unix day 18567
    assert_eq!(String::from("18567d"), count_days("1970-01-01", "2020-11-01").unwrap());
    // 10000 years hold 2425 leap days: 10000 * 365 + 2425 - 1 days lie
    // between the first and the last representable date
    assert_eq!(String::from("3652424d"), count_days("0000-01-01", "9999-12-31").unwrap());
}

#[test]
fn rejects_malformed_dates() {
    assert_eq!(Err(DateError::Malformed), count_days("2020-11-1", "2020-12-01"));
    assert_eq!(Err(DateError::Malformed), count_days("2020-11-01", "2020/12/01"));
    assert_eq!(Err(DateError::Malformed), parse_date("20-01-01"));
    assert_eq!(Err(DateError::Malformed), parse_date("2020-1x-01"));
    assert_eq!(Err(DateError::Malformed), parse_date(""));
}

#[test]
fn rejects_impossible_dates() {
    assert_eq!(Err(DateError::OutOfRange), parse_date("2020-13-01"));
    assert_eq!(Err(DateError::OutOfRange), parse_date("2020-00-10"));
    assert_eq!(Err(DateError::OutOfRange), parse_date("2020-02-30"));
    assert_eq!(Err(DateError::OutOfRange), parse_date("2021-02-29"));
    assert_eq!(Err(DateError::OutOfRange), count_days("2020-02-30", "2020-03-01"));
}

#[test]
fn parses_dates_into_fields() {
    assert_eq!(
        Ok(Date { year: 2020, month: 11, day: 1 }),
        parse_date("2020-11-01")
    );
    assert_eq!(Ok(Date { year: 0, month: 1, day: 1 }), parse_date("0000-01-01"));
    assert_eq!(Ok(Date { year: 9999, month: 12, day: 31 }), parse_date("9999-12-31"));
}

#[test]
fn knows_leap_years_and_month_lengths() {
    assert!(is_leap_year(2020));
    assert!(!is_leap_year(2021));
    assert!(!is_leap_year(1900));
    assert!(is_leap_year(2000));
    assert_eq!(29, days_in_month(2020, 2));
    assert_eq!(28, days_in_month(2021, 2));
    assert_eq!(31, days_in_month(2021, 1));
    assert_eq!(30, days_in_month(2021, 4));
}

#[test]
fn numbers_days_from_the_epoch_start() {
    let first = Date { year: 0, month: 1, day: 1 };
    assert_eq!(0, day_number(&first));
    let second = Date { year: 0, month: 1, day: 2 };
    assert_eq!(1, day_number(&second));
    let next_year = Date { year: 1, month: 1, day: 1 };
    assert_eq!(366, day_number(&next_year));
}

#[test]
fn counts_days_until_today_from_a_past_date() {
    let period = count_days_until_today("2020-01-01").unwrap();
    let days = parse_period_days(&period).unwrap();
    assert!(days > 2000);
    assert_eq!(Err(DateError::Malformed), count_days_until_today("not-a-date"));
}

#[test]
fn renders_the_period_from_a_clock_reading() {
    let from = Date { year: 2020, month: 11, day: 1 };
    assert_eq!(Ok(String::from("30d")), period_from(from, 2020, 12, 1));
    let later = Date { year: 2020, month: 12, day: 1 };
    assert_eq!(Ok(String::from("-30d")), period_from(later, 2020, 11, 1));
    assert_eq!(Err(DateError::OutOfRange), period_from(from, 10000, 1, 1));
    assert_eq!(Err(DateError::OutOfRange), period_from(from, -5, 1, 1));
    assert_eq!(Err(DateError::OutOfRange), period_from(from, 2021, 2, 29));
}

#[test]
fn renders_decimal_strings() {
    assert_eq!(String::from("0"), u64_to_string(0));
    assert_eq!(String::from("30"), u64_to_string(30));
    assert_eq!(String::from("18446744073709551615"), u64_to_string(u64::MAX));
    assert_eq!(String::from("-5"), i64_to_string(-5));
    assert_eq!(String::from("1234"), i64_to_string(1234));
    assert_eq!(String::from("-9223372036854775808"), i64_to_string(i64::MIN));
    assert_eq!(String::from("45d"), period_label(45));
    assert_eq!(String::from("-30d"), period_label(-30));
}

#[test]
fn parses_period_descriptors() {
    assert_eq!(Some(45), parse_period_days("45d"));
    assert_eq!(Some(0), parse_period_days("0d"));
    assert_eq!(Some(-30), parse_period_days("-30d"));
    assert_eq!(Some(123456789012345678), parse_period_days("123456789012345678d"));
    assert_eq!(None, parse_period_days("30"));
    assert_eq!(None, parse_period_days("d"));
    assert_eq!(None, parse_period_days(""));
    assert_eq!(None, parse_period_days("030d"));
    assert_eq!(None, parse_period_days("-0d"));
    assert_eq!(None, parse_period_days("3x0d"));
    assert_eq!(None, parse_period_days("9999999999999999999d"));
}

#[test]
fn period_descriptors_round_trip() {
    for days in [-400i64, -30, -1, 0, 1, 29, 30, 45, 366, 3_659_634] {
        assert_eq!(Some(days), parse_period_days(&period_label(days)));
    }
}

#[test]
fn guards_the_moving_average_window() {
    assert_eq!(Ok(()), check_window(45, 30));
    assert_eq!(Ok(()), check_window(30, 30));
    assert_eq!(Err(StatsError::WindowExceedsSeries), check_window(10, 30));
    assert_eq!(Err(StatsError::ZeroWindow), check_window(10, 0));
}

#[test]
fn validates_query_windows() {
    assert_eq!(Some(30), query_window(30));
    assert_eq!(Some(0), query_window(0));
    assert_eq!(None, query_window(-1));
}

#[test]
fn holds_series_against_the_benchmark_length() {
    assert_eq!(Ok(()), check_benchmark(Some(45), 45));
    assert_eq!(Err(StatsError::BenchmarkLengthMismatch), check_benchmark(Some(44), 45));
    assert_eq!(Err(StatsError::BenchmarkLengthMismatch), check_benchmark(None, 45));
}

#[test]
fn counts_sliding_windows() {
    assert_eq!(5, sma_window_count(3, 7));
    assert_eq!(16, sma_window_count(30, 45));
    assert_eq!(1, sma_window_count(30, 30));
    assert_eq!(0, sma_window_count(30, 10));
}

#[test]
fn rejects_a_period_shorter_than_the_window() {
    let symbols = vec![String::from("AAPL")];
    let r = start_schedule(symbols, String::from("2026-10-02"), "10d", 30);
    assert!(matches!(r, Err(ConfigError::PeriodTooShort)));
    let symbols = vec![String::from("AAPL")];
    let r = start_schedule(symbols, String::from("2026-09-12"), "30d", 30);
    assert!(matches!(r, Err(ConfigError::PeriodTooShort)));
    let symbols = vec![String::from("AAPL")];
    let r = start_schedule(symbols, String::from("nonsense"), "soon", 30);
    assert!(matches!(r, Err(ConfigError::InvalidPeriod)));
}

#[test]
fn accepts_a_period_longer_than_the_window() {
    let symbols = vec![String::from("AAPL"), String::from("MSFT")];
    let sched = start_schedule(symbols, String::from("2026-08-28"), "45d", 30).unwrap();
    assert_eq!(0, sched.next);
    assert_eq!(2, sched.symbols.len());
}

#[test]
fn upper_cases_symbols_on_startup() {
    let symbols = vec![String::from("aapl"), String::from("msft"), String::from("^gspc")];
    let mut sched = start_schedule(symbols, String::from("2026-08-28"), "45d", 30).unwrap();
    match sched.next_action() {
        SchedulerAction::Fetch(q) => assert_eq!("AAPL", q.symbol),
        _ => panic!("expected a fetch"),
    }
    match sched.next_action() {
        SchedulerAction::Fetch(q) => assert_eq!("MSFT", q.symbol),
        _ => panic!("expected a fetch"),
    }
    match sched.next_action() {
        SchedulerAction::Fetch(q) => assert_eq!("^GSPC", q.symbol),
        _ => panic!("expected a fetch"),
    }
}

#[test]
fn schedules_symbols_in_order_then_sleeps() {
    let symbols = vec![String::from("AAPL"), String::from("MSFT")];
    let mut sched = Scheduler::new(symbols, String::from("2020-11-01"), 30);
    match sched.next_action() {
        SchedulerAction::Fetch(q) => {
            assert_eq!("AAPL", q.symbol);
            assert_eq!("2020-11-01", q.period_start);
            assert_eq!(30, q.mov_avg_num_days);
        }
        _ => panic!("expected a fetch"),
    }
    match sched.next_action() {
        SchedulerAction::Fetch(q) => assert_eq!("MSFT", q.symbol),
        _ => panic!("expected a fetch"),
    }
    assert!(matches!(sched.next_action(), SchedulerAction::Sleep));
    assert!(matches!(sched.next_action(), SchedulerAction::Wake));
    match sched.next_action() {
        SchedulerAction::Fetch(q) => assert_eq!("AAPL", q.symbol),
        _ => panic!("expected the next tick to restart the list"),
    }
}

#[test]
fn fetches_the_benchmark_exactly_once() {
    let mut cache = BenchmarkCache::new();
    assert_eq!(None, cache.recorded_len());
    let mut provider_calls = 0;
    for _symbol in ["AAPL", "MSFT", "UBER"] {
        if cache.needs_fetch() {
            provider_calls += 1;
            cache.record(45);
        }
    }
    assert_eq!(1, provider_calls);
    assert_eq!(Some(45), cache.recorded_len());
}

#[test]
fn formats_rows_and_headers() {
    let row = format_row(
        "2020-11-01",
        "AAPL",
        "120.50",
        "6.78",
        "100.00",
        "130.00",
        "118.25",
    );
    assert_eq!(
        "2020-11-01,AAPL,$120.50,6.78%,$100.00,$130.00,$118.25",
        row
    );
    assert_eq!(
        "period start,symbol,price,change %,min,max,30d avg",
        format_header(30)
    );
}
