use chrono::Datelike;
use sam_toolkit::in_canada::{
    counts, eligible_on, parse_date, progress, progress_bar, window_start, DaySet, Progress,
    EARLIEST_DAY, LATEST_DAY, PRE_PR_CREDIT_CAP, TARGET_DAYS,
};

fn d(text: &str) -> i32 {
    parse_date(text).expect("test date is valid")
}

fn away(dates: &[&str]) -> DaySet {
    let mut set = DaySet::new();
    for date in dates {
        set.insert(d(date));
    }
    set
}

#[test]
fn pre_pr_days_count_half_and_round_down() {
    // 2025-01-01 through 2025-01-07 is 7 days, all before PR.
    let p = progress(
        d("2025-01-01"),
        d("2025-01-07"),
        Some(d("2025-06-01")),
        &DaySet::new(),
    );
    assert_eq!(p.pre_pr_days, 7);
    assert_eq!(p.pre_pr_credit, 3); // 3.5 floored
    assert_eq!(p.pr_days, 0);
    assert_eq!(p.total, 3);
    assert_eq!(p.remaining, TARGET_DAYS - 3);
}

#[test]
fn pre_pr_credit_is_capped() {
    // Three full years before PR is well past the 365-day cap.
    let p = progress(
        d("2022-01-01"),
        d("2024-12-31"),
        Some(d("2030-01-01")),
        &DaySet::new(),
    );
    assert_eq!(p.pre_pr_days, 1096);
    assert_eq!(p.pre_pr_credit, PRE_PR_CREDIT_CAP);
    assert_eq!(p.total, PRE_PR_CREDIT_CAP);
}

#[test]
fn pr_days_count_in_full_starting_on_the_pr_date() {
    // 10 days total, PR on day 5: days 1-4 are pre-PR, days 5-10 are PR.
    let p = progress(
        d("2025-01-01"),
        d("2025-01-10"),
        Some(d("2025-01-05")),
        &DaySet::new(),
    );
    assert_eq!(p.pre_pr_days, 4);
    assert_eq!(p.pre_pr_credit, 2);
    assert_eq!(p.pr_days, 6); // the PR date itself counts in full
    assert_eq!(p.total, 8);
}

#[test]
fn days_away_count_toward_neither_bucket() {
    let p = progress(
        d("2025-01-01"),
        d("2025-01-10"),
        Some(d("2025-01-05")),
        &away(&["2025-01-02", "2025-01-06", "2025-01-07"]),
    );
    assert_eq!(p.pre_pr_days, 3);
    assert_eq!(p.pr_days, 4);
    assert_eq!(p.total, 1 + 4);
}

#[test]
fn without_a_pr_date_everything_is_pre_pr_and_capped() {
    let p = progress(d("2020-01-01"), d("2025-01-01"), None, &DaySet::new());
    assert_eq!(p.pr_days, 0);
    assert_eq!(p.pre_pr_credit, PRE_PR_CREDIT_CAP);
    assert_eq!(p.total, PRE_PR_CREDIT_CAP);
    assert!(p.total < TARGET_DAYS);
}

#[test]
fn only_the_trailing_five_year_window_counts() {
    // Ten years of presence as a PR, but only five years' worth may count.
    let start = d("2015-01-01");
    let as_of = d("2024-12-31");
    let p = progress(start, as_of, Some(start), &DaySet::new());
    let window = (as_of - window_start(as_of)) as i64 + 1;
    assert_eq!(p.pr_days, window);
    assert!(p.pr_days < 3653); // far less than the full ten years
}

#[test]
fn window_start_is_inclusive_five_years_back() {
    // Five years back plus a day, so the window spans exactly five years.
    assert_eq!(window_start(d("2025-01-24")), d("2020-01-25"));
}

#[test]
fn eligible_on_projects_forward_assuming_presence() {
    // A PR since day one needs 1095 days; the 1095th day is the answer.
    let start = d("2025-01-01");
    let today = d("2025-06-01");
    let day = eligible_on(start, today, Some(start), &DaySet::new()).expect("reachable");
    assert_eq!(
        progress(start, day, Some(start), &DaySet::new()).total,
        TARGET_DAYS
    );
    assert_eq!(day, d("2027-12-31")); // 1095 days from 2025-01-01 inclusive
}

#[test]
fn eligible_on_is_none_without_a_pr_date() {
    // Capped at 365 days of credit, the target is unreachable.
    assert_eq!(
        eligible_on(d("2025-01-01"), d("2025-06-01"), None, &DaySet::new()),
        None
    );
}

#[test]
fn progress_bar_splits_pre_pr_credit_from_pr_days() {
    let p = Progress {
        pre_pr_days: 730,
        pre_pr_credit: 365,
        pr_days: 365,
        total: 730,
        remaining: 365,
    };
    // Two thirds filled at width 3, half of that filled being pre-PR credit.
    // Colour is off, as it is when stdout is not a terminal.
    let bar = progress_bar(&p, 3, false);
    assert_eq!(bar.chars().filter(|c| *c == '█').count(), 2);
    assert_eq!(bar.chars().filter(|c| *c == '░').count(), 1);
    // The bar always occupies exactly its width, so the columns after it
    // stay aligned.
    for width in [8, 40, 70] {
        assert_eq!(progress_bar(&p, width, false).chars().count(), width);
    }
}

#[test]
fn counts_are_inclusive_on_both_ends() {
    let c = counts(d("2025-01-01"), d("2025-01-10"), &away(&["2025-01-05"]));
    assert_eq!(c.total, 10);
    assert_eq!(c.away, 1);
    assert_eq!(c.in_canada, 9);
}

#[test]
fn progress_bar_paints_each_segment_when_colour_is_on() {
    let p = Progress {
        pre_pr_days: 730,
        pre_pr_credit: 365,
        pr_days: 365,
        total: 730,
        remaining: 365,
    };
    assert_eq!(
        progress_bar(&p, 3, true),
        "\x1b[34m█\x1b[0m\x1b[32m█\x1b[0m\x1b[90m░\x1b[0m"
    );
}

#[test]
fn day_numbers_match_chrono() {
    assert_eq!(d("1999-09-03"), 730_000);
    assert_eq!(d(" 2025-01-01\n"), 739_252);
    assert_eq!(parse_date("2025-13-01"), None);
    assert_eq!(parse_date("yesterday"), None);
    assert_eq!(chrono::NaiveDate::MIN.num_days_from_ce(), EARLIEST_DAY);
    assert_eq!(chrono::NaiveDate::MAX.num_days_from_ce(), LATEST_DAY);
}

#[test]
fn day_set_behaves_like_a_set() {
    let mut days = DaySet::new();
    assert!(days.insert(5));
    assert!(days.insert(3));
    assert!(!days.insert(5));
    assert_eq!(days.to_vec(), vec![3, 5]);
    assert!(days.contains(3));
    assert!(days.remove(3));
    assert!(!days.remove(3));
    assert!(!days.contains(3));
    assert_eq!(days.len(), 1);
}
