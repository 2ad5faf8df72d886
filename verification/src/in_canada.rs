//! The In-Canada days counter: days of presence counted over a trailing
//! window toward the citizenship requirement.
//!
//! Dates are day numbers: the count of days since January 1 of year 1 in the
//! proleptic Gregorian calendar (January 1, year 1 is day 1), as `chrono`
//! numbers them, so the next calendar date is always the next integer.

use std::collections::BTreeSet;
use vstd::laws_cmp::group_laws_cmp;
use vstd::prelude::*;
use vstd::set_lib::lemma_map_size;
use vstd::laws_cmp::obeys_cmp;
use vstd::std_specs::cmp::OrdSpec;
use vstd::std_specs::iter::IteratorSpec;
use vstd::std_specs::btree::{axiom_increasing_seq_meaning, group_btree_axioms, increasing_seq, key_obeys_cmp_spec, spec_btree_keys_iter};
use vstd::string::*;
use crate::text::{repeat_char, trim, trimmed};
use crate::charts::{Color, hbar, hbar_chars, lemma_hbar_len, paint};

verus! {

/// Days of physical presence needed to apply for citizenship.
pub const TARGET_DAYS: i64 = 1095;

/// Only presence within this many months of the application date counts.
pub const WINDOW_MONTHS: u32 = 60;

/// Days before permanent residency count half, up to this much credit.
pub const PRE_PR_CREDIT_CAP: i64 = 365;

/// How far `eligible_on` projects forward before giving up.
pub const PROJECTION_HORIZON_DAYS: i64 = 3650;

/// The day number of `chrono`'s earliest date, January 1, 262144 BCE.
pub const EARLIEST_DAY: i32 = -95746129;

/// The day number of `chrono`'s latest date, December 31, 262142 CE.
pub const LATEST_DAY: i32 = 95745399;

/// A day number of a date `chrono` can represent.
pub open spec fn valid_day(day: int) -> bool {
    EARLIEST_DAY <= day <= LATEST_DAY
}

/// The day number of the date `WINDOW_MONTHS`-style month arithmetic lands
/// on: `months` calendar months before `day`, clamped to the end of a shorter
/// month, or `None` when out of range, as `chrono`'s `checked_sub_months`
/// computes it.
pub uninterp spec fn day_months_before(day: int, months: int) -> Option<int>;

/// The day number of the date `text` spells as `%Y-%m-%d`, or `None` when it
/// spells none, as `chrono`'s `NaiveDate::parse_from_str` reads it.
pub uninterp spec fn parsed_ymd(text: Seq<char>) -> Option<int>;

/// Calls `chrono::NaiveDate::checked_sub_months` on the date with day number
/// `day`. The result is named by [`day_months_before`]; a date out of range
/// gives `None`. As `chrono`'s source shows: no months leave a valid date as
/// it is; a day that names no date gives `None`; and a result is a valid date
/// before `day` by at least one and at most 31 days a month (the same day of
/// the month `months` months back, clamped to that month's last day).
#[verifier::external_body]
pub(crate) fn months_before(day: i32, months: u32) -> (before: Option<i32>)
    ensures
        before matches Some(d) ==> day_months_before(day as int, months as int) == Some(d as int),
        before is None ==> day_months_before(day as int, months as int) is None,
        !valid_day(day as int) ==> before is None,
        valid_day(day as int) && months == 0 ==> before == Some(day),
        before matches Some(d) ==> valid_day(d as int),
        months > 0 ==> (before matches Some(d) ==> day - 31 * months <= d < day),
{
    chrono::NaiveDate::from_num_days_from_ce_opt(day)
        .and_then(|date| date.checked_sub_months(chrono::Months::new(months)))
        .map(|date| chrono::Datelike::num_days_from_ce(&date))
}

/// Calls `chrono::NaiveDate::checked_add_days` on the date with day number
/// `day`. As `chrono` documents, a result is the date `days` days later; as
/// its source shows, there is one exactly when `day` and that later day are
/// both dates it can represent and `days` is at most `i32::MAX`.
#[verifier::external_body]
fn days_after(day: i32, days: u32) -> (after: Option<i32>)
    ensures
        after matches Some(d) ==> d == day + days,
        after is Some ==> valid_day(day as int) && valid_day(day + days) && days <= i32::MAX,
        valid_day(day as int) && valid_day(day + days) && days <= i32::MAX ==> after is Some,
{
    chrono::NaiveDate::from_num_days_from_ce_opt(day)
        .and_then(|date| date.checked_add_days(chrono::Days::new(days as u64)))
        .map(|date| chrono::Datelike::num_days_from_ce(&date))
}

/// Calls `chrono::NaiveDate::parse_from_str(text, "%Y-%m-%d")`. The result is
/// named by [`parsed_ymd`]; a parsed date is one `chrono` can represent.
#[verifier::external_body]
pub(crate) fn parse_ymd(text: &str) -> (day: Option<i32>)
    ensures
        day matches Some(d) ==> parsed_ymd(text@) == Some(d as int) && valid_day(d as int),
        day is None ==> parsed_ymd(text@) is None,
{
    chrono::NaiveDate::parse_from_str(text, "%Y-%m-%d")
        .ok()
        .map(|date| chrono::Datelike::num_days_from_ce(&date))
}

/// The text `chrono` renders the date with day number `day` as, under the
/// `strftime`-style `format`.
pub uninterp spec fn formatted_day(day: int, format: Seq<char>) -> Seq<char>;

/// The day number of the date `year`-`month`-`day`, or `None` when there is
/// no such date `chrono` can represent, as `NaiveDate::from_ymd_opt` finds it.
pub uninterp spec fn ymd_day(year: int, month: int, day: int) -> Option<int>;

/// The day number of the date with day number `day` moved to day `mday` of
/// its month, or `None` when there is no such date, as `chrono`'s
/// `Datelike::with_day` finds it.
pub uninterp spec fn day_with_mday(day: int, mday: int) -> Option<int>;

/// Calls `chrono::NaiveDate::format(format)` on the date with day number
/// `day` and renders it. The text is named by [`formatted_day`]; only the two
/// formats the library uses are passed, both of which `chrono` renders
/// without error.
#[verifier::external_body]
pub(crate) fn format_day(day: i32, format: &str) -> (text: String)
    requires
        valid_day(day as int),
        format@ == "%Y-%m"@ || format@ == "%Y-%m-%d"@,
    ensures
        text@ == formatted_day(day as int, format@),
{
    chrono::NaiveDate::from_num_days_from_ce_opt(day)
        .map(|date| date.format(format).to_string())
        .unwrap_or_default()
}

/// Calls `chrono::NaiveDate::from_ymd_opt(year, month, day)`. The result is
/// named by [`ymd_day`]. As `chrono`'s source shows, a result is a date it
/// can represent, and a month outside 1 to 12 or a day outside 1 to 31 gives
/// `None`.
#[verifier::external_body]
pub(crate) fn from_ymd(year: i32, month: u32, day: u32) -> (date: Option<i32>)
    ensures
        date matches Some(d) ==> ymd_day(year as int, month as int, day as int) == Some(d as int)
            && valid_day(d as int),
        date is None ==> ymd_day(year as int, month as int, day as int) is None,
        month == 0 || month > 12 || day == 0 || day > 31 ==> date is None,
{
    chrono::NaiveDate::from_ymd_opt(year, month, day).map(|date| chrono::Datelike::num_days_from_ce(&date))
}

/// Calls `chrono::Datelike::with_day(mday)` on the date with day number
/// `day`. The result is named by [`day_with_mday`]. As `chrono`'s source
/// shows, a result is a date it can represent, and the first of the month of
/// a date it can represent always exists.
#[verifier::external_body]
pub(crate) fn with_month_day(day: i32, mday: u32) -> (moved: Option<i32>)
    ensures
        moved matches Some(d) ==> day_with_mday(day as int, mday as int) == Some(d as int)
            && valid_day(d as int),
        moved is None ==> day_with_mday(day as int, mday as int) is None,
        valid_day(day as int) && mday == 1 ==> moved is Some,
{
    chrono::NaiveDate::from_num_days_from_ce_opt(day)
        .and_then(|date| chrono::Datelike::with_day(&date, mday))
        .map(|date| chrono::Datelike::num_days_from_ce(&date))
}

/// The date with day number `day` written `YYYY-MM-DD`.
pub fn iso_date(day: i32) -> (text: String)
    requires
        valid_day(day as int),
    ensures
        text@ == formatted_day(day as int, "%Y-%m-%d"@),
{
    format_day(day, "%Y-%m-%d")
}

/// The date `text` names, ignoring surrounding white space; `None` when it is
/// not a `YYYY-MM-DD` date.
pub fn parse_date(text: &str) -> (day: Option<i32>)
    ensures
        day matches Some(d) ==> parsed_ymd(trimmed(text@)) == Some(d as int) && valid_day(d as int),
        day is None ==> parsed_ymd(trimmed(text@)) is None,
{
    let clean = trim(text);
    parse_ymd(clean.as_str())
}

/// A set of days: the days spent outside Canada.
#[derive(Debug)]
pub struct DaySet {
    days: BTreeSet<i32>,
}

/// Whether `days` is strictly increasing.
pub open spec fn strictly_increasing(days: Seq<i32>) -> bool {
    forall|i: int, j: int| 0 <= i < j < days.len() ==> days[i] < days[j]
}

/// Whether `s` lists exactly the days of `days`, in increasing order.
pub open spec fn lists_in_order(s: Seq<i32>, days: Set<i32>) -> bool {
    &&& strictly_increasing(s)
    &&& forall|x: i32| #[trigger] s.contains(x) <==> days.contains(x)
}

/// A set of days is listed in increasing order in one way only.
proof fn lemma_order_is_unique(s: Seq<i32>, t: Seq<i32>, days: Set<i32>)
    requires
        lists_in_order(s, days),
        lists_in_order(t, days),
    ensures
        s == t,
    decreases s.len(),
{
    if s.len() == 0 {
        if t.len() > 0 {
            assert(t.contains(t[0]));
            assert(days.contains(t[0]));
            assert(s.contains(t[0]));
        }
        assert(s =~= t);
    } else {
        assert(s.contains(s[0]));
        assert(days.contains(s[0]));
        assert(t.contains(s[0]));
        assert(t.contains(t[0]));
        assert(days.contains(t[0]));
        assert(s.contains(t[0]));
        let k = choose|k: int| 0 <= k < t.len() && t[k] == s[0];
        let j = choose|j: int| 0 <= j < s.len() && s[j] == t[0];
        if k > 0 {
            assert(t[0] < t[k]);
        }
        if j > 0 {
            assert(s[0] < s[j]);
        }
        assert(s[0] == t[0]);
        let rest = days.remove(s[0]);
        assert forall|x: i32| #[trigger] s.drop_first().contains(x) <==> rest.contains(x) by {
            if s.drop_first().contains(x) {
                let i = choose|i: int| 0 <= i < s.drop_first().len() && s.drop_first()[i] == x;
                assert(s[i + 1] == x);
                assert(s.contains(x));
            }
            if rest.contains(x) {
                assert(s.contains(x));
                let i = choose|i: int| 0 <= i < s.len() && s[i] == x;
                assert(i != 0);
                assert(s.drop_first()[i - 1] == x);
            }
        }
        assert forall|x: i32| #[trigger] t.drop_first().contains(x) <==> rest.contains(x) by {
            if t.drop_first().contains(x) {
                let i = choose|i: int| 0 <= i < t.drop_first().len() && t.drop_first()[i] == x;
                assert(t[i + 1] == x);
                assert(t.contains(x));
            }
            if rest.contains(x) {
                assert(t.contains(x));
                let i = choose|i: int| 0 <= i < t.len() && t[i] == x;
                assert(i != 0);
                assert(t.drop_first()[i - 1] == x);
            }
        }
        lemma_order_is_unique(s.drop_first(), t.drop_first(), rest);
        assert(s.len() == t.len());
        assert forall|i: int| 0 <= i < s.len() implies s[i] == t[i] by {
            if i > 0 {
                assert(s[i] == s.drop_first()[i - 1]);
                assert(t[i] == t.drop_first()[i - 1]);
            }
        }
        assert(s =~= t);
    }
}

/// A day as an integer.
pub open spec fn day_value(day: i32) -> int {
    day as int
}

/// Days compare as the integers they are, as `BTreeSet` needs.
proof fn lemma_days_are_ordered()
    ensures
        obeys_cmp::<i32>(),
        key_obeys_cmp_spec::<i32>(),
{
    broadcast use group_btree_axioms, group_laws_cmp;

}

/// Whether `a` orders before `b`.
spec fn comes_first<K: Ord>(a: K, b: K) -> bool {
    a.cmp_spec(&b) is Less
}

/// A walk `BTreeSet` gives in increasing order is strictly increasing.
proof fn lemma_walk_increases(walk: Seq<&i32>)
    requires
        increasing_seq(walk),
    ensures
        forall|i: int, j: int| 0 <= i < j < walk.len() ==> *walk[i] < *walk[j],
{
    broadcast use group_btree_axioms, group_laws_cmp;

    assert(obeys_cmp::<i32>());
    assert(obeys_cmp::<&i32>());
    axiom_increasing_seq_meaning::<&i32>(walk);
    assert forall|i: int, j: int| 0 <= i < j < walk.len() implies *walk[i] < *walk[j] by {
        assert(comes_first::<&i32>(walk[i], walk[j]));
    }
}

impl View for DaySet {
    type V = Set<int>;

    closed spec fn view(&self) -> Set<int> {
        self.days@.map(|d: i32| day_value(d))
    }
}

impl DaySet {
    /// The days in increasing order.
    pub closed spec fn ordered(&self) -> Seq<i32> {
        choose|s: Seq<i32>| lists_in_order(s, self.days@)
    }

    #[verifier::type_invariant]
    closed spec fn inv(&self) -> bool {
        self.days@.finite()
    }

    pub fn new() -> (set: Self)
        ensures
            set@ == Set::<int>::empty(),
    {
        let set = DaySet { days: BTreeSet::new() };
        assert(set@ =~= Set::<int>::empty());
        set
    }

    /// The number of days in the set.
    pub fn len(&self) -> (count: usize)
        ensures
            count == self@.len(),
    {
        broadcast use group_btree_axioms;

        proof {
            lemma_days_are_ordered();
        }
        proof {
            use_type_invariant(self);
            lemma_map_size(self.days@, self@, |d: i32| day_value(d));
        }
        self.days.len()
    }

    /// The days in increasing order.
    pub fn to_vec(&self) -> (days: Vec<i32>)
        ensures
            days@ == self.ordered(),
            strictly_increasing(days@),
    {
        broadcast use group_btree_axioms;

        proof {
            lemma_days_are_ordered();
        }
        let mut days: Vec<i32> = Vec::new();
        for d in it: self.days.iter()
            invariant
                it.seq() == spec_btree_keys_iter(&self.days).remaining(),
                days@ == it.seq().take(it.index() as int).map_values(|x: &i32| *x),
        {
            days.push(*d);
            assert(days@ =~= it.seq().take(it.index() + 1).map_values(|x: &i32| *x));
        }
        proof {
            let walk = spec_btree_keys_iter(&self.days).remaining();
            assert(days@ =~= walk.map_values(|x: &i32| *x));
            lemma_walk_increases(walk);
            assert forall|x: i32| #[trigger] days@.contains(x) <==> self.days@.contains(x) by {
                assert(walk.unref().to_set() == self.days@);
                if days@.contains(x) {
                    let i = choose|i: int| 0 <= i < days@.len() && days@[i] == x;
                    assert(walk.unref()[i] == x);
                    assert(walk.unref().contains(x));
                }
                if self.days@.contains(x) {
                    assert(walk.unref().to_set().contains(x));
                    assert(walk.unref().contains(x));
                    let i = choose|i: int| 0 <= i < walk.unref().len() && walk.unref()[i] == x;
                    assert(days@[i] == x);
                }
            }
            assert(lists_in_order(days@, self.days@));
            lemma_order_is_unique(days@, self.ordered(), self.days@);
        }
        days
    }

    /// Whether `day` is in the set.
    pub fn contains(&self, day: i32) -> (found: bool)
        ensures
            found == self@.contains(day_value(day)),
    {
        broadcast use group_btree_axioms;

        proof {
            lemma_days_are_ordered();
        }
        let found = self.days.contains(&day);
        proof {
            if self@.contains(day_value(day)) {
                let y = choose|y: i32| self.days@.contains(y) && day_value(y) == day_value(day);
                assert(y == day);
            }
            if found {
                assert(self@.contains(day_value(day)));
            }
        }
        found
    }

    /// Adds `day`; returns whether it was not there before.
    pub fn insert(&mut self, day: i32) -> (added: bool)
        ensures
            added == !old(self)@.contains(day_value(day)),
            final(self)@ == old(self)@.insert(day_value(day)),
    {
        broadcast use group_btree_axioms;

        proof {
            lemma_days_are_ordered();
        }
        proof {
            use_type_invariant(&*self);
        }
        let ghost before = self.days@;
        proof {
            before.lemma_set_map_insert_commute(day, |d: i32| day_value(d));
            if old(self)@.contains(day_value(day)) {
                let y = choose|y: i32| before.contains(y) && day_value(y) == day_value(day);
                assert(y == day);
            }
            if before.contains(day) {
                assert(old(self)@.contains(day_value(day)));
            }
        }
        let mut days = BTreeSet::new();
        std::mem::swap(&mut days, &mut self.days);
        let added = days.insert(day);
        self.days = days;
        added
    }

    /// Removes `day`; returns whether it was there.
    pub fn remove(&mut self, day: i32) -> (removed: bool)
        ensures
            removed == old(self)@.contains(day_value(day)),
            final(self)@ == old(self)@.remove(day_value(day)),
    {
        broadcast use group_btree_axioms;

        proof {
            lemma_days_are_ordered();
        }
        proof {
            use_type_invariant(&*self);
        }
        let ghost before = self.days@;
        proof {
            if old(self)@.contains(day_value(day)) {
                let y = choose|y: i32| before.contains(y) && day_value(y) == day_value(day);
                assert(y == day);
            }
            if before.contains(day) {
                assert(old(self)@.contains(day_value(day)));
            }
        }
        let mut days = BTreeSet::new();
        std::mem::swap(&mut days, &mut self.days);
        let removed = days.remove(&day);
        self.days = days;
        proof {
            assert forall|x: int| self@.contains(x) <==> old(self)@.remove(day_value(day)).contains(x) by {
                if self@.contains(x) {
                    let y = choose|y: i32| self.days@.contains(y) && day_value(y) == x;
                    assert(before.contains(y));
                }
                if old(self)@.remove(day_value(day)).contains(x) {
                    let y = choose|y: i32| before.contains(y) && day_value(y) == x;
                    assert(self.days@.contains(y));
                }
            }
            assert(self@ =~= old(self)@.remove(day_value(day)));
        }
        removed
    }
}

/// How many days `d` in `[lo, hi]` satisfy `keep`.
pub open spec fn count_days(lo: int, hi: int, keep: spec_fn(int) -> bool) -> nat
    decreases hi - lo + 1,
{
    if hi < lo {
        0
    } else {
        count_days(lo, hi - 1, keep) + if keep(hi) {
            1nat
        } else {
            0nat
        }
    }
}

/// A day present in Canada before permanent residency.
pub open spec fn pre_pr_day(away: Set<int>, pr_date: Option<i32>) -> spec_fn(int) -> bool {
    |d: int| !away.contains(d) && !(pr_date matches Some(pr) && d >= pr)
}

/// A day present in Canada on or after the permanent residency date.
pub open spec fn pr_day(away: Set<int>, pr_date: Option<i32>) -> spec_fn(int) -> bool {
    |d: int| !away.contains(d) && (pr_date matches Some(pr) && d >= pr)
}

/// A day spent outside Canada.
pub open spec fn away_day(away: Set<int>) -> spec_fn(int) -> bool {
    |d: int| away.contains(d)
}

/// Progress toward the citizenship physical-presence requirement.
#[derive(Debug, PartialEq, Eq, Clone, Copy)]
pub struct Progress {
    /// Days present before the PR date, within the window.
    pub pre_pr_days: i64,
    /// `pre_pr_days` at the half-day rate, capped at `PRE_PR_CREDIT_CAP`.
    pub pre_pr_credit: i64,
    /// Days present on or after the PR date, within the window.
    pub pr_days: i64,
    pub total: i64,
    pub remaining: i64,
}

/// The progress made by presence over `[first, as_of]`.
pub open spec fn progress_over(first: int, as_of: int, pr_date: Option<i32>, away: Set<int>) -> Progress {
    let pre = count_days(first, as_of, pre_pr_day(away, pr_date)) as int;
    let full = count_days(first, as_of, pr_day(away, pr_date)) as int;
    let credit = if pre / 2 < PRE_PR_CREDIT_CAP {
        pre / 2
    } else {
        PRE_PR_CREDIT_CAP as int
    };
    let total = credit + full;
    Progress {
        pre_pr_days: pre as i64,
        pre_pr_credit: credit as i64,
        pr_days: full as i64,
        total: total as i64,
        remaining: (if TARGET_DAYS - total > 0 {
            TARGET_DAYS - total
        } else {
            0
        }) as i64,
    }
}

/// The first day of the trailing window ending on `as_of`: five years back
/// plus a day, or `chrono`'s earliest date when that is out of range.
pub open spec fn window_start_of(as_of: int) -> int {
    match day_months_before(as_of, WINDOW_MONTHS as int) {
        Some(back) => if valid_day(back) && valid_day(back + 1) {
            back + 1
        } else {
            EARLIEST_DAY as int
        },
        None => EARLIEST_DAY as int,
    }
}

/// Credit earned toward citizenship as of `as_of`: presence from the later of
/// the window's start and `start` through `as_of`.
pub open spec fn progress_of(start: int, as_of: int, pr_date: Option<i32>, away: Set<int>) -> Progress {
    let first = if window_start_of(as_of) > start {
        window_start_of(as_of)
    } else {
        start
    };
    progress_over(first, as_of, pr_date, away)
}

pub proof fn lemma_count_days_bound(lo: int, hi: int, keep: spec_fn(int) -> bool)
    ensures
        hi < lo ==> count_days(lo, hi, keep) == 0,
        hi >= lo ==> count_days(lo, hi, keep) <= hi - lo + 1,
    decreases hi - lo + 1,
{
    if hi >= lo {
        lemma_count_days_bound(lo, hi - 1, keep);
    }
}

/// The first day of the trailing five-year window ending on `as_of`,
/// inclusive.
pub fn window_start(as_of: i32) -> (first: i32)
    ensures
        first == window_start_of(as_of as int),
{
    match months_before(as_of, WINDOW_MONTHS) {
        Some(back) => match days_after(back, 1) {
            Some(start) => start,
            None => EARLIEST_DAY,
        },
        None => EARLIEST_DAY,
    }
}

/// Credit earned by presence over `[first, as_of]`: days before `pr_date`
/// count half, capped at `PRE_PR_CREDIT_CAP`; days from `pr_date` on count in
/// full; days away count not at all.
pub fn credit_between(first: i32, as_of: i32, pr_date: Option<i32>, away: &DaySet) -> (progress: Progress)
    ensures
        progress == progress_over(first as int, as_of as int, pr_date, away@),
{
    let ghost pre_keep = pre_pr_day(away@, pr_date);
    let ghost pr_keep = pr_day(away@, pr_date);
    let mut pre: i64 = 0;
    let mut full: i64 = 0;
    let mut day: i64 = first as i64;
    let last: i64 = as_of as i64;
    proof {
        lemma_count_days_bound(first as int, first - 1, pre_keep);
        lemma_count_days_bound(first as int, first - 1, pr_keep);
    }
    while day <= last
        invariant
            first <= day,
            day <= last + 1 || last < first,
            last == as_of,
            day >= first && (last < first ==> day == first),
            pre_keep == pre_pr_day(away@, pr_date),
            pr_keep == pr_day(away@, pr_date),
            pre == count_days(first as int, day - 1, pre_keep),
            full == count_days(first as int, day - 1, pr_keep),
            pre <= day - first,
            full <= day - first,
        decreases last + 1 - day,
    {
        let gone = away.contains(day as i32);
        if !gone {
            match pr_date {
                Some(pr) if day >= pr as i64 => {
                    full = full + 1;
                },
                _ => {
                    pre = pre + 1;
                },
            }
        }
        day = day + 1;
    }
    proof {
        if last < first {
            lemma_count_days_bound(first as int, as_of as int, pre_keep);
            lemma_count_days_bound(first as int, as_of as int, pr_keep);
        }
    }
    let half: i64 = pre / 2;
    let credit: i64 = if half < PRE_PR_CREDIT_CAP {
        half
    } else {
        PRE_PR_CREDIT_CAP
    };
    let total: i64 = credit + full;
    let remaining: i64 = if TARGET_DAYS - total > 0 {
        TARGET_DAYS - total
    } else {
        0
    };
    Progress { pre_pr_days: pre, pre_pr_credit: credit, pr_days: full, total, remaining }
}

/// Credit earned toward citizenship as of `as_of`. Only the trailing five
/// years count, and nothing is known before `start`, so the count begins at
/// the later of the two. With no `pr_date` every day is a pre-PR day.
pub fn progress(start: i32, as_of: i32, pr_date: Option<i32>, away: &DaySet) -> (p: Progress)
    ensures
        p == progress_of(start as int, as_of as int, pr_date, away@),
{
    let window = window_start(as_of);
    let first = if window > start {
        window
    } else {
        start
    };
    credit_between(first, as_of, pr_date, away)
}

/// The headline counters, inclusive on both ends.
#[derive(Debug, PartialEq, Eq, Clone, Copy)]
pub struct Counts {
    pub total: i64,
    pub away: i64,
    pub in_canada: i64,
}

/// The days of `days` that fall in `[start, today]`.
pub open spec fn days_within(days: Seq<i32>, start: int, today: int) -> Seq<i32> {
    days.filter(|d: i32| start <= d && d <= today)
}

/// Days counted since `start` through `today`, days away among them, and the
/// rest, spent in Canada.
pub fn counts(start: i32, today: i32, away: &DaySet) -> (c: Counts)
    ensures
        c.total == today - start + 1,
        c.away == days_within(away.ordered(), start as int, today as int).len(),
        c.in_canada == c.total - c.away,
{
    broadcast use vstd::seq_lib::group_filter_ensures;

    let days = away.to_vec();
    proof {
        lemma_increasing_len(days@);
    }
    let ghost within = |d: i32| start <= d && d <= today;
    let mut count: i64 = 0;
    let mut i: usize = 0;
    assert(days@.take(0).filter(within) =~= Seq::<i32>::empty()) by {
        reveal(Seq::filter);
    }
    while i < days.len()
        invariant
            i <= days@.len(),
            within == (|d: i32| start <= d && d <= today),
            count == days@.take(i as int).filter(within).len(),
            count <= i,
            days@.len() <= 0x1_0000_0000,
        decreases days.len() - i,
    {
        let d = days[i];
        proof {
            assert(days@.take(i + 1) =~= days@.take(i as int).push(d));
            days@.take(i as int).lemma_filter_push(d, within);
        }
        if start <= d && d <= today {
            count = count + 1;
        }
        i = i + 1;
    }
    assert(days@.take(i as int) =~= days@);
    let total: i64 = today as i64 - start as i64 + 1;
    Counts { total, away: count, in_canada: total - count }
}

/// A strictly increasing list of `i32` days is no longer than the number of
/// `i32` values.
proof fn lemma_increasing_len(days: Seq<i32>)
    requires
        strictly_increasing(days),
    ensures
        days.len() <= 0x1_0000_0000,
{
    if days.len() > 0 {
        lemma_increasing_from_first(days, days.len() - 1);
    }
}

proof fn lemma_increasing_from_first(days: Seq<i32>, k: int)
    requires
        strictly_increasing(days),
        0 <= k < days.len(),
    ensures
        days[k] >= days[0] + k,
    decreases k,
{
    if k > 0 {
        lemma_increasing_from_first(days, k - 1);
    }
}

/// Whether presence through `day` meets the requirement.
pub open spec fn reaches_target(start: int, day: int, pr_date: Option<i32>, away: Set<int>) -> bool {
    progress_of(start, day, pr_date, away).total >= TARGET_DAYS
}

/// The first day from `day` on, looking at most `steps` days further and not
/// past `LATEST_DAY`, on which presence meets the requirement.
pub open spec fn eligible_from(start: int, day: int, steps: nat, pr_date: Option<i32>, away: Set<int>) -> Option<int>
    decreases steps,
{
    if reaches_target(start, day, pr_date, away) {
        Some(day)
    } else if steps == 0 || day >= LATEST_DAY {
        None
    } else {
        eligible_from(start, day + 1, (steps - 1) as nat, pr_date, away)
    }
}

/// The first day the requirement is met, assuming presence in Canada every
/// day from `as_of` onward; `None` when it stays out of reach within
/// `PROJECTION_HORIZON_DAYS`.
pub fn eligible_on(start: i32, as_of: i32, pr_date: Option<i32>, away: &DaySet) -> (day: Option<i32>)
    requires
        valid_day(as_of as int),
    ensures
        day matches Some(d) ==> eligible_from(start as int, as_of as int, PROJECTION_HORIZON_DAYS as nat, pr_date, away@) == Some(d as int),
        day is None ==> eligible_from(start as int, as_of as int, PROJECTION_HORIZON_DAYS as nat, pr_date, away@) is None,
{
    let mut day: i32 = as_of;
    let mut step: i64 = 0;
    loop
        invariant
            0 <= step <= PROJECTION_HORIZON_DAYS,
            valid_day(day as int),
            eligible_from(start as int, as_of as int, PROJECTION_HORIZON_DAYS as nat, pr_date, away@)
                == eligible_from(start as int, day as int, (PROJECTION_HORIZON_DAYS - step) as nat, pr_date, away@),
        decreases PROJECTION_HORIZON_DAYS - step,
    {
        if progress(start, day, pr_date, away).total >= TARGET_DAYS {
            return Some(day);
        }
        if step == PROJECTION_HORIZON_DAYS || day >= LATEST_DAY {
            return None;
        }
        day = day + 1;
        step = step + 1;
    }
}

/// The share of `width` cells the pre-PR credit takes, rounded half up and
/// at most `filled`.
pub open spec fn pre_pr_cells(credit: int, width: int, filled: int) -> int {
    let c = if credit < 0 {
        0
    } else if credit > TARGET_DAYS {
        TARGET_DAYS as int
    } else {
        credit
    };
    let cells = (2 * c * width + TARGET_DAYS) / (2 * TARGET_DAYS);
    if cells < filled {
        cells
    } else {
        filled
    }
}

/// A two-tone bar `width` cells wide: pre-PR credit, then full-rate days, then
/// the shortfall drawn as `░`, each painted in its own colour.
pub open spec fn progress_bar_text(p: Progress, width: int, colored: bool) -> Seq<char> {
    let bar = hbar_chars(p.total as int, TARGET_DAYS as int, width);
    let pre = pre_pr_cells(p.pre_pr_credit as int, width, bar.len() as int);
    let rest = Seq::new((width - bar.len()) as nat, |_i: int| '░');
    painted(bar.take(pre), Color::Blue, colored) + painted(bar.skip(pre), Color::Green, colored)
        + painted(rest, Color::Dim, colored)
}

/// `text` as `paint` renders it.
pub open spec fn painted(text: Seq<char>, color: Color, colored: bool) -> Seq<char> {
    if colored {
        "\x1b["@ + crate::charts::color_code(color) + "m"@ + text + "\x1b[0m"@
    } else {
        text
    }
}

/// The progress bar: pre-PR credit in blue, full-rate PR days in green, the
/// shortfall dimmed. The unfilled tail is drawn rather than padded, so the
/// row keeps its width once the colour codes are stripped.
pub fn progress_bar(p: &Progress, width: usize, colored: bool) -> (bar: String)
    ensures
        bar@ == progress_bar_text(*p, width as int, colored),
{
    proof {
        lemma_hbar_len(p.total as int, TARGET_DAYS as int, width as int);
    }
    let cells = hbar(p.total, TARGET_DAYS, width);
    let filled: usize = cells.as_str().unicode_len();
    let credit: u128 = if p.pre_pr_credit < 0 {
        0
    } else if p.pre_pr_credit > TARGET_DAYS {
        TARGET_DAYS as u128
    } else {
        p.pre_pr_credit as u128
    };
    let w: u128 = width as u128;
    assert(2 * credit * w <= 2 * 1095 * 0x1_0000_0000_0000_0000u128) by (nonlinear_arith)
        requires
            credit <= 1095,
            w <= 0x1_0000_0000_0000_0000u128,
    ;
    let rounded: u128 = (2 * credit * w + 1095) / 2190;
    let pre: usize = if rounded < filled as u128 {
        rounded as usize
    } else {
        filled
    };
    let head = cells.as_str().substring_char(0, pre);
    let tail = cells.as_str().substring_char(pre, filled);
    let rest = repeat_char('░', width - filled);
    let mut out = paint(head, Color::Blue, colored);
    out.append(paint(tail, Color::Green, colored).as_str());
    out.append(paint(rest.as_str(), Color::Dim, colored).as_str());
    out
}

/// With no permanent-residency date, no day counts in full.
proof fn lemma_no_pr_days(lo: int, hi: int, away: Set<int>)
    ensures
        count_days(lo, hi, pr_day(away, None)) == 0,
    decreases hi - lo + 1,
{
    if hi >= lo {
        lemma_no_pr_days(lo, hi - 1, away);
    }
}

/// Without a permanent-residency date every counted day is a pre-PR day, so
/// the credit is capped at `PRE_PR_CREDIT_CAP` and the requirement can never
/// be met: `eligible_on` answers `None` whatever the dates.
pub proof fn lemma_without_pr_date_never_eligible(start: int, day: int, steps: nat, away: Set<int>)
    ensures
        progress_of(start, day, None, away).pr_days == 0,
        progress_of(start, day, None, away).total <= PRE_PR_CREDIT_CAP,
        eligible_from(start, day, steps, None, away) is None,
    decreases steps,
{
    let first = if window_start_of(day) > start {
        window_start_of(day)
    } else {
        start
    };
    lemma_no_pr_days(first, day, away);
    lemma_count_days_bound(first, day, pre_pr_day(away, None));
    if steps > 0 {
        lemma_without_pr_date_never_eligible(start, day + 1, (steps - 1) as nat, away);
    }
}

/// Counting the days that satisfy `a` and those that satisfy `b`, where no
/// day satisfies both, counts those that satisfy either.
pub proof fn lemma_count_days_disjoint(lo: int, hi: int, a: spec_fn(int) -> bool, b: spec_fn(int) -> bool, either: spec_fn(int) -> bool)
    requires
        forall|d: int| !(#[trigger] a(d) && b(d)),
        forall|d: int| #[trigger] either(d) == (a(d) || b(d)),
    ensures
        count_days(lo, hi, a) + count_days(lo, hi, b) == count_days(lo, hi, either),
    decreases hi - lo + 1,
{
    if hi >= lo {
        lemma_count_days_disjoint(lo, hi - 1, a, b, either);
    }
}

/// Every day of the counted stretch `[first, as_of]` is counted exactly once:
/// as a day away, a pre-PR day or a PR day.
pub proof fn lemma_days_partition(first: int, as_of: int, pr_date: Option<i32>, away: Set<int>)
    requires
        first <= as_of,
    ensures
        count_days(first, as_of, away_day(away)) + count_days(first, as_of, pre_pr_day(away, pr_date))
            + count_days(first, as_of, pr_day(away, pr_date)) == as_of - first + 1,
{
    let present = |d: int| !away.contains(d);
    let any = |d: int| true;
    lemma_count_days_disjoint(first, as_of, pre_pr_day(away, pr_date), pr_day(away, pr_date), present);
    lemma_count_days_disjoint(first, as_of, away_day(away), present, any);
    lemma_count_all(first, as_of, any);
}

proof fn lemma_count_all(lo: int, hi: int, any: spec_fn(int) -> bool)
    requires
        forall|d: int| #[trigger] any(d),
        lo <= hi + 1,
    ensures
        count_days(lo, hi, any) == hi - lo + 1,
    decreases hi - lo + 1,
{
    if hi >= lo {
        lemma_count_all(lo, hi - 1, any);
    }
}

/// The pre-PR credit is half the pre-PR days, rounded down and capped; the
/// total is that credit plus the PR days; the remaining days are the
/// shortfall from the target, never negative.
pub proof fn lemma_progress_arithmetic(first: int, as_of: int, pr_date: Option<i32>, away: Set<int>)
    requires
        first <= as_of,
        as_of - first < 0x1_0000_0000,
    ensures
        ({
            let p = progress_over(first, as_of, pr_date, away);
            &&& 0 <= p.pre_pr_credit <= PRE_PR_CREDIT_CAP
            &&& p.pre_pr_credit <= p.pre_pr_days / 2
            &&& p.total == p.pre_pr_credit + p.pr_days
            &&& p.remaining >= 0
            &&& p.remaining == TARGET_DAYS - p.total || (p.remaining == 0 && p.total >= TARGET_DAYS)
        }),
{
    lemma_count_days_bound(first, as_of, pre_pr_day(away, pr_date));
    lemma_count_days_bound(first, as_of, pr_day(away, pr_date));
}

/// Uncoloured, the progress bar is always exactly `width` characters wide, so
/// the columns after it stay aligned.
pub proof fn lemma_progress_bar_width(p: Progress, width: int)
    requires
        width >= 0,
    ensures
        progress_bar_text(p, width, false).len() == width,
{
    lemma_hbar_len(p.total as int, TARGET_DAYS as int, width);
    let bar = hbar_chars(p.total as int, TARGET_DAYS as int, width);
    let pre = pre_pr_cells(p.pre_pr_credit as int, width, bar.len() as int);
    let c = if p.pre_pr_credit < 0 {
        0
    } else if p.pre_pr_credit > TARGET_DAYS {
        TARGET_DAYS as int
    } else {
        p.pre_pr_credit as int
    };
    assert((2 * c * width + TARGET_DAYS) / (2 * TARGET_DAYS) >= 0) by (nonlinear_arith)
        requires
            c >= 0,
            width >= 0,
    ;
    assert(0 <= pre <= bar.len());
}

} // verus!
