//! Retention: which snapshots of a group a policy keeps.
//!
//! The snapshots of one group are given newest first. Each rule of the
//! policy walks the whole list on its own and selects snapshots; a
//! snapshot is kept if any rule selects it, or if it is protected. A rule
//! that is not set selects nothing.
//!
//! The rule `keep-last` selects the first snapshots of the list. Each of
//! the other rules goes by a calendar period (hour, day, week, month or
//! year): it selects the newest snapshot of each period, for the first
//! periods met on the way down the list. Which period a snapshot falls
//! into comes with the snapshot, as a number per period. The numbers of
//! the calendar in UTC are at hand in the module `calendar`; a caller
//! that goes by another time zone gives its own.

use crate::snapshot::BackupDir;
use vstd::prelude::*;

verus! {

/// The retention policy: for each rule how many snapshots, or periods, it
/// selects. A rule that is `None` selects nothing.
#[derive(Clone, Copy, Debug, PartialEq, Eq, Structural)]
pub struct PruneOptions {
    /// How many of the newest snapshots to keep.
    pub keep_last: Option<u64>,
    /// For how many hours to keep the newest snapshot of the hour.
    pub keep_hourly: Option<u64>,
    /// For how many days to keep the newest snapshot of the day.
    pub keep_daily: Option<u64>,
    /// For how many weeks to keep the newest snapshot of the week.
    pub keep_weekly: Option<u64>,
    /// For how many months to keep the newest snapshot of the month.
    pub keep_monthly: Option<u64>,
    /// For how many years to keep the newest snapshot of the year.
    pub keep_yearly: Option<u64>,
}

impl Default for PruneOptions {
    /// The policy without any rule.
    fn default() -> (r: Self)
        ensures
            r == (PruneOptions {
                keep_last: None,
                keep_hourly: None,
                keep_daily: None,
                keep_weekly: None,
                keep_monthly: None,
                keep_yearly: None,
            }),
    {
        PruneOptions {
            keep_last: None,
            keep_hourly: None,
            keep_daily: None,
            keep_weekly: None,
            keep_monthly: None,
            keep_yearly: None,
        }
    }
}

/// A limit that is set is at least one.
pub open spec fn valid_limit(limit: Option<u64>) -> bool {
    match limit {
        Some(n) => n >= 1,
        None => true,
    }
}

impl PruneOptions {
    /// Every rule that is set has a limit of at least one.
    pub open spec fn valid(self) -> bool {
        &&& valid_limit(self.keep_last)
        &&& valid_limit(self.keep_hourly)
        &&& valid_limit(self.keep_daily)
        &&& valid_limit(self.keep_weekly)
        &&& valid_limit(self.keep_monthly)
        &&& valid_limit(self.keep_yearly)
    }

    /// Whether every rule that is set has a limit of at least one.
    pub fn is_valid(&self) -> (b: bool)
        ensures
            b == self.valid(),
    {
        Self::limit_is_valid(self.keep_last) && Self::limit_is_valid(self.keep_hourly)
            && Self::limit_is_valid(self.keep_daily) && Self::limit_is_valid(self.keep_weekly)
            && Self::limit_is_valid(self.keep_monthly) && Self::limit_is_valid(self.keep_yearly)
    }

    /// Whether a limit, if set, is at least one.
    fn limit_is_valid(limit: Option<u64>) -> (b: bool)
        ensures
            b == valid_limit(limit),
    {
        match limit {
            Some(n) => n >= 1,
            None => true,
        }
    }

    /// Whether any rule is set, so that the policy can keep a snapshot
    /// that is not protected.
    pub fn keeps_something(&self) -> (b: bool)
        ensures
            b == (self.keep_last is Some || self.keep_hourly is Some || self.keep_daily is Some
                || self.keep_weekly is Some || self.keep_monthly is Some
                || self.keep_yearly is Some),
    {
        self.keep_last.is_some() || self.keep_hourly.is_some() || self.keep_daily.is_some()
            || self.keep_weekly.is_some() || self.keep_monthly.is_some()
            || self.keep_yearly.is_some()
    }
}

/// The calendar periods that a snapshot falls into. Two snapshots are in
/// the same hour, day, week, month or year exactly when the number of
/// that period is the same.
#[derive(Clone, Copy, Debug, PartialEq, Eq, Structural)]
pub struct Periods {
    pub hour: i64,
    pub day: i64,
    pub week: i64,
    pub month: i64,
    pub year: i64,
}

/// A snapshot as the retention sees it.
#[derive(Debug)]
pub struct PruneCandidate {
    /// The snapshot.
    pub backup: BackupDir,
    /// Whether the snapshot is protected from removal.
    pub protected: bool,
    /// The calendar periods of its time.
    pub periods: Periods,
}

/// The verdict on one snapshot.
#[derive(Debug)]
pub struct PruneListItem {
    /// The snapshot.
    pub backup: BackupDir,
    /// Whether to keep it.
    pub keep: bool,
}

/// The kinds of calendar period.
#[derive(Clone, Copy, Debug, PartialEq, Eq, Structural)]
pub enum PeriodKind {
    Hour,
    Day,
    Week,
    Month,
    Year,
}

impl Periods {
    /// The number of the period of the given kind.
    pub open spec fn of(self, kind: PeriodKind) -> i64 {
        match kind {
            PeriodKind::Hour => self.hour,
            PeriodKind::Day => self.day,
            PeriodKind::Week => self.week,
            PeriodKind::Month => self.month,
            PeriodKind::Year => self.year,
        }
    }

    /// The number of the period of the given kind.
    pub fn get(&self, kind: PeriodKind) -> (r: i64)
        ensures
            r == self.of(kind),
    {
        match kind {
            PeriodKind::Hour => self.hour,
            PeriodKind::Day => self.day,
            PeriodKind::Week => self.week,
            PeriodKind::Month => self.month,
            PeriodKind::Year => self.year,
        }
    }
}

/// The snapshot at `i` is the newest of its period: no snapshot before it
/// has the same period number.
pub open spec fn newest_of_period(keys: Seq<i64>, i: int) -> bool {
    forall|j: int| 0 <= j < i ==> #[trigger] keys[j] != keys[i]
}

/// The number of different periods among the first `i` snapshots.
pub open spec fn periods_before(keys: Seq<i64>, i: int) -> nat
    decreases i,
{
    if i <= 0 {
        0
    } else if newest_of_period(keys, i - 1) {
        periods_before(keys, i - 1) + 1
    } else {
        periods_before(keys, i - 1)
    }
}

/// Whether a period rule with the given limit selects the snapshot at
/// `i`: it is the newest of its period, and fewer periods than the limit
/// came before.
pub open spec fn kept_by_period(keys: Seq<i64>, limit: Option<u64>, i: int) -> bool {
    match limit {
        Some(n) => newest_of_period(keys, i) && periods_before(keys, i) < n,
        None => false,
    }
}

/// Whether the rule `keep-last` with the given limit selects the snapshot
/// at `i`.
pub open spec fn kept_by_last(limit: Option<u64>, i: int) -> bool {
    match limit {
        Some(n) => i < n,
        None => false,
    }
}

/// The period numbers of the given kind, one per snapshot.
pub open spec fn period_keys(list: Seq<PruneCandidate>, kind: PeriodKind) -> Seq<i64> {
    Seq::new(list.len(), |i: int| list[i].periods.of(kind))
}

/// Whether the snapshot at `i` is kept: it is protected, or a rule
/// selects it.
pub open spec fn keeps(list: Seq<PruneCandidate>, options: PruneOptions, i: int) -> bool {
    ||| list[i].protected
    ||| kept_by_last(options.keep_last, i)
    ||| kept_by_period(period_keys(list, PeriodKind::Hour), options.keep_hourly, i)
    ||| kept_by_period(period_keys(list, PeriodKind::Day), options.keep_daily, i)
    ||| kept_by_period(period_keys(list, PeriodKind::Week), options.keep_weekly, i)
    ||| kept_by_period(period_keys(list, PeriodKind::Month), options.keep_monthly, i)
    ||| kept_by_period(period_keys(list, PeriodKind::Year), options.keep_yearly, i)
}

/// The number of periods met only grows down the list.
pub proof fn lemma_periods_before_grows(keys: Seq<i64>, i: int, k: int)
    requires
        i <= k,
    ensures
        periods_before(keys, i) <= periods_before(keys, k),
    decreases k - i,
{
    if i < k {
        lemma_periods_before_grows(keys, i, k - 1);
    }
}

/// Whether `x` occurs in `v`.
fn seen_before(v: &Vec<i64>, x: i64) -> (b: bool)
    ensures
        b == v@.contains(x),
{
    let mut i: usize = 0;
    while i < v.len()
        invariant
            i <= v.len(),
            forall|j: int| 0 <= j < i ==> v@[j] != x,
        decreases v.len() - i,
    {
        if v[i] == x {
            return true;
        }
        i += 1;
    }
    false
}

/// What a period rule with the given limit selects, snapshot by snapshot.
pub fn select_by_period(keys: &Vec<i64>, limit: Option<u64>) -> (r: Vec<bool>)
    ensures
        r@.len() == keys@.len(),
        forall|i: int| 0 <= i < keys@.len() ==> #[trigger] r@[i] == kept_by_period(keys@, limit, i),
{
    let mut r: Vec<bool> = Vec::new();
    let n: u64 = match limit {
        Some(n) => n,
        None => 0,
    };
    let mut seen: Vec<i64> = Vec::new();
    let mut i: usize = 0;
    while i < keys.len()
        invariant
            i <= keys@.len(),
            r@.len() == i,
            limit is Some ==> n == limit->0,
            limit is None ==> n == 0,
            forall|j: int| 0 <= j < i ==> #[trigger] r@[j] == kept_by_period(keys@, limit, j),
            seen@.len() <= i,
            seen@.len() <= n,
            seen@.len() < n ==> seen@.len() == periods_before(keys@, i as int),
            seen@.len() < n ==> forall|j: int| 0 <= j < i ==> seen@.contains(#[trigger] keys@[j]),
            forall|k: int|
                0 <= k < seen@.len() ==> exists|j: int|
                    0 <= j < i && keys@[j] == #[trigger] seen@[k],
            seen@.len() >= n ==> periods_before(keys@, i as int) >= n,
        decreases keys@.len() - i,
    {
        let key = keys[i];
        let mut selected = false;
        if (seen.len() as u64) < n {
            let known = seen_before(&seen, key);
            proof {
                if known {
                    let k = choose|k: int| 0 <= k < seen@.len() && seen@[k] == key;
                    let j = choose|j: int| 0 <= j < i && keys@[j] == seen@[k];
                    assert(keys@[j] == keys@[i as int]);
                    assert(!newest_of_period(keys@, i as int));
                } else {
                    let ghost at = i as int;
                    assert forall|j: int| 0 <= j < i implies #[trigger] keys@[j] != keys@[at] by {
                        assert(seen@.contains(keys@[j]));
                    }
                    assert(newest_of_period(keys@, i as int));
                }
            }
            if !known {
                let ghost old_seen = seen@;
                seen.push(key);
                selected = true;
                proof {
                    assert forall|j: int| 0 <= j < i + 1 implies seen@.contains(
                        #[trigger] keys@[j],
                    ) by {
                        if j < i {
                            let k = choose|k: int|
                                0 <= k < old_seen.len() && old_seen[k] == keys@[j];
                            assert(seen@[k] == keys@[j]);
                        } else {
                            assert(seen@[old_seen.len() as int] == keys@[j]);
                        }
                    }
                    assert forall|k: int| 0 <= k < seen@.len() implies exists|j: int|
                        0 <= j < i + 1 && keys@[j] == #[trigger] seen@[k] by {
                        if k < old_seen.len() {
                            let j = choose|j: int| 0 <= j < i && keys@[j] == old_seen[k];
                            assert(keys@[j] == seen@[k]);
                        } else {
                            assert(keys@[i as int] == seen@[k]);
                        }
                    }
                }
            } else {
                proof {
                    assert forall|k: int| 0 <= k < seen@.len() implies exists|j: int|
                        0 <= j < i + 1 && keys@[j] == #[trigger] seen@[k] by {
                        let j = choose|j: int| 0 <= j < i && keys@[j] == seen@[k];
                        assert(keys@[j] == seen@[k]);
                    }
                }
            }
        } else {
            proof {
                lemma_periods_before_grows(keys@, i as int, i as int + 1);
                assert forall|k: int| 0 <= k < seen@.len() implies exists|j: int|
                    0 <= j < i + 1 && keys@[j] == #[trigger] seen@[k] by {
                    let j = choose|j: int| 0 <= j < i && keys@[j] == seen@[k];
                    assert(keys@[j] == seen@[k]);
                }
            }
        }
        r.push(selected);
        i += 1;
    }
    r
}

/// The period numbers of the given kind, one per snapshot.
fn keys_of(list: &Vec<PruneCandidate>, kind: PeriodKind) -> (r: Vec<i64>)
    ensures
        r@ == period_keys(list@, kind),
{
    let mut r: Vec<i64> = Vec::new();
    let mut i: usize = 0;
    while i < list.len()
        invariant
            i <= list@.len(),
            r@.len() == i,
            forall|j: int| 0 <= j < i ==> #[trigger] r@[j] == list@[j].periods.of(kind),
        decreases list@.len() - i,
    {
        r.push(list[i].periods.get(kind));
        i += 1;
    }
    assert(r@ =~= period_keys(list@, kind));
    r
}

/// The verdict of the policy `options` on every snapshot of `list`, the
/// snapshots of one group given newest first.
pub fn compute_prune_info(list: &Vec<PruneCandidate>, options: &PruneOptions) -> (r: Vec<
    PruneListItem,
>)
    ensures
        r@.len() == list@.len(),
        forall|i: int|
            0 <= i < list@.len() ==> (#[trigger] r@[i]).backup == list@[i].backup && r@[i].keep
                == keeps(list@, *options, i),
        forall|i: int| 0 <= i < list@.len() && list@[i].protected ==> (#[trigger] r@[i]).keep,
{
    let hourly = select_by_period(&keys_of(list, PeriodKind::Hour), options.keep_hourly);
    let daily = select_by_period(&keys_of(list, PeriodKind::Day), options.keep_daily);
    let weekly = select_by_period(&keys_of(list, PeriodKind::Week), options.keep_weekly);
    let monthly = select_by_period(&keys_of(list, PeriodKind::Month), options.keep_monthly);
    let yearly = select_by_period(&keys_of(list, PeriodKind::Year), options.keep_yearly);
    let mut r: Vec<PruneListItem> = Vec::new();
    let mut i: usize = 0;
    while i < list.len()
        invariant
            i <= list@.len(),
            r@.len() == i,
            hourly@.len() == list@.len(),
            daily@.len() == list@.len(),
            weekly@.len() == list@.len(),
            monthly@.len() == list@.len(),
            yearly@.len() == list@.len(),
            forall|j: int|
                0 <= j < list@.len() ==> #[trigger] hourly@[j] == kept_by_period(
                    period_keys(list@, PeriodKind::Hour),
                    options.keep_hourly,
                    j,
                ),
            forall|j: int|
                0 <= j < list@.len() ==> #[trigger] daily@[j] == kept_by_period(
                    period_keys(list@, PeriodKind::Day),
                    options.keep_daily,
                    j,
                ),
            forall|j: int|
                0 <= j < list@.len() ==> #[trigger] weekly@[j] == kept_by_period(
                    period_keys(list@, PeriodKind::Week),
                    options.keep_weekly,
                    j,
                ),
            forall|j: int|
                0 <= j < list@.len() ==> #[trigger] monthly@[j] == kept_by_period(
                    period_keys(list@, PeriodKind::Month),
                    options.keep_monthly,
                    j,
                ),
            forall|j: int|
                0 <= j < list@.len() ==> #[trigger] yearly@[j] == kept_by_period(
                    period_keys(list@, PeriodKind::Year),
                    options.keep_yearly,
                    j,
                ),
            forall|j: int|
                0 <= j < i ==> (#[trigger] r@[j]).backup == list@[j].backup && r@[j].keep == keeps(
                    list@,
                    *options,
                    j,
                ),
        decreases list@.len() - i,
    {
        let last = match options.keep_last {
            Some(n) => (i as u64) < n,
            None => false,
        };
        let keep = list[i].protected || last || hourly[i] || daily[i] || weekly[i] || monthly[i]
            || yearly[i];
        r.push(PruneListItem { backup: list[i].backup.clone(), keep });
        i += 1;
    }
    r
}

/// A protected snapshot is kept whatever the policy says.
pub proof fn lemma_protected_kept(list: Seq<PruneCandidate>, options: PruneOptions, i: int)
    requires
        0 <= i < list.len(),
        list[i].protected,
    ensures
        keeps(list, options, i),
{
}

/// Under a policy without any rule exactly the protected snapshots are kept.
pub proof fn lemma_no_rule_keeps_nothing(list: Seq<PruneCandidate>, options: PruneOptions, i: int)
    requires
        0 <= i < list.len(),
        options == (PruneOptions {
            keep_last: None,
            keep_hourly: None,
            keep_daily: None,
            keep_weekly: None,
            keep_monthly: None,
            keep_yearly: None,
        }),
    ensures
        keeps(list, options, i) == list[i].protected,
{
}

} // verus!

verus! {

/// How many of the first `n` snapshots a period rule selects.
pub open spec fn selected_before(keys: Seq<i64>, limit: Option<u64>, n: int) -> nat
    decreases n,
{
    if n <= 0 {
        0
    } else if kept_by_period(keys, limit, n - 1) {
        selected_before(keys, limit, n - 1) + 1
    } else {
        selected_before(keys, limit, n - 1)
    }
}

/// A period rule selects one snapshot for each period met, until it has
/// selected as many as its limit says: never more.
pub proof fn lemma_period_rule_count(keys: Seq<i64>, limit: u64, n: int)
    requires
        0 <= n <= keys.len(),
    ensures
        selected_before(keys, Some(limit), n) == if periods_before(keys, n) < limit {
            periods_before(keys, n)
        } else {
            limit as nat
        },
        selected_before(keys, Some(limit), n) <= limit,
    decreases n,
{
    if n > 0 {
        lemma_period_rule_count(keys, limit, n - 1);
    }
}

/// A period rule selects at most one snapshot of each period, and it is
/// the newest of that period.
pub proof fn lemma_one_per_period(keys: Seq<i64>, limit: Option<u64>, i: int, j: int)
    requires
        0 <= j < i < keys.len(),
        kept_by_period(keys, limit, i),
    ensures
        keys[j] != keys[i],
{
}

/// A rule that is not set selects nothing.
pub proof fn lemma_unset_rule(keys: Seq<i64>, i: int)
    ensures
        !kept_by_period(keys, None, i),
        !kept_by_last(None, i),
{
}

} // verus!
