//! What the service tells about itself: its latest failures, which are held in
//! memory only, and the state of its updater.
use std::collections::VecDeque;
use std::time::{SystemTime, UNIX_EPOCH};
use vstd::prelude::*;

verus! {

/// The number of failures that are kept.
pub const MAX_ERRORS: usize = 50;

/// One failure. Every field is a fixed label or a value parsed into a narrow
/// shape (a host name, an SQLSTATE), never an error message: that may echo
/// request data, and the caller has it already.
#[derive(Debug)]
pub struct ErrorEntry {
    pub at: u64,
    pub source: &'static str,
    pub kind: &'static str,
    pub host: Option<String>,
    pub code: Option<String>,
}

/// The latest failures, the oldest first.
pub struct ErrorLog {
    entries: VecDeque<ErrorEntry>,
}

impl View for ErrorLog {
    type V = Seq<ErrorEntry>;

    closed spec fn view(&self) -> Seq<ErrorEntry> {
        self.entries@
    }
}

/// The last `MAX_ERRORS` of a row of failures.
pub open spec fn latest(s: Seq<ErrorEntry>) -> Seq<ErrorEntry> {
    if s.len() > MAX_ERRORS {
        s.skip(s.len() - MAX_ERRORS)
    } else {
        s
    }
}

impl ErrorLog {
    /// A log holds no more than `MAX_ERRORS` failures.
    pub open spec fn well_formed(&self) -> bool {
        self@.len() <= MAX_ERRORS
    }

    /// A log without failures.
    pub fn new() -> (r: ErrorLog)
        ensures
            r.well_formed(),
            r@ == Seq::<ErrorEntry>::empty(),
    {
        ErrorLog { entries: VecDeque::with_capacity(MAX_ERRORS) }
    }

    /// The number of failures in the log.
    pub fn len(&self) -> (r: usize)
        ensures
            r == self@.len(),
    {
        self.entries.len()
    }

    /// Failure `i`, counted from the oldest.
    pub fn get(&self, i: usize) -> (r: &ErrorEntry)
        requires
            i < self@.len(),
        ensures
            *r == self@[i as int],
    {
        &self.entries[i]
    }
}

/// `SystemTime::now`: what the clock shows. Nothing is known of it.
pub assume_specification[ SystemTime::now ]() -> SystemTime
;

#[verifier::external_type_specification]
#[verifier::external_body]
pub struct ExSystemTime(SystemTime);

/// `SystemTime::duration_since` the Unix epoch, in whole seconds; nothing for a
/// time before it. A time is opaque here, so no clause ties the seconds to it.
#[verifier::external_body]
fn unix_seconds(t: &SystemTime) -> (r: Option<u64>) {
    t.duration_since(UNIX_EPOCH).ok().map(|d| d.as_secs())
}

/// The seconds since the Unix epoch, zero for a clock that stands before it.
pub fn seconds_or_zero(reading: Option<u64>) -> (r: u64)
    ensures
        r == (match reading {
            Some(s) => s,
            None => 0,
        }),
{
    match reading {
        Some(s) => s,
        None => 0,
    }
}

/// Whether the clock was read, and the reading turned into `s`.
pub closed spec fn is_reading(s: Option<u64>) -> bool {
    exists|t: SystemTime|
        #![trigger call_ensures(unix_seconds, (&t,), s)]
        call_ensures(SystemTime::now, (), t) && call_ensures(unix_seconds, (&t,), s)
}

/// Whether `at` is a time that the clock showed, in seconds since the Unix
/// epoch; zero for a clock that stands before it.
pub open spec fn is_clock_time(at: u64) -> bool {
    exists|s: Option<u64>| #[trigger]
        is_reading(s) && at == (match s {
            Some(x) => x,
            None => 0,
        })
}

/// The current time, in seconds since the Unix epoch: what the clock shows, so
/// nothing is known of its value.
pub fn now() -> (r: u64)
    ensures
        is_clock_time(r),
{
    let clock = SystemTime::now;
    let convert = unix_seconds;
    let t = clock();
    let s = convert(&t);
    assert(is_reading(s));
    seconds_or_zero(s)
}

/// Notes a failure that happened at a given time. Where the log is full, the
/// oldest failure leaves it.
pub fn record_at(
    log: &mut ErrorLog,
    at: u64,
    source: &'static str,
    kind: &'static str,
    host: Option<String>,
    code: Option<String>,
)
    requires
        old(log).well_formed(),
    ensures
        final(log).well_formed(),
        final(log)@ == latest(old(log)@.push(ErrorEntry { at, source, kind, host, code })),
{
    if log.entries.len() == MAX_ERRORS {
        log.entries.pop_front();
    }
    log.entries.push_back(ErrorEntry { at, source, kind, host, code });
    assert(log@ =~= latest(old(log)@.push(ErrorEntry { at, source, kind, host, code })));
}

/// Notes a failure that happens now.
pub fn record(
    log: &mut ErrorLog,
    source: &'static str,
    kind: &'static str,
    host: Option<String>,
    code: Option<String>,
)
    requires
        old(log).well_formed(),
    ensures
        final(log).well_formed(),
        exists|at: u64| #[trigger]
            is_clock_time(at) && final(log)@ == latest(
                old(log)@.push(ErrorEntry { at, source, kind, host, code }),
            ),
{
    let at: u64 = now();
    record_at(log, at, source, kind, host, code);
}

/// A log holds the latest failures of all that were ever noted: what it holds
/// after one more is the same whether the earlier ones were dropped or not.
pub proof fn log_keeps_latest(history: Seq<ErrorEntry>, e: ErrorEntry)
    ensures
        latest(latest(history).push(e)) == latest(history.push(e)),
{
    assert(latest(latest(history).push(e)) =~= latest(history.push(e)));
}

/// The latest failure is never lost, and the failures before it keep their
/// order.
pub proof fn log_ends_with_latest(log: Seq<ErrorEntry>, e: ErrorEntry)
    requires
        log.len() <= MAX_ERRORS,
    ensures
        latest(log.push(e)).last() == e,
        latest(log.push(e)).drop_last() == log.skip(
            if log.len() == MAX_ERRORS {
                1
            } else {
                0
            },
        ),
{
    assert(latest(log.push(e)).drop_last() =~= log.skip(
        if log.len() == MAX_ERRORS {
            1
        } else {
            0
        },
    ));
}

/// The state of the updater.
#[derive(Debug)]
pub struct UpdaterStatus {
    pub enabled: bool,
    pub last_check: Option<u64>,
    pub latest_release: Option<String>,
    pub last_error: Option<&'static str>,
}

impl Default for UpdaterStatus {
    fn default() -> (r: UpdaterStatus)
        ensures
            r == (UpdaterStatus {
                enabled: false,
                last_check: None,
                latest_release: None,
                last_error: None,
            }),
    {
        UpdaterStatus { enabled: false, last_check: None, latest_release: None, last_error: None }
    }
}

/// All that the service knows of its own state.
pub struct Health {
    pub errors: ErrorLog,
    pub updater: UpdaterStatus,
}

/// The state of a service that has just started.
pub fn init() -> (r: Health)
    ensures
        r.errors.well_formed(),
        r.errors@ == Seq::<ErrorEntry>::empty(),
        r.updater == (UpdaterStatus {
            enabled: false,
            last_check: None,
            latest_release: None,
            last_error: None,
        }),
{
    Health { errors: ErrorLog::new(), updater: UpdaterStatus::default() }
}

/// Lets `f` change the state of the updater, once. The log stays as it is.
pub fn update_updater<F: FnOnce(&mut UpdaterStatus)>(health: &mut Health, f: F)
    requires
        forall|u: &mut UpdaterStatus|
            *u == old(health).updater ==> #[trigger] call_requires(f, (u,)),
    ensures
        final(health).errors == old(health).errors,
        exists|u: &mut UpdaterStatus|
            *u == old(health).updater && *final(u) == final(health).updater && #[trigger] call_ensures(
                f,
                (u,),
                (),
            ),
{
    f(&mut health.updater);
}

/// One update that does the work of two leaves what the two leave, one after
/// the other: `h` does the work of `f` and then that of `g`.
pub proof fn joined_update_leaves_what_two_leave<
    F: FnOnce(&mut UpdaterStatus),
    G: FnOnce(&mut UpdaterStatus),
    H: FnOnce(&mut UpdaterStatus),
>(f: F, g: G, h: H, before: UpdaterStatus, after: UpdaterStatus)
    requires
        forall|u: &mut UpdaterStatus| #[trigger]
            call_ensures(h, (u,), ()) ==> exists|v: &mut UpdaterStatus, w: &mut UpdaterStatus|
                *v == *u && *w == *final(v) && *final(w) == *final(u) && #[trigger] call_ensures(
                    f,
                    (v,),
                    (),
                ) && #[trigger] call_ensures(g, (w,), ()),
        exists|u: &mut UpdaterStatus|
            *u == before && *final(u) == after && #[trigger] call_ensures(h, (u,), ()),
    ensures
        exists|v: &mut UpdaterStatus, w: &mut UpdaterStatus|
            *v == before && *w == *final(v) && *final(w) == after && #[trigger] call_ensures(
                f,
                (v,),
                (),
            ) && #[trigger] call_ensures(g, (w,), ()),
{
}

/// The updater's state once it is switched on or off.
pub open spec fn switched(u: UpdaterStatus, enabled: bool) -> UpdaterStatus {
    UpdaterStatus { enabled, ..u }
}

/// The updater's state after a check that ended at `at` and found a release, or
/// failed with a label.
pub open spec fn checked(
    u: UpdaterStatus,
    at: u64,
    found: Result<String, &'static str>,
) -> UpdaterStatus {
    match found {
        Ok(release) => UpdaterStatus {
            last_check: Some(at),
            latest_release: Some(release),
            last_error: None,
            ..u
        },
        Err(label) => UpdaterStatus { last_check: Some(at), last_error: Some(label), ..u },
    }
}

/// Notes what a check found.
pub fn note_check(u: &mut UpdaterStatus, at: u64, found: Result<String, &'static str>)
    ensures
        *final(u) == checked(*old(u), at, found),
{
    u.last_check = Some(at);
    match found {
        Ok(release) => {
            u.latest_release = Some(release);
            u.last_error = None;
        },
        Err(label) => {
            u.last_error = Some(label);
        },
    }
}

/// A failed check leaves the release that was found last.
pub proof fn failed_check_keeps_release(u: UpdaterStatus, at: u64, label: &'static str)
    ensures
        checked(u, at, Err(label)).latest_release == u.latest_release,
        checked(u, at, Err(label)).last_error == Some(label),
{
}

/// The answer to a question about the service's health.
pub struct HealthReport {
    pub version: &'static str,
    pub uptime_secs: u64,
    pub updater: UpdaterStatus,
    pub errors: Vec<ErrorEntry>,
}

fn copy_text(t: &Option<String>) -> (r: Option<String>)
    ensures
        r == *t,
{
    match t {
        Some(s) => Some(s.clone()),
        None => None,
    }
}

fn copy_entry(e: &ErrorEntry) -> (r: ErrorEntry)
    ensures
        r == *e,
{
    ErrorEntry {
        at: e.at,
        source: e.source,
        kind: e.kind,
        host: copy_text(&e.host),
        code: copy_text(&e.code),
    }
}

/// Reports the state of the service: all failures that are kept, the oldest
/// first, and the state of the updater.
pub fn report(health: &Health, version: &'static str, uptime_secs: u64) -> (r: HealthReport)
    ensures
        r.version == version,
        r.uptime_secs == uptime_secs,
        r.updater == health.updater,
        r.errors@ == health.errors@,
{
    let mut errors: Vec<ErrorEntry> = Vec::new();
    let mut i: usize = 0;
    while i < health.errors.len()
        invariant
            i <= health.errors@.len(),
            errors@ == health.errors@.take(i as int),
        decreases health.errors@.len() - i,
    {
        errors.push(copy_entry(health.errors.get(i)));
        assert(errors@ =~= health.errors@.take(i + 1));
        i += 1;
    }
    assert(health.errors@.take(i as int) =~= health.errors@);
    let updater = UpdaterStatus {
        enabled: health.updater.enabled,
        last_check: health.updater.last_check,
        latest_release: copy_text(&health.updater.latest_release),
        last_error: health.updater.last_error,
    };
    HealthReport { version, uptime_secs, updater, errors }
}

// ---------------------------------------------------------------------------
// What holds of every call
// ---------------------------------------------------------------------------

/// Whether a log has one entry more at its end: the entries before it are those
/// of the log, in their order, without the oldest where there were fifty.
pub open spec fn has_one_more(before: Seq<ErrorEntry>, after: Seq<ErrorEntry>) -> bool {
    let gone: int = if before.len() < 50 {
        0
    } else {
        1
    };
    &&& after.len() == before.len() + 1 - gone
    &&& forall|i: int| 0 <= i < after.len() - 1 ==> #[trigger] after[i] == before[i + gone]
}

/// A failure becomes the last entry of the log, with all that is told of it. The
/// entries before it stay in their order; of fifty the oldest leaves.
pub proof fn failures_are_appended(
    log: &mut ErrorLog,
    at: u64,
    source: &'static str,
    kind: &'static str,
    host: Option<String>,
    code: Option<String>,
)
    requires
        call_ensures(record_at, (log, at, source, kind, host, code), ()),
        old(log)@.len() <= 50,
    ensures
        has_one_more(old(log)@, final(log)@),
        final(log)@.last().at == at,
        final(log)@.last().source == source,
        final(log)@.last().kind == kind,
        final(log)@.last().host == host,
        final(log)@.last().code == code,
{
}

/// A service starts without failures and with its updater off.
pub proof fn services_start_clean(r: Health)
    requires
        call_ensures(init, (), r),
    ensures
        r.errors@.len() == 0,
        !r.updater.enabled,
        r.updater.last_check is None,
        r.updater.latest_release is None,
        r.updater.last_error is None,
{
}

/// A report hides nothing and adds nothing: it has every entry of the log in its
/// place, each field of the updater's state, and what it was given.
pub proof fn reports_are_complete(
    health: Health,
    version: &'static str,
    uptime_secs: u64,
    r: HealthReport,
)
    requires
        call_ensures(report, (&health, version, uptime_secs), r),
    ensures
        r.version == version,
        r.uptime_secs == uptime_secs,
        r.errors@.len() == health.errors@.len(),
        forall|i: int| 0 <= i < r.errors@.len() ==> #[trigger] r.errors@[i] == health.errors@[i],
        r.updater.enabled == health.updater.enabled,
        r.updater.last_check == health.updater.last_check,
        r.updater.latest_release == health.updater.latest_release,
        r.updater.last_error == health.updater.last_error,
{
}

/// A check shows when it was made and what it found: a release replaces the last
/// one and clears the error, and an error leaves the release.
pub proof fn checks_are_shown(
    u: &mut UpdaterStatus,
    at: u64,
    found: Result<String, &'static str>,
)
    requires
        call_ensures(note_check, (u, at, found), ()),
    ensures
        final(u).enabled == old(u).enabled,
        final(u).last_check == Some(at),
        found matches Ok(release) ==> final(u).latest_release == Some(release) && final(u).last_error is None,
        found matches Err(label) ==> final(u).latest_release == old(u).latest_release && final(u).last_error == Some(label),
{
}

/// A reading is the time, and without one the time is zero.
pub proof fn readings_are_the_time(reading: Option<u64>, r: u64)
    requires
        call_ensures(seconds_or_zero, (reading,), r),
    ensures
        reading matches Some(s) ==> r == s,
        reading is None ==> r == 0,
{
}

/// Entries are counted and found by their place.
pub proof fn entries_have_places(log: ErrorLog, n: usize, i: usize, e: &ErrorEntry)
    requires
        call_ensures(ErrorLog::len, (&log,), n),
        call_ensures(ErrorLog::get, (&log, i), e),
        i < n,
    ensures
        n == log@.len(),
        *e == log@[i as int],
{
}

/// A failure that is noted now becomes the last entry of the log, with all that is
/// told of it and a time of the clock.
pub proof fn failures_are_noted_now(
    log: &mut ErrorLog,
    source: &'static str,
    kind: &'static str,
    host: Option<String>,
    code: Option<String>,
)
    requires
        call_ensures(record, (log, source, kind, host, code), ()),
        old(log)@.len() <= 50,
    ensures
        has_one_more(old(log)@, final(log)@),
        is_clock_time(final(log)@.last().at),
        final(log)@.last().source == source,
        final(log)@.last().kind == kind,
        final(log)@.last().host == host,
        final(log)@.last().code == code,
{
}

/// A change of the updater's state is the one that was asked for, made once on
/// the state as it was, and the log stays as it is.
pub proof fn changes_are_made_once<F: FnOnce(&mut UpdaterStatus)>(health: &mut Health, f: F)
    requires
        call_ensures(update_updater::<F>, (health, f), ()),
    ensures
        final(health).errors@ == old(health).errors@,
        exists|u: &mut UpdaterStatus|
            *u == old(health).updater && *final(u) == final(health).updater && #[trigger] call_ensures(
                f,
                (u,),
                (),
            ),
{
}

} // verus!
