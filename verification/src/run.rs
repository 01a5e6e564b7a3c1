//! A run: which profiles it scans, what it makes of each, and how it ends.

use crate::cache::MergeOutcome;
use crate::clock::{utc_now, Timestamp, SECS_PER_DAY};
use crate::follows::FollowsOutcome;
use crate::output::{new_alert, Alert};
use crate::record::ScrapeResult;
use crate::scan::Outcome;
use crate::text::{decimal_text, unsigned_text};
use vstd::prelude::*;

verus! {

use crate::cache::{active_on, cleaned, deletes_on, merged_lines, on_file};
use crate::clock::rfc3339_seconds;
use crate::follows::{FollowsState, FollowsView};
use crate::merge_laws::{law_cleaned_is_a_harvest, law_partial_harvest_deletes_nobody};
use crate::record::{all_inside, bare_record, window_start, windowed, RecordView};
use crate::scan::OutcomeView;
use crate::text::{decimal, digits, texts};

pub const EXIT_OK: i32 = 0;

pub const EXIT_CONFIG_ERROR: i32 = 1;

pub const EXIT_LOGGED_OUT: i32 = 2;

pub const EXIT_SCHEMA_DRIFT: i32 = 3;

pub const EXIT_BROWSER_ERROR: i32 = 4;

pub const EXIT_CANARY_FAILED: i32 = 5;

/// The exit code for flags that cannot be read.
pub const EXIT_USAGE: i32 = 2;

/// The public account that is scanned first as a control: one that gives no
/// posts, without a login being asked for, means that the reading is broken.
pub const CANARY_USERNAME: &'static str = "instagram";

// --- which profiles ------------------------------------------------------------------

/// The profile whose queries are shown: the one that is asked for, or else the
/// canary.
pub open spec fn target_of(one_shot: Seq<char>) -> Seq<char> {
    if one_shot.len() > 0 {
        one_shot
    } else {
        CANARY_USERNAME@
    }
}

pub fn capture_target(one_shot: &str) -> (r: String)
    ensures
        r@ == target_of(one_shot@),
{
    if one_shot.is_empty() {
        CANARY_USERNAME.to_owned()
    } else {
        one_shot.to_owned()
    }
}

/// The profiles to scan: the one that is asked for alone, or else the follows
/// list, or else the configured usernames; at most `limit` of them where that
/// is positive.
pub open spec fn scan_names(
    one_shot: Seq<char>,
    follows: Seq<Seq<char>>,
    usernames: Seq<Seq<char>>,
    limit: i64,
) -> Seq<Seq<char>> {
    let list = if one_shot.len() > 0 {
        seq![one_shot]
    } else if follows.len() > 0 {
        follows
    } else {
        usernames
    };
    if 0 < limit < list.len() {
        list.take(limit as int)
    } else {
        list
    }
}

fn copy_names(names: &[String]) -> (r: Vec<String>)
    ensures
        texts(r@) == texts(names@),
{
    let mut out: Vec<String> = Vec::new();
    let mut i: usize = 0;
    while i < names.len()
        invariant
            0 <= i <= names@.len(),
            out@.len() == i,
            forall|k: int| 0 <= k < i ==> (#[trigger] out@[k])@ == names@[k]@,
        decreases names@.len() - i,
    {
        out.push(names[i].clone());
        i += 1;
    }
    assert(texts(out@) =~= texts(names@));
    out
}

pub fn scan_list(
    one_shot: &str,
    follows: Vec<String>,
    usernames: &[String],
    limit: i64,
) -> (r: Vec<String>)
    ensures
        texts(r@) == scan_names(one_shot@, texts(follows@), texts(usernames@), limit),
{
    let mut list: Vec<String> = if !one_shot.is_empty() {
        let mut one: Vec<String> = Vec::new();
        one.push(one_shot.to_owned());
        assert(texts(one@) =~= seq![one_shot@]);
        one
    } else if follows.len() > 0 {
        follows
    } else {
        copy_names(usernames)
    };
    let ghost all = list@;
    if limit > 0 && (limit as u64) < list.len() as u64 {
        list.truncate(limit as usize);
        assert(texts(list@) =~= texts(all).take(limit as int));
    }
    list
}

// --- limits --------------------------------------------------------------------------

/// The longest time that one profile may take, in seconds.
pub open spec fn tab_budget(nav_timeout_sec: int, max_scrolls: int) -> int {
    nav_timeout_sec + 10 + max_scrolls * 3
}

/// How long the browser may stay without a request: longer than a profile takes,
/// and longer than the pause between two.
pub open spec fn idle_of(nav_timeout_sec: int, max_scrolls: int, jitter_max_secs: int) -> int {
    60 + (if tab_budget(nav_timeout_sec, max_scrolls) > jitter_max_secs {
        tab_budget(nav_timeout_sec, max_scrolls)
    } else {
        jitter_max_secs
    })
}

pub fn idle_secs(nav_timeout_sec: i64, max_scrolls: i64, jitter_max_secs: i64) -> (r: i64)
    requires
        nav_timeout_sec + 10 <= i64::MAX,
        i64::MIN <= max_scrolls * 3 <= i64::MAX,
        i64::MIN <= tab_budget(nav_timeout_sec as int, max_scrolls as int) <= i64::MAX - 60,
        jitter_max_secs <= i64::MAX - 60,
    ensures
        r == idle_of(nav_timeout_sec as int, max_scrolls as int, jitter_max_secs as int),
{
    let budget: i64 = nav_timeout_sec + 10 + max_scrolls * 3;
    if budget > jitter_max_secs {
        budget + 60
    } else {
        jitter_max_secs + 60
    }
}

/// How far back the pages of posts are read, as a Unix time: 0 where there is
/// no window.
pub open spec fn until_of(days: i64, now: int) -> int {
    if days > 0 {
        window_start(days, now)
    } else {
        0
    }
}

pub fn paginate_until(time_window_days: i64, now: i64) -> (r: i64)
    requires
        now >= 0,
        time_window_days > 0 ==> time_window_days * SECS_PER_DAY <= i64::MAX,
    ensures
        r == until_of(time_window_days, now as int),
{
    if time_window_days > 0 {
        now - time_window_days * SECS_PER_DAY
    } else {
        0
    }
}

// --- the canary ----------------------------------------------------------------------

/// What the scan of the canary shows.
#[derive(Debug)]
pub enum CanaryVerdict {
    LoggedOut,
    Healthy,
    /// The reading is broken, as the note says.
    Failed(String),
}

/// What the scan of the canary shows, in plain terms.
pub enum CanaryView {
    LoggedOut,
    Healthy,
    Failed(Seq<char>),
}

impl View for CanaryVerdict {
    type V = CanaryView;

    open spec fn view(&self) -> CanaryView {
        match self {
            CanaryVerdict::LoggedOut => CanaryView::LoggedOut,
            CanaryVerdict::Healthy => CanaryView::Healthy,
            CanaryVerdict::Failed(note) => CanaryView::Failed(note@),
        }
    }
}

/// What the outcome of a scan of the canary shows: it is healthy when it gave a
/// post.
pub open spec fn canary_of(o: OutcomeView) -> CanaryView {
    if o.requires_login {
        CanaryView::LoggedOut
    } else {
        match o.err {
            Some(e) => CanaryView::Failed("canary scrape errored: "@ + e),
            None => match o.result {
                None => CanaryView::Failed("canary returned no result"@),
                Some(r) => match r.recent_posts {
                    Some(posts) => if posts.len() > 0 {
                        CanaryView::Healthy
                    } else {
                        CanaryView::Failed(
                            "canary returned 0 posts \u{2014} extraction likely broken"@,
                        )
                    },
                    None => CanaryView::Failed(
                        "canary returned 0 posts \u{2014} extraction likely broken"@,
                    ),
                },
            },
        }
    }
}

pub fn canary_verdict(o: &Outcome) -> (r: CanaryVerdict)
    ensures
        r@ == canary_of(o@),
{
    if o.requires_login {
        return CanaryVerdict::LoggedOut;
    }
    if let Some(e) = &o.err {
        let mut note = "canary scrape errored: ".to_owned();
        note.append(e.as_str());
        return CanaryVerdict::Failed(note);
    }
    match &o.result {
        None => CanaryVerdict::Failed("canary returned no result".to_owned()),
        Some(record) => {
            let empty = match &record.recent_posts {
                Some(posts) => posts.len() == 0,
                None => true,
            };
            if empty {
                CanaryVerdict::Failed(
                    "canary returned 0 posts \u{2014} extraction likely broken".to_owned(),
                )
            } else {
                CanaryVerdict::Healthy
            }
        },
    }
}

/// The record to write of the canary, if there is one: it says that it is of the
/// canary.
pub open spec fn canary_line(o: OutcomeView) -> Option<RecordView> {
    match o.result {
        Some(record) => Some(RecordView { source: "canary"@, ..record }),
        None => None,
    }
}

pub fn canary_record(o: Outcome) -> (r: Option<ScrapeResult>)
    ensures
        match r {
            Some(record) => canary_line(o@) == Some(record@),
            None => canary_line(o@) is None,
        },
{
    match o.result {
        Some(record) => {
            let mut record = record;
            record.source = "canary".to_owned();
            Some(record)
        },
        None => None,
    }
}

// --- one profile ---------------------------------------------------------------------

/// What has come of the profiles of a run so far.
#[derive(Debug)]
pub struct RunTally {
    pub logged_out_seen: bool,
    pub drift_count: i64,
    pub results_this_run: i64,
}

/// What is to be done with the outcome of a scan.
#[derive(Debug)]
pub enum ProfileStep {
    /// Write a record of what went wrong.
    Write(ScrapeResult),
    /// Finish the record and write it. Its header may have lacked fields.
    Keep { record: ScrapeResult, drifted: bool },
    Skip,
}

/// A record of a profile of which nothing was read.
pub open spec fn status_record(
    username: Seq<char>,
    source: Seq<char>,
    error: Seq<char>,
    at: Timestamp,
) -> RecordView {
    RecordView { errors: seq![error], ..bare_record(username, source, at) }
}

/// Whether a step writes a record of a profile of which nothing was read.
pub open spec fn writes_status(
    r: ProfileStep,
    username: Seq<char>,
    source: Seq<char>,
    error: Seq<char>,
) -> bool {
    r matches ProfileStep::Write(line) && line.scraped_at.wf() && line@ == status_record(
        username,
        source,
        error,
        line.scraped_at,
    )
}

/// Whether a step is the one to take after a scan.
pub open spec fn is_step_for(username: Seq<char>, o: Outcome, r: ProfileStep) -> bool {
    match o@.err {
        Some(e) => writes_status(r, username, "error"@, e),
        None => if o.requires_login {
            writes_status(r, username, "logged_out"@, "requires_login"@)
        } else if o.profile_not_found {
            writes_status(r, username, "not_found"@, "profile_not_found"@)
        } else {
            match o.result {
                Some(kept) => r == (ProfileStep::Keep {
                    record: kept,
                    drifted: o.missing_schema@.len() > 0,
                }),
                None => r is Skip,
            }
        },
    }
}

/// A record that is kept, as it is written: one whose header lacked fields says
/// so.
pub open spec fn settled(record: RecordView, drifted: bool) -> RecordView {
    if drifted {
        RecordView { errors: record.errors.push("schema_drift_partial"@), ..record }
    } else {
        record
    }
}

fn status(username: &str, source: &str, error: String) -> (r: ScrapeResult)
    ensures
        r@ == status_record(username@, source@, error@, r.scraped_at),
        r.scraped_at.wf(),
{
    let mut errors: Vec<String> = Vec::new();
    errors.push(error);
    assert(texts(errors@) =~= seq![error@]);
    ScrapeResult::status_line(username, source, errors)
}

impl RunTally {
    /// Whether the counts are those of a run: no more profiles lacked fields
    /// than were read.
    pub open spec fn wf(self) -> bool {
        0 <= self.drift_count <= self.results_this_run
    }

    pub fn new() -> (r: Self)
        ensures
            r.wf(),
            !r.logged_out_seen,
            r.drift_count == 0,
            r.results_this_run == 0,
    {
        RunTally { logged_out_seen: false, drift_count: 0, results_this_run: 0 }
    }

    /// The tally after an outcome: a needed login is noted.
    pub open spec fn after_outcome(self, o: OutcomeView) -> RunTally {
        RunTally {
            logged_out_seen: self.logged_out_seen || (o.err is None && o.requires_login),
            ..self
        }
    }

    /// The tally after a record was kept.
    pub open spec fn counts_record(self, after: RunTally, drifted: bool) -> bool {
        &&& after.logged_out_seen == self.logged_out_seen
        &&& after.results_this_run == self.results_this_run + 1
        &&& after.drift_count == self.drift_count + (if drifted {
            1int
        } else {
            0
        })
    }

    /// Takes in the outcome of a scan. An error comes before a needed login,
    /// that before a missing profile, and that before a record.
    pub fn take_outcome(&mut self, username: &str, o: Outcome) -> (r: ProfileStep)
        ensures
            *final(self) == old(self).after_outcome(o@),
            is_step_for(username@, o, r),
    {
        if let Some(e) = o.err {
            return ProfileStep::Write(status(username, "error", e));
        }
        if o.requires_login {
            self.logged_out_seen = true;
            return ProfileStep::Write(status(username, "logged_out", "requires_login".to_owned()));
        }
        if o.profile_not_found {
            return ProfileStep::Write(status(username, "not_found", "profile_not_found".to_owned()));
        }
        match o.result {
            Some(record) => {
                let drifted = o.missing_schema.len() > 0;
                ProfileStep::Keep { record, drifted }
            },
            None => ProfileStep::Skip,
        }
    }

    /// Finishes a record that is kept: one whose header lacked fields says so.
    pub fn settle_record(&mut self, record: &mut ScrapeResult, drifted: bool)
        requires
            old(self).wf(),
            old(self).results_this_run < i64::MAX,
        ensures
            final(self).wf(),
            old(self).counts_record(*final(self), drifted),
            final(record)@ == settled(old(record)@, drifted),
    {
        if drifted {
            self.drift_count = self.drift_count + 1;
            record.push_error("schema_drift_partial".to_owned());
        }
        self.results_this_run = self.results_this_run + 1;
    }

    /// Whether every profile that was read lacked fields: one that does may be
    /// an odd account, all of them mean a change of shape.
    pub open spec fn drifted(self) -> bool {
        self.drift_count > 0 && self.drift_count == self.results_this_run
    }
}

/// Whether a record notes the window, and whether all its posts were inside,
/// and is otherwise as before but for its posts.
pub open spec fn notes_window(before: ScrapeResult, after: ScrapeResult, days: i64) -> bool {
    &&& after.window_maybe_truncated == all_inside(before.post_list(), after.post_list())
    &&& after.recent_posts is Some <==> before.recent_posts is Some
    &&& after == (ScrapeResult {
        recent_posts: after.recent_posts,
        window_days: days,
        window_maybe_truncated: after.window_maybe_truncated,
        ..before
    })
}

/// Keeps the posts of the window in a record, at `now`, and notes the window.
/// No window leaves the record as it is.
pub fn apply_window_at(record: &mut ScrapeResult, days: i64, now: i64)
    requires
        days > 0 ==> days * SECS_PER_DAY <= i64::MAX,
        now >= 0,
    ensures
        days <= 0 ==> *final(record) == *old(record),
        days > 0 ==> final(record).post_list() == windowed(
            old(record).post_list(),
            window_start(days, now as int),
        ),
        days > 0 ==> notes_window(*old(record), *final(record), days),
{
    if days > 0 {
        record.window_days = days;
        let ghost before = *record;
        let all = record.filter_by_window_at(days, now);
        record.window_maybe_truncated = all;
        proof {
            if before.post_list().len() == 0 {
                assert(windowed(before.post_list(), window_start(days, now as int))
                    == before.post_list());
            }
        }
    }
}

/// Keeps the posts of the window in a record, as of now. See
/// `apply_window_at`.
pub fn apply_window(record: &mut ScrapeResult, days: i64)
    requires
        days > 0 ==> days * SECS_PER_DAY <= i64::MAX,
    ensures
        days <= 0 ==> *final(record) == *old(record),
        days > 0 ==> exists|now: Timestamp|
            #![trigger now.wf()]
            now.wf() && final(record).post_list() == windowed(
                old(record).post_list(),
                window_start(days, now.secs as int),
            ),
        days > 0 ==> notes_window(*old(record), *final(record), days),
{
    let now = utc_now();
    apply_window_at(record, days, now.secs);
}

// --- how a run ends ------------------------------------------------------------------

/// The exit code after the last profile. A needed login outranks a change of
/// shape.
pub open spec fn exit_of(t: RunTally) -> i32 {
    if t.logged_out_seen {
        EXIT_LOGGED_OUT
    } else if t.drifted() {
        EXIT_SCHEMA_DRIFT
    } else {
        EXIT_OK
    }
}

pub fn exit_for(logged_out_seen: bool, drift_count: i64, results_this_run: i64) -> (r: i32)
    ensures
        r == exit_of((RunTally { logged_out_seen, drift_count, results_this_run })),
{
    if logged_out_seen {
        return EXIT_LOGGED_OUT;
    }
    if drift_count > 0 && drift_count == results_this_run {
        return EXIT_SCHEMA_DRIFT;
    }
    EXIT_OK
}

/// Whether an alert carries the second of some point in time.
pub open spec fn is_dated(a: Alert) -> bool {
    exists|now: Timestamp| now.wf() && a.scraped_at@ == #[trigger] rfc3339_seconds(now.secs)
}

/// Whether an alert is of the kind, about the account, and says the note.
pub open spec fn alerts(a: Alert, kind: Seq<char>, username: Seq<char>, note: Seq<char>) -> bool {
    &&& a.event@ == "alert"@
    &&& a.kind@ == kind
    &&& a.username@ == username
    &&& a.note@ == note
    &&& a.missing@ == Seq::<String>::empty()
    &&& a.saw_keys@ == Seq::<String>::empty()
}

/// An alert of the kind, about the account, that says the note.
pub fn alert_about(kind: &str, username: &str, note: &str) -> (r: Alert)
    ensures
        alerts(r, kind@, username@, note@),
        is_dated(r),
{
    let mut a = new_alert(kind);
    a.username = username.to_owned();
    a.note = note.to_owned();
    a
}

/// The note of a change of shape.
pub open spec fn drift_note(drift_count: int, results: int) -> Seq<char> {
    "expected paths missing on "@ + decimal(drift_count) + "/"@ + decimal(results) + " profiles"@
}

/// Whether these are the alerts that end a run.
pub open spec fn closes(t: RunTally, told: Seq<Alert>) -> bool {
    &&& told.len() == (if t.logged_out_seen {
        1int
    } else {
        0
    }) + (if t.drifted() {
        1int
    } else {
        0
    })
    &&& t.logged_out_seen ==> alerts(
        told[0],
        "logged_out"@,
        Seq::empty(),
        "re-run SSH-tunnel login bootstrap"@,
    )
    &&& t.drifted() ==> alerts(
        told.last(),
        "schema_drift"@,
        Seq::empty(),
        drift_note(t.drift_count as int, t.results_this_run as int),
    )
    &&& forall|i: int| 0 <= i < told.len() ==> is_dated(#[trigger] told[i])
}

impl RunTally {
    /// The alerts that end a run: that a login is needed, and that every
    /// profile lacked fields.
    pub fn closing_alerts(&self) -> (r: Vec<Alert>)
        ensures
            closes(*self, r@),
    {
        let mut out: Vec<Alert> = Vec::new();
        proof {
            reveal_strlit("");
            assert(""@ =~= Seq::<char>::empty());
        }
        if self.logged_out_seen {
            out.push(alert_about("logged_out", "", "re-run SSH-tunnel login bootstrap"));
        }
        if self.drift_count > 0 && self.drift_count == self.results_this_run {
            let mut note = "expected paths missing on ".to_owned();
            note.append(decimal_text(self.drift_count).as_str());
            note.append("/");
            note.append(decimal_text(self.results_this_run).as_str());
            note.append(" profiles");
            out.push(alert_about("schema_drift", "", note.as_str()));
        }
        out
    }

    pub fn exit_code(&self) -> (r: i32)
        ensures
            r == exit_of(*self),
    {
        exit_for(self.logged_out_seen, self.drift_count, self.results_this_run)
    }
}

// --- fetching the follows ------------------------------------------------------------

/// The profile whose follows are fetched: the one of the flag, or else the
/// configured one.
pub open spec fn seed_of(flag: Seq<char>, configured: Seq<char>) -> Option<Seq<char>> {
    if flag.len() > 0 {
        Some(flag)
    } else if configured.len() > 0 {
        Some(configured)
    } else {
        None
    }
}

pub fn choose_seed(flag: &str, configured: &str) -> (r: Option<String>)
    ensures
        match r {
            Some(seed) => seed_of(flag@, configured@) == Some(seed@),
            None => seed_of(flag@, configured@) is None,
        },
{
    if !flag.is_empty() {
        Some(flag.to_owned())
    } else if !configured.is_empty() {
        Some(configured.to_owned())
    } else {
        None
    }
}

/// What is to be done with the list that was fetched.
#[derive(Clone, Copy, PartialEq, Eq, Structural, Debug)]
pub enum FollowsVerdict {
    LoggedOut,
    /// Nothing was fetched.
    Failed,
    /// Merge the list. Only a complete one shows who is not followed any more.
    Merge { complete: bool },
}

/// What is to be done with what was found. A list with an error, and one that
/// was cut short, is not complete.
pub open spec fn verdict_on(found: FollowsView, cut_short: bool) -> FollowsVerdict {
    if found.requires_login {
        FollowsVerdict::LoggedOut
    } else if found.err is Some && found.usernames.len() == 0 {
        FollowsVerdict::Failed
    } else {
        FollowsVerdict::Merge { complete: found.err is None && !cut_short }
    }
}

pub fn follows_verdict(o: &FollowsOutcome, cut_short: bool) -> (r: FollowsVerdict)
    ensures
        r == verdict_on(o@, cut_short),
{
    if o.requires_login {
        FollowsVerdict::LoggedOut
    } else if o.err.is_some() && o.usernames.len() == 0 {
        FollowsVerdict::Failed
    } else {
        FollowsVerdict::Merge { complete: o.err.is_none() && !cut_short }
    }
}

/// The note of a merge that deleted nothing.
pub open spec fn partial_report(names: nat) -> Seq<char> {
    "harvest returned "@ + digits(names) + " names; merged additively, deleted nothing"@
}

pub fn partial_note(names: usize) -> (r: String)
    ensures
        r@ == partial_report(names as nat),
{
    let mut note = "harvest returned ".to_owned();
    note.append(unsigned_text(names as u64).as_str());
    note.append(" names; merged additively, deleted nothing");
    note
}

/// What is told of a merge.
pub open spec fn merge_report(names: nat, path: Seq<char>, o: MergeOutcome) -> Seq<char> {
    "fetched "@ + digits(names) + " follows -> "@ + path + " ("@ + digits(o.added as nat)
        + " added, "@ + digits(o.removed as nat) + " removed, "@ + digits(o.excluded as nat)
        + " excluded, "@ + digits(o.active as nat) + " scannable)"@
}

pub fn fetched_line(names: usize, path: &str, o: &MergeOutcome) -> (r: String)
    ensures
        r@ == merge_report(names as nat, path@, *o),
{
    let mut line = "fetched ".to_owned();
    line.append(unsigned_text(names as u64).as_str());
    line.append(" follows -> ");
    line.append(path);
    line.append(" (");
    line.append(unsigned_text(o.added as u64).as_str());
    line.append(" added, ");
    line.append(unsigned_text(o.removed as u64).as_str());
    line.append(" removed, ");
    line.append(unsigned_text(o.excluded as u64).as_str());
    line.append(" excluded, ");
    line.append(unsigned_text(o.active as u64).as_str());
    line.append(" scannable)");
    line
}

// --- laws ----------------------------------------------------------------------------

/// A list of profiles is never longer than its limit, and a limit only cuts
/// its end off.
pub proof fn law_limit_cuts_the_end(
    one_shot: Seq<char>,
    follows: Seq<Seq<char>>,
    usernames: Seq<Seq<char>>,
    limit: i64,
)
    ensures
        limit > 0 ==> scan_names(one_shot, follows, usernames, limit).len() <= limit,
        scan_names(one_shot, follows, usernames, limit).is_prefix_of(
            scan_names(one_shot, follows, usernames, 0),
        ),
{
}

/// A harvest that was cut short deletes nobody, though nothing went wrong: every
/// name on file stays, and is scanned or not as before.
pub proof fn law_cut_short_harvest_deletes_nobody(
    s: FollowsState,
    ls: Seq<Seq<char>>,
    complete: bool,
    name: Seq<char>,
)
    requires
        !s.done,
        verdict_on(s.found, !s.done) == (FollowsVerdict::Merge { complete }),
        on_file(ls, name),
    ensures
        !complete,
        !deletes_on(ls, cleaned(s.found.usernames), complete),
        on_file(merged_lines(ls, cleaned(s.found.usernames), complete), name),
        active_on(merged_lines(ls, cleaned(s.found.usernames), complete), name) == active_on(
            ls,
            name,
        ),
{
    law_cleaned_is_a_harvest(s.found.usernames);
    law_partial_harvest_deletes_nobody(ls, cleaned(s.found.usernames), complete, name);
}

/// The canary is only found healthy by a record with at least one post.
pub proof fn law_healthy_canary_has_posts(o: OutcomeView)
    requires
        canary_of(o) is Healthy,
    ensures
        o.err is None,
        !o.requires_login,
        o.result matches Some(r) && (r.recent_posts matches Some(posts) && posts.len() > 0),
{
}

/// One profile is asked for alone; else the follows are scanned, else the
/// configured accounts; in their order, and all of them but for the limit.
pub proof fn law_lists_are_scanned_whole(
    one_shot: Seq<char>,
    follows: Seq<Seq<char>>,
    usernames: Seq<Seq<char>>,
    limit: i64,
)
    ensures
        one_shot.len() > 0 ==> scan_names(one_shot, follows, usernames, limit) == seq![one_shot],
        one_shot.len() == 0 && follows.len() > 0 && limit <= 0 ==> scan_names(
            one_shot,
            follows,
            usernames,
            limit,
        ) == follows,
        one_shot.len() == 0 && follows.len() == 0 && limit <= 0 ==> scan_names(
            one_shot,
            follows,
            usernames,
            limit,
        ) == usernames,
        limit > 0 ==> scan_names(one_shot, follows, usernames, limit).len() == limit || scan_names(
            one_shot,
            follows,
            usernames,
            limit,
        ) == scan_names(one_shot, follows, usernames, 0),
        one_shot.len() == 0 ==> target_of(one_shot) == "instagram"@,
        one_shot.len() > 0 ==> target_of(one_shot) == one_shot,
{
    let all = scan_names(one_shot, follows, usernames, 0);
    if 0 < limit < all.len() {
        assert(scan_names(one_shot, follows, usernames, limit) == all.take(limit as int));
    }
}

/// The browser waits a minute longer than the longest profile and than the
/// longest pause, and no longer than that; a profile takes its navigation, ten
/// seconds, and three for each scroll.
pub proof fn law_browser_outwaits_a_profile(nav: int, scrolls: int, pause: int)
    ensures
        idle_of(nav, scrolls, pause) >= nav + 10 + scrolls * 3 + 60,
        idle_of(nav, scrolls, pause) >= pause + 60,
        idle_of(nav, scrolls, pause) == nav + 10 + scrolls * 3 + 60 || idle_of(nav, scrolls, pause)
            == pause + 60,
{
}

/// The pages are read back to the start of the window and no further: the same
/// posts are in the window at that time and behind it.
pub proof fn law_pages_are_read_to_the_window(days: i64, now: int)
    ensures
        days > 0 ==> now - until_of(days, now) == days * 24 * 60 * 60,
        days <= 0 ==> until_of(days, now) == 0,
{
}

/// The canary asks for a login first; an error, a missing record and a record
/// without a post each mean that the reading is broken, and nothing else does.
pub proof fn law_canary_fails_for_a_reason(o: OutcomeView)
    ensures
        canary_of(o) is LoggedOut <==> o.requires_login,
        canary_of(o) is Healthy <==> (!o.requires_login && o.err is None && (o.result matches Some(
            r,
        ) && (r.recent_posts matches Some(posts) && posts.len() > 0))),
        !o.requires_login && o.err is Some ==> canary_of(o) == CanaryView::Failed(
            "canary scrape errored: "@ + o.err->0,
        ),
        !o.requires_login && o.err is None && o.result is None ==> canary_of(o)
            == CanaryView::Failed("canary returned no result"@),
        !o.requires_login && o.err is None && (o.result matches Some(r) && !(
        r.recent_posts matches Some(posts) && posts.len() > 0)) ==> canary_of(o)
            == CanaryView::Failed("canary returned 0 posts \u{2014} extraction likely broken"@),
{
}

/// The line of the canary is its record, all of it, under the canary's source.
pub proof fn law_canary_line_is_its_record(o: OutcomeView)
    ensures
        canary_line(o) is Some <==> o.result is Some,
        canary_line(o) matches Some(line) ==> line.source == "canary"@ && (RecordView {
            source: o.result->0.source,
            ..line
        }) == o.result->0,
{
}

/// After an error, a needed login or a profile that is not there, a line is
/// written that names the profile, says what went wrong and nothing of the
/// account; in this order, and only then.
pub proof fn law_failed_scans_are_written_down(username: Seq<char>, o: Outcome, r: ProfileStep)
    requires
        is_step_for(username, o, r),
    ensures
        r is Write <==> o.err is Some || o.requires_login || o.profile_not_found,
        r matches ProfileStep::Write(line) ==> {
            &&& line@.username == username && line@.errors.len() == 1
            &&& o@.err is Some ==> line@.source == "error"@ && line@.errors[0] == o@.err->0
            &&& o.err is None && o.requires_login ==> line@.source == "logged_out"@
                && line@.errors[0] == "requires_login"@
            &&& o.err is None && !o.requires_login && o.profile_not_found ==> line@.source
                == "not_found"@ && line@.errors[0] == "profile_not_found"@
            &&& line@.followers is None && line@.following is None && line@.posts is None
            &&& line@.recent_posts is None && line@.full_name is None && line@.biography is None
        },
        r is Keep <==> o.err is None && !o.requires_login && !o.profile_not_found
            && o.result is Some,
        r matches ProfileStep::Keep { record, drifted } ==> record == o.result->0 && (drifted
            <==> o.missing_schema@.len() > 0),
{
}

/// A login that was needed once stays noted, an error does not note one, and
/// nothing is counted before a record is kept.
pub proof fn law_needed_logins_stay_noted(t: RunTally, o: OutcomeView)
    ensures
        t.logged_out_seen ==> t.after_outcome(o).logged_out_seen,
        o.requires_login && o.err is None ==> t.after_outcome(o).logged_out_seen,
        !t.logged_out_seen && (!o.requires_login || o.err is Some) ==> !t.after_outcome(
            o,
        ).logged_out_seen,
        t.after_outcome(o).drift_count == t.drift_count,
        t.after_outcome(o).results_this_run == t.results_this_run,
{
}

/// Keeping a record counts it once, as one that lacked fields if it did; its
/// errors grow by that one at their end, and all else stays.
pub proof fn law_kept_records_are_counted(
    t: RunTally,
    after: RunTally,
    record: RecordView,
    drifted: bool,
)
    requires
        t.counts_record(after, drifted),
    ensures
        after.results_this_run - t.results_this_run == 1,
        drifted ==> after.drift_count - t.drift_count == 1,
        !drifted ==> after.drift_count == t.drift_count,
        after.logged_out_seen == t.logged_out_seen,
        !drifted ==> settled(record, drifted) == record,
        drifted ==> settled(record, drifted).errors == record.errors + seq![
            "schema_drift_partial"@,
        ],
        (RecordView { errors: record.errors, ..settled(record, drifted) }) == record,
{
    assert(record.errors.push("schema_drift_partial"@) =~= record.errors + seq![
        "schema_drift_partial"@,
    ]);
}

/// A window changes nothing of a record but its posts, its length in days and
/// whether all posts were inside it.
pub proof fn law_windows_change_posts_alone(before: ScrapeResult, after: ScrapeResult, days: i64)
    requires
        notes_window(before, after, days),
    ensures
        after.window_days == days,
        after.window_maybe_truncated <==> before.post_list().len() > 0 && before.post_list().len()
            == after.post_list().len(),
        after@.username == before@.username && after@.source == before@.source,
        after@.followers == before@.followers && after@.following == before@.following,
        after@.posts == before@.posts && after@.user_id == before@.user_id,
        after@.full_name == before@.full_name && after@.biography == before@.biography,
        after@.is_private == before@.is_private && after@.errors == before@.errors,
        after.scraped_at == before.scraped_at,
{
}

/// A run ends with 2 exactly when a login was needed, else with 3 exactly when
/// at least one record was kept and every one of them lacked fields, else with
/// 0; and each alert that is told has its reason in the code.
pub proof fn law_runs_end_for_a_reason(t: RunTally, told: Seq<Alert>)
    requires
        closes(t, told),
    ensures
        exit_of(t) == 2 <==> t.logged_out_seen,
        exit_of(t) == 3 <==> !t.logged_out_seen && t.drift_count > 0 && t.drift_count
            == t.results_this_run,
        exit_of(t) == 0 <==> !t.logged_out_seen && (t.drift_count <= 0 || t.drift_count
            != t.results_this_run),
        told.len() == 0 <==> exit_of(t) == 0,
        told.len() <= 2,
        exit_of(t) == 2 ==> told[0].kind@ == "logged_out"@ && told[0].note@
            == "re-run SSH-tunnel login bootstrap"@,
        exit_of(t) == 3 ==> told.len() == 1 && told[0].kind@ == "schema_drift"@ && told[0].note@
            == "expected paths missing on "@ + decimal(t.drift_count as int) + "/"@ + decimal(
            t.results_this_run as int,
        ) + " profiles"@,
        told.len() == 2 ==> told[0].kind@ == "logged_out"@ && told[1].kind@ == "schema_drift"@,
        forall|i: int|
            0 <= i < told.len() ==> (#[trigger] told[i]).event@ == "alert"@
                && told[i].username@.len() == 0,
{
}

/// The exit codes.
pub proof fn law_exit_codes_are_fixed()
    ensures
        EXIT_OK == 0,
        EXIT_CONFIG_ERROR == 1,
        EXIT_LOGGED_OUT == 2,
        EXIT_USAGE == 2,
        EXIT_SCHEMA_DRIFT == 3,
        EXIT_BROWSER_ERROR == 4,
        EXIT_CANARY_FAILED == 5,
{
}

/// The seed of the flag comes before the configured one.
pub proof fn law_flag_comes_before_configuration(flag: Seq<char>, configured: Seq<char>)
    ensures
        flag.len() > 0 ==> seed_of(flag, configured) == Some(flag),
        flag.len() == 0 && configured.len() > 0 ==> seed_of(flag, configured) == Some(configured),
        seed_of(flag, configured) is None <==> flag.len() == 0 && configured.len() == 0,
{
}

/// A list is merged unless a login was asked for or an error left it empty; and
/// it is taken for complete exactly when it was read without an error to its
/// end.
pub proof fn law_lists_are_merged_unless_refused(found: FollowsView, cut_short: bool)
    ensures
        verdict_on(found, cut_short) is LoggedOut <==> found.requires_login,
        verdict_on(found, cut_short) is Failed <==> !found.requires_login && found.err is Some
            && found.usernames.len() == 0,
        verdict_on(found, cut_short) == (FollowsVerdict::Merge { complete: true })
            <==> !found.requires_login && found.err is None && !cut_short,
        verdict_on(found, cut_short) == (FollowsVerdict::Merge { complete: false })
            <==> !found.requires_login && ((found.err is Some && found.usernames.len() > 0) || (
        found.err is None && cut_short)),
{
}

/// What is told of a merge says its numbers in this order.
pub proof fn law_reports_say_their_numbers(names: nat, path: Seq<char>, o: MergeOutcome)
    ensures
        merge_report(names, path, o) == "fetched "@ + digits(names) + " follows -> "@ + path + " ("@
            + digits(o.added as nat) + " added, "@ + digits(o.removed as nat) + " removed, "@
            + digits(o.excluded as nat) + " excluded, "@ + digits(o.active as nat)
            + " scannable)"@,
        partial_report(names) == "harvest returned "@ + digits(names)
            + " names; merged additively, deleted nothing"@,
{
}

} // verus!
