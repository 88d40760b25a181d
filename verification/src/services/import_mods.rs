//! The two flags that see to it that at most one import runs at a time.

use crate::text::decimal;
use crate::text::decimal_string;
use crate::timestamps::Timestamp;
use vstd::prelude::*;
use vstd::string::StringExecFns;

verus! {

/// Whether an import has been asked for, and whether one is running.
#[derive(Debug, Clone, Copy, PartialEq, Eq, Structural)]
pub struct ImportStatus {
    pub import_requested: bool,
    pub import_in_progress: bool,
}

/// What can happen to the flags.
#[derive(Debug, Clone, Copy, PartialEq, Eq, Structural)]
pub enum SchedulerEvent {
    /// Someone, or the expiration check, asks for an import.
    Request,
    /// The request checker looks at the flags.
    Tick,
    /// The running import has ended well.
    Finished,
    /// The running import has failed.
    Failed,
}

/// Whether `event` starts an import in `status`: only a tick does, and only
/// when an import is asked for and none is running.
pub open spec fn starts_import(status: ImportStatus, event: SchedulerEvent) -> bool {
    event == SchedulerEvent::Tick && status.import_requested && !status.import_in_progress
}

/// The flags after `event`.
pub open spec fn after_event(status: ImportStatus, event: SchedulerEvent) -> ImportStatus {
    match event {
        SchedulerEvent::Request => ImportStatus {
            import_requested: true,
            import_in_progress: status.import_in_progress,
        },
        SchedulerEvent::Tick => if starts_import(status, event) {
            ImportStatus { import_requested: status.import_requested, import_in_progress: true }
        } else {
            status
        },
        SchedulerEvent::Finished => ImportStatus {
            import_requested: false,
            import_in_progress: false,
        },
        SchedulerEvent::Failed => ImportStatus {
            import_requested: status.import_requested,
            import_in_progress: false,
        },
    }
}

/// The flags after the events of `events`, in order.
pub open spec fn after_events(status: ImportStatus, events: Seq<SchedulerEvent>) -> ImportStatus
    decreases events.len(),
{
    if events.len() == 0 {
        status
    } else {
        after_event(after_events(status, events.drop_last()), events.last())
    }
}

/// How many imports the events of `events` start, beginning in `status`.
pub open spec fn imports_started(status: ImportStatus, events: Seq<SchedulerEvent>) -> nat
    decreases events.len(),
{
    if events.len() == 0 {
        0
    } else {
        let earlier = imports_started(status, events.drop_last());
        if starts_import(after_events(status, events.drop_last()), events.last()) {
            earlier + 1
        } else {
            earlier
        }
    }
}

impl Default for ImportStatus {
    fn default() -> (status: ImportStatus)
        ensures
            !status.import_requested,
            !status.import_in_progress,
    {
        ImportStatus { import_requested: false, import_in_progress: false }
    }
}

impl ImportStatus {
    /// Asks for an import. Asking twice is asking once.
    pub fn request_import(&mut self)
        ensures
            *final(self) == after_event(*old(self), SchedulerEvent::Request),
    {
        self.import_requested = true;
    }

    /// One look of the request checker: claims the import where one is asked
    /// for and none is running, and says whether the caller is to run it.
    pub fn try_claim(&mut self) -> (claimed: bool)
        ensures
            claimed == starts_import(*old(self), SchedulerEvent::Tick),
            *final(self) == after_event(*old(self), SchedulerEvent::Tick),
    {
        if self.import_requested && !self.import_in_progress {
            self.import_in_progress = true;
            true
        } else {
            false
        }
    }

    /// Records that the claimed import has ended well: both flags are
    /// cleared.
    pub fn finish_import(&mut self)
        ensures
            *final(self) == after_event(*old(self), SchedulerEvent::Finished),
    {
        self.import_in_progress = false;
        self.import_requested = false;
    }

    /// Records how the claimed import has ended. Either way no import is
    /// running any more. After a success nothing is asked for; after a
    /// failure the request stands as it is, so that the next tick, and none
    /// before it, tries again.
    pub fn import_finished(&mut self, succeeded: bool)
        ensures
            *final(self) == after_event(
                *old(self),
                if succeeded {
                    SchedulerEvent::Finished
                } else {
                    SchedulerEvent::Failed
                },
            ),
            !final(self).import_in_progress,
            final(self).import_requested == (!succeeded && old(self).import_requested),
    {
        self.import_in_progress = false;
        if succeeded {
            self.import_requested = false;
        }
    }

    /// Whether an import is asked for or running.
    pub fn is_busy(&self) -> (busy: bool)
        ensures
            busy == (self.import_requested || self.import_in_progress),
    {
        self.import_requested || self.import_in_progress
    }
}

/// One tick of the request checker: whether to run an import now. Where it
/// says so the import is claimed, and no other tick claims until
/// `import_finished`.
pub fn import_request_checker(status: &mut ImportStatus) -> (run: bool)
    ensures
        run == starts_import(*old(status), SchedulerEvent::Tick),
        *final(status) == after_event(*old(status), SchedulerEvent::Tick),
{
    status.try_claim()
}

/// Whether a tick of the expiration checker is to look at the store at all:
/// only when no import is asked for or running.
pub fn expiration_check_is_due(status: &ImportStatus) -> (due: bool)
    ensures
        due == (!status.import_requested && !status.import_in_progress),
{
    !status.is_busy()
}

/// The end of a tick of the expiration checker: `stale` is what the policy
/// said of the store's last import, or `None` where the store could not be
/// read. A stale catalog raises the request; nothing else changes.
pub fn expiration_checker(status: &mut ImportStatus, stale: Option<bool>)
    ensures
        *final(status) == if stale == Some(true) {
            after_event(*old(status), SchedulerEvent::Request)
        } else {
            *old(status)
        },
{
    match stale {
        Some(true) => status.request_import(),
        _ => {},
    }
}

/// An import starts only when none is running, and is running from then on.
pub proof fn import_starts_only_when_none_runs(status: ImportStatus, event: SchedulerEvent)
    ensures
        starts_import(status, event) ==> !status.import_in_progress && after_event(
            status,
            event,
        ).import_in_progress,
        status.import_in_progress ==> !starts_import(status, event),
        status.import_in_progress && event != SchedulerEvent::Finished && event
            != SchedulerEvent::Failed ==> after_event(status, event).import_in_progress,
        event == SchedulerEvent::Finished || event == SchedulerEvent::Failed ==> !after_event(
            status,
            event,
        ).import_in_progress,
{
}

/// An import that fails is tried again at the next tick: the request that
/// started it stands, and the tick after the failure starts the second
/// import.
pub proof fn failed_import_is_tried_again_at_the_next_tick(status: ImportStatus)
    requires
        !status.import_in_progress,
    ensures
        after_events(
            status,
            seq![SchedulerEvent::Request, SchedulerEvent::Tick, SchedulerEvent::Failed],
        ) == (ImportStatus { import_requested: true, import_in_progress: false }),
        imports_started(
            status,
            seq![SchedulerEvent::Request, SchedulerEvent::Tick, SchedulerEvent::Failed],
        ) == 1,
        imports_started(
            status,
            seq![
                SchedulerEvent::Request,
                SchedulerEvent::Tick,
                SchedulerEvent::Failed,
                SchedulerEvent::Tick,
            ],
        ) == 2,
{
    let r = SchedulerEvent::Request;
    let t = SchedulerEvent::Tick;
    let f = SchedulerEvent::Failed;
    let e0 = Seq::<SchedulerEvent>::empty();
    let e1 = seq![r];
    let e2 = seq![r, t];
    let e3 = seq![r, t, f];
    let e4 = seq![r, t, f, t];
    assert(e1.drop_last() =~= e0);
    assert(e2.drop_last() =~= e1);
    assert(e3.drop_last() =~= e2);
    assert(e4.drop_last() =~= e3);
    assert(after_events(status, e0) == status);
    assert(imports_started(status, e0) == 0);
    assert(after_events(status, e1) == after_event(status, r));
    assert(imports_started(status, e1) == 0);
    assert(after_events(status, e2) == after_event(after_events(status, e1), t));
    assert(imports_started(status, e2) == 1);
    assert(after_events(status, e3) == after_event(after_events(status, e2), f));
    assert(imports_started(status, e3) == 1);
    assert(imports_started(status, e4) == 2);
}

/// Two requests and then a tick start exactly one import, from any flags
/// under which none is running; a further tick, before or after that import
/// has ended, starts none.
pub proof fn two_requests_start_one_import(status: ImportStatus)
    requires
        !status.import_in_progress,
    ensures
        imports_started(
            status,
            seq![SchedulerEvent::Request, SchedulerEvent::Request, SchedulerEvent::Tick],
        ) == 1,
        imports_started(
            status,
            seq![
                SchedulerEvent::Request,
                SchedulerEvent::Request,
                SchedulerEvent::Tick,
                SchedulerEvent::Tick,
            ],
        ) == 1,
        imports_started(
            status,
            seq![
                SchedulerEvent::Request,
                SchedulerEvent::Request,
                SchedulerEvent::Tick,
                SchedulerEvent::Finished,
                SchedulerEvent::Tick,
            ],
        ) == 1,
{
    let r = SchedulerEvent::Request;
    let t = SchedulerEvent::Tick;
    let f = SchedulerEvent::Finished;
    let e0 = Seq::<SchedulerEvent>::empty();
    let e1 = seq![r];
    let e2 = seq![r, r];
    let e3 = seq![r, r, t];
    let e4 = seq![r, r, t, t];
    let e4f = seq![r, r, t, f];
    let e5 = seq![r, r, t, f, t];
    assert(e1.drop_last() =~= e0);
    assert(e2.drop_last() =~= e1);
    assert(e3.drop_last() =~= e2);
    assert(e4.drop_last() =~= e3);
    assert(e4f.drop_last() =~= e3);
    assert(e5.drop_last() =~= e4f);
    assert(after_events(status, e0) == status);
    assert(imports_started(status, e0) == 0);
    assert(after_events(status, e1) == after_event(status, r));
    assert(imports_started(status, e1) == 0);
    assert(after_events(status, e2) == after_event(after_events(status, e1), r));
    assert(imports_started(status, e2) == 0);
    assert(after_events(status, e3) == after_event(after_events(status, e2), t));
    assert(imports_started(status, e3) == 1);
    assert(after_events(status, e4) == after_event(after_events(status, e3), t));
    assert(imports_started(status, e4) == 1);
    assert(after_events(status, e4f) == after_event(after_events(status, e3), f));
    assert(imports_started(status, e4f) == 1);
    assert(imports_started(status, e5) == 1);
}

/// While the events hold no end of an import, at most one import starts,
/// however many requests and ticks there are.
pub proof fn at_most_one_import_in_flight(status: ImportStatus, events: Seq<SchedulerEvent>)
    requires
        forall|i: int|
            0 <= i < events.len() ==> events[i] != SchedulerEvent::Finished && events[i]
                != SchedulerEvent::Failed,
    ensures
        imports_started(status, events) <= 1,
        imports_started(status, events) == 1 ==> after_events(status, events).import_in_progress,
        status.import_in_progress ==> imports_started(status, events) == 0 && after_events(
            status,
            events,
        ).import_in_progress,
    decreases events.len(),
{
    if events.len() > 0 {
        let front = events.drop_last();
        assert forall|i: int| 0 <= i < front.len() implies front[i] != SchedulerEvent::Finished
            && front[i] != SchedulerEvent::Failed by {
            assert(front[i] == events[i]);
        }
        at_most_one_import_in_flight(status, front);
        assert(events.last() == events[events.len() - 1]);
    }
}

/// Nanoseconds in one minute.
pub const NANOS_PER_MINUTE: u128 = 60_000_000_000;

/// Nanoseconds in one hour.
pub const NANOS_PER_HOUR: u128 = 3_600_000_000_000;

/// Nanoseconds in one day.
pub const NANOS_PER_DAY: u128 = 86_400_000_000_000;

/// How the import page prints an instant: year, month, day, hour and minute,
/// in UTC.
pub const IMPORT_DATE_FORMAT: &'static str = "[year]-[month]-[day] [hour]:[minute]UTC";

/// What `time` prints for the instant `unix_nanos` nanoseconds after the Unix
/// epoch, in UTC, under the format description `description`; `None` where it
/// has no such instant, cannot read the description, or cannot print.
pub uninterp spec fn utc_text(unix_nanos: i128, description: Seq<char>) -> Option<Seq<char>>;

/// Calls `time::OffsetDateTime::from_unix_timestamp_nanos`,
/// `time::format_description::parse_borrowed` for descriptions of version 2,
/// and `OffsetDateTime::format`.
#[verifier::external_body]
pub(crate) fn format_utc(unix_nanos: i128, description: &str) -> (text: Option<String>)
    ensures
        match text {
            Some(t) => utc_text(unix_nanos, description@) == Some(t@),
            None => utc_text(unix_nanos, description@) is None,
        },
{
    let moment = time::OffsetDateTime::from_unix_timestamp_nanos(unix_nanos).ok()?;
    let items = time::format_description::parse_borrowed::<2>(description).ok()?;
    moment.format(&items).ok()
}

/// How long ago something was that is `elapsed` nanoseconds past: in whole
/// days from one day on, else in whole hours from one hour on, else in whole
/// minutes from five minutes on, else just now.
pub open spec fn time_since(elapsed: int) -> Seq<char> {
    if elapsed >= NANOS_PER_DAY {
        decimal((elapsed / NANOS_PER_DAY as int) as nat) + " days ago"@
    } else if elapsed >= NANOS_PER_HOUR {
        decimal((elapsed / NANOS_PER_HOUR as int) as nat) + " hours ago"@
    } else if elapsed >= 5 * NANOS_PER_MINUTE {
        decimal((elapsed / NANOS_PER_MINUTE as int) as nat) + " minutes ago"@
    } else {
        "just now"@
    }
}

/// What the import page says of the last import: that there was never one;
/// or its instant, as `formatted` gives it, and how long ago that was; or
/// three dashes where the instant could not be printed.
pub open spec fn import_text(
    latest_import: Option<Timestamp>,
    now: Timestamp,
    formatted: Option<Seq<char>>,
) -> Seq<char> {
    match latest_import {
        None => "Never"@,
        Some(date) => match formatted {
            None => "---"@,
            Some(text) => text + " ("@ + time_since(now.unix_nanos - date.unix_nanos) + ")"@,
        },
    }
}

/// How long ago `date` was at `now`, in words.
pub fn time_since_text(date: Timestamp, now: Timestamp) -> (text: String)
    ensures
        text@ == time_since(now.unix_nanos - date.unix_nanos),
{
    if now.unix_nanos <= date.unix_nanos {
        return String::from_str("just now");
    }
    let elapsed: u128 = if date.unix_nanos >= 0 || now.unix_nanos < 0 {
        (now.unix_nanos - date.unix_nanos) as u128
    } else {
        (now.unix_nanos as u128) + ((-(date.unix_nanos + 1)) as u128) + 1
    };
    assert(elapsed == now.unix_nanos - date.unix_nanos);
    if elapsed >= NANOS_PER_DAY {
        let mut text = decimal_string(elapsed / NANOS_PER_DAY);
        text.append(" days ago");
        text
    } else if elapsed >= NANOS_PER_HOUR {
        let mut text = decimal_string(elapsed / NANOS_PER_HOUR);
        text.append(" hours ago");
        text
    } else if elapsed >= 5 * NANOS_PER_MINUTE {
        let mut text = decimal_string(elapsed / NANOS_PER_MINUTE);
        text.append(" minutes ago");
        text
    } else {
        String::from_str("just now")
    }
}

/// Words the line on the last import from the instant as it was printed.
pub fn latest_import_text(
    latest_import: Option<Timestamp>,
    now: Timestamp,
    formatted: Option<String>,
) -> (text: String)
    ensures
        text@ == import_text(
            latest_import,
            now,
            match formatted {
                Some(t) => Some(t@),
                None => None,
            },
        ),
{
    let date = match latest_import {
        None => {
            return String::from_str("Never");
        },
        Some(date) => date,
    };
    match formatted {
        None => String::from_str("---"),
        Some(printed) => {
            let mut text = printed;
            text.append(" (");
            let since = time_since_text(date, now);
            text.append(since.as_str());
            text.append(")");
            text
        },
    }
}

/// Words the line on the last import for the import page.
pub fn latest_import_string(latest_import: Option<Timestamp>, now: Timestamp) -> (text: String)
    ensures
        text@ == import_text(
            latest_import,
            now,
            match latest_import {
                Some(date) => utc_text(date.unix_nanos, IMPORT_DATE_FORMAT@),
                None => None,
            },
        ),
{
    let formatted = match latest_import {
        Some(date) => format_utc(date.unix_nanos, IMPORT_DATE_FORMAT),
        None => None,
    };
    latest_import_text(latest_import, now, formatted)
}

} // verus!
