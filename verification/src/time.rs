//! Timestamps for broadcast events. The clock itself is outside the
//! verified world; everything built on a reading holds for every value the
//! clock can return.
use vstd::prelude::*;

verus! {

use crate::ipc::DaemonEvent;
use crate::ipc::DaemonEventType;

/// Relies on `SystemTime::now`, chrono's `DateTime::from_timestamp` and
/// `DateTime::to_rfc3339`: the current UTC wall-clock time rendered in RFC
/// 3339 form, falling back to the epoch when the system clock reads before
/// it or beyond chrono's calendar. A clock reading depends on the moment of
/// the call, so nothing is promised beyond the rendering being non-empty
/// (`to_rfc3339` always writes the full date and time).
#[verifier::external_body]
pub fn now_rfc3339() -> (r: String)
    ensures
        r@.len() > 0,
{
    let since_epoch = std::time::SystemTime::now()
        .duration_since(std::time::UNIX_EPOCH)
        .unwrap_or(std::time::Duration::ZERO);
    let stamp = chrono::DateTime::from_timestamp(
        since_epoch.as_secs() as i64,
        since_epoch.subsec_nanos(),
    );
    match stamp {
        Option::Some(now) => now.to_rfc3339(),
        Option::None => chrono::DateTime::UNIX_EPOCH.to_rfc3339(),
    }
}

/// Stamps an event with the present moment; every other member of the event
/// is exactly what was handed in, whatever the clock said.
pub fn stamp_event(event: DaemonEventType) -> (r: DaemonEvent)
    ensures
        r.event == event,
        r.api_version@ == "1"@,
        r.timestamp@.len() > 0,
{
    let timestamp = now_rfc3339();
    DaemonEvent::new(timestamp.as_str(), event)
}

} // verus!
