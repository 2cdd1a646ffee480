//! Upstream servers that are asked over HTTPS, and what is remembered of them.

use crate::errors::DoHError;
use crate::net::SocketAddr;
use crate::retry::H3Failure;
use vstd::prelude::*;

verus! {

pub const DOH_PROTO_UNKNOWN: u8 = 0;

pub const DOH_PROTO_H2: u8 = 1;

pub const DOH_PROTO_H3: u8 = 2;

pub const DOH_MIN_REBUILD_INTERVAL_MS: u64 = 1000;

pub const H3_FAILURE_THRESHOLD: u32 = 3;

pub const H3_FAILURE_WINDOW_SECS: u64 = 60;

pub const H3_BACKOFF_SECS: u64 = 30;

/// A server that is asked over HTTPS.
#[derive(Debug)]
pub struct DohUpstream {
    pub url: String,
    pub host: String,
    pub port: u16,
    pub path: String,
    pub authority: String,
    pub h3_only: bool,
    pub health: DohHealth,
}

/// What is remembered of a server: which protocol to use, how HTTP/3 fared, when the kept
/// connections were last dropped, and which address the kept HTTP/2 client goes to.
#[derive(Clone, Copy, Debug, PartialEq, Eq, Structural)]
pub struct DohHealth {
    pub protocol_hint: u8,
    pub h3_failures: u32,
    pub h3_last_failure_ms: u64,
    pub h3_backoff_until_ms: u64,
    pub h2_last_rebuild_ms: u64,
    pub h3_last_rebuild_ms: u64,
    pub h2_target_addr: Option<SocketAddr>,
}

/// `a - b`, or zero.
pub open spec fn minus(a: u64, b: u64) -> int {
    if a >= b {
        a - b
    } else {
        0
    }
}

/// `now` and `more`, or the largest time.
pub open spec fn plus(now: u64, more: u64) -> u64 {
    if now + more > u64::MAX {
        u64::MAX
    } else {
        (now + more) as u64
    }
}

/// Kept connections may be dropped: they were never, or not just now.
pub open spec fn rebuild_allowed(last: u64, now: u64) -> bool {
    last == 0 || minus(now, last) >= DOH_MIN_REBUILD_INTERVAL_MS
}

/// Whether kept connections may be dropped; where they may, `last_rebuild_ms` is set to now.
pub fn can_rebuild(last_rebuild_ms: &mut u64, now: u64) -> (allowed: bool)
    ensures
        allowed == rebuild_allowed(*old(last_rebuild_ms), now),
        *final(last_rebuild_ms) == (if allowed {
            now
        } else {
            *old(last_rebuild_ms)
        }),
{
    let prev: u64 = *last_rebuild_ms;
    if prev != 0 && now.saturating_sub(prev) < DOH_MIN_REBUILD_INTERVAL_MS {
        return false;
    }
    *last_rebuild_ms = now;
    true
}

/// What a failure over HTTP/3 at `now` adds up to: whether HTTP/3 is to be left alone for a
/// while, and what is remembered.
pub open spec fn recorded(health: DohHealth, now: u64) -> (bool, DohHealth) {
    let count = if health.h3_last_failure_ms == 0 || minus(now, health.h3_last_failure_ms)
        > H3_FAILURE_WINDOW_SECS * 1000 {
        1
    } else {
        health.h3_failures + 1
    };
    if count >= H3_FAILURE_THRESHOLD {
        (
            true,
            DohHealth {
                h3_failures: 0,
                h3_last_failure_ms: now,
                h3_backoff_until_ms: plus(now, (H3_BACKOFF_SECS * 1000) as u64),
                ..health
            },
        )
    } else {
        (false, DohHealth { h3_failures: count as u32, h3_last_failure_ms: now, ..health })
    }
}

impl DohHealth {
    /// The failures in a row stay below the threshold.
    pub open spec fn wf(self) -> bool {
        self.h3_failures < H3_FAILURE_THRESHOLD
    }

    /// HTTP/3 is being left alone.
    pub open spec fn backing_off(self, now: u64) -> bool {
        self.h3_backoff_until_ms > now
    }

    /// Nothing is known yet.
    pub fn new() -> (h: Self)
        ensures
            h.wf(),
            h == (DohHealth {
                protocol_hint: DOH_PROTO_UNKNOWN,
                h3_failures: 0,
                h3_last_failure_ms: 0,
                h3_backoff_until_ms: 0,
                h2_last_rebuild_ms: 0,
                h3_last_rebuild_ms: 0,
                h2_target_addr: None,
            }),
    {
        DohHealth {
            protocol_hint: DOH_PROTO_UNKNOWN,
            h3_failures: 0,
            h3_last_failure_ms: 0,
            h3_backoff_until_ms: 0,
            h2_last_rebuild_ms: 0,
            h3_last_rebuild_ms: 0,
            h2_target_addr: None,
        }
    }

    /// Whether HTTP/3 is being left alone.
    pub fn h3_backoff_active(&self, now: u64) -> (active: bool)
        ensures
            active == self.backing_off(now),
    {
        self.h3_backoff_until_ms > now
    }

    /// Forgets all failures over HTTP/3.
    pub fn clear_h3_failures(&mut self)
        ensures
            *final(self) == (DohHealth {
                h3_failures: 0,
                h3_last_failure_ms: 0,
                h3_backoff_until_ms: 0,
                ..*old(self)
            }),
    {
        self.h3_failures = 0;
        self.h3_last_failure_ms = 0;
        self.h3_backoff_until_ms = 0;
    }

    /// Forgets the failures over HTTP/3, but not to leave it alone.
    pub fn reset_h3_failure_counter(&mut self)
        ensures
            *final(self) == (DohHealth { h3_failures: 0, h3_last_failure_ms: 0, ..*old(self) }),
    {
        self.h3_failures = 0;
        self.h3_last_failure_ms = 0;
    }

    /// Counts a failure over HTTP/3. After several within the window HTTP/3 is left alone for a
    /// while.
    pub fn record_h3_failure(&mut self, now: u64) -> (backoff: bool)
        requires
            old(self).wf(),
        ensures
            final(self).wf(),
            (backoff, *final(self)) == recorded(*old(self), now),
    {
        let last: u64 = self.h3_last_failure_ms;
        let window_ms: u64 = H3_FAILURE_WINDOW_SECS * 1000;
        let count: u32 = if last == 0 || now.saturating_sub(last) > window_ms {
            1
        } else {
            self.h3_failures + 1
        };
        self.h3_failures = count;
        self.h3_last_failure_ms = now;
        if count >= H3_FAILURE_THRESHOLD {
            self.h3_failures = 0;
            self.h3_backoff_until_ms = now.saturating_add(H3_BACKOFF_SECS * 1000);
            return true;
        }
        false
    }

    /// Drops the kept HTTP/2 client, unless one was dropped just now; the answer says whether
    /// the client goes.
    pub fn maybe_reset_doh_h2_client(&mut self, now: u64) -> (dropped: bool)
        ensures
            dropped == rebuild_allowed(old(self).h2_last_rebuild_ms, now),
            *final(self) == (if dropped {
                DohHealth { h2_last_rebuild_ms: now, h2_target_addr: None, ..*old(self) }
            } else {
                *old(self)
            }),
    {
        let mut last: u64 = self.h2_last_rebuild_ms;
        if can_rebuild(&mut last, now) {
            self.h2_last_rebuild_ms = last;
            self.h2_target_addr = None;
            true
        } else {
            false
        }
    }

    /// Drops the kept HTTP/3 connections, unless they were dropped just now; the answer says
    /// whether the connections go.
    pub fn maybe_reset_doh_h3_client(&mut self, now: u64) -> (dropped: bool)
        ensures
            dropped == rebuild_allowed(old(self).h3_last_rebuild_ms, now),
            *final(self) == (if dropped {
                DohHealth { h3_last_rebuild_ms: now, ..*old(self) }
            } else {
                *old(self)
            }),
    {
        let mut last: u64 = self.h3_last_rebuild_ms;
        if can_rebuild(&mut last, now) {
            self.h3_last_rebuild_ms = last;
            true
        } else {
            false
        }
    }
}

/// Kept connections are dropped once in an interval at most: right after they were, they may not
/// be again.
pub proof fn law_rebuilds_are_spaced(now: u64, later: u64)
    requires
        now > 0,
        later < now + DOH_MIN_REBUILD_INTERVAL_MS,
    ensures
        !rebuild_allowed(now, later),
{
}

/// Three failures with no more than the window between each two make HTTP/3 be left alone,
/// until the time for that has passed.
pub proof fn law_failures_in_a_row_back_off(health: DohHealth, a: u64, b: u64, c: u64, now: u64)
    requires
        health.h3_failures == 0,
        0 < a,
        a <= b <= a + H3_FAILURE_WINDOW_SECS * 1000,
        b <= c <= b + H3_FAILURE_WINDOW_SECS * 1000,
        c + H3_BACKOFF_SECS * 1000 <= u64::MAX,
    ensures
        ({
            let (first, one) = recorded(health, a);
            let (second, two) = recorded(one, b);
            let (third, three) = recorded(two, c);
            &&& !first && !second && third
            &&& three.backing_off(now) <==> now < c + H3_BACKOFF_SECS * 1000
        }),
{
}

/// What has to be done next for a query to a server.
#[derive(Debug)]
pub enum DohAction {
    SelectProtocol,
    PostH3,
    PostH2,
    Finish(Result<Vec<u8>, DoHError>),
}

/// What a query starts with.
pub open spec fn first_action(h3_only: bool, health: DohHealth, now: u64) -> DohAction {
    if h3_only {
        DohAction::PostH3
    } else if health.protocol_hint == DOH_PROTO_UNKNOWN {
        DohAction::SelectProtocol
    } else if health.protocol_hint == DOH_PROTO_H3 && !health.backing_off(now) {
        DohAction::PostH3
    } else {
        DohAction::PostH2
    }
}

/// Starts a query: by the protocol that is known to work, or by finding out.
pub fn proxy_doh(h3_only: bool, health: &DohHealth, now: u64) -> (action: DohAction)
    ensures
        action == first_action(h3_only, *health, now),
{
    if h3_only {
        return DohAction::PostH3;
    }
    let mut protocol: u8 = health.protocol_hint;
    if protocol == DOH_PROTO_H3 && health.h3_backoff_active(now) {
        protocol = DOH_PROTO_H2;
    }
    if protocol == DOH_PROTO_UNKNOWN {
        return DohAction::SelectProtocol;
    }
    post_over(protocol)
}

/// A query goes out over HTTP/3 where that is the protocol, over HTTP/2 otherwise.
pub open spec fn posted_over(protocol: u8) -> DohAction {
    if protocol == DOH_PROTO_H3 {
        DohAction::PostH3
    } else {
        DohAction::PostH2
    }
}

fn post_over(protocol: u8) -> (action: DohAction)
    ensures
        action == posted_over(protocol),
{
    if protocol == DOH_PROTO_H3 {
        DohAction::PostH3
    } else {
        DohAction::PostH2
    }
}

/// Goes on once the protocol is found. It is remembered, unless HTTP/2 was taken only because
/// HTTP/3 is being left alone.
pub fn on_protocol(health: &mut DohHealth, protocol: u8, now: u64) -> (action: DohAction)
    ensures
        action == posted_over(protocol),
        *final(health) == (if protocol == DOH_PROTO_H2 && old(health).backing_off(now) {
            *old(health)
        } else {
            DohHealth { protocol_hint: protocol, ..*old(health) }
        }),
{
    if !(protocol == DOH_PROTO_H2 && health.h3_backoff_active(now)) {
        health.protocol_hint = protocol;
    }
    post_over(protocol)
}

/// What is remembered after a query over HTTP/3.
pub open spec fn after_h3(
    h3_only: bool,
    health: DohHealth,
    result: Result<Vec<u8>, H3Failure>,
    now: u64,
) -> DohHealth {
    if h3_only {
        health
    } else {
        match result {
            Ok(_) => DohHealth {
                h3_failures: 0,
                h3_last_failure_ms: 0,
                h3_backoff_until_ms: 0,
                ..health
            },
            Err(failure) => if failure.retryable {
                DohHealth { protocol_hint: DOH_PROTO_UNKNOWN, ..recorded(health, now).1 }
            } else {
                DohHealth {
                    protocol_hint: DOH_PROTO_H2,
                    h3_failures: 0,
                    h3_last_failure_ms: 0,
                    ..health
                }
            },
        }
    }
}

/// Goes on after a query over HTTP/3. An answer ends it. A failure does for a server that is
/// asked over HTTP/3 only; any other is asked over HTTP/2 next, and after a failure that may pass
/// the protocol is found out anew for the next query.
pub fn on_h3_result(
    h3_only: bool,
    health: &mut DohHealth,
    result: Result<Vec<u8>, H3Failure>,
    now: u64,
) -> (action: DohAction)
    requires
        old(health).wf(),
    ensures
        final(health).wf(),
        *final(health) == after_h3(h3_only, *old(health), result, now),
        action == (match result {
            Ok(packet) => DohAction::Finish(Ok(packet)),
            Err(failure) => if h3_only {
                DohAction::Finish(Err(failure.err))
            } else {
                DohAction::PostH2
            },
        }),
{
    if h3_only {
        return match result {
            Ok(packet) => DohAction::Finish(Ok(packet)),
            Err(failure) => DohAction::Finish(
                Err(crate::retry::doh_h3_error_to_doh_error(failure)),
            ),
        };
    }
    match result {
        Ok(packet) => {
            health.clear_h3_failures();
            DohAction::Finish(Ok(packet))
        },
        Err(failure) => {
            if failure.retryable {
                let h3_backoff = health.record_h3_failure(now);
                let reset_hint = crate::retry::is_retryable_h3_failure(&failure) || h3_backoff;
                if reset_hint {
                    health.protocol_hint = DOH_PROTO_UNKNOWN;
                }
            } else {
                health.reset_h3_failure_counter();
                health.protocol_hint = DOH_PROTO_H2;
            }
            DohAction::PostH2
        },
    }
}

/// Ends a query with what came over HTTP/2.
pub fn on_h2_result(result: Result<Vec<u8>, DoHError>) -> (action: DohAction)
    ensures
        action == DohAction::Finish(result),
{
    DohAction::Finish(result)
}

/// What goes after a query took too long.
#[derive(Clone, Copy, Debug, PartialEq, Eq, Structural)]
pub struct DroppedClients {
    pub h2: bool,
    pub h3: bool,
}

/// Ends a query that took too long. The kept connections go where they may, and unless the server
/// is asked over HTTP/3 only, the protocol is found out anew.
pub fn on_timeout(h3_only: bool, health: &mut DohHealth, now: u64) -> (r: (
    DroppedClients,
    DoHError,
))
    requires
        old(health).wf(),
    ensures
        final(health).wf(),
        r.1 is UpstreamTimeout,
        r.0.h2 == rebuild_allowed(old(health).h2_last_rebuild_ms, now),
        r.0.h3 == rebuild_allowed(old(health).h3_last_rebuild_ms, now),
        *final(health) == (DohHealth {
            h2_last_rebuild_ms: if r.0.h2 {
                now
            } else {
                old(health).h2_last_rebuild_ms
            },
            h2_target_addr: if r.0.h2 {
                None
            } else {
                old(health).h2_target_addr
            },
            h3_last_rebuild_ms: if r.0.h3 {
                now
            } else {
                old(health).h3_last_rebuild_ms
            },
            protocol_hint: if h3_only {
                old(health).protocol_hint
            } else {
                DOH_PROTO_UNKNOWN
            },
            ..*old(health)
        }),
{
    let h2 = health.maybe_reset_doh_h2_client(now);
    let h3 = health.maybe_reset_doh_h3_client(now);
    if !h3_only {
        health.protocol_hint = DOH_PROTO_UNKNOWN;
    }
    (DroppedClients { h2, h3 }, DoHError::UpstreamTimeout)
}

/// Which of two trial connections, made at the same time, ended first, and whether it was made.
#[derive(Clone, Copy, Debug, PartialEq, Eq, Structural)]
pub enum ProbeOutcome {
    H3(bool),
    Tls(bool),
}

/// Whether the protocol is clear without trial connections: it is HTTP/2 while HTTP/3 is being
/// left alone, and where the server's address could not be found.
pub fn select_without_probe(health: &DohHealth, resolved: bool, now: u64) -> (protocol: Option<u8>)
    ensures
        protocol == (if health.backing_off(now) || !resolved {
            Some(DOH_PROTO_H2)
        } else {
            None
        }),
{
    if health.h3_backoff_active(now) {
        return Some(DOH_PROTO_H2);
    }
    if !resolved {
        return Some(DOH_PROTO_H2);
    }
    None
}

/// The protocol after trial connections: that of the first to end where it was made, the other
/// where it was not.
pub fn select_doh_protocol(first: ProbeOutcome) -> (protocol: u8)
    ensures
        protocol == (match first {
            ProbeOutcome::H3(made) => if made {
                DOH_PROTO_H3
            } else {
                DOH_PROTO_H2
            },
            ProbeOutcome::Tls(made) => if made {
                DOH_PROTO_H2
            } else {
                DOH_PROTO_H3
            },
        }),
{
    match first {
        ProbeOutcome::H3(made) => if made {
            DOH_PROTO_H3
        } else {
            DOH_PROTO_H2
        },
        ProbeOutcome::Tls(made) => if made {
            DOH_PROTO_H2
        } else {
            DOH_PROTO_H3
        },
    }
}

/// While HTTP/3 is being left alone, no query starts over it, but to a server that is asked over
/// HTTP/3 only.
pub proof fn law_backoff_avoids_h3(health: DohHealth, now: u64)
    requires
        health.backing_off(now),
    ensures
        first_action(false, health, now) !is PostH3,
        first_action(true, health, now) is PostH3,
{
}

/// A failure over HTTP/3 that will not pass makes the next query go over HTTP/2 at once.
pub proof fn law_lasting_failure_settles_on_h2(
    health: DohHealth,
    failure: H3Failure,
    now: u64,
    later: u64,
)
    requires
        !failure.retryable,
    ensures
        first_action(false, after_h3(false, health, Err(failure), now), later) is PostH2,
{
}

/// Kept connections may be dropped where they never were, and again a second later.
pub proof fn law_rebuilds_come_once_a_second(last: u64, now: u64)
    ensures
        rebuild_allowed(last, now) <==> last == 0 || now >= last + 1000,
{
}

/// Three failures over HTTP/3 within a minute of each other make it be left alone for half a
/// minute, whatever went before; and the count starts anew then.
pub proof fn law_third_failure_backs_off(health: DohHealth, a: u64, b: u64, c: u64, now: u64)
    requires
        health.h3_failures == 0,
        0 < a,
        a <= b <= a + 60_000,
        b <= c <= b + 60_000,
        c + 30_000 <= u64::MAX,
    ensures
        ({
            let (first, one) = recorded(health, a);
            let (second, two) = recorded(one, b);
            let (third, three) = recorded(two, c);
            &&& !first && !second && third
            &&& one.backing_off(now) == health.backing_off(now) && two.backing_off(now)
                == health.backing_off(now)
            &&& three.backing_off(now) <==> now < c + 30_000
            &&& three.h3_failures == 0
        }),
{
}

/// Failures that lie more than a minute apart do not add up, and those that do not are counted.
/// Nothing else of what is remembered changes with one.
pub proof fn law_failures_add_up_within_a_minute(health: DohHealth, now: u64)
    requires
        health.wf(),
    ensures
        ({
            let (back_off, after) = recorded(health, now);
            &&& health.h3_last_failure_ms > 0 && now > health.h3_last_failure_ms + 60_000
                ==> !back_off && after.h3_failures == 1
            &&& health.h3_last_failure_ms > 0 && now <= health.h3_last_failure_ms + 60_000 ==> if back_off {
                health.h3_failures == 2
            } else {
                after.h3_failures == health.h3_failures + 1
            }
            &&& !back_off ==> after.h3_backoff_until_ms == health.h3_backoff_until_ms
            &&& after.h3_last_failure_ms == now
            &&& after.protocol_hint == health.protocol_hint && after.h2_last_rebuild_ms
                == health.h2_last_rebuild_ms && after.h3_last_rebuild_ms
                == health.h3_last_rebuild_ms && after.h2_target_addr == health.h2_target_addr
        }),
{
}

/// A query starts over the protocol that is known to work, and by finding out where none is.
pub proof fn law_known_protocol_is_used(health: DohHealth, now: u64)
    ensures
        first_action(true, health, now) is PostH3,
        health.protocol_hint == 0 ==> first_action(false, health, now) is SelectProtocol,
        health.protocol_hint == 1 ==> first_action(false, health, now) is PostH2,
        health.protocol_hint == 2 && now >= health.h3_backoff_until_ms ==> first_action(
            false,
            health,
            now,
        ) is PostH3,
        health.protocol_hint == 2 && now < health.h3_backoff_until_ms ==> first_action(
            false,
            health,
            now,
        ) is PostH2,
        posted_over(1) is PostH2,
        posted_over(2) is PostH3,
{
}

/// An answer over HTTP/3 makes all its failures forgotten: a server that is known to speak it is
/// asked over it again at once, and takes three failures anew to be left alone.
pub proof fn law_answers_clear_failures(
    health: DohHealth,
    packet: Vec<u8>,
    now: u64,
    later: u64,
)
    ensures
        ({
            let after = after_h3(false, health, Ok(packet), now);
            &&& after.h3_failures == 0 && !after.backing_off(later)
            &&& after.protocol_hint == health.protocol_hint
            &&& health.protocol_hint == 2 ==> first_action(false, after, later) is PostH3
            &&& after_h3(true, health, Ok(packet), now) == health
        }),
{
}

/// After a failure over HTTP/3 that may pass, it is counted, and the protocol is found out anew;
/// a server that is asked over HTTP/3 only is remembered as it was.
pub proof fn law_passing_failures_are_counted(
    health: DohHealth,
    failure: H3Failure,
    now: u64,
    later: u64,
)
    requires
        failure.retryable,
    ensures
        ({
            let after = after_h3(false, health, Err(failure), now);
            &&& first_action(false, after, later) is SelectProtocol
            &&& after.h3_failures == recorded(health, now).1.h3_failures
            &&& after.h3_backoff_until_ms == recorded(health, now).1.h3_backoff_until_ms
            &&& after.h3_last_failure_ms == now
            &&& after_h3(true, health, Err(failure), now) == health
        }),
{
}

/// After a failure that will last, the server is asked over HTTP/2 from then on, and its failures
/// are forgotten.
pub proof fn law_lasting_failures_end_h3(health: DohHealth, failure: H3Failure, now: u64)
    requires
        !failure.retryable,
    ensures
        ({
            let after = after_h3(false, health, Err(failure), now);
            &&& after.protocol_hint == DOH_PROTO_H2
            &&& after.h3_failures == 0 && after.h3_last_failure_ms == 0
            &&& after.h3_backoff_until_ms == health.h3_backoff_until_ms
            &&& after.h2_last_rebuild_ms == health.h2_last_rebuild_ms && after.h3_last_rebuild_ms
                == health.h3_last_rebuild_ms
            &&& after.h2_target_addr == health.h2_target_addr
        }),
{
}

} // verus!
