//! A follower's link to its leader between transport passes: connection pacing, probe
//! timing and matching, and the deadline of a partly received snapshot. The engine's
//! follower job performs the I/O and hands what it observed to these methods, each at a
//! reading of the monotonic clock in nanoseconds.
use vstd::prelude::*;

use crate::clock::Exchange;
use crate::config::Timing;
use crate::engine::{
    backoff_after, check_frame_size, follower_deadline, min_u64, probe_interval, sat_add, Backoff,
};
use crate::probes::{initial_probes, publication_spec, reply_spec, request_spec, Probes};
use crate::timeline::SyncState;
use crate::timers::{expired, is_expired};
use crate::Error;

verus! {

/// The follower's state of its link to the leader.
pub struct FollowerLink {
    /// Outstanding probe requests.
    pub probes: Probes,
    /// When to attempt the next connection, and the delay after the one that follows.
    pub backoff: Backoff,
    /// When the current connection attempt began.
    pub began: u64,
    /// Whether the leader's subscriptions are established.
    pub connected: bool,
    /// When the next probe request is due while connected.
    pub next_probe: u64,
    /// When a partly received snapshot must be complete.
    pub frame_deadline: Option<u64>,
    pub timing: Timing,
}

impl FollowerLink {
    /// A link that attempts its first connection at once.
    pub fn new(timing: Timing, now: u64) -> (l: Self)
        ensures
            l.probes@ == initial_probes(),
            l.backoff.retry_at_ns == now,
            l.backoff.delay_ns == timing.retry_min,
            l.began == now,
            !l.connected,
            l.next_probe == now,
            l.frame_deadline is None,
            l.timing == timing,
    {
        FollowerLink {
            probes: Probes::default(),
            backoff: Backoff::new(&timing, now),
            began: now,
            connected: false,
            next_probe: now,
            frame_deadline: None,
            timing,
        }
    }

    /// Whether a connection attempt is due (when the follower has no peer).
    pub fn retry_due(&self, now: u64) -> (r: bool)
        ensures
            r == (now >= self.backoff.retry_at_ns),
    {
        now >= self.backoff.retry_at_ns
    }

    /// A connection attempt begins.
    pub fn connecting(&mut self, now: u64)
        ensures
            *final(self) == (FollowerLink { began: now, ..*old(self) }),
    {
        self.began = now;
    }

    /// The leader's subscriptions are established. Returns whether the link was not
    /// connected before; it then probes at once.
    pub fn connected(&mut self, now: u64) -> (newly: bool)
        ensures
            newly == !old(self).connected,
            final(self).connected,
            final(self).next_probe == (if newly {
                now
            } else {
                old(self).next_probe
            }),
            final(self).probes == old(self).probes,
            final(self).backoff == old(self).backoff,
            final(self).began == old(self).began,
            final(self).frame_deadline == old(self).frame_deadline,
            final(self).timing == old(self).timing,
    {
        if self.connected {
            return false;
        }
        self.connected = true;
        self.next_probe = now;
        true
    }

    /// The connection is lost: outstanding probes and a partly received snapshot are
    /// dropped, and the next attempt waits the backoff delay.
    pub fn disconnected(&mut self, now: u64)
        ensures
            !final(self).connected,
            final(self).frame_deadline is None,
            final(self).probes@ == initial_probes(),
            final(self).backoff == backoff_after(old(self).backoff, old(self).timing, old(self).began, now),
            final(self).began == old(self).began,
            final(self).next_probe == old(self).next_probe,
            final(self).timing == old(self).timing,
    {
        self.connected = false;
        self.frame_deadline = None;
        self.probes = Probes::default();
        let timing = self.timing;
        self.backoff.disconnected(&timing, self.began, now);
    }

    /// A reconnect command: the connection is dropped and the next attempt is due at once.
    pub fn reconnect(&mut self, now: u64)
        ensures
            !final(self).connected,
            final(self).frame_deadline is None,
            final(self).probes@ == initial_probes(),
            final(self).backoff.retry_at_ns == now,
            final(self).backoff.delay_ns == backoff_after(
                old(self).backoff,
                old(self).timing,
                old(self).began,
                now,
            ).delay_ns,
            final(self).began == old(self).began,
            final(self).timing == old(self).timing,
    {
        self.disconnected(now);
        self.backoff.retry_now(now);
    }

    /// A snapshot frame announcing `size` bytes starts arriving; it must be complete within
    /// the connect timeout.
    pub fn frame_started(&mut self, size: u64, now: u64) -> (r: Result<(), Error>)
        ensures
            r == (if size > 512 {
                Err::<(), Error>(Error::Size)
            } else {
                Ok::<(), Error>(())
            }),
            final(self).frame_deadline == (if size > 512 {
                old(self).frame_deadline
            } else {
                Some(sat_add(now, old(self).timing.connect_timeout))
            }),
            final(self).probes == old(self).probes,
            final(self).backoff == old(self).backoff,
            final(self).began == old(self).began,
            final(self).connected == old(self).connected,
            final(self).next_probe == old(self).next_probe,
            final(self).timing == old(self).timing,
    {
        check_frame_size(size)?;
        self.frame_deadline = Some(now.saturating_add(self.timing.connect_timeout));
        Ok(())
    }

    /// The snapshot has been read whole.
    pub fn frame_finished(&mut self)
        ensures
            *final(self) == (FollowerLink { frame_deadline: None, ..*old(self) }),
    {
        self.frame_deadline = None;
    }

    /// Whether the snapshot being read is overdue.
    pub fn frame_expired(&self, now: u64) -> (r: bool)
        ensures
            r == expired(self.frame_deadline, now),
    {
        is_expired(self.frame_deadline, now)
    }

    /// The next probe request when one is due: connected and at or after `next_probe`.
    /// The one after it is scheduled once this one is published (`probe_published`).
    pub fn probe(&mut self, now: u64) -> (r: Result<Option<Vec<u8>>, Error>)
        ensures
            ({
                let due = old(self).connected && now >= old(self).next_probe;
                let (m, res) = request_spec(old(self).probes@, now);
                if !due {
                    &&& r == Ok::<Option<Vec<u8>>, Error>(None)
                    &&& *final(self) == *old(self)
                } else {
                    &&& final(self).probes@ == m
                    &&& match r {
                        Ok(Some(bytes)) => res == Ok::<Seq<u8>, Error>(bytes@),
                        Ok(None) => false,
                        Err(e) => res == Err::<Seq<u8>, Error>(e),
                    }
                    &&& final(self).next_probe == old(self).next_probe
                    &&& final(self).backoff == old(self).backoff
                    &&& final(self).began == old(self).began
                    &&& final(self).connected == old(self).connected
                    &&& final(self).frame_deadline == old(self).frame_deadline
                    &&& final(self).timing == old(self).timing
                }
            }),
    {
        if !self.connected || now < self.next_probe {
            return Ok(None);
        }
        match self.probes.request(now) {
            Ok(bytes) => Ok(Some(bytes)),
            Err(e) => Err(e),
        }
    }

    /// The last probe request has been handed to the transport at `now`: its publication
    /// time is recorded, and the next probe is due a probe interval later, by the
    /// synchronization state `sync` (fast until synchronized).
    pub fn probe_published(&mut self, now: u64, sync: SyncState)
        ensures
            final(self).probes@ == publication_spec(old(self).probes@, now),
            final(self).next_probe == sat_add(
                now,
                if sync == SyncState::Synchronized {
                    old(self).timing.steady_probe
                } else {
                    old(self).timing.acquisition_probe
                },
            ),
            final(self).backoff == old(self).backoff,
            final(self).began == old(self).began,
            final(self).connected == old(self).connected,
            final(self).frame_deadline == old(self).frame_deadline,
            final(self).timing == old(self).timing,
    {
        self.probes.publication_finished(now);
        self.next_probe = now.saturating_add(probe_interval(sync, &self.timing));
    }

    /// A reply received at `now`, matched against the outstanding requests as
    /// `Probes::reply` does.
    pub fn reply(&mut self, bytes: &[u8], now: u64) -> (r: Result<Option<Exchange>, Error>)
        ensures
            ({
                let (m, res) = reply_spec(old(self).probes@, bytes@, now);
                final(self).probes@ == m && r == res
            }),
            final(self).backoff == old(self).backoff,
            final(self).began == old(self).began,
            final(self).connected == old(self).connected,
            final(self).next_probe == old(self).next_probe,
            final(self).frame_deadline == old(self).frame_deadline,
            final(self).timing == old(self).timing,
    {
        self.probes.reply(bytes, now)
    }

    /// The latest time the next pass must run, given the transport's deadline `io` and,
    /// when the follower has a peer, that peer's connection deadline.
    pub fn deadline(&self, io: Option<u64>, peer_deadline: Option<u64>) -> (r: u64)
        ensures
            ({
                let connection = match peer_deadline {
                    Some(d) => if self.connected {
                        self.next_probe
                    } else {
                        d
                    },
                    None => self.backoff.retry_at_ns,
                };
                let with_io = match io {
                    Some(d) => min_u64(d, connection),
                    None => connection,
                };
                r == match self.frame_deadline {
                    Some(f) => min_u64(with_io, f),
                    None => with_io,
                }
            }),
    {
        follower_deadline(
            io,
            peer_deadline,
            self.connected,
            self.next_probe,
            self.backoff.retry_at_ns,
            self.frame_deadline,
        )
    }
}

} // verus!
