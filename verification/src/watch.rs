//! Versioning of the reactive watch channel.
//!
//! A watch channel holds one shared value. The sender bumps a version number
//! on every send; each receiver remembers the last version it has seen and is
//! woken when the version moves on. Dropping the sender closes the channel.
//! This module holds that bookkeeping and the errors of the channel; the
//! locking and the waking of tasks are done by the application around it.

use vstd::prelude::*;

verus! {

/// A send found no receiver: the value was stored, nobody was notified.
#[derive(Clone, Copy, Debug, PartialEq, Eq, Structural)]
pub struct NoReceiverError;

impl NoReceiverError {
    /// The error's message.
    pub fn message(&self) -> (m: &'static str)
        ensures
            m@ == "all receivers were dropped"@,
    {
        "all receivers were dropped"
    }
}

/// The sender was dropped before a new value came.
#[derive(Clone, Copy, Debug, PartialEq, Eq, Structural)]
pub struct NoSenderError;

impl NoSenderError {
    /// The error's message.
    pub fn message(&self) -> (m: &'static str)
        ensures
            m@ == "sender was dropped"@,
    {
        "sender was dropped"
    }
}

/// `v + 1`, wrapping to 0 after `usize::MAX`.
pub open spec fn wrapping_successor(v: usize) -> usize {
    if v == usize::MAX {
        0
    } else {
        (v + 1) as usize
    }
}

/// Identity of a registered waker; ordered, to key the table of wakers.
#[derive(Clone, Copy, Debug, PartialEq, Eq, Structural, PartialOrd, Ord)]
pub struct WakerId(pub usize);

impl WakerId {
    /// The first identity handed out.
    pub fn first() -> (w: WakerId)
        ensures
            w.0 == 0,
    {
        WakerId(0)
    }

    /// Move to the next identity (wrapping) and return it.
    pub fn post_inc(&mut self) -> (w: WakerId)
        ensures
            final(self).0 == wrapping_successor(old(self).0),
            w == *final(self),
    {
        self.0 = self.0.wrapping_add(1);
        *self
    }
}

/// What polling for a change yields.
#[derive(Clone, Copy, Debug, PartialEq, Eq, Structural)]
pub enum ChangePoll {
    /// A value newer than the receiver's was sent; the receiver has now
    /// seen it.
    Changed,
    /// No newer value, and the sender is gone.
    SenderDropped,
    /// No newer value yet: register a waker and wait.
    Pending,
}

/// The channel after a send: with receivers the version moves on.
pub open spec fn after_send(s: WatchVersion, has_receivers: bool) -> WatchVersion {
    if has_receivers {
        WatchVersion { version: wrapping_successor(s.version), ..s }
    } else {
        s
    }
}

/// What a poll yields for a receiver that has seen version `seen`, and the
/// version it has seen afterwards.
pub open spec fn poll_outcome(s: WatchVersion, seen: usize) -> (ChangePoll, usize) {
    if s.version != seen {
        (ChangePoll::Changed, s.version)
    } else if s.closed {
        (ChangePoll::SenderDropped, seen)
    } else {
        (ChangePoll::Pending, seen)
    }
}

/// The shared version of a watch channel.
#[derive(Clone, Copy, Debug, PartialEq, Eq, Structural)]
pub struct WatchVersion {
    pub version: usize,
    pub closed: bool,
}

impl WatchVersion {
    /// A new channel: version 0, open.
    pub fn new() -> (s: WatchVersion)
        ensures
            s.version == 0,
            !s.closed,
    {
        WatchVersion { version: 0, closed: false }
    }

    /// A value was stored. With receivers, the version moves on (wrapping)
    /// and they are to be woken; without any, the version stays and the send
    /// reports that nobody listens.
    pub fn on_send(&mut self, has_receivers: bool) -> (r: Result<(), NoReceiverError>)
        ensures
            *final(self) == after_send(*old(self), has_receivers),
            r is Ok <==> has_receivers,
    {
        if has_receivers {
            self.version = self.version.wrapping_add(1);
            Ok(())
        } else {
            Err(NoReceiverError)
        }
    }

    /// The sender was dropped.
    pub fn close(&mut self)
        ensures
            *final(self) == (WatchVersion { closed: true, ..*old(self) }),
    {
        self.closed = true;
    }

    /// Mark the current value as seen by a receiver that had seen `*seen`.
    pub fn mark_seen(&self, seen: &mut usize)
        ensures
            *final(seen) == self.version,
    {
        *seen = self.version;
    }

    /// Poll for a change on behalf of a receiver that has seen `*seen`: a
    /// newer version is reported (and then counts as seen); otherwise a
    /// dropped sender; otherwise the receiver waits.
    pub fn poll_changed(&self, seen: &mut usize) -> (p: ChangePoll)
        ensures
            (p, *final(seen)) == poll_outcome(*self, *old(seen)),
    {
        if self.version != *seen {
            *seen = self.version;
            ChangePoll::Changed
        } else if self.closed {
            ChangePoll::SenderDropped
        } else {
            ChangePoll::Pending
        }
    }
}

/// A receiver that has seen the current value is told of the next send
/// once: its next poll reports the change, and a poll right after that does
/// not report it again.
pub proof fn lemma_send_seen_once(s: WatchVersion)
    ensures
        poll_outcome(after_send(s, true), s.version).0 == ChangePoll::Changed,
        poll_outcome(after_send(s, true), s.version).1 == after_send(s, true).version,
        poll_outcome(after_send(s, true), after_send(s, true).version).0 != ChangePoll::Changed,
{
}

/// A receiver that has marked the current value seen is not told of a
/// change until the next send; once the sender is gone, it is told so.
pub proof fn lemma_seen_value_waits(s: WatchVersion, seen: usize)
    requires
        seen == s.version,
    ensures
        poll_outcome(s, seen).0 != ChangePoll::Changed,
        poll_outcome(s, seen).1 == seen,
        poll_outcome(WatchVersion { closed: true, ..s }, seen).0 == ChangePoll::SenderDropped,
{
}

/// A send without receivers changes nothing a receiver could observe.
pub proof fn lemma_send_without_receivers(s: WatchVersion, seen: usize)
    ensures
        poll_outcome(after_send(s, false), seen) == poll_outcome(s, seen),
{
}

} // verus!
