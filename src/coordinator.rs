//! Running a fetch without blocking the interactive loop.
//!
//! Each attempt gets a fresh channel and a generation number. The worker
//! that performs the attempt sends one tagged result; the loop polls for it
//! on every tick and keeps only a result of the current generation.

use vstd::prelude::*;
use crossbeam_channel::{Receiver, Sender};
use crate::catalog::{FetchFailure, FetchResult};

verus! {

#[verifier::external_type_specification]
#[verifier::external_body]
#[verifier::reject_recursive_types(T)]
pub struct ExReceiver<T>(Receiver<T>);

#[verifier::external_type_specification]
#[verifier::external_body]
#[verifier::reject_recursive_types(T)]
pub struct ExSender<T>(Sender<T>);

/// A fetch result, tagged with the attempt it answers.
pub struct FetchMessage {
    pub generation: u64,
    pub result: FetchResult,
}

/// What a look at the channel found.
pub enum ChannelPoll {
    Received(FetchMessage),
    /// Nothing yet; the worker may still send.
    Empty,
    /// Nothing, and nobody is left to send.
    Disconnected,
}

/// What a fetch worker needs to report back.
pub struct FetchTicket {
    pub generation: u64,
    pub sender: Sender<FetchMessage>,
}

/// Relies on `crossbeam_channel::unbounded`: a new channel of unbounded
/// capacity, as its sending and receiving ends.
#[verifier::external_body]
fn open_channel() -> (Sender<FetchMessage>, Receiver<FetchMessage>) {
    crossbeam_channel::unbounded()
}

/// Relies on `crossbeam_channel::Receiver::try_recv`, which never blocks: a
/// waiting message, or whether the channel is empty or disconnected.
#[verifier::external_body]
fn poll_channel(rx: &Receiver<FetchMessage>) -> ChannelPoll {
    match rx.try_recv() {
        Ok(m) => ChannelPoll::Received(m),
        Err(crossbeam_channel::TryRecvError::Empty) => ChannelPoll::Empty,
        Err(crossbeam_channel::TryRecvError::Disconnected) => ChannelPoll::Disconnected,
    }
}

/// The generation after `g`; it wraps round after the largest value.
pub open spec fn next_generation(g: u64) -> u64 {
    if g == u64::MAX {
        0
    } else {
        (g + 1) as u64
    }
}

/// Tracks the fetch in flight, if any.
pub struct FetchCoordinator {
    generation: u64,
    in_flight: bool,
    receiver: Option<Receiver<FetchMessage>>,
}

impl FetchCoordinator {
    /// The generation of the latest attempt.
    pub closed spec fn generation(&self) -> u64 {
        self.generation
    }

    /// Whether an attempt has started and not yet delivered its result.
    pub closed spec fn in_flight(&self) -> bool {
        self.in_flight
    }

    pub fn new() -> (r: FetchCoordinator)
        ensures
            r.generation() == 0,
            !r.in_flight(),
    {
        FetchCoordinator { generation: 0, in_flight: false, receiver: None }
    }

    pub fn is_fetching(&self) -> (r: bool)
        ensures
            r == self.in_flight(),
    {
        self.in_flight
    }

    /// Starts an attempt unless one is in flight. The ticket goes to the
    /// worker, which sends its one result through it.
    pub fn start(&mut self) -> (r: Option<FetchTicket>)
        ensures
            old(self).in_flight() ==> r is None && final(self).in_flight()
                && final(self).generation() == old(self).generation(),
            !old(self).in_flight() ==> (r matches Some(t) && t.generation == next_generation(
                old(self).generation(),
            ) && final(self).generation() == t.generation && final(self).in_flight()),
    {
        if self.in_flight {
            return None;
        }
        let (sender, receiver) = open_channel();
        self.generation = if self.generation == u64::MAX {
            0
        } else {
            self.generation + 1
        };
        self.in_flight = true;
        self.receiver = Some(receiver);
        Some(FetchTicket { generation: self.generation, sender })
    }

    /// Takes in what a look at the channel found. A result of the current
    /// attempt ends it and is handed on; one of an earlier attempt is
    /// dropped; a channel whose worker left without a result ends the
    /// attempt with `ChannelDisconnected`.
    pub fn receive(&mut self, polled: ChannelPoll) -> (r: Option<FetchResult>)
        ensures
            final(self).generation() == old(self).generation(),
            !old(self).in_flight() ==> r is None && !final(self).in_flight(),
            old(self).in_flight() ==> match polled {
                ChannelPoll::Received(m) => if m.generation == old(self).generation() {
                    r == Some(m.result) && !final(self).in_flight()
                } else {
                    r is None && final(self).in_flight()
                },
                ChannelPoll::Empty => r is None && final(self).in_flight(),
                ChannelPoll::Disconnected => r == Some(
                    FetchResult::Failed(FetchFailure::ChannelDisconnected),
                ) && !final(self).in_flight(),
            },
    {
        if !self.in_flight {
            return None;
        }
        match polled {
            ChannelPoll::Received(m) => {
                if m.generation == self.generation {
                    self.in_flight = false;
                    self.receiver = None;
                    Some(m.result)
                } else {
                    None
                }
            },
            ChannelPoll::Empty => None,
            ChannelPoll::Disconnected => {
                self.in_flight = false;
                self.receiver = None;
                Some(FetchResult::Failed(FetchFailure::ChannelDisconnected))
            },
        }
    }

    /// Looks at the channel without blocking; safe to call on every tick.
    /// Whatever the channel held, no attempt is in flight once a result is
    /// returned, and none is in flight afterwards if none was before.
    pub fn poll(&mut self) -> (r: Option<FetchResult>)
        ensures
            final(self).generation() == old(self).generation(),
            !old(self).in_flight() ==> r is None && !final(self).in_flight(),
            r is Some ==> !final(self).in_flight(),
            r is None ==> final(self).in_flight() == old(self).in_flight(),
    {
        if !self.in_flight {
            return None;
        }
        let polled = match &self.receiver {
            Some(rx) => poll_channel(rx),
            None => ChannelPoll::Disconnected,
        };
        self.receive(polled)
    }
}

} // verus!
