//! Learning the address under which others see this side.
use crate::clock::time_left;
use crate::event::NetEvent;
use crate::multiaddr::Multiaddr;
use vstd::prelude::*;

verus! {

use crate::clock::left;
use crate::event::NetEventView;
use crate::multiaddr::Component;

/// What the caller reports to a dialer.
#[derive(Debug)]
pub enum DialInput {
    /// What was asked for is done.
    Done,
    /// The address that was to be dialed could not be.
    Refused,
    /// The time of the last wait is over.
    Elapsed,
    /// The network reported an event.
    Event(NetEvent),
}

/// View of a [`DialInput`].
pub enum DialInputView {
    Done,
    Refused,
    Elapsed,
    Event(NetEventView),
}

impl View for DialInput {
    type V = DialInputView;

    open spec fn view(&self) -> DialInputView {
        match *self {
            DialInput::Done => DialInputView::Done,
            DialInput::Refused => DialInputView::Refused,
            DialInput::Elapsed => DialInputView::Elapsed,
            DialInput::Event(event) => DialInputView::Event(event@),
        }
    }
}

/// How the wait for an observed address goes on.
#[derive(Debug)]
pub enum LearnAction {
    /// Wait for the next event, at most for the given time.
    Wait { limit: u128 },
    /// A peer told the address at which it sees this side.
    Learned { addr: Multiaddr },
    /// Nobody told an address in time.
    Stop,
}

/// View of a [`LearnAction`].
pub enum LearnActionView {
    Wait { limit: u128 },
    Learned { addr: Seq<Component> },
    Stop,
}

impl View for LearnAction {
    type V = LearnActionView;

    open spec fn view(&self) -> LearnActionView {
        match *self {
            LearnAction::Wait { limit } => LearnActionView::Wait { limit },
            LearnAction::Learned { addr } => LearnActionView::Learned { addr: addr@ },
            LearnAction::Stop => LearnActionView::Stop,
        }
    }
}

/// How a wait that may last until the given time goes on after a report: it ends with the first
/// peer that tells an address, or when the time is over.
pub open spec fn learn_step(until: u128, input: DialInputView, now: u128) -> LearnActionView {
    match input {
        DialInputView::Event(NetEventView::Identified { observed, .. }) => {
            LearnActionView::Learned { addr: observed }
        },
        DialInputView::Elapsed => LearnActionView::Stop,
        _ => if left(until, now) == 0 {
            LearnActionView::Stop
        } else {
            LearnActionView::Wait { limit: left(until, now) }
        },
    }
}

/// Takes a report in and says how the wait for an observed address goes on. The first report is
/// [`DialInput::Done`].
pub fn learn_observed_addr(until: u128, input: DialInput, now: u128) -> (r: LearnAction)
    ensures
        r@ == learn_step(until, input@, now),
{
    match input {
        DialInput::Event(NetEvent::Identified { observed, .. }) => {
            return LearnAction::Learned { addr: observed };
        },
        DialInput::Elapsed => {
            return LearnAction::Stop;
        },
        _ => {},
    }
    let limit = time_left(until, now);
    if limit == 0 {
        LearnAction::Stop
    } else {
        LearnAction::Wait { limit }
    }
}

/// The wait for an observed address ends with the first peer that tells one, whenever that is, and
/// that address is what is learned. Else it ends when its time is over, and until then every
/// report makes it wait for the rest of its time.
pub proof fn law_learning_ends_with_an_address_or_its_time(
    until: u128,
    input: DialInputView,
    now: u128,
)
    ensures
        match learn_step(until, input, now) {
            LearnActionView::Learned { addr } => input matches DialInputView::Event(
                NetEventView::Identified { observed, .. },
            ) && addr == observed,
            LearnActionView::Stop => {
                &&& !(input matches DialInputView::Event(NetEventView::Identified { .. }))
                &&& input is Elapsed || until <= now
            },
            LearnActionView::Wait { limit } => {
                &&& !(input matches DialInputView::Event(NetEventView::Identified { .. }))
                &&& !(input is Elapsed)
                &&& now < until
                &&& now + limit == until
            },
        },
{
}

/// Reports and actions are seen as what they are, with all that they hold.
pub proof fn law_learning_is_seen_whole(input: DialInput, action: LearnAction)
    ensures
        match input {
            DialInput::Done => input@ is Done,
            DialInput::Refused => input@ is Refused,
            DialInput::Elapsed => input@ is Elapsed,
            DialInput::Event(event) => input@ matches DialInputView::Event(e) && e == event@,
        },
        match action {
            LearnAction::Wait { limit } => action@ matches LearnActionView::Wait { limit: l } && l
                == limit,
            LearnAction::Learned { addr } => action@ matches LearnActionView::Learned { addr: a }
                && a == addr@,
            LearnAction::Stop => action@ is Stop,
        },
{
}

} // verus!
