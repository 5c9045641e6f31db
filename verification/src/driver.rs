//! Lifecycle of one connection.
//!
//! A connection is `Pending` while its identity and group membership are
//! verified, `Active` once admitted, `Closing` when its inbound side has
//! ended, and `Closed` when nothing is left to do. The driver that owns the
//! transport performs the actions; what to do next is decided here, by
//! [`step`], from the current state and what just happened.

use vstd::prelude::*;

use crate::types::ConnectionContext;

verus! {

/// Where a connection stands.
#[derive(Clone, Copy, Debug, PartialEq, Eq, Structural)]
pub enum DriverState {
    /// Identity and membership are being verified.
    Pending,
    /// Admitted as `conn`. `registered` tells whether the registry holds it
    /// yet; inbound frames are pumped only once it does.
    Active { conn: ConnectionContext, registered: bool },
    /// The inbound side has ended; `conn` is still registered.
    Closing { conn: ConnectionContext },
    /// Unregistered, or never registered. Final.
    Closed,
}

/// What just happened to a connection.
#[derive(Clone, Copy, Debug, PartialEq, Eq, Structural)]
pub enum DriverEvent {
    /// Verification finished: the connection's identity when both the user
    /// and the user's membership in the group were confirmed, nothing
    /// otherwise.
    Verified(Option<ConnectionContext>),
    /// The registry accepted the connection.
    Registered,
    /// Storage failed while the registry was opening the group.
    RegistrationFailed,
    /// An inbound frame arrived.
    Frame,
    /// The peer sent its close frame.
    PeerClosed,
    /// Reading from the transport failed.
    ReadFailed,
    /// The inbound stream ended.
    StreamEnded,
    /// The registry dropped the connection.
    Unregistered,
}

/// What the driver has to do next.
#[derive(Clone, Copy, Debug, PartialEq, Eq, Structural)]
pub enum DriverAction {
    /// Report failure to whoever asked for the upgrade.
    Reject,
    /// Register the connection and start forwarding its outbound queue.
    Register(ConnectionContext),
    /// Wait for the next inbound frame.
    Receive,
    /// Hand the frame to the message handler, then wait for the next one.
    Dispatch,
    /// Unregister the connection.
    Disconnect(ConnectionContext),
    /// Nothing: the connection is done.
    Stop,
}

/// The transition relation: the state and action that follow `event` in
/// `state`, or `None` where `event` cannot occur in `state`.
pub open spec fn next(state: DriverState, event: DriverEvent) -> Option<(DriverState, DriverAction)> {
    match state {
        DriverState::Pending => match event {
            DriverEvent::Verified(Some(conn)) => Some(
                (DriverState::Active { conn, registered: false }, DriverAction::Register(conn)),
            ),
            DriverEvent::Verified(None) => Some((DriverState::Closed, DriverAction::Reject)),
            _ => None,
        },
        DriverState::Active { conn, registered: false } => match event {
            DriverEvent::Registered => Some(
                (DriverState::Active { conn, registered: true }, DriverAction::Receive),
            ),
            DriverEvent::RegistrationFailed => Some((DriverState::Closed, DriverAction::Reject)),
            _ => None,
        },
        DriverState::Active { conn, registered: true } => match event {
            DriverEvent::Frame => Some((state, DriverAction::Dispatch)),
            DriverEvent::PeerClosed | DriverEvent::ReadFailed | DriverEvent::StreamEnded => Some(
                (DriverState::Closing { conn }, DriverAction::Disconnect(conn)),
            ),
            _ => None,
        },
        DriverState::Closing { conn } => match event {
            DriverEvent::Unregistered => Some((DriverState::Closed, DriverAction::Stop)),
            _ => None,
        },
        DriverState::Closed => None,
    }
}

/// Decides what follows `event` in `state`.
///
/// Returns the next state and the action to perform, or `None` when `event`
/// cannot occur in `state`; the caller then stays where it is.
pub fn step(state: DriverState, event: DriverEvent) -> (decided: Option<(DriverState, DriverAction)>)
    ensures
        decided == next(state, event),
{
    match state {
        DriverState::Pending => match event {
            DriverEvent::Verified(Some(conn)) => Some(
                (DriverState::Active { conn, registered: false }, DriverAction::Register(conn)),
            ),
            DriverEvent::Verified(None) => Some((DriverState::Closed, DriverAction::Reject)),
            _ => None,
        },
        DriverState::Active { conn, registered } => {
            if registered {
                match event {
                    DriverEvent::Frame => Some((state, DriverAction::Dispatch)),
                    DriverEvent::PeerClosed | DriverEvent::ReadFailed | DriverEvent::StreamEnded => Some(
                        (DriverState::Closing { conn }, DriverAction::Disconnect(conn)),
                    ),
                    _ => None,
                }
            } else {
                match event {
                    DriverEvent::Registered => Some(
                        (DriverState::Active { conn, registered: true }, DriverAction::Receive),
                    ),
                    DriverEvent::RegistrationFailed => Some(
                        (DriverState::Closed, DriverAction::Reject),
                    ),
                    _ => None,
                }
            }
        },
        DriverState::Closing { conn: _ } => match event {
            DriverEvent::Unregistered => Some((DriverState::Closed, DriverAction::Stop)),
            _ => None,
        },
        DriverState::Closed => None,
    }
}

/// The connection is registered and its inbound side is being pumped.
pub open spec fn is_pumping(state: DriverState) -> bool {
    state matches DriverState::Active { registered: true, .. }
}

/// The state after `events`, each decided by [`next`]; an event that cannot
/// occur leaves the state as it is.
pub open spec fn run(state: DriverState, events: Seq<DriverEvent>) -> DriverState
    decreases events.len(),
{
    if events.len() == 0 {
        state
    } else {
        match next(state, events[0]) {
            Some((after, _)) => run(after, events.drop_first()),
            None => run(state, events.drop_first()),
        }
    }
}

/// The actions decided along `events`, in order.
pub open spec fn actions(state: DriverState, events: Seq<DriverEvent>) -> Seq<DriverAction>
    decreases events.len(),
{
    if events.len() == 0 {
        Seq::empty()
    } else {
        match next(state, events[0]) {
            Some((after, action)) => seq![action] + actions(after, events.drop_first()),
            None => actions(state, events.drop_first()),
        }
    }
}

/// How many of `decided` unregister a connection.
pub open spec fn disconnects(decided: Seq<DriverAction>) -> nat
    decreases decided.len(),
{
    if decided.len() == 0 {
        0
    } else {
        let here: nat = if decided[0] is Disconnect {
            1
        } else {
            0
        };
        here + disconnects(decided.drop_first())
    }
}

/// How many of `decided` start pumping, which is what follows a successful
/// registration.
pub open spec fn registrations(decided: Seq<DriverAction>) -> nat
    decreases decided.len(),
{
    if decided.len() == 0 {
        0
    } else {
        let here: nat = if decided[0] is Receive {
            1
        } else {
            0
        };
        here + registrations(decided.drop_first())
    }
}

/// Registrations that can still come in `state`: one until the connection
/// is registered or turned down, none after.
pub open spec fn registrations_ahead(state: DriverState) -> nat {
    match state {
        DriverState::Pending => 1,
        DriverState::Active { registered: false, .. } => 1,
        _ => 0,
    }
}

/// Nothing follows `Closed`.
pub proof fn lemma_closed_is_final(events: Seq<DriverEvent>)
    ensures
        run(DriverState::Closed, events) == DriverState::Closed,
        actions(DriverState::Closed, events) == Seq::<DriverAction>::empty(),
    decreases events.len(),
{
    if events.len() > 0 {
        lemma_closed_is_final(events.drop_first());
    }
}

/// Registering and unregistering balance: along any events, the connection
/// is unregistered as often as it was registered, less one if it is still
/// being pumped at the end, plus one if it was being pumped at the start.
/// And it is registered at most once.
pub proof fn lemma_disconnects_balance(state: DriverState, events: Seq<DriverEvent>)
    ensures
        disconnects(actions(state, events)) + (if is_pumping(run(state, events)) {
            1nat
        } else {
            0nat
        }) == registrations(actions(state, events)) + (if is_pumping(state) {
            1nat
        } else {
            0nat
        }),
        registrations(actions(state, events)) <= registrations_ahead(state),
    decreases events.len(),
{
    if events.len() > 0 {
        let rest = events.drop_first();
        match next(state, events[0]) {
            Some((after, action)) => {
                lemma_disconnects_balance(after, rest);
                let decided = actions(state, events);
                assert(decided == seq![action] + actions(after, rest));
                assert(decided[0] == action);
                assert(decided.drop_first() =~= actions(after, rest));
            },
            None => {
                lemma_disconnects_balance(state, rest);
            },
        }
    }
}

/// From upgrade to the end, a connection is unregistered at most once; and
/// once it has been registered and its inbound side has ended, it has been
/// unregistered exactly once.
pub proof fn lemma_disconnect_exactly_once(events: Seq<DriverEvent>)
    ensures
        disconnects(actions(DriverState::Pending, events)) <= 1,
        !is_pumping(run(DriverState::Pending, events)) ==> disconnects(
            actions(DriverState::Pending, events),
        ) == registrations(actions(DriverState::Pending, events)),
{
    lemma_disconnects_balance(DriverState::Pending, events);
}

/// A connection is unregistered under the identity it was admitted with.
pub proof fn lemma_disconnect_names_admitted_connection(
    conn: ConnectionContext,
    registered: bool,
    events: Seq<DriverEvent>,
)
    ensures
        forall|i: int|
            0 <= i < actions(DriverState::Active { conn, registered }, events).len() ==> (
            #[trigger] actions(DriverState::Active { conn, registered }, events)[i]
                matches DriverAction::Disconnect(left) ==> left == conn),
    decreases events.len(),
{
    let state = DriverState::Active { conn, registered };
    if events.len() > 0 {
        let rest = events.drop_first();
        match next(state, events[0]) {
            Some((after, action)) => {
                match after {
                    DriverState::Active { conn: same, registered: now } => {
                        lemma_disconnect_names_admitted_connection(conn, now, rest);
                    },
                    DriverState::Closing { conn: same } => {
                        lemma_closing_decides_no_disconnect(conn, rest);
                    },
                    _ => {
                        lemma_closed_is_final(rest);
                    },
                }
            },
            None => {
                lemma_disconnect_names_admitted_connection(conn, registered, rest);
            },
        }
    }
}

/// Once closing, no further disconnect is decided.
proof fn lemma_closing_decides_no_disconnect(conn: ConnectionContext, events: Seq<DriverEvent>)
    ensures
        forall|i: int|
            0 <= i < actions(DriverState::Closing { conn }, events).len() ==> !(#[trigger] actions(
                DriverState::Closing { conn },
                events,
            )[i] is Disconnect),
    decreases events.len(),
{
    if events.len() > 0 {
        let rest = events.drop_first();
        match next(DriverState::Closing { conn }, events[0]) {
            Some((after, action)) => {
                lemma_closed_is_final(rest);
            },
            None => {
                lemma_closing_decides_no_disconnect(conn, rest);
            },
        }
    }
}

} // verus!
