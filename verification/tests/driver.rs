use chat_presence::conn_id::ConnIdAllocator;
use chat_presence::driver::{step, DriverAction, DriverEvent, DriverState};
use chat_presence::registry::Context;
use chat_presence::types::ConnectionContext;

fn conn() -> ConnectionContext {
    ConnectionContext { user_id: 3, group_id: 7, conn_id: 101 }
}

const ALL_EVENTS: [DriverEvent; 9] = [
    DriverEvent::Verified(None),
    DriverEvent::Verified(Some(ConnectionContext { user_id: 3, group_id: 7, conn_id: 101 })),
    DriverEvent::Registered,
    DriverEvent::RegistrationFailed,
    DriverEvent::Frame,
    DriverEvent::PeerClosed,
    DriverEvent::ReadFailed,
    DriverEvent::StreamEnded,
    DriverEvent::Unregistered,
];

/// Feeds `events` to the driver, skipping what cannot occur, and collects
/// the actions.
fn drive(events: &[DriverEvent]) -> (DriverState, Vec<DriverAction>) {
    let mut state = DriverState::Pending;
    let mut actions = Vec::new();
    for event in events {
        if let Some((next, action)) = step(state, *event) {
            state = next;
            actions.push(action);
        }
    }
    (state, actions)
}

fn count_disconnects(actions: &[DriverAction]) -> usize {
    actions.iter().filter(|action| matches!(action, DriverAction::Disconnect(_))).count()
}

#[test]
fn admitted_connection_is_registered_first() {
    assert_eq!(
        step(DriverState::Pending, DriverEvent::Verified(Some(conn()))),
        Some((DriverState::Active { conn: conn(), registered: false }, DriverAction::Register(conn())))
    );
}

#[test]
fn refused_connection_closes_without_touching_the_registry() {
    assert_eq!(
        step(DriverState::Pending, DriverEvent::Verified(None)),
        Some((DriverState::Closed, DriverAction::Reject))
    );
}

#[test]
fn registration_starts_the_pump() {
    let waiting = DriverState::Active { conn: conn(), registered: false };
    assert_eq!(
        step(waiting, DriverEvent::Registered),
        Some((DriverState::Active { conn: conn(), registered: true }, DriverAction::Receive))
    );
}

#[test]
fn failed_registration_closes_without_disconnect() {
    let waiting = DriverState::Active { conn: conn(), registered: false };
    assert_eq!(
        step(waiting, DriverEvent::RegistrationFailed),
        Some((DriverState::Closed, DriverAction::Reject))
    );
}

#[test]
fn frames_are_dispatched_while_active() {
    let pumping = DriverState::Active { conn: conn(), registered: true };
    assert_eq!(step(pumping, DriverEvent::Frame), Some((pumping, DriverAction::Dispatch)));
}

#[test]
fn every_way_out_of_the_pump_disconnects() {
    let pumping = DriverState::Active { conn: conn(), registered: true };
    for event in [DriverEvent::PeerClosed, DriverEvent::ReadFailed, DriverEvent::StreamEnded] {
        assert_eq!(
            step(pumping, event),
            Some((DriverState::Closing { conn: conn() }, DriverAction::Disconnect(conn())))
        );
    }
}

#[test]
fn closing_ends_closed() {
    assert_eq!(
        step(DriverState::Closing { conn: conn() }, DriverEvent::Unregistered),
        Some((DriverState::Closed, DriverAction::Stop))
    );
}

#[test]
fn closed_is_final() {
    for event in ALL_EVENTS {
        assert_eq!(step(DriverState::Closed, event), None);
    }
}

#[test]
fn events_out_of_place_are_turned_down() {
    let waiting = DriverState::Active { conn: conn(), registered: false };
    let pumping = DriverState::Active { conn: conn(), registered: true };
    let closing = DriverState::Closing { conn: conn() };
    assert_eq!(step(DriverState::Pending, DriverEvent::Frame), None);
    assert_eq!(step(DriverState::Pending, DriverEvent::Registered), None);
    assert_eq!(step(DriverState::Pending, DriverEvent::StreamEnded), None);
    assert_eq!(step(waiting, DriverEvent::Frame), None);
    assert_eq!(step(waiting, DriverEvent::StreamEnded), None);
    assert_eq!(step(waiting, DriverEvent::Verified(Some(conn()))), None);
    assert_eq!(step(pumping, DriverEvent::Registered), None);
    assert_eq!(step(pumping, DriverEvent::Unregistered), None);
    assert_eq!(step(closing, DriverEvent::Frame), None);
    assert_eq!(step(closing, DriverEvent::ReadFailed), None);
}

#[test]
fn full_session_disconnects_once() {
    let (state, actions) = drive(&[
        DriverEvent::Verified(Some(conn())),
        DriverEvent::Registered,
        DriverEvent::Frame,
        DriverEvent::Frame,
        DriverEvent::ReadFailed,
        DriverEvent::StreamEnded,
        DriverEvent::Unregistered,
        DriverEvent::Unregistered,
    ]);
    assert_eq!(state, DriverState::Closed);
    assert_eq!(
        actions,
        vec![
            DriverAction::Register(conn()),
            DriverAction::Receive,
            DriverAction::Dispatch,
            DriverAction::Dispatch,
            DriverAction::Disconnect(conn()),
            DriverAction::Stop,
        ]
    );
    assert_eq!(count_disconnects(&actions), 1);
}

#[test]
fn no_pair_of_events_disconnects_twice() {
    for first in ALL_EVENTS {
        for second in ALL_EVENTS {
            for third in ALL_EVENTS {
                let (_, actions) = drive(&[
                    DriverEvent::Verified(Some(conn())),
                    DriverEvent::Registered,
                    first,
                    second,
                    third,
                ]);
                assert!(count_disconnects(&actions) <= 1);
            }
        }
    }
}

#[test]
fn unregistered_connection_never_disconnects() {
    for first in ALL_EVENTS {
        for second in ALL_EVENTS {
            if first == DriverEvent::Registered || second == DriverEvent::Registered {
                continue;
            }
            let (_, actions) = drive(&[DriverEvent::Verified(Some(conn())), first, second]);
            assert_eq!(count_disconnects(&actions), 0);
        }
    }
}

#[test]
fn allocator_counts_up_from_one() {
    let ids = ConnIdAllocator::new();
    assert_eq!(ids.next(), 1);
    assert_eq!(ids.next(), 2);
    assert_eq!(ids.next(), 3);
    let other = ConnIdAllocator::new();
    assert_eq!(other.next(), 1);
    assert_eq!(ids.next(), 4);
}

#[test]
fn upgrade_admits_members_with_a_session() {
    let ids = ConnIdAllocator::new();
    assert_eq!(
        Context::upgrade(7, Some(3), true, &ids),
        Some(ConnectionContext { user_id: 3, group_id: 7, conn_id: 1 })
    );
    assert_eq!(
        Context::upgrade(8, Some(4), true, &ids),
        Some(ConnectionContext { user_id: 4, group_id: 8, conn_id: 2 })
    );
}

#[test]
fn upgrade_refuses_without_session_or_membership() {
    let ids = ConnIdAllocator::new();
    assert_eq!(Context::upgrade(7, None, true, &ids), None);
    assert_eq!(Context::upgrade(7, None, false, &ids), None);
    assert_eq!(Context::upgrade(7, Some(3), false, &ids), None);
    assert_eq!(ids.next(), 1);
}
