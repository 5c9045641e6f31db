//! How many presence changes a user's connections announce.
//!
//! A user comes online in a group with the first connection and goes offline
//! with the last one. However many connections the user opens and closes in
//! between, and in whatever order, each change is announced once. The laws
//! of this module state that over the model of a group.

use vstd::prelude::*;

use crate::group::{
    lemma_with_connection_owns, lemma_with_connection_wf, lemma_without_connection_owns,
    lemma_without_connection_wf, GroupView,
};
use crate::queue::Sender;
use crate::types::{ConnID, ConnectionContext, GroupID, PresenceEvent, UserID};

verus! {

/// One move of a user inside a group.
pub enum PresenceStep {
    /// The user joins with a new connection and its queue handle.
    Join(ConnID, Sender),
    /// The user leaves with a connection held so far.
    Leave(ConnID),
}

/// The user whose moves are followed, and the group they happen in.
pub struct Actor {
    pub user_id: UserID,
    pub group_id: GroupID,
}

impl Actor {
    /// The actor's connection with id `conn_id`.
    pub open spec fn conn(self, conn_id: ConnID) -> ConnectionContext {
        ConnectionContext { user_id: self.user_id, group_id: self.group_id, conn_id }
    }

    /// The actor holds a connection in `g`.
    pub open spec fn online(self, g: GroupView) -> bool {
        g.online_users.contains_key(self.user_id)
    }

    /// `step` can be taken in `g`: a join needs a connection id that is not
    /// open, a leave one that the actor holds.
    pub open spec fn can_take(self, g: GroupView, step: PresenceStep) -> bool {
        match step {
            PresenceStep::Join(conn_id, _) => !g.connections.contains_key(conn_id),
            PresenceStep::Leave(conn_id) => g.owns(self.user_id, conn_id),
        }
    }

    /// The group after `step`.
    pub open spec fn take(self, g: GroupView, step: PresenceStep) -> GroupView {
        match step {
            PresenceStep::Join(conn_id, tx) => g.with_connection(self.conn(conn_id), tx),
            PresenceStep::Leave(conn_id) => g.without_connection(self.conn(conn_id)),
        }
    }

    /// What `step` announces.
    pub open spec fn announces(self, g: GroupView, step: PresenceStep) -> Option<PresenceEvent> {
        match step {
            PresenceStep::Join(conn_id, _) => g.online_event(self.conn(conn_id)),
            PresenceStep::Leave(conn_id) => g.offline_event(self.conn(conn_id)),
        }
    }

    /// Every step of `steps` can be taken in turn, starting in `g`.
    pub open spec fn can_take_all(self, g: GroupView, steps: Seq<PresenceStep>) -> bool
        decreases steps.len(),
    {
        steps.len() > 0 ==> self.can_take(g, steps[0]) && self.can_take_all(
            self.take(g, steps[0]),
            steps.drop_first(),
        )
    }

    /// The group after all of `steps`.
    pub open spec fn take_all(self, g: GroupView, steps: Seq<PresenceStep>) -> GroupView
        decreases steps.len(),
    {
        if steps.len() == 0 {
            g
        } else {
            self.take_all(self.take(g, steps[0]), steps.drop_first())
        }
    }

    /// The actor is online after every step of `steps` but the last.
    pub open spec fn online_until_last(self, g: GroupView, steps: Seq<PresenceStep>) -> bool
        decreases steps.len(),
    {
        steps.len() > 1 ==> self.online(self.take(g, steps[0])) && self.online_until_last(
            self.take(g, steps[0]),
            steps.drop_first(),
        )
    }

    /// Number of `Online` announcements along `steps`.
    pub open spec fn online_events(self, g: GroupView, steps: Seq<PresenceStep>) -> nat
        decreases steps.len(),
    {
        if steps.len() == 0 {
            0
        } else {
            let here: nat = if self.announces(g, steps[0]) == Some(
                PresenceEvent::Online(self.user_id),
            ) {
                1
            } else {
                0
            };
            here + self.online_events(self.take(g, steps[0]), steps.drop_first())
        }
    }

    /// Number of `Offline` announcements along `steps`.
    pub open spec fn offline_events(self, g: GroupView, steps: Seq<PresenceStep>) -> nat
        decreases steps.len(),
    {
        if steps.len() == 0 {
            0
        } else {
            let here: nat = if self.announces(g, steps[0]) == Some(
                PresenceEvent::Offline(self.user_id),
            ) {
                1
            } else {
                0
            };
            here + self.offline_events(self.take(g, steps[0]), steps.drop_first())
        }
    }

    /// Somebody else holds a connection in `g`.
    pub open spec fn has_company(self, g: GroupView) -> bool {
        exists|conn_id: ConnID|
            g.connections.contains_key(conn_id) && !#[trigger] g.owns(self.user_id, conn_id)
    }
}

/// A step the actor can take in a well-formed group with company leads to a
/// well-formed group with company.
pub proof fn lemma_step_keeps_company(actor: Actor, g: GroupView, step: PresenceStep)
    requires
        g.wf(),
        actor.has_company(g),
        actor.can_take(g, step),
    ensures
        actor.take(g, step).wf(),
        actor.has_company(actor.take(g, step)),
        step matches PresenceStep::Leave(conn_id) ==> !g.is_last_connection(actor.conn(conn_id)),
{
    let other = choose|conn_id: ConnID|
        g.connections.contains_key(conn_id) && !#[trigger] g.owns(actor.user_id, conn_id);
    let h = actor.take(g, step);
    match step {
        PresenceStep::Join(conn_id, tx) => {
            lemma_with_connection_wf(g, actor.conn(conn_id), tx);
            lemma_with_connection_owns(g, actor.conn(conn_id), tx);
            assert(h.connections.contains_key(other));
            assert(!h.owns(actor.user_id, other));
        },
        PresenceStep::Leave(conn_id) => {
            assert(g.connections.remove(conn_id).contains_key(other));
            assert(!g.is_last_connection(actor.conn(conn_id)));
            lemma_without_connection_wf(g, actor.conn(conn_id));
            assert(h.connections.contains_key(other));
            lemma_without_connection_owns(g, actor.conn(conn_id));
            assert(!h.owns(actor.user_id, other));
        },
    }
}

/// While the actor is online, the actor's moves announce nothing until the
/// last connection is left, and that one is announced once.
proof fn lemma_online_run(actor: Actor, g: GroupView, steps: Seq<PresenceStep>)
    requires
        g.wf(),
        actor.has_company(g),
        actor.online(g),
        actor.can_take_all(g, steps),
        actor.online_until_last(g, steps),
        !actor.online(actor.take_all(g, steps)),
    ensures
        actor.online_events(g, steps) == 0,
        actor.offline_events(g, steps) == 1,
    decreases steps.len(),
{
    if steps.len() == 0 {
        assert(actor.take_all(g, steps) == g);
    } else {
        let step = steps[0];
        let h = actor.take(g, step);
        let rest = steps.drop_first();
        lemma_step_keeps_company(actor, g, step);
        if rest.len() == 0 {
            assert(actor.take_all(h, rest) == h);
            match step {
                PresenceStep::Join(conn_id, tx) => {
                    assert(h.online_users.contains_key(actor.user_id));
                },
                PresenceStep::Leave(conn_id) => {
                    assert(g.connections_of(actor.user_id).len() == 1);
                },
            }
            assert(actor.online_events(h, rest) == 0);
            assert(actor.offline_events(h, rest) == 0);
        } else {
            assert(actor.online(h));
            match step {
                PresenceStep::Join(conn_id, tx) => {},
                PresenceStep::Leave(conn_id) => {
                    assert(g.connections_of(actor.user_id).len() != 1);
                },
            }
            lemma_online_run(actor, h, rest);
        }
    }
}

/// Between coming online and going offline, a user is announced online
/// exactly once and offline exactly once, whatever the number and the order
/// of the connections opened and closed in between.
///
/// The group must hold somebody else's connection: a user who is alone
/// opens and closes the group itself, which announces nothing.
pub proof fn lemma_one_online_one_offline(actor: Actor, g: GroupView, steps: Seq<PresenceStep>)
    requires
        g.wf(),
        !actor.online(g),
        steps.len() > 0,
        actor.can_take_all(g, steps),
        actor.online_until_last(g, steps),
        !actor.online(actor.take_all(g, steps)),
    ensures
        actor.online_events(g, steps) == 1,
        actor.offline_events(g, steps) == 1,
{
    let step = steps[0];
    let h = actor.take(g, step);
    let rest = steps.drop_first();
    // The group is not empty and the actor holds nothing: there is company.
    assert(actor.has_company(g)) by {
        if forall|conn_id: ConnID| !g.connections.contains_key(conn_id) {
            assert(g.connections.dom() =~= Set::empty());
        }
        let conn_id = choose|conn_id: ConnID| g.connections.contains_key(conn_id);
        assert(!g.owns(actor.user_id, conn_id));
    }
    lemma_step_keeps_company(actor, g, step);
    match step {
        PresenceStep::Join(conn_id, tx) => {
            assert(h.online_users.contains_key(actor.user_id));
            if rest.len() == 0 {
                assert(actor.take_all(h, rest) == h);
            }
            lemma_online_run(actor, h, rest);
        },
        PresenceStep::Leave(conn_id) => {
            // Cannot be: an offline user holds nothing to leave with.
            assert(!actor.can_take(g, step));
        },
    }
}

/// The steps of joining with each connection of `joins` in turn.
pub open spec fn join_steps(joins: Seq<(ConnID, Sender)>) -> Seq<PresenceStep> {
    joins.map_values(|join: (ConnID, Sender)| PresenceStep::Join(join.0, join.1))
}

/// The steps of leaving with each connection of `leaves` in turn.
pub open spec fn leave_steps(leaves: Seq<ConnID>) -> Seq<PresenceStep> {
    leaves.map_values(|conn_id: ConnID| PresenceStep::Leave(conn_id))
}

/// `joins` opens the connection `conn_id`.
pub open spec fn joins_with(joins: Seq<(ConnID, Sender)>, conn_id: ConnID) -> bool {
    exists|i: int| 0 <= i < joins.len() && (#[trigger] joins[i]).0 == conn_id
}

/// The connection ids of `joins` differ from each other and none is open in
/// `g`.
pub open spec fn new_connections(g: GroupView, joins: Seq<(ConnID, Sender)>) -> bool {
    &&& forall|i: int| 0 <= i < joins.len() ==> !g.connections.contains_key((#[trigger] joins[i]).0)
    &&& forall|i: int, j: int|
        0 <= i < j < joins.len() ==> (#[trigger] joins[i]).0 != (#[trigger] joins[j]).0
}

/// Leaving with all the connections a user holds, each once and in any
/// order, keeps the user online up to the last leave and offline after it.
proof fn lemma_leave_all(actor: Actor, g: GroupView, leaves: Seq<ConnID>)
    requires
        g.wf(),
        actor.has_company(g),
        leaves.no_duplicates(),
        forall|conn_id: ConnID| #[trigger] g.owns(actor.user_id, conn_id) <==> leaves.contains(conn_id),
    ensures
        actor.can_take_all(g, leave_steps(leaves)),
        actor.online_until_last(g, leave_steps(leaves)),
        leaves.len() > 0 ==> !actor.online(actor.take_all(g, leave_steps(leaves))),
    decreases leaves.len(),
{
    let steps = leave_steps(leaves);
    if leaves.len() > 0 {
        let conn_id = leaves[0];
        let rest = leaves.drop_first();
        let h = actor.take(g, steps[0]);
        assert(steps.drop_first() =~= leave_steps(rest));
        assert(leaves.contains(conn_id));
        lemma_step_keeps_company(actor, g, steps[0]);
        lemma_without_connection_owns(g, actor.conn(conn_id));
        assert forall|other: ConnID| #[trigger] h.owns(actor.user_id, other) <==> rest.contains(
            other,
        ) by {
            if rest.contains(other) {
                let i = choose|i: int| 0 <= i < rest.len() && rest[i] == other;
                assert(leaves[i + 1] == other);
            }
            if g.owns(actor.user_id, other) && other != conn_id {
                let i = choose|i: int| 0 <= i < leaves.len() && leaves[i] == other;
                assert(rest[i - 1] == other);
            }
        }
        lemma_leave_all(actor, h, rest);
        if rest.len() == 0 {
            assert(actor.take_all(h, leave_steps(rest)) == h);
            if actor.online(h) {
                assert(h.owns(actor.user_id, h.online_users[actor.user_id][0]));
            }
        } else {
            assert(rest.contains(rest[0]));
            assert(h.owns(actor.user_id, rest[0]));
        }
    }
}

/// Joining with new connections and then leaving with everything held, in
/// any order, can be done step by step, keeps the user online in between and
/// leaves the user offline.
proof fn lemma_join_then_leave_all(
    actor: Actor,
    g: GroupView,
    joins: Seq<(ConnID, Sender)>,
    leaves: Seq<ConnID>,
)
    requires
        g.wf(),
        actor.has_company(g),
        new_connections(g, joins),
        leaves.no_duplicates(),
        leaves.len() > 0,
        forall|conn_id: ConnID|
            leaves.contains(conn_id) <==> (#[trigger] g.owns(actor.user_id, conn_id) || joins_with(
                joins,
                conn_id,
            )),
    ensures
        actor.can_take_all(g, join_steps(joins) + leave_steps(leaves)),
        actor.online_until_last(g, join_steps(joins) + leave_steps(leaves)),
        !actor.online(actor.take_all(g, join_steps(joins) + leave_steps(leaves))),
    decreases joins.len(),
{
    let steps = join_steps(joins) + leave_steps(leaves);
    if joins.len() == 0 {
        assert(steps =~= leave_steps(leaves));
        assert forall|conn_id: ConnID| #[trigger]
            g.owns(actor.user_id, conn_id) <==> leaves.contains(conn_id) by {}
        lemma_leave_all(actor, g, leaves);
    } else {
        let (conn_id, tx) = joins[0];
        let rest = joins.drop_first();
        let h = actor.take(g, steps[0]);
        assert(steps[0] == PresenceStep::Join(conn_id, tx));
        assert(steps.drop_first() =~= join_steps(rest) + leave_steps(leaves));
        lemma_step_keeps_company(actor, g, steps[0]);
        lemma_with_connection_owns(g, actor.conn(conn_id), tx);
        assert(new_connections(h, rest)) by {
            assert forall|i: int| 0 <= i < rest.len() implies !h.connections.contains_key(
                (#[trigger] rest[i]).0,
            ) by {
                assert(rest[i] == joins[i + 1]);
                assert(joins[0].0 != joins[i + 1].0);
            }
            assert forall|i: int, j: int| 0 <= i < j < rest.len() implies (#[trigger] rest[i]).0 != (
            #[trigger] rest[j]).0 by {
                assert(rest[i] == joins[i + 1]);
                assert(rest[j] == joins[j + 1]);
            }
        }
        assert forall|other: ConnID|
            leaves.contains(other) <==> (#[trigger] h.owns(actor.user_id, other) || joins_with(
                rest,
                other,
            )) by {
            assert(leaves.contains(other) <==> g.owns(actor.user_id, other) || joins_with(
                joins,
                other,
            ));
            if joins_with(rest, other) {
                let i = choose|i: int| 0 <= i < rest.len() && (#[trigger] rest[i]).0 == other;
                assert(joins[i + 1].0 == other);
            }
            if joins_with(joins, other) && other != conn_id {
                let i = choose|i: int| 0 <= i < joins.len() && (#[trigger] joins[i]).0 == other;
                assert(rest[i - 1].0 == other);
            }
            if other == conn_id {
                assert(joins[0].0 == other);
            }
        }
        assert(forall|other: ConnID|
            leaves.contains(other) <==> (#[trigger] h.owns(actor.user_id, other) || joins_with(
                rest,
                other,
            )));
        lemma_join_then_leave_all(actor, h, rest, leaves);
        assert(h.owns(actor.user_id, conn_id));
    }
}

/// A user who connects N times and then disconnects N times, N at least 1,
/// is announced online exactly once and offline exactly once, whatever N is
/// and in whatever order the N connections are closed.
///
/// The group must hold somebody else's connection: a user who is alone
/// opens and closes the group itself, which announces nothing.
pub proof fn lemma_connect_n_disconnect_n(
    actor: Actor,
    g: GroupView,
    joins: Seq<(ConnID, Sender)>,
    leaves: Seq<ConnID>,
)
    requires
        g.wf(),
        !actor.online(g),
        joins.len() > 0,
        new_connections(g, joins),
        leaves.no_duplicates(),
        forall|conn_id: ConnID| leaves.contains(conn_id) <==> joins_with(joins, conn_id),
    ensures
        actor.can_take_all(g, join_steps(joins) + leave_steps(leaves)),
        actor.online_events(g, join_steps(joins) + leave_steps(leaves)) == 1,
        actor.offline_events(g, join_steps(joins) + leave_steps(leaves)) == 1,
        !actor.online(actor.take_all(g, join_steps(joins) + leave_steps(leaves))),
{
    let steps = join_steps(joins) + leave_steps(leaves);
    assert(actor.has_company(g)) by {
        if forall|conn_id: ConnID| !g.connections.contains_key(conn_id) {
            assert(g.connections.dom() =~= Set::empty());
        }
        let conn_id = choose|conn_id: ConnID| g.connections.contains_key(conn_id);
        assert(!g.owns(actor.user_id, conn_id));
    }
    assert(joins_with(joins, joins[0].0));
    assert(leaves.contains(joins[0].0));
    lemma_join_then_leave_all(actor, g, joins, leaves);
    lemma_one_online_one_offline(actor, g, steps);
}

} // verus!
