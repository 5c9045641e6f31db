//! The process-wide registry of live groups.
//!
//! A [`Context`] maps every group that has at least one open connection to
//! its [`Group`]. A key is present exactly while the group has a connection:
//! the first connection creates the entry, the last one to leave deletes it.
//! The model of a registry is a [`RegistryView`].

use std::collections::hash_map::Entry;
use std::collections::HashMap;
use vstd::prelude::*;
use vstd::std_specs::iter::IteratorSpec;

use crate::conn_id::ConnIdAllocator;
use crate::group::{
    kicked_connections, lemma_opened_wf, lemma_with_connection_owns, lemma_with_connection_wf,
    lemma_without_connection_owns, lemma_without_connection_wf, Group, GroupView, Kick,
};
use crate::queue::Sender;
use crate::types::{
    Channel, ConnID, ConnectionContext, GroupID, PresenceEvent, StorageError, UserID,
};

verus! {

broadcast use vstd::std_specs::hash::group_hash_axioms;

/// Mathematical model of a [`Context`]: the live groups by id.
pub type RegistryView = Map<GroupID, GroupView>;

/// Every live group is well-formed; in particular none is empty.
pub open spec fn registry_wf(r: RegistryView) -> bool {
    &&& r.dom().finite()
    &&& forall|group_id: GroupID| #[trigger] r.contains_key(group_id) ==> r[group_id].wf()
}

/// `ctx` is registered: its group is live and its user holds it there.
pub open spec fn is_registered(r: RegistryView, ctx: ConnectionContext) -> bool {
    r.contains_key(ctx.group_id) && r[ctx.group_id].owns(ctx.user_id, ctx.conn_id)
}

/// The connection id of `ctx` is open in its group.
pub open spec fn is_open(r: RegistryView, ctx: ConnectionContext) -> bool {
    r.contains_key(ctx.group_id) && r[ctx.group_id].connections.contains_key(ctx.conn_id)
}

/// The registry after `ctx` connected with queue handle `tx`. `channels` is
/// what storage returned for the group; it is used only when the group is
/// not live yet.
pub open spec fn connected(
    r: RegistryView,
    ctx: ConnectionContext,
    tx: Sender,
    channels: Seq<Channel>,
) -> RegistryView {
    if r.contains_key(ctx.group_id) {
        r.insert(ctx.group_id, r[ctx.group_id].with_connection(ctx, tx))
    } else {
        r.insert(ctx.group_id, GroupView::opened(ctx, channels, tx))
    }
}

/// The channel list inside the outcome of a fetch; empty when there is none.
pub open spec fn fetched_channels(fetched: Option<Result<Vec<Channel>, StorageError>>) -> Seq<
    Channel,
> {
    match fetched {
        Some(Ok(channels)) => channels@,
        _ => Seq::empty(),
    }
}

/// The presence change caused by `ctx` connecting. Opening a group announces
/// nothing: nobody else is there to hear it.
pub open spec fn connect_event(r: RegistryView, ctx: ConnectionContext) -> Option<PresenceEvent> {
    if r.contains_key(ctx.group_id) {
        r[ctx.group_id].online_event(ctx)
    } else {
        None
    }
}

/// The registry after `ctx` disconnected: its group loses the connection, and
/// is deleted when that was its last one.
pub open spec fn disconnected(r: RegistryView, ctx: ConnectionContext) -> RegistryView {
    if r[ctx.group_id].is_last_connection(ctx) {
        r.remove(ctx.group_id)
    } else {
        r.insert(ctx.group_id, r[ctx.group_id].without_connection(ctx))
    }
}

/// The presence change caused by `ctx` disconnecting.
pub open spec fn disconnect_event(r: RegistryView, ctx: ConnectionContext) -> Option<
    PresenceEvent,
> {
    r[ctx.group_id].offline_event(ctx)
}

/// Outcome of a forced disconnect inside one group.
#[derive(Debug)]
pub struct GroupKick {
    pub group_id: GroupID,
    /// One entry per connection the user held there, in list order.
    pub kicks: Vec<Kick>,
}

/// `entry` is for a live group in which `user` is online, and lists all of
/// the user's connections there.
pub open spec fn covers(entry: GroupKick, r: RegistryView, user: UserID) -> bool {
    &&& r.contains_key(entry.group_id)
    &&& r[entry.group_id].online_users.contains_key(user)
    &&& kicked_connections(entry.kicks@) == r[entry.group_id].online_users[user]
}

/// `report` has an entry for `group_id`.
pub open spec fn reported(report: Seq<GroupKick>, group_id: GroupID) -> bool {
    exists|i: int| 0 <= i < report.len() && report[i].group_id == group_id
}

/// `group_id` is among the first `n` groups of a walk over the registry.
spec fn visited(entries: Seq<(&GroupID, &Group)>, n: int, group_id: GroupID) -> bool {
    exists|p: int| 0 <= p < n && *entries[p].0 == group_id
}

/// `report` covers every live group in which `user` is online, each once, and
/// lists for each all of the user's connections there.
pub open spec fn kicked_everywhere(report: Seq<GroupKick>, r: RegistryView, user: UserID) -> bool {
    &&& forall|i: int| 0 <= i < report.len() ==> covers(#[trigger] report[i], r, user)
    &&& forall|group_id: GroupID|
        r.contains_key(group_id) && #[trigger] r[group_id].online_users.contains_key(user)
            ==> reported(report, group_id)
    &&& forall|i: int, j: int|
        0 <= i < j < report.len() ==> #[trigger] report[i].group_id != #[trigger] report[j].group_id
}

/// Registry of live groups.
pub struct Context {
    groups: HashMap<GroupID, Group>,
}

impl View for Context {
    type V = RegistryView;

    closed spec fn view(&self) -> RegistryView {
        self.groups@.map_values(|group: Group| group@)
    }
}

impl Context {
    /// Well-formedness of the registry; see [`registry_wf`].
    pub open spec fn wf(&self) -> bool {
        registry_wf(self@)
    }

    /// A registry with no live group.
    pub fn new() -> (context: Context)
        ensures
            context@ == RegistryView::empty(),
            context.wf(),
    {
        let context = Context { groups: HashMap::new() };
        assert(context@ =~= RegistryView::empty());
        context
    }

    /// Decides whether a request to open a connection into `group_id` is
    /// admitted, and under which identity.
    ///
    /// `session_user` is the user the request's session belongs to, if any;
    /// `is_member` tells whether that user is a member of the group and is
    /// not looked at without a user. An admitted connection gets its id drawn
    /// from `ids`; a refused request draws none.
    pub fn upgrade(
        group_id: GroupID,
        session_user: Option<UserID>,
        is_member: bool,
        ids: &ConnIdAllocator,
    ) -> (admitted: Option<ConnectionContext>)
        ensures
            admitted is Some <==> session_user is Some && is_member,
            admitted matches Some(conn) ==> conn.user_id == session_user->0 && conn.group_id
                == group_id,
    {
        match session_user {
            Some(user_id) => {
                if is_member {
                    Some(ConnectionContext { user_id, group_id, conn_id: ids.next() })
                } else {
                    None
                }
            },
            None => None,
        }
    }

    /// Whether `group_id` is live. A group that is not live needs its channel
    /// list fetched before its first connection can be registered.
    pub fn has_group(&self, group_id: GroupID) -> (live: bool)
        ensures
            live == self@.contains_key(group_id),
    {
        self.groups.contains_key(&group_id)
    }

    /// Number of live groups.
    pub fn group_count(&self) -> (count: usize)
        ensures
            count == self@.len(),
    {
        assert(self@.dom() =~= self.groups@.dom());
        self.groups.len()
    }

    /// Read access to the live group `group_id`.
    pub fn group(&self, group_id: GroupID) -> (found: Option<&Group>)
        ensures
            match found {
                Some(group) => self@.contains_key(group_id) && self@[group_id] == group@,
                None => !self@.contains_key(group_id),
            },
    {
        self.groups.get(&group_id)
    }

    /// Whether `conn_ctx` is registered: its group is live and its user
    /// holds the connection there.
    pub fn is_registered(&self, conn_ctx: &ConnectionContext) -> (registered: bool)
        ensures
            registered == is_registered(self@, *conn_ctx),
    {
        match self.groups.get(&conn_ctx.group_id) {
            Some(group) => group.owns(conn_ctx.user_id, conn_ctx.conn_id),
            None => false,
        }
    }

    /// Whether the connection id of `conn_ctx` is open in its group.
    pub fn is_open(&self, conn_ctx: &ConnectionContext) -> (open: bool)
        ensures
            open == is_open(self@, *conn_ctx),
    {
        match self.groups.get(&conn_ctx.group_id) {
            Some(group) => group.has_connection(conn_ctx.conn_id),
            None => false,
        }
    }

    /// Registers `conn_ctx` with queue handle `ch_tx`.
    ///
    /// Joins the group when it is live; `fetched` is then not looked at.
    /// Otherwise `fetched` holds the outcome of fetching the group's channel
    /// list: on success the group is opened around this connection, on
    /// failure the registry is left as it was and the error is handed back.
    pub fn insert_connection(
        &mut self,
        conn_ctx: &ConnectionContext,
        ch_tx: Sender,
        fetched: Option<Result<Vec<Channel>, StorageError>>,
    ) -> (result: Result<Option<PresenceEvent>, StorageError>)
        requires
            old(self).wf(),
            !is_open(old(self)@, *conn_ctx),
            !old(self)@.contains_key(conn_ctx.group_id) ==> fetched is Some,
        ensures
            final(self).wf(),
            (old(self)@.contains_key(conn_ctx.group_id) || fetched matches Some(Ok(_))) ==> {
                &&& result == Ok::<Option<PresenceEvent>, StorageError>(
                    connect_event(old(self)@, *conn_ctx),
                )
                &&& final(self)@ == connected(
                    old(self)@,
                    *conn_ctx,
                    ch_tx,
                    fetched_channels(fetched),
                )
            },
            !old(self)@.contains_key(conn_ctx.group_id) ==> (fetched matches Some(Err(error)) ==> {
                &&& result == Err::<Option<PresenceEvent>, StorageError>(error)
                &&& final(self)@ == old(self)@
            }),
    {
        match self.groups.entry(conn_ctx.group_id) {
            Entry::Occupied(mut entry) => {
                let event = entry.get_mut().insert_connection(conn_ctx, ch_tx);
                proof {
                    assert(final(self)@ =~= connected(
                        old(self)@,
                        *conn_ctx,
                        ch_tx,
                        fetched_channels(fetched),
                    ));
                }
                Ok(event)
            },
            Entry::Vacant(entry) => {
                match fetched {
                    Some(Ok(channels)) => {
                        entry.insert(Group::new(conn_ctx, channels, ch_tx));
                        proof {
                            assert(final(self)@ =~= connected(
                                old(self)@,
                                *conn_ctx,
                                ch_tx,
                                channels@,
                            ));
                        }
                        Ok(None)
                    },
                    Some(Err(error)) => {
                        proof {
                            assert(final(self)@ =~= old(self)@);
                        }
                        Err(error)
                    },
                    None => unreached(),
                }
            },
        }
    }

    /// Unregisters `conn_ctx`, and deletes its group when that was the
    /// group's last connection.
    ///
    /// Returns the presence change to announce.
    pub fn remove_connection(&mut self, conn_ctx: &ConnectionContext) -> (event: Option<PresenceEvent>)
        requires
            old(self).wf(),
            is_registered(old(self)@, *conn_ctx),
        ensures
            final(self).wf(),
            final(self)@ == disconnected(old(self)@, *conn_ctx),
            event == disconnect_event(old(self)@, *conn_ctx),
    {
        match self.groups.entry(conn_ctx.group_id) {
            Entry::Occupied(mut entry) => {
                let (emptied, event) = entry.get_mut().remove_connection(conn_ctx);
                if emptied {
                    entry.remove();
                }
                proof {
                    assert(final(self)@ =~= disconnected(old(self)@, *conn_ctx));
                }
                event
            },
            Entry::Vacant(_) => unreached(),
        }
    }

    /// Forces `user_id` out of every live group: enqueues a close directive
    /// on each connection the user holds anywhere.
    ///
    /// The registry is only read. Queues that are already dead are recorded
    /// as not delivered and otherwise ignored.
    pub fn kick(&self, user_id: UserID) -> (report: Vec<GroupKick>)
        requires
            self.wf(),
        ensures
            kicked_everywhere(report@, self@, user_id),
    {
        let mut report: Vec<GroupKick> = Vec::new();
        let ghost entries = self.groups.iter().remaining();
        for entry in it: self.groups.iter()
            invariant
                self.wf(),
                it.seq() == entries,
                entries == self.groups.iter().remaining(),
                entries.no_duplicates(),
                forall|i: int|
                    0 <= i < report@.len() ==> covers(#[trigger] report@[i], self@, user_id)
                        && visited(entries, it.index(), report@[i].group_id),
                forall|group_id: GroupID|
                    #[trigger] visited(entries, it.index(), group_id)
                        && self@[group_id].online_users.contains_key(user_id) ==> reported(
                        report@,
                        group_id,
                    ),
                forall|i: int, j: int|
                    0 <= i < j < report@.len() ==> #[trigger] report@[i].group_id
                        != #[trigger] report@[j].group_id,
        {
            let (group_id, group) = entry;
            let ghost p = it.index();
            let ghost before = report@;
            assert(entry == entries[p]);
            assert(self.groups@.contains_key(*entries[p].0));
            assert(self@.contains_key(*group_id));
            assert(self@[*group_id] == group@);
            let online = group.online_users.contains_key(&user_id);
            assert(online == self@[*group_id].online_users.contains_key(user_id));
            if online {
                let kicks = group.kick(user_id);
                report.push(GroupKick { group_id: *group_id, kicks });
                proof {
                    assert forall|i: int| 0 <= i < before.len() implies before[i].group_id
                        != *group_id by {
                        assert(visited(entries, p, before[i].group_id));
                        let q = choose|q: int| 0 <= q < p && *entries[q].0 == before[i].group_id;
                        assert(self.groups@.contains_key(*entries[q].0));
                        assert(self.groups@[*entries[q].0] == *entries[q].1);
                        assert(entries[q] != entries[p]);
                    }
                    assert(covers(report@[before.len() as int], self@, user_id));
                }
            }
            proof {
                assert forall|i: int| 0 <= i < report@.len() implies covers(
                    #[trigger] report@[i],
                    self@,
                    user_id,
                ) && visited(entries, p + 1, report@[i].group_id) by {
                    if i < before.len() {
                        assert(report@[i] == before[i]);
                        assert(visited(entries, p, before[i].group_id));
                        let q = choose|q: int| 0 <= q < p && *entries[q].0 == before[i].group_id;
                        assert(0 <= q < p + 1 && *entries[q].0 == report@[i].group_id);
                    } else {
                        assert(0 <= p < p + 1 && *entries[p].0 == report@[i].group_id);
                    }
                }
                assert forall|g: GroupID|
                    #[trigger] visited(entries, p + 1, g) && self@[g].online_users.contains_key(
                        user_id,
                    ) implies reported(report@, g) by {
                    let q = choose|q: int| 0 <= q < p + 1 && *entries[q].0 == g;
                    if q < p {
                        assert(visited(entries, p, g));
                        assert(reported(before, g));
                        let i = choose|i: int| 0 <= i < before.len() && before[i].group_id == g;
                        assert(report@[i].group_id == g);
                    } else {
                        assert(report@[before.len() as int].group_id == g);
                    }
                }
            }
        }
        proof {
            assert forall|group_id: GroupID|
                self@.contains_key(group_id) && #[trigger] self@[group_id].online_users.contains_key(
                    user_id,
                ) implies reported(report@, group_id) by {
                assert(self.groups@.contains_key(group_id));
                let pair = (&group_id, &self.groups@[group_id]);
                assert(entries.contains(pair));
                let q = choose|q: int| 0 <= q < entries.len() && entries[q] == pair;
                assert(*entries[q].0 == group_id);
                assert(visited(entries, entries.len() as int, group_id));
                assert(reported(report@, group_id));
            }
        }
        report
    }
}

/// No live group is empty.
pub proof fn lemma_live_groups_are_not_empty(r: RegistryView, group_id: GroupID)
    requires
        registry_wf(r),
        r.contains_key(group_id),
    ensures
        r[group_id].connections.len() > 0,
{
    let connections = r[group_id].connections;
    if connections.len() == 0 {
        assert(connections.dom().len() == 0);
        assert(connections.dom() =~= Set::empty());
    }
}

/// Connecting keeps the registry well-formed, makes the group live and
/// registers the connection.
pub proof fn lemma_connected(
    r: RegistryView,
    ctx: ConnectionContext,
    tx: Sender,
    channels: Seq<Channel>,
)
    requires
        registry_wf(r),
        !is_open(r, ctx),
    ensures
        registry_wf(connected(r, ctx, tx, channels)),
        connected(r, ctx, tx, channels).contains_key(ctx.group_id),
        is_registered(connected(r, ctx, tx, channels), ctx),
{
    if r.contains_key(ctx.group_id) {
        lemma_with_connection_wf(r[ctx.group_id], ctx, tx);
        lemma_with_connection_owns(r[ctx.group_id], ctx, tx);
    } else {
        lemma_opened_wf(ctx, channels, tx);
        assert(GroupView::opened(ctx, channels, tx).online_users[ctx.user_id][0] == ctx.conn_id);
    }
}

/// Disconnecting keeps the registry well-formed and unregisters the
/// connection: it cannot be disconnected a second time.
pub proof fn lemma_disconnected(r: RegistryView, ctx: ConnectionContext)
    requires
        registry_wf(r),
        is_registered(r, ctx),
    ensures
        registry_wf(disconnected(r, ctx)),
        !is_registered(disconnected(r, ctx), ctx),
        !is_open(disconnected(r, ctx), ctx),
{
    let g = r[ctx.group_id];
    if !g.is_last_connection(ctx) {
        lemma_without_connection_wf(g, ctx);
        lemma_without_connection_owns(g, ctx);
    }
}

/// On a live group the registry does what the group does: connecting joins
/// it, disconnecting any but its last connection leaves it, and each
/// announces what the group announces.
pub proof fn lemma_registry_acts_on_live_group(
    r: RegistryView,
    ctx: ConnectionContext,
    tx: Sender,
    channels: Seq<Channel>,
)
    requires
        r.contains_key(ctx.group_id),
    ensures
        connected(r, ctx, tx, channels)[ctx.group_id] == r[ctx.group_id].with_connection(ctx, tx),
        connect_event(r, ctx) == r[ctx.group_id].online_event(ctx),
        !r[ctx.group_id].is_last_connection(ctx) ==> disconnected(r, ctx)[ctx.group_id]
            == r[ctx.group_id].without_connection(ctx),
        disconnect_event(r, ctx) == r[ctx.group_id].offline_event(ctx),
{
}

/// Disconnecting the last connection of a group deletes the group;
/// disconnecting any other connection keeps it.
pub proof fn lemma_last_disconnect_deletes_group(r: RegistryView, ctx: ConnectionContext)
    requires
        registry_wf(r),
        is_registered(r, ctx),
    ensures
        disconnected(r, ctx).contains_key(ctx.group_id) <==> exists|other: ConnID|
            other != ctx.conn_id && #[trigger] r[ctx.group_id].connections.contains_key(other),
        forall|group_id: GroupID|
            group_id != ctx.group_id ==> (disconnected(r, ctx).contains_key(group_id)
                <==> r.contains_key(group_id)) && disconnected(r, ctx)[group_id] == r[group_id],
{
    let g = r[ctx.group_id];
    let left = g.connections.remove(ctx.conn_id);
    if g.is_last_connection(ctx) {
        assert(left.dom() =~= Set::empty());
        assert forall|other: ConnID| other != ctx.conn_id implies !g.connections.contains_key(
            other,
        ) by {
            if g.connections.contains_key(other) {
                assert(left.contains_key(other));
            }
        }
    } else {
        assert(!(left.dom() =~= Set::empty()));
        let other = choose|other: ConnID| left.dom().contains(other);
        assert(other != ctx.conn_id && g.connections.contains_key(other));
    }
}

} // verus!
