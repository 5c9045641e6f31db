//! Live session state of one chat group.
//!
//! A [`Group`] caches the group's channel list, keeps the outbound queue
//! handle of every open connection, and lists for every online user the
//! connections that user holds. Its mathematical model is [`GroupView`]; the
//! contracts of the executable methods are stated over that model.

use std::collections::hash_map::Entry;
use std::collections::HashMap;
use vstd::prelude::*;

use crate::queue::{send_kick, Sender};
use crate::types::{Channel, ConnID, ConnectionContext, PresenceEvent, UserID};

verus! {

broadcast use vstd::std_specs::hash::group_hash_axioms;

/// Per-group registry entry.
pub struct Group {
    /// Channel list as storage reported it when the group was activated.
    pub channels: Vec<Channel>,
    /// Outbound queue handle of every open connection.
    pub connections: HashMap<ConnID, Sender>,
    /// For every online user, that user's connections in this group.
    pub online_users: HashMap<UserID, Vec<ConnID>>,
}

/// Mathematical model of a [`Group`].
#[verifier::ext_equal]
pub struct GroupView {
    pub channels: Seq<Channel>,
    pub connections: Map<ConnID, Sender>,
    pub online_users: Map<UserID, Seq<ConnID>>,
}

/// `ids` after the entry at `index` was overwritten by the last entry and the
/// last slot was dropped.
pub open spec fn swap_removed(ids: Seq<ConnID>, index: int) -> Seq<ConnID> {
    ids.update(index, ids.last()).drop_last()
}

impl GroupView {
    /// The connections `user` holds; empty when the user is offline.
    pub open spec fn connections_of(self, user: UserID) -> Seq<ConnID> {
        if self.online_users.contains_key(user) {
            self.online_users[user]
        } else {
            Seq::empty()
        }
    }

    /// `user` is online and holds `conn`.
    pub open spec fn owns(self, user: UserID, conn: ConnID) -> bool {
        self.online_users.contains_key(user) && self.online_users[user].contains(conn)
    }

    /// Every user entry is non-empty, free of duplicates and made of open
    /// connections.
    pub open spec fn users_are_connected(self) -> bool {
        forall|user: UserID| #[trigger]
            self.online_users.contains_key(user) ==> {
                &&& self.online_users[user].len() > 0
                &&& self.online_users[user].no_duplicates()
                &&& forall|i: int|
                    0 <= i < self.online_users[user].len() ==> self.connections.contains_key(
                        #[trigger] self.online_users[user][i],
                    )
            }
    }

    /// Every open connection is held by some online user.
    pub open spec fn connections_are_owned(self) -> bool {
        forall|conn: ConnID| #[trigger]
            self.connections.contains_key(conn) ==> exists|user: UserID| self.owns(user, conn)
    }

    /// No connection is held by two users.
    pub open spec fn owners_are_unique(self) -> bool {
        forall|a: UserID, b: UserID, conn: ConnID|
            self.owns(a, conn) && self.owns(b, conn) ==> a == b
    }

    /// Well-formedness: the group has at least one open connection, and the
    /// user lists partition the open connections.
    pub open spec fn wf(self) -> bool {
        &&& self.connections.dom().finite()
        &&& self.online_users.dom().finite()
        &&& !self.connections.is_empty()
        &&& self.users_are_connected()
        &&& self.connections_are_owned()
        &&& self.owners_are_unique()
    }

    /// The group as it is right after its first connection.
    pub open spec fn opened(ctx: ConnectionContext, channels: Seq<Channel>, tx: Sender) -> GroupView {
        GroupView {
            channels,
            connections: Map::empty().insert(ctx.conn_id, tx),
            online_users: Map::empty().insert(ctx.user_id, seq![ctx.conn_id]),
        }
    }

    /// The group after `ctx` joined with queue handle `tx`.
    pub open spec fn with_connection(self, ctx: ConnectionContext, tx: Sender) -> GroupView {
        GroupView {
            channels: self.channels,
            connections: self.connections.insert(ctx.conn_id, tx),
            online_users: self.online_users.insert(
                ctx.user_id,
                self.connections_of(ctx.user_id).push(ctx.conn_id),
            ),
        }
    }

    /// The presence change caused by `ctx` joining: the user comes online
    /// exactly when the user held no connection before.
    pub open spec fn online_event(self, ctx: ConnectionContext) -> Option<PresenceEvent> {
        if self.online_users.contains_key(ctx.user_id) {
            None
        } else {
            Some(PresenceEvent::Online(ctx.user_id))
        }
    }

    /// `ctx` is the only open connection left.
    pub open spec fn is_last_connection(self, ctx: ConnectionContext) -> bool {
        self.connections.remove(ctx.conn_id).is_empty()
    }

    /// The group after `ctx` left. When `ctx` was the last connection the
    /// user lists are left as they were: the group is about to be discarded.
    pub open spec fn without_connection(self, ctx: ConnectionContext) -> GroupView {
        let ids = self.connections_of(ctx.user_id);
        GroupView {
            channels: self.channels,
            connections: self.connections.remove(ctx.conn_id),
            online_users: if self.is_last_connection(ctx) {
                self.online_users
            } else if ids.len() == 1 {
                self.online_users.remove(ctx.user_id)
            } else {
                self.online_users.insert(
                    ctx.user_id,
                    swap_removed(ids, ids.index_of(ctx.conn_id)),
                )
            },
        }
    }

    /// The presence change caused by `ctx` leaving: the user goes offline
    /// exactly when the group lives on and `ctx` was the user's only
    /// connection.
    pub open spec fn offline_event(self, ctx: ConnectionContext) -> Option<PresenceEvent> {
        if !self.is_last_connection(ctx) && self.connections_of(ctx.user_id).len() == 1 {
            Some(PresenceEvent::Offline(ctx.user_id))
        } else {
            None
        }
    }
}

impl View for Group {
    type V = GroupView;

    open spec fn view(&self) -> GroupView {
        GroupView {
            channels: self.channels@,
            connections: self.connections@,
            online_users: self.online_users@.map_values(|ids: Vec<ConnID>| ids@),
        }
    }
}

/// Index of `id` in `ids`, if it occurs.
fn position(ids: &Vec<ConnID>, id: ConnID) -> (found: Option<usize>)
    ensures
        match found {
            Some(i) => i < ids@.len() && ids@[i as int] == id && !ids@.take(i as int).contains(id),
            None => !ids@.contains(id),
        },
{
    let mut i: usize = 0;
    while i < ids.len()
        invariant
            i <= ids@.len(),
            !ids@.take(i as int).contains(id),
        decreases ids@.len() - i,
    {
        if ids[i] == id {
            return Some(i);
        }
        assert(ids@.take(i + 1) =~= ids@.take(i as int).push(ids@[i as int]));
        i += 1;
    }
    assert(ids@.take(i as int) =~= ids@);
    None
}

impl Group {
    /// Opens a group around its first connection, with the channel list that
    /// storage returned for it.
    pub fn new(conn_ctx: &ConnectionContext, channels: Vec<Channel>, ch_tx: Sender) -> (group: Group)
        ensures
            group@ == GroupView::opened(*conn_ctx, channels@, ch_tx),
            group@.wf(),
    {
        let mut connections: HashMap<ConnID, Sender> = HashMap::new();
        connections.insert(conn_ctx.conn_id, ch_tx);
        let mut online_users: HashMap<UserID, Vec<ConnID>> = HashMap::new();
        let mut conn_ids: Vec<ConnID> = Vec::new();
        conn_ids.push(conn_ctx.conn_id);
        assert(conn_ids@ =~= seq![conn_ctx.conn_id]);
        online_users.insert(conn_ctx.user_id, conn_ids);
        let group = Group { channels, connections, online_users };
        proof {
            let model = GroupView::opened(*conn_ctx, channels@, ch_tx);
            assert(group.online_users@.contains_key(conn_ctx.user_id));
            assert(group@.online_users =~= model.online_users);
            assert(group@ =~= model);
            lemma_opened_wf(*conn_ctx, channels@, ch_tx);
        }
        group
    }
}

impl Group {
    /// Whether `conn_id` is open in this group.
    pub fn has_connection(&self, conn_id: ConnID) -> (open: bool)
        ensures
            open == self@.connections.contains_key(conn_id),
    {
        self.connections.contains_key(&conn_id)
    }

    /// Number of open connections.
    pub fn connection_count(&self) -> (count: usize)
        ensures
            count == self@.connections.len(),
    {
        self.connections.len()
    }

    /// Whether `user_id` holds at least one connection in this group.
    pub fn is_online(&self, user_id: UserID) -> (online: bool)
        ensures
            online == self@.online_users.contains_key(user_id),
    {
        self.online_users.contains_key(&user_id)
    }

    /// The connections `user_id` holds in this group; empty when offline.
    pub fn connections_of(&self, user_id: UserID) -> (conn_ids: Vec<ConnID>)
        ensures
            conn_ids@ == self@.connections_of(user_id),
    {
        match self.online_users.get(&user_id) {
            Some(conn_ids) => conn_ids.clone(),
            None => Vec::new(),
        }
    }

    /// Whether `user_id` holds the connection `conn_id` in this group.
    pub fn owns(&self, user_id: UserID, conn_id: ConnID) -> (held: bool)
        ensures
            held == self@.owns(user_id, conn_id),
    {
        match self.online_users.get(&user_id) {
            Some(conn_ids) => position(conn_ids, conn_id).is_some(),
            None => false,
        }
    }
}

impl Group {
    /// Registers `conn_ctx` with queue handle `ch_tx`.
    ///
    /// Returns the presence change to announce: `Online` exactly when this is
    /// the user's first connection in the group.
    pub fn insert_connection(&mut self, conn_ctx: &ConnectionContext, ch_tx: Sender) -> (event: Option<PresenceEvent>)
        requires
            old(self)@.wf(),
            !old(self)@.connections.contains_key(conn_ctx.conn_id),
        ensures
            final(self)@ == old(self)@.with_connection(*conn_ctx, ch_tx),
            final(self)@.wf(),
            event == old(self)@.online_event(*conn_ctx),
    {
        let conn_ids = self.online_users.entry(conn_ctx.user_id).or_insert(Vec::new());
        conn_ids.push(conn_ctx.conn_id);
        let first = conn_ids.len() == 1;
        self.connections.insert(conn_ctx.conn_id, ch_tx);
        proof {
            let before = old(self)@;
            let model = before.with_connection(*conn_ctx, ch_tx);
            assert(final(self)@.online_users =~= model.online_users);
            assert(final(self)@ =~= model);
            lemma_with_connection_wf(before, *conn_ctx, ch_tx);
        }
        if first {
            Some(PresenceEvent::Online(conn_ctx.user_id))
        } else {
            None
        }
    }

    /// Unregisters `conn_ctx`.
    ///
    /// The first component is `true` exactly when no connection is left, in
    /// which case the caller discards the group. The second is the presence
    /// change to announce: `Offline` exactly when the group lives on and this
    /// was the user's only connection.
    pub fn remove_connection(&mut self, conn_ctx: &ConnectionContext) -> (result: (bool, Option<PresenceEvent>))
        requires
            old(self)@.wf(),
            old(self)@.owns(conn_ctx.user_id, conn_ctx.conn_id),
        ensures
            final(self)@ == old(self)@.without_connection(*conn_ctx),
            result.0 == old(self)@.is_last_connection(*conn_ctx),
            result.1 == old(self)@.offline_event(*conn_ctx),
            !result.0 ==> final(self)@.wf(),
    {
        self.connections.remove(&conn_ctx.conn_id);
        if self.connections.is_empty() {
            proof {
                assert(final(self)@.online_users =~= old(self)@.online_users);
                assert(final(self)@ =~= old(self)@.without_connection(*conn_ctx));
            }
            (true, None)
        } else {
            let result = match self.online_users.entry(conn_ctx.user_id) {
                Entry::Occupied(mut entry) => {
                    let conn_ids = entry.get_mut();
                    if conn_ids.len() == 1 {
                        entry.remove();
                        (false, Some(PresenceEvent::Offline(conn_ctx.user_id)))
                    } else {
                        match position(conn_ids, conn_ctx.conn_id) {
                            Some(index) => {
                                proof {
                                    lemma_index_of_unique(conn_ids@, conn_ctx.conn_id, index as int);
                                }
                                conn_ids.swap_remove(index);
                            },
                            None => unreached(),
                        }
                        (false, None)
                    }
                },
                Entry::Vacant(_) => unreached(),
            };
            proof {
                let before = old(self)@;
                let model = before.without_connection(*conn_ctx);
                assert(final(self)@.online_users =~= model.online_users);
                assert(final(self)@ =~= model);
                lemma_without_connection_wf(before, *conn_ctx);
            }
            result
        }
    }
}

/// Outcome of one forced disconnect: the connection the directive was sent
/// to, and whether its queue accepted it.
#[derive(Clone, Copy, Debug, PartialEq, Eq, Structural)]
pub struct Kick {
    pub conn_id: ConnID,
    pub delivered: bool,
}

/// The connection ids of `kicks`, in order.
pub open spec fn kicked_connections(kicks: Seq<Kick>) -> Seq<ConnID> {
    kicks.map_values(|kick: Kick| kick.conn_id)
}

impl Group {
    /// Enqueues a forced-disconnect directive on every connection that
    /// `user_id` holds in this group, in list order.
    ///
    /// A queue that is already dead refuses the directive; that is recorded
    /// in the outcome and changes nothing else.
    pub fn kick(&self, user_id: UserID) -> (kicks: Vec<Kick>)
        requires
            self@.wf(),
        ensures
            kicked_connections(kicks@) == self@.connections_of(user_id),
    {
        let mut kicks: Vec<Kick> = Vec::new();
        match self.online_users.get(&user_id) {
            Some(conn_ids) => {
                let mut i: usize = 0;
                while i < conn_ids.len()
                    invariant
                        self@.wf(),
                        self.online_users@.contains_key(user_id),
                        self.online_users@[user_id] == *conn_ids,
                        i <= conn_ids@.len(),
                        kicks@.len() == i,
                        kicked_connections(kicks@) == conn_ids@.take(i as int),
                    decreases conn_ids@.len() - i,
                {
                    let conn_id = conn_ids[i];
                    let ghost sent = kicks@;
                    assert(self@.online_users.contains_key(user_id));
                    assert(self@.connections.contains_key(self@.online_users[user_id][i as int]));
                    match self.connections.get(&conn_id) {
                        Some(tx) => {
                            let delivered = send_kick(tx);
                            kicks.push(Kick { conn_id, delivered });
                        },
                        None => unreached(),
                    }
                    assert forall|j: int| 0 <= j < i + 1 implies kicked_connections(kicks@)[j]
                        == conn_ids@[j] by {
                        if j < i {
                            assert(kicks@[j] == sent[j]);
                            assert(kicked_connections(sent)[j] == conn_ids@.take(i as int)[j]);
                        }
                    }
                    assert(kicked_connections(kicks@) =~= conn_ids@.take(i + 1));
                    i += 1;
                }
                assert(conn_ids@.take(i as int) =~= conn_ids@);
            },
            None => {
                assert(kicked_connections(kicks@) =~= Seq::<ConnID>::empty());
            },
        }
        kicks
    }
}

/// In a list without duplicates, the place where `id` is found is the place
/// that `index_of` names.
pub proof fn lemma_index_of_unique(ids: Seq<ConnID>, id: ConnID, index: int)
    requires
        ids.no_duplicates(),
        0 <= index < ids.len(),
        ids[index] == id,
    ensures
        ids.index_of(id) == index,
{
    let j = ids.index_of(id);
    assert(0 <= j < ids.len() && ids[j] == id);
}

/// Every user listed as online holds at least one connection, and every
/// connection the user holds is open.
pub proof fn lemma_online_users_hold_open_connections(g: GroupView, user: UserID)
    requires
        g.wf(),
        g.online_users.contains_key(user),
    ensures
        g.online_users[user].len() > 0,
        forall|i: int|
            0 <= i < g.online_users[user].len() ==> g.connections.contains_key(
                #[trigger] g.online_users[user][i],
            ),
{
}

/// A user is listed as online exactly when an open connection is the
/// user's.
pub proof fn lemma_online_iff_holding(g: GroupView, user: UserID)
    requires
        g.wf(),
    ensures
        g.online_users.contains_key(user) <==> exists|conn: ConnID|
            g.connections.contains_key(conn) && #[trigger] g.owns(user, conn),
{
    if g.online_users.contains_key(user) {
        let conn = g.online_users[user][0];
        assert(g.owns(user, conn));
        lemma_owned_is_open(g, user, conn);
    }
}

/// After `ctx` joined, everybody holds what they held before, and the user
/// of `ctx` holds `ctx` as well.
pub proof fn lemma_with_connection_owns(g: GroupView, ctx: ConnectionContext, tx: Sender)
    ensures
        forall|user: UserID, conn: ConnID|
            #[trigger] g.with_connection(ctx, tx).owns(user, conn) <==> g.owns(user, conn) || (user
                == ctx.user_id && conn == ctx.conn_id),
{
    let h = g.with_connection(ctx, tx);
    let old_ids = g.connections_of(ctx.user_id);
    let new_ids = old_ids.push(ctx.conn_id);
    assert(new_ids[new_ids.len() - 1] == ctx.conn_id);
    assert forall|user: UserID, conn: ConnID| #[trigger]
        h.owns(user, conn) <==> g.owns(user, conn) || (user == ctx.user_id && conn
            == ctx.conn_id) by {
        if g.owns(user, conn) {
            let i = choose|i: int|
                0 <= i < g.online_users[user].len() && g.online_users[user][i] == conn;
            if user == ctx.user_id {
                assert(new_ids[i] == conn);
            }
        }
        if h.owns(user, conn) {
            let i = choose|i: int|
                0 <= i < h.online_users[user].len() && h.online_users[user][i] == conn;
            if user == ctx.user_id && i < old_ids.len() {
                assert(old_ids[i] == conn);
            }
        }
    }
}

/// In a well-formed group, what a user holds is open.
pub proof fn lemma_owned_is_open(g: GroupView, user: UserID, conn: ConnID)
    requires
        g.users_are_connected(),
        g.owns(user, conn),
    ensures
        g.connections.contains_key(conn),
{
    let i = choose|i: int| 0 <= i < g.online_users[user].len() && g.online_users[user][i] == conn;
    assert(g.connections.contains_key(g.online_users[user][i]));
}

/// Joining with a connection id that is not yet open keeps a group well-formed.
pub proof fn lemma_with_connection_wf(g: GroupView, ctx: ConnectionContext, tx: Sender)
    requires
        g.wf(),
        !g.connections.contains_key(ctx.conn_id),
    ensures
        g.with_connection(ctx, tx).wf(),
{
    let h = g.with_connection(ctx, tx);
    let old_ids = g.connections_of(ctx.user_id);
    let new_ids = old_ids.push(ctx.conn_id);
    lemma_with_connection_owns(g, ctx, tx);
    assert(h.connections.contains_key(ctx.conn_id));
    assert forall|user: UserID, conn: ConnID| g.owns(user, conn) implies g.connections.contains_key(
        conn,
    ) by {
        lemma_owned_is_open(g, user, conn);
    }
    assert(h.users_are_connected()) by {
        assert forall|user: UserID| #[trigger] h.online_users.contains_key(user) implies {
            &&& h.online_users[user].len() > 0
            &&& h.online_users[user].no_duplicates()
            &&& forall|i: int|
                0 <= i < h.online_users[user].len() ==> h.connections.contains_key(
                    #[trigger] h.online_users[user][i],
                )
        } by {
            if user == ctx.user_id {
                assert forall|i: int, j: int|
                    0 <= i < new_ids.len() && 0 <= j < new_ids.len() && i != j implies new_ids[i]
                    != new_ids[j] by {
                    if i < old_ids.len() {
                        assert(g.owns(user, old_ids[i]));
                    }
                    if j < old_ids.len() {
                        assert(g.owns(user, old_ids[j]));
                    }
                }
                assert forall|i: int| 0 <= i < new_ids.len() implies h.connections.contains_key(
                    #[trigger] new_ids[i],
                ) by {
                    if i < old_ids.len() {
                        assert(g.owns(user, old_ids[i]));
                    }
                }
            } else {
                assert(g.online_users.contains_key(user));
                assert forall|i: int|
                    0 <= i < h.online_users[user].len() implies h.connections.contains_key(
                    #[trigger] h.online_users[user][i],
                ) by {
                    assert(g.connections.contains_key(g.online_users[user][i]));
                }
            }
        }
    }
    assert(h.connections_are_owned()) by {
        assert forall|conn: ConnID| #[trigger] h.connections.contains_key(conn) implies exists|
            user: UserID,
        |
            h.owns(user, conn) by {
            if conn != ctx.conn_id {
                let user = choose|user: UserID| g.owns(user, conn);
                assert(h.owns(user, conn));
            } else {
                assert(h.owns(ctx.user_id, conn));
            }
        }
    }
    assert(h.owners_are_unique());
}

/// After `ctx` left a group that lives on, everybody holds what they held
/// before, but for `ctx`.
pub proof fn lemma_without_connection_owns(g: GroupView, ctx: ConnectionContext)
    requires
        g.wf(),
        g.owns(ctx.user_id, ctx.conn_id),
        !g.is_last_connection(ctx),
    ensures
        forall|user: UserID, conn: ConnID|
            #[trigger] g.without_connection(ctx).owns(user, conn) <==> g.owns(user, conn) && conn
                != ctx.conn_id,
{
    let h = g.without_connection(ctx);
    let ids = g.online_users[ctx.user_id];
    let index = ids.index_of(ctx.conn_id);
    assert(0 <= index < ids.len() && ids[index] == ctx.conn_id);
    lemma_swap_removed(ids, index);
    assert forall|user: UserID, conn: ConnID| #[trigger]
        h.owns(user, conn) <==> g.owns(user, conn) && conn != ctx.conn_id by {
        if g.owns(user, conn) && conn == ctx.conn_id {
            assert(user == ctx.user_id);
        }
        if user == ctx.user_id && ids.len() == 1 && g.owns(user, conn) {
            let i = choose|i: int| 0 <= i < ids.len() && ids[i] == conn;
            assert(i == index);
        }
    }
}

/// Leaving keeps a group well-formed unless it was the last connection.
pub proof fn lemma_without_connection_wf(g: GroupView, ctx: ConnectionContext)
    requires
        g.wf(),
        g.owns(ctx.user_id, ctx.conn_id),
        !g.is_last_connection(ctx),
    ensures
        g.without_connection(ctx).wf(),
{
    let h = g.without_connection(ctx);
    let ids = g.online_users[ctx.user_id];
    let index = ids.index_of(ctx.conn_id);
    assert(0 <= index < ids.len() && ids[index] == ctx.conn_id);
    lemma_swap_removed(ids, index);
    lemma_without_connection_owns(g, ctx);
    assert forall|user: UserID, conn: ConnID| g.owns(user, conn) implies g.connections.contains_key(
        conn,
    ) by {
        lemma_owned_is_open(g, user, conn);
    }
    assert(h.users_are_connected()) by {
        assert forall|user: UserID| #[trigger] h.online_users.contains_key(user) implies {
            &&& h.online_users[user].len() > 0
            &&& h.online_users[user].no_duplicates()
            &&& forall|i: int|
                0 <= i < h.online_users[user].len() ==> h.connections.contains_key(
                    #[trigger] h.online_users[user][i],
                )
        } by {
            assert(g.online_users.contains_key(user));
            assert forall|i: int|
                0 <= i < h.online_users[user].len() implies h.connections.contains_key(
                #[trigger] h.online_users[user][i],
            ) by {
                let conn = h.online_users[user][i];
                assert(h.owns(user, conn));
                assert(g.owns(user, conn));
            }
        }
    }
    assert(h.connections_are_owned()) by {
        assert forall|conn: ConnID| #[trigger] h.connections.contains_key(conn) implies exists|
            user: UserID,
        |
            h.owns(user, conn) by {
            let user = choose|user: UserID| g.owns(user, conn);
            assert(h.owns(user, conn));
        }
    }
    assert(h.owners_are_unique());
}

/// What `swap_removed` keeps: every entry but the one at `index`, each once.
pub proof fn lemma_swap_removed(ids: Seq<ConnID>, index: int)
    requires
        ids.no_duplicates(),
        0 <= index < ids.len(),
    ensures
        swap_removed(ids, index).len() == ids.len() - 1,
        swap_removed(ids, index).no_duplicates(),
        forall|id: ConnID|
            swap_removed(ids, index).contains(id) <==> ids.contains(id) && id != ids[index],
{
    let kept = swap_removed(ids, index);
    let last = ids.len() - 1;
    assert forall|id: ConnID| kept.contains(id) <==> ids.contains(id) && id != ids[index] by {
        if kept.contains(id) {
            let i = choose|i: int| 0 <= i < kept.len() && kept[i] == id;
            if i == index {
                assert(ids[last] == id);
            } else {
                assert(ids[i] == id);
            }
        }
        if ids.contains(id) && id != ids[index] {
            let i = choose|i: int| 0 <= i < ids.len() && ids[i] == id;
            if i == last {
                assert(kept[index] == id);
            } else {
                assert(kept[i] == id);
            }
        }
    }
}

/// A freshly opened group is well-formed.
pub proof fn lemma_opened_wf(ctx: ConnectionContext, channels: Seq<Channel>, tx: Sender)
    ensures
        GroupView::opened(ctx, channels, tx).wf(),
{
    let g = GroupView::opened(ctx, channels, tx);
    assert(g.connections.contains_key(ctx.conn_id));
    assert(g.online_users[ctx.user_id][0] == ctx.conn_id);
    assert(g.owns(ctx.user_id, ctx.conn_id));
}

} // verus!
