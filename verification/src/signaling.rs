//! The rules of one signalling connection: a page joins one room under one
//! peer id, its signals go out stamped with that id, and closing the
//! connection takes it out of the room.
use vstd::prelude::*;

verus! {

/// What a connection's page did, as far as the server acts on it.
pub enum ClientEvent {
    /// `{"kind":"join","room":...,"peer_id":...}`.
    Join { room: String, peer_id: String },
    /// `{"kind":"signal","to":...,"data":...}`; the data is passed through untouched.
    Signal { to: String },
    /// A text frame that is not a client message.
    Malformed,
    /// The socket closed, failed, or sent something other than text; or the
    /// server could no longer write to it.
    Closed,
}

/// What the server does in answer.
pub enum SessionAction {
    /// Nothing.
    Ignore,
    /// Add the peer to the room and tell it who is there.
    Join { room: String, peer_id: String },
    /// Hand the signal to `to` in `room`, from `from`.
    Forward { room: String, from: String, to: String },
    /// Answer with an error for a message that could not be read.
    RejectMalformed,
    /// Take the peer out of the room; the connection is over.
    Leave { room: String, peer_id: String },
    /// The connection is over and was in no room.
    Close,
}

/// The mathematical content of a [`ClientEvent`].
pub enum ClientEventView {
    Join { room: Seq<char>, peer_id: Seq<char> },
    Signal { to: Seq<char> },
    Malformed,
    Closed,
}

/// The mathematical content of a [`SessionAction`].
pub enum SessionActionView {
    Ignore,
    Join { room: Seq<char>, peer_id: Seq<char> },
    Forward { room: Seq<char>, from: Seq<char>, to: Seq<char> },
    RejectMalformed,
    Leave { room: Seq<char>, peer_id: Seq<char> },
    Close,
}

impl View for ClientEvent {
    type V = ClientEventView;

    open spec fn view(&self) -> ClientEventView {
        match self {
            ClientEvent::Join { room, peer_id } => ClientEventView::Join { room: room@, peer_id: peer_id@ },
            ClientEvent::Signal { to } => ClientEventView::Signal { to: to@ },
            ClientEvent::Malformed => ClientEventView::Malformed,
            ClientEvent::Closed => ClientEventView::Closed,
        }
    }
}

impl View for SessionAction {
    type V = SessionActionView;

    open spec fn view(&self) -> SessionActionView {
        match self {
            SessionAction::Ignore => SessionActionView::Ignore,
            SessionAction::Join { room, peer_id } => SessionActionView::Join { room: room@, peer_id: peer_id@ },
            SessionAction::Forward { room, from, to } => SessionActionView::Forward {
                room: room@,
                from: from@,
                to: to@,
            },
            SessionAction::RejectMalformed => SessionActionView::RejectMalformed,
            SessionAction::Leave { room, peer_id } => SessionActionView::Leave { room: room@, peer_id: peer_id@ },
            SessionAction::Close => SessionActionView::Close,
        }
    }
}

/// The room and the peer id a connection joined with, if it has joined.
pub type Membership = Option<(Seq<char>, Seq<char>)>;

/// The membership after `event`, and the action it calls for.
pub open spec fn step(membership: Membership, event: ClientEventView) -> (Membership, SessionActionView) {
    match event {
        ClientEventView::Join { room, peer_id } => match membership {
            None => (Some((room, peer_id)), SessionActionView::Join { room, peer_id }),
            Some(_) => (membership, SessionActionView::Ignore),
        },
        ClientEventView::Signal { to } => match membership {
            None => (membership, SessionActionView::Ignore),
            Some((room, from)) => (membership, SessionActionView::Forward { room, from, to }),
        },
        ClientEventView::Malformed => (membership, SessionActionView::RejectMalformed),
        ClientEventView::Closed => match membership {
            None => (None, SessionActionView::Close),
            Some((room, peer_id)) => (None, SessionActionView::Leave { room, peer_id }),
        },
    }
}

/// The membership after `events`, and the action for each of them.
pub open spec fn run(membership: Membership, events: Seq<ClientEventView>) -> (Membership, Seq<SessionActionView>)
    decreases events.len(),
{
    if events.len() == 0 {
        (membership, Seq::empty())
    } else {
        let before = run(membership, events.drop_last());
        let last = step(before.0, events.last());
        (last.0, before.1.push(last.1))
    }
}

/// The room and peer id of the first join among `events`.
pub open spec fn first_join(events: Seq<ClientEventView>) -> Membership
    decreases events.len(),
{
    if events.len() == 0 {
        None
    } else {
        match first_join(events.drop_last()) {
            Some(m) => Some(m),
            None => match events.last() {
                ClientEventView::Join { room, peer_id } => Some((room, peer_id)),
                _ => None,
            },
        }
    }
}

/// The room of a membership.
pub open spec fn joined_room(membership: Membership) -> Seq<char> {
    match membership {
        Some((room, _)) => room,
        None => Seq::empty(),
    }
}

/// The peer id of a membership.
pub open spec fn joined_peer(membership: Membership) -> Seq<char> {
    match membership {
        Some((_, peer)) => peer,
        None => Seq::empty(),
    }
}

/// A connection's first join is always acted on, with the room and peer id
/// the page sent, and makes the connection a member under them.
pub proof fn lemma_first_join_is_acted_on(room: Seq<char>, peer_id: Seq<char>)
    ensures
        step(None, ClientEventView::Join { room, peer_id }) == (
            Some((room, peer_id)),
            SessionActionView::Join { room, peer_id },
        ),
{
}

/// Every signal of a member is forwarded, whatever recipient it names: to
/// that recipient, in the member's room, from the member's id.
pub proof fn lemma_member_signals_are_forwarded(room: Seq<char>, from: Seq<char>, to: Seq<char>)
    ensures
        step(Some((room, from)), ClientEventView::Signal { to }) == (
            Some((room, from)),
            SessionActionView::Forward { room, from, to },
        ),
{
}

/// Before a join, signals are dropped; a malformed message is answered with
/// an error; neither changes the membership.
pub proof fn lemma_non_member_signals_and_malformed(membership: Membership, to: Seq<char>)
    ensures
        step(None, ClientEventView::Signal { to }) == (None::<(Seq<char>, Seq<char>)>, SessionActionView::Ignore),
        step(membership, ClientEventView::Malformed) == (membership, SessionActionView::RejectMalformed),
{
}

/// The action for event `i` is what that event calls for given the
/// membership after the events before it.
proof fn lemma_run_at(membership: Membership, events: Seq<ClientEventView>, i: int)
    requires
        0 <= i < events.len(),
    ensures
        run(membership, events).1[i] == step(run(membership, events.take(i)).0, events[i]).1,
    decreases events.len(),
{
    lemma_run_len(membership, events.drop_last());
    if i == events.len() - 1 {
        assert(events.take(i) =~= events.drop_last());
    } else {
        lemma_run_at(membership, events.drop_last(), i);
        assert(events.drop_last().take(i) =~= events.take(i));
    }
}

/// In an open connection, every signal sent after the first join is
/// forwarded to the recipient it names, in the joined room, from the joined
/// peer id; and the first join itself is acted on with what the page sent.
pub proof fn lemma_connection_acts_on_join_and_signals(events: Seq<ClientEventView>, i: int)
    requires
        stays_open(events),
        0 <= i < events.len(),
    ensures
        ((events[i] is Signal) && (first_join(events.take(i)) is Some)) ==> run(None, events).1[i] == (
        SessionActionView::Forward {
            room: joined_room(first_join(events.take(i))),
            from: joined_peer(first_join(events.take(i))),
            to: events[i]->Signal_to,
        }),
        ((events[i] is Join) && (first_join(events.take(i)) is None)) ==> run(None, events).1[i] == (
        SessionActionView::Join { room: events[i]->Join_room, peer_id: events[i]->Join_peer_id }),
{
    lemma_run_at(None, events, i);
    let prefix = events.take(i);
    assert(stays_open(prefix)) by {
        assert forall|k: int| 0 <= k < prefix.len() implies !(#[trigger] prefix[k] is Closed) by {
            assert(prefix[k] == events[k]);
        }
    }
    lemma_membership_is_first_join(prefix);
}

/// There is one action per event.
proof fn lemma_run_len(membership: Membership, events: Seq<ClientEventView>)
    ensures
        run(membership, events).1.len() == events.len(),
    decreases events.len(),
{
    if events.len() > 0 {
        lemma_run_len(membership, events.drop_last());
    }
}

/// Whether the connection stays open throughout `events`.
pub open spec fn stays_open(events: Seq<ClientEventView>) -> bool {
    forall|i: int| 0 <= i < events.len() ==> !(#[trigger] events[i] is Closed)
}

/// Until it closes, a connection belongs to the room and under the peer id
/// of its first join, whatever it sends afterwards.
pub proof fn lemma_membership_is_first_join(events: Seq<ClientEventView>)
    requires
        stays_open(events),
    ensures
        run(None, events).0 == first_join(events),
    decreases events.len(),
{
    if events.len() > 0 {
        let prefix = events.drop_last();
        assert(stays_open(prefix)) by {
            assert forall|i: int| 0 <= i < prefix.len() implies !(#[trigger] prefix[i] is Closed) by {
                assert(prefix[i] == events[i]);
            }
        }
        lemma_membership_is_first_join(prefix);
        assert(!(events[events.len() - 1] is Closed));
    }
}

/// Every signal the server forwards for an open connection is stamped with
/// the room and peer id of the connection's first join, and goes to the
/// recipient the page named.
pub proof fn lemma_forwards_carry_own_identity(events: Seq<ClientEventView>, i: int)
    requires
        stays_open(events),
        0 <= i < events.len(),
        run(None, events).1[i] is Forward,
    ensures
        ({
            let a = run(None, events).1[i];
            &&& first_join(events) == Some((a->Forward_room, a->Forward_from))
            &&& events[i] == ClientEventView::Signal { to: a->Forward_to }
        }),
    decreases events.len(),
{
    let prefix = events.drop_last();
    assert(stays_open(prefix)) by {
        assert forall|k: int| 0 <= k < prefix.len() implies !(#[trigger] prefix[k] is Closed) by {
            assert(prefix[k] == events[k]);
        }
    }
    lemma_membership_is_first_join(prefix);
    lemma_run_len(None, prefix);
    if i < events.len() - 1 {
        assert(run(None, events).1[i] == run(None, prefix).1[i]);
        lemma_forwards_carry_own_identity(prefix, i);
        assert(events[i] == prefix[i]);
    }
}

/// An open connection joins a room at most once: any later join is ignored.
pub proof fn lemma_joins_at_most_once(events: Seq<ClientEventView>, i: int, j: int)
    requires
        stays_open(events),
        0 <= i < j < events.len(),
        run(None, events).1[i] is Join,
    ensures
        !(run(None, events).1[j] is Join),
    decreases events.len(),
{
    let prefix = events.drop_last();
    assert(stays_open(prefix)) by {
        assert forall|k: int| 0 <= k < prefix.len() implies !(#[trigger] prefix[k] is Closed) by {
            assert(prefix[k] == events[k]);
        }
    }
    lemma_run_len(None, prefix);
    assert(run(None, events).1[i] == run(None, prefix).1[i]);
    if j < events.len() - 1 {
        assert(run(None, events).1[j] == run(None, prefix).1[j]);
        lemma_joins_at_most_once(prefix, i, j);
    } else {
        lemma_join_leaves_membership(prefix, i);
    }
}

/// After a connection's join has been acted on, it is a member.
proof fn lemma_join_leaves_membership(events: Seq<ClientEventView>, i: int)
    requires
        stays_open(events),
        0 <= i < events.len(),
        run(None, events).1[i] is Join,
    ensures
        run(None, events).0 is Some,
    decreases events.len(),
{
    let prefix = events.drop_last();
    assert(stays_open(prefix)) by {
        assert forall|k: int| 0 <= k < prefix.len() implies !(#[trigger] prefix[k] is Closed) by {
            assert(prefix[k] == events[k]);
        }
    }
    assert(!(events[events.len() - 1] is Closed));
    lemma_run_len(None, prefix);
    if i < events.len() - 1 {
        assert(run(None, events).1[i] == run(None, prefix).1[i]);
        lemma_join_leaves_membership(prefix, i);
    }
}

/// When an open connection closes, the server takes out of the room exactly
/// the peer of its first join, or nobody if it never joined.
pub proof fn lemma_close_leaves_first_join(events: Seq<ClientEventView>)
    requires
        stays_open(events),
    ensures
        step(run(None, events).0, ClientEventView::Closed).1 == match first_join(events) {
            Some((room, peer_id)) => SessionActionView::Leave { room, peer_id },
            None => SessionActionView::Close,
        },
{
    lemma_membership_is_first_join(events);
}

/// One signalling connection: the room and peer id it joined with, if any.
pub struct SignalingPeer {
    joined_room: Option<String>,
    peer_id: Option<String>,
}

impl View for SignalingPeer {
    type V = Membership;

    closed spec fn view(&self) -> Membership {
        match (self.joined_room, self.peer_id) {
            (Some(room), Some(peer)) => Some((room@, peer@)),
            _ => None,
        }
    }
}

impl SignalingPeer {
    #[verifier::type_invariant]
    spec fn both_or_neither(self) -> bool {
        self.joined_room is Some <==> self.peer_id is Some
    }

    /// A connection that has not joined a room.
    pub fn new() -> (s: Self)
        ensures
            s@ is None,
    {
        SignalingPeer { joined_room: None, peer_id: None }
    }

    /// Acts on `event`: see [`step`].
    pub fn on_event(&mut self, event: ClientEvent) -> (a: SessionAction)
        ensures
            (final(self)@, a@) == step(old(self)@, event@),
    {
        proof {
            use_type_invariant(&*self);
        }
        match event {
            ClientEvent::Join { room, peer_id } => {
                if self.joined_room.is_some() {
                    SessionAction::Ignore
                } else {
                    let action = SessionAction::Join { room: room.clone(), peer_id: peer_id.clone() };
                    *self = SignalingPeer { joined_room: Some(room), peer_id: Some(peer_id) };
                    action
                }
            },
            ClientEvent::Signal { to } => match (&self.joined_room, &self.peer_id) {
                (Some(room), Some(from)) => SessionAction::Forward {
                    room: room.clone(),
                    from: from.clone(),
                    to,
                },
                _ => SessionAction::Ignore,
            },
            ClientEvent::Malformed => SessionAction::RejectMalformed,
            ClientEvent::Closed => {
                let action = match (&self.joined_room, &self.peer_id) {
                    (Some(room), Some(peer)) => SessionAction::Leave {
                        room: room.clone(),
                        peer_id: peer.clone(),
                    },
                    _ => SessionAction::Close,
                };
                *self = SignalingPeer { joined_room: None, peer_id: None };
                action
            },
        }
    }
}

} // verus!
