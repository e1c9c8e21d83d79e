//! The one piece of state shared across a process's connection tasks: the
//! map from connection identifier to live session. Sessions are created
//! only when an `Initial` message arrives for an unseen connection and are
//! removed on `Close`, on any fatal error, or on transport teardown.

use vstd::prelude::*;

use crate::error::ProtocolError;
use crate::handshake::spec_decode_init;
use crate::message::{Message, MessageType};
use crate::session::{Session, SessionAction, SessionState};

verus! {

/// Some session in `s` belongs to connection `id`.
pub open spec fn seq_has_id(s: Seq<Session>, id: u128) -> bool {
    exists|i: int| 0 <= i < s.len() && (#[trigger] s[i]).connection_id == id
}

/// The index of the session for `id`, where one exists.
pub open spec fn seq_find_id(s: Seq<Session>, id: u128) -> int {
    choose|i: int| 0 <= i < s.len() && (#[trigger] s[i]).connection_id == id
}

/// The session for `id`, where one exists.
pub open spec fn seq_session(s: Seq<Session>, id: u128) -> Session {
    s[seq_find_id(s, id)]
}

/// No two sessions share a connection identifier.
pub open spec fn seq_unique_ids(s: Seq<Session>) -> bool {
    forall|i: int, j: int|
        0 <= i < s.len() && 0 <= j < s.len() && i != j ==> (#[trigger] s[i]).connection_id != (
        #[trigger] s[j]).connection_id
}

/// With a witness at hand, the chosen index is in range and matches.
proof fn lemma_has_id_get(s: Seq<Session>, id: u128)
    requires
        seq_has_id(s, id),
    ensures
        0 <= seq_find_id(s, id) < s.len(),
        s[seq_find_id(s, id)].connection_id == id,
        seq_session(s, id).connection_id == id,
{
}

/// With unique identifiers, the session found for the identifier at a
/// given index is the session at that index.
proof fn lemma_id_at_index(s: Seq<Session>, i: int)
    requires
        seq_unique_ids(s),
        0 <= i < s.len(),
    ensures
        seq_has_id(s, s[i].connection_id),
        seq_find_id(s, s[i].connection_id) == i,
        seq_session(s, s[i].connection_id) == s[i],
{
    assert(seq_has_id(s, s[i].connection_id));
    lemma_has_id_get(s, s[i].connection_id);
}

/// Removing the session at index `i` removes exactly that connection:
/// every other connection keeps its session, shifted left past `i`.
proof fn lemma_remove_id(s: Seq<Session>, i: int)
    requires
        seq_unique_ids(s),
        0 <= i < s.len(),
    ensures
        seq_unique_ids(s.remove(i)),
        !seq_has_id(s.remove(i), s[i].connection_id),
        forall|j: int|
            0 <= j < s.remove(i).len() ==> #[trigger] s.remove(i)[j] == (if j < i {
                s[j]
            } else {
                s[j + 1]
            }),
        forall|id: u128|
            id != s[i].connection_id ==> (#[trigger] seq_has_id(s.remove(i), id)) == seq_has_id(
                s,
                id,
            ),
        forall|id: u128|
            id != s[i].connection_id && seq_has_id(s, id) ==> (#[trigger] seq_session(
                s.remove(i),
                id,
            )) == seq_session(s, id),
{
    let t = s.remove(i);
    assert forall|j: int| 0 <= j < t.len() implies #[trigger] t[j] == (if j < i {
        s[j]
    } else {
        s[j + 1]
    }) by {
        if j < i {
            assert(t[j] == s.subrange(0, i)[j]);
        } else {
            assert(t[j] == s.subrange(i + 1, s.len() as int)[j - i]);
        }
    }
    assert forall|j: int| 0 <= j < t.len() implies (#[trigger] t[j]).connection_id != s[
        i
    ].connection_id by {
        if j < i {
            assert(t[j] == s[j]);
        } else {
            assert(t[j] == s[j + 1]);
        }
    }
    assert forall|id: u128| id != s[i].connection_id implies (#[trigger] seq_has_id(t, id))
        == seq_has_id(s, id) by {
        if seq_has_id(t, id) {
            let j = choose|j: int| 0 <= j < t.len() && (#[trigger] t[j]).connection_id == id;
            if j < i {
                assert(s[j].connection_id == id);
            } else {
                assert(s[j + 1].connection_id == id);
            }
        }
        if seq_has_id(s, id) {
            let m = choose|m: int| 0 <= m < s.len() && (#[trigger] s[m]).connection_id == id;
            if m < i {
                assert(t[m].connection_id == id);
            } else {
                assert(m != i);
                assert(t[m - 1] == s[m]);
                assert(t[m - 1].connection_id == id);
            }
        }
    }
    assert forall|id: u128| id != s[i].connection_id && seq_has_id(s, id) implies (
    #[trigger] seq_session(t, id)) == seq_session(s, id) by {
        assert(seq_has_id(t, id));
        lemma_has_id_get(t, id);
        lemma_has_id_get(s, id);
        let jt = seq_find_id(t, id);
        let js = seq_find_id(s, id);
        if jt < i {
            assert(t[jt] == s[jt]);
            assert(jt == js);
        } else {
            assert(t[jt] == s[jt + 1]);
            assert(jt + 1 == js);
        }
    }
}

/// Appending a session for a fresh connection keeps identifiers unique
/// and leaves every other connection's session as it was.
proof fn lemma_push_id(s: Seq<Session>, x: Session)
    requires
        seq_unique_ids(s),
        !seq_has_id(s, x.connection_id),
    ensures
        seq_unique_ids(s.push(x)),
        seq_has_id(s.push(x), x.connection_id),
        seq_session(s.push(x), x.connection_id) == x,
        forall|id: u128|
            id != x.connection_id ==> (#[trigger] seq_has_id(s.push(x), id)) == seq_has_id(s, id),
        forall|id: u128|
            id != x.connection_id && seq_has_id(s, id) ==> (#[trigger] seq_session(s.push(x), id))
                == seq_session(s, id),
{
    let t = s.push(x);
    assert(t[s.len() as int] == x);
    assert forall|j: int| 0 <= j < s.len() implies (#[trigger] s[j]).connection_id
        != x.connection_id by {
        if s[j].connection_id == x.connection_id {
            assert(seq_has_id(s, x.connection_id));
        }
    }
    assert(seq_unique_ids(t));
    lemma_id_at_index(t, s.len() as int);
    assert forall|id: u128| id != x.connection_id implies (#[trigger] seq_has_id(t, id))
        == seq_has_id(s, id) by {
        if seq_has_id(t, id) {
            let j = choose|j: int| 0 <= j < t.len() && (#[trigger] t[j]).connection_id == id;
            assert(j != s.len());
            assert(s[j].connection_id == id);
        }
        if seq_has_id(s, id) {
            let m = choose|m: int| 0 <= m < s.len() && (#[trigger] s[m]).connection_id == id;
            assert(t[m].connection_id == id);
        }
    }
    assert forall|id: u128| id != x.connection_id && seq_has_id(s, id) implies (
    #[trigger] seq_session(t, id)) == seq_session(s, id) by {
        assert(seq_has_id(t, id));
        lemma_has_id_get(t, id);
        lemma_has_id_get(s, id);
        let jt = seq_find_id(t, id);
        let js = seq_find_id(s, id);
        assert(jt != s.len());
        assert(t[jt] == s[jt]);
        assert(jt == js);
    }
}

/// Maps connection identifiers to live sessions. The single shared
/// collaborator of a process: constructed once at startup and handed to
/// each connection task.
pub struct SessionRegistry {
    sessions: Vec<Session>,
    max_buffered: usize,
}

impl SessionRegistry {
    /// The live sessions, in insertion order.
    pub closed spec fn spec_sessions(self) -> Seq<Session> {
        self.sessions@
    }

    /// The reassembly-buffer bound handed to every session created here.
    pub closed spec fn spec_max_buffered(self) -> usize {
        self.max_buffered
    }

    /// A session for `id` is live.
    pub open spec fn spec_contains(self, id: u128) -> bool {
        seq_has_id(self.spec_sessions(), id)
    }

    /// The live session for `id`, where one exists.
    pub open spec fn spec_get(self, id: u128) -> Session {
        seq_session(self.spec_sessions(), id)
    }

    /// At most one session per connection; every live session is
    /// well-formed, never `Closed`, and carries the registry's buffer
    /// bound.
    pub open spec fn wf(self) -> bool {
        &&& seq_unique_ids(self.spec_sessions())
        &&& forall|i: int|
            0 <= i < self.spec_sessions().len() ==> (#[trigger] self.spec_sessions()[i]).wf()
        &&& forall|i: int|
            0 <= i < self.spec_sessions().len() ==> !((#[trigger] self.spec_sessions()[i]).state
                is Closed)
        &&& forall|i: int|
            0 <= i < self.spec_sessions().len() ==> (
            #[trigger] self.spec_sessions()[i]).reassembler.capacity() == self.spec_max_buffered()
    }

    /// An empty registry whose sessions will bound their reassembly
    /// buffers by `max_buffered`.
    pub fn new(max_buffered: usize) -> (r: SessionRegistry)
        ensures
            r.wf(),
            r.spec_max_buffered() == max_buffered,
            forall|id: u128| !(#[trigger] r.spec_contains(id)),
    {
        SessionRegistry { sessions: Vec::new(), max_buffered }
    }

    /// The index of the session for `id`, if one is live.
    fn find(&self, id: u128) -> (r: Option<usize>)
        ensures
            match r {
                Some(i) => i < self.spec_sessions().len() && self.spec_sessions()[
                    i as int
                ].connection_id == id,
                None => !self.spec_contains(id),
            },
    {
        let n: usize = self.sessions.len();
        let mut i: usize = 0;
        while i < n
            invariant
                i <= n,
                n == self.sessions@.len(),
                forall|j: int| 0 <= j < i ==> (#[trigger] self.sessions@[j]).connection_id != id,
            decreases n - i,
        {
            if self.sessions[i].connection_id == id {
                return Some(i);
            }
            i = i + 1;
        }
        None
    }

    /// Whether a session for `id` is live.
    pub fn contains(&self, id: u128) -> (r: bool)
        ensures
            r == self.spec_contains(id),
    {
        match self.find(id) {
            Some(i) => {
                proof {
                    assert(seq_has_id(self.spec_sessions(), id));
                }
                true
            },
            None => false,
        }
    }

    /// Remove the session for `id` and hand it out, leaving every other
    /// connection's session untouched.
    fn take(&mut self, id: u128) -> (r: Option<Session>)
        requires
            old(self).wf(),
        ensures
            final(self).wf(),
            final(self).spec_max_buffered() == old(self).spec_max_buffered(),
            !final(self).spec_contains(id),
            forall|other: u128|
                other != id ==> (#[trigger] final(self).spec_contains(other)) == old(self).spec_contains(other),
            forall|other: u128|
                other != id && old(self).spec_contains(other) ==> (#[trigger] final(self).spec_get(
                    other,
                )) == old(self).spec_get(other),
            match r {
                Some(s) => {
                    &&& old(self).spec_contains(id)
                    &&& s == old(self).spec_get(id)
                    &&& s.connection_id == id
                    &&& s.wf()
                    &&& !(s.state is Closed)
                    &&& s.reassembler.capacity() == old(self).spec_max_buffered()
                },
                None => !old(self).spec_contains(id) && *final(self) == *old(self),
            },
    {
        match self.find(id) {
            Some(i) => {
                proof {
                    lemma_id_at_index(self.sessions@, i as int);
                    lemma_remove_id(self.sessions@, i as int);
                }
                let s = self.sessions.remove(i);
                proof {
                    assert forall|k: int| 0 <= k < self.sessions@.len() implies (
                    #[trigger] self.sessions@[k]).wf() && !(self.sessions@[k].state is Closed)
                        && self.sessions@[k].reassembler.capacity() == self.max_buffered by {
                        if k < i {
                            assert(self.sessions@[k] == old(self).sessions@[k]);
                        } else {
                            assert(self.sessions@[k] == old(self).sessions@[k + 1]);
                        }
                    }
                }
                Some(s)
            },
            None => None,
        }
    }

    /// The one creation path for sessions: the index of the live session
    /// for `connection_id`, creating a fresh `Pending` one if none is
    /// live. To be invoked only while handling an `Initial` message.
    pub fn get_or_create(&mut self, connection_id: u128) -> (i: usize)
        requires
            old(self).wf(),
        ensures
            final(self).wf(),
            final(self).spec_max_buffered() == old(self).spec_max_buffered(),
            i < final(self).spec_sessions().len(),
            final(self).spec_sessions()[i as int].connection_id == connection_id,
            final(self).spec_contains(connection_id),
            final(self).spec_get(connection_id) == final(self).spec_sessions()[i as int],
            old(self).spec_contains(connection_id) ==> *final(self) == *old(self),
            !old(self).spec_contains(connection_id) ==> {
                &&& final(self).spec_get(connection_id).state is Pending
                &&& final(self).spec_get(connection_id).route is None
                &&& final(self).spec_get(connection_id).reassembler.buffered() == Seq::<
                    u8,
                >::empty()
            },
            forall|id: u128|
                id != connection_id ==> (#[trigger] final(self).spec_contains(id)) == old(self).spec_contains(id),
            forall|id: u128|
                id != connection_id && old(self).spec_contains(id) ==> (#[trigger] final(self).spec_get(id)) == old(self).spec_get(id),
    {
        match self.find(connection_id) {
            Some(i) => {
                proof {
                    lemma_id_at_index(self.sessions@, i as int);
                }
                i
            },
            None => {
                let s = Session::new(connection_id, self.max_buffered);
                let i = self.sessions.len();
                proof {
                    lemma_push_id(self.sessions@, s);
                }
                self.sessions.push(s);
                i
            },
        }
    }

    /// Remove the session for `connection_id`, if any; removing an absent
    /// connection changes nothing, so removal is idempotent.
    pub fn remove(&mut self, connection_id: u128)
        requires
            old(self).wf(),
        ensures
            final(self).wf(),
            final(self).spec_max_buffered() == old(self).spec_max_buffered(),
            !final(self).spec_contains(connection_id),
            !old(self).spec_contains(connection_id) ==> *final(self) == *old(self),
            forall|id: u128|
                id != connection_id ==> (#[trigger] final(self).spec_contains(id)) == old(self).spec_contains(id),
            forall|id: u128|
                id != connection_id && old(self).spec_contains(id) ==> (#[trigger] final(self).spec_get(id)) == old(self).spec_get(id),
    {
        let _taken = self.take(connection_id);
    }

    /// Route one decoded message to its connection's session.
    ///
    /// An `Initial` for an unseen connection creates its session and runs
    /// the handshake; any other message for an unseen connection is a
    /// violation and creates nothing. A live session handles the message
    /// itself; `Close` and every fatal error remove that session alone,
    /// leaving other connections untouched.
    pub fn deliver(&mut self, msg: Message) -> (r: Result<SessionAction, ProtocolError>)
        requires
            old(self).wf(),
        ensures
            final(self).wf(),
            final(self).spec_max_buffered() == old(self).spec_max_buffered(),
            forall|id: u128|
                id != msg.connection_id ==> (#[trigger] final(self).spec_contains(id)) == old(self).spec_contains(id),
            forall|id: u128|
                id != msg.connection_id && old(self).spec_contains(id) ==> (#[trigger] final(self).spec_get(id)) == old(self).spec_get(id),
            ({
                let cid = msg.connection_id;
                if !old(self).spec_contains(cid) {
                    match msg.message_type {
                        MessageType::Initial => match spec_decode_init(msg.payload@) {
                            Ok(p) => {
                                &&& r == Ok::<SessionAction, ProtocolError>(
                                    SessionAction::RouteEstablished(p),
                                )
                                &&& final(self).spec_contains(cid)
                                &&& final(self).spec_get(cid).state is Active
                                &&& final(self).spec_get(cid).route == Some(p)
                            },
                            Err(_) => r == Err::<SessionAction, ProtocolError>(
                                ProtocolError::ProtocolViolation,
                            ) && !final(self).spec_contains(cid),
                        },
                        _ => r == Err::<SessionAction, ProtocolError>(
                            ProtocolError::ProtocolViolation,
                        ) && !final(self).spec_contains(cid),
                    }
                } else {
                    let s = old(self).spec_get(cid);
                    match (s.state, msg.message_type) {
                        (SessionState::Pending, MessageType::Initial) => match spec_decode_init(
                            msg.payload@,
                        ) {
                            Ok(p) => {
                                &&& r == Ok::<SessionAction, ProtocolError>(
                                    SessionAction::RouteEstablished(p),
                                )
                                &&& final(self).spec_contains(cid)
                                &&& final(self).spec_get(cid).state is Active
                                &&& final(self).spec_get(cid).route == Some(p)
                            },
                            Err(_) => r == Err::<SessionAction, ProtocolError>(
                                ProtocolError::ProtocolViolation,
                            ) && !final(self).spec_contains(cid),
                        },
                        (SessionState::Pending, _) => r == Err::<SessionAction, ProtocolError>(
                            ProtocolError::ProtocolViolation,
                        ) && !final(self).spec_contains(cid),
                        (SessionState::Active, MessageType::Initial) => r == Err::<
                            SessionAction,
                            ProtocolError,
                        >(ProtocolError::ProtocolViolation) && !final(self).spec_contains(cid),
                        (SessionState::Active, MessageType::Data) => {
                            &&& r == Ok::<SessionAction, ProtocolError>(
                                SessionAction::Forward(msg.payload),
                            )
                            &&& final(self).spec_contains(cid)
                            &&& final(self).spec_get(cid) == s
                        },
                        (SessionState::Active, MessageType::Ping) => {
                            &&& r == Ok::<SessionAction, ProtocolError>(SessionAction::LivenessAck)
                            &&& final(self).spec_contains(cid)
                            &&& final(self).spec_get(cid) == s
                        },
                        (SessionState::Active, MessageType::Close) => {
                            &&& r == Ok::<SessionAction, ProtocolError>(
                                SessionAction::ConnectionClosed,
                            )
                            &&& !final(self).spec_contains(cid)
                        },
                        (SessionState::Closed, _) => false,
                    }
                }
            }),
    {
        let cid = msg.connection_id;
        match self.take(cid) {
            None => {
                match msg.message_type {
                    MessageType::Initial => {
                        let mut s = Session::new(cid, self.max_buffered);
                        let result = s.handle(msg);
                        match result {
                            Ok(a) => {
                                let ghost mid_reg = *self;
                                let ghost mid = self.sessions@;
                                proof {
                                    lemma_push_id(mid, s);
                                }
                                self.sessions.push(s);
                                proof {
                                    self.lemma_after_push(mid_reg, old(self), s, cid);
                                }
                                Ok(a)
                            },
                            Err(e) => Err(e),
                        }
                    },
                    _ => Err(ProtocolError::ProtocolViolation),
                }
            },
            Some(mut s) => {
                proof {
                    lemma_has_id_get(old(self).spec_sessions(), cid);
                }
                let result = s.handle(msg);
                match result {
                    Ok(a) => match a {
                        SessionAction::ConnectionClosed => Ok(SessionAction::ConnectionClosed),
                        other => {
                            let ghost mid_reg = *self;
                            let ghost mid = self.sessions@;
                            proof {
                                lemma_push_id(mid, s);
                            }
                            self.sessions.push(s);
                            proof {
                                self.lemma_after_push(mid_reg, old(self), s, cid);
                            }
                            Ok(other)
                        },
                    },
                    Err(e) => Err(e),
                }
            },
        }
    }

    /// Pushing the session for `cid` onto a registry state that already
    /// agrees with an earlier state on every other connection keeps that
    /// agreement.
    proof fn lemma_after_push(
        self,
        mid: SessionRegistry,
        orig: &SessionRegistry,
        s: Session,
        cid: u128,
    )
        requires
            seq_unique_ids(mid.spec_sessions()),
            !mid.spec_contains(cid),
            s.connection_id == cid,
            self.spec_sessions() == mid.spec_sessions().push(s),
            mid.spec_max_buffered() == orig.spec_max_buffered(),
            forall|id: u128|
                id != cid ==> (#[trigger] mid.spec_contains(id)) == orig.spec_contains(id),
            forall|id: u128|
                id != cid && orig.spec_contains(id) ==> (#[trigger] mid.spec_get(id))
                    == orig.spec_get(id),
        ensures
            forall|id: u128|
                id != cid ==> (#[trigger] self.spec_contains(id)) == orig.spec_contains(id),
            forall|id: u128|
                id != cid && orig.spec_contains(id) ==> (#[trigger] self.spec_get(id))
                    == orig.spec_get(id),
    {
        lemma_push_id(mid.spec_sessions(), s);
        assert forall|id: u128| id != cid implies (#[trigger] self.spec_contains(id))
            == orig.spec_contains(id) by {
            assert(seq_has_id(mid.spec_sessions().push(s), id) == seq_has_id(
                mid.spec_sessions(),
                id,
            ));
            assert(mid.spec_contains(id) == orig.spec_contains(id));
        }
        assert forall|id: u128| id != cid && orig.spec_contains(id) implies (
        #[trigger] self.spec_get(id)) == orig.spec_get(id) by {
            assert(mid.spec_contains(id) == orig.spec_contains(id));
            assert(seq_session(mid.spec_sessions().push(s), id) == seq_session(
                mid.spec_sessions(),
                id,
            ));
            assert(mid.spec_get(id) == orig.spec_get(id));
        }
    }
}

} // verus!
