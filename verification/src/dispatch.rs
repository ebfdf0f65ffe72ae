//! The dispatch rules: which handlers one readiness event triggers, and what
//! each of them does to the table.  Events for one token are processed to
//! completion before the next is looked at; the reactor delivers each
//! registration once and must be re-armed, so every outcome names the
//! interest to register next.
use vstd::prelude::*;
use crate::connection::Interest;
use crate::framing::{msgs_of, rest_of};
use crate::rpc::{RequestHandler, respond_all, concat_responses, concat_responses_spec};
use crate::table::ConnTable;

verus! {

/// What one readiness report asks the loop to do, in order.
#[derive(Clone, Copy, Debug, PartialEq, Eq, Structural)]
pub enum Action {
    /// Drain the listening socket's accept queue.
    Accept,
    /// Run the named connection's read handler.
    Read(usize),
    /// Run the named connection's write handler.
    Write(usize),
    /// Close and remove the named connection.
    Close(usize),
}

/// The routing table of the dispatch loop: readable on the server token
/// means accept, readable elsewhere means read; hangup on a client closes
/// it, on the server token it is informational only; writable matters only
/// for clients.  Reads are handled before hangups, hangups before writes.
pub open spec fn event_actions_spec(token: int, readable: bool, writable: bool, hup: bool) -> Seq<
    Action,
> {
    (if readable {
        if token == 0 {
            seq![Action::Accept]
        } else {
            seq![Action::Read(token as usize)]
        }
    } else {
        Seq::empty()
    }) + (if hup && token != 0 {
        seq![Action::Close(token as usize)]
    } else {
        Seq::empty()
    }) + (if writable && token != 0 {
        seq![Action::Write(token as usize)]
    } else {
        Seq::empty()
    })
}

/// Routes one readiness report to the handlers it concerns.
pub fn event_actions(token: usize, readable: bool, writable: bool, hup: bool) -> (acts: Vec<
    Action,
>)
    ensures
        acts@ == event_actions_spec(token as int, readable, writable, hup),
{
    let mut acts: Vec<Action> = Vec::new();
    if readable {
        if token == 0 {
            acts.push(Action::Accept);
        } else {
            acts.push(Action::Read(token));
        }
    }
    if hup && token != 0 {
        acts.push(Action::Close(token));
    }
    if writable && token != 0 {
        acts.push(Action::Write(token));
    }
    proof {
        assert(acts@ =~= event_actions_spec(token as int, readable, writable, hup));
    }
    acts
}

/// What one non-blocking read attempt yielded: nothing ready yet, some
/// bytes, or a genuine error (would-block is not an error).
pub enum ReadInput {
    WouldBlock,
    Data(Vec<u8>),
    Failed,
}

/// How the table answered an event, and what the loop must do next.
#[derive(Clone, Copy, Debug, PartialEq, Eq, Structural)]
pub enum EventOutcome {
    /// Re-register the connection for this interest (one-shot registrations
    /// must be re-armed after every event).
    Rearm(Interest),
    /// The connection was removed; close its socket.
    Closed,
    /// The token names no live connection; ignore the stale event.
    NotLive,
}

impl ConnTable {
    /// One readable event on a client connection: appends whatever the read
    /// yielded, answers every completed message in arrival order, queues the
    /// concatenated responses, and turns to writing iff bytes are owed.  A
    /// read error removes the connection — it must not linger in the table
    /// with no armed interest.
    pub fn on_readable<H: RequestHandler>(&mut self, tok: usize, input: ReadInput, handler: &H) -> (r:
        EventOutcome)
        requires
            old(self).wf(),
        ensures
            final(self).wf(),
            final(self).capacity() == old(self).capacity(),
            !old(self).live(tok as int) ==> r is NotLive && final(self).slots@ == old(self).slots@,
            old(self).live(tok as int) && old(self).conn_at(tok as int).awaiting_writable()
                ==> r == EventOutcome::Rearm(Interest::Writable) && final(self).slots@ == old(self).slots@,
            old(self).live(tok as int) && !old(self).conn_at(tok as int).awaiting_writable()
                ==> match input {
                ReadInput::WouldBlock => r == EventOutcome::Rearm(Interest::Readable) && final(self).slots@ == old(self).slots@,
                ReadInput::Failed => r is Closed && final(self).slots@ == old(self).slots@.update(
                    tok - 1,
                    None,
                ),
                ReadInput::Data(d) => ({
                    let combined = old(self).conn_at(tok as int).req() + d@;
                    &&& final(self).live(tok as int)
                    &&& final(self).conn_at(tok as int).req() == rest_of(combined)
                    &&& exists|rs: Seq<Option<Seq<u8>>>|
                        #![auto]
                        rs.len() == msgs_of(combined).len() && final(self).conn_at(tok as int).pending() == concat_responses_spec(rs)
                    &&& (final(self).conn_at(tok as int).awaiting_writable() <==> final(self).conn_at(tok as int).pending().len() > 0)
                    &&& r == EventOutcome::Rearm(final(self).conn_at(tok as int).interest)
                    &&& forall|j: int|
                        0 <= j < old(self).slots@.len() && j != tok - 1 ==> final(self).slots@[j]
                            == old(self).slots@[j]
                }),
            },
    {
        if tok == 0 || tok > self.slots.len() {
            return EventOutcome::NotLive;
        }
        let k = tok - 1;
        proof {
            assert(old(self).slots@[k as int] matches Some(c) ==> c.wf());
        }
        let slot = crate::table::slot_mut(&mut self.slots, k);
        match slot {
            None => EventOutcome::NotLive,
            Some(conn) => {
                match conn.interest {
                    Interest::Writable => EventOutcome::Rearm(Interest::Writable),
                    Interest::Readable => {
                        match input {
                            ReadInput::WouldBlock => EventOutcome::Rearm(Interest::Readable),
                            ReadInput::Failed => {
                                *slot = None;
                                EventOutcome::Closed
                            },
                            ReadInput::Data(d) => {
                                let msgs = conn.ingest(d);
                                let rs = respond_all(handler, &msgs);
                                let out = concat_responses(&rs);
                                conn.queue_responses(out);
                                let next = conn.interest;
                                proof {
                                    let w = rs.deep_view();
                                    assert(w.len() == msgs.deep_view().len());
                                }
                                EventOutcome::Rearm(next)
                            },
                        }
                    },
                }
            },
        }
    }

    /// The bytes to offer the next write attempt for this connection: the
    /// whole pending buffer, capped at the write-chunk bound.
    pub fn next_write_chunk(&self, tok: usize) -> (r: Option<Vec<u8>>)
        requires
            self.wf(),
        ensures
            !self.live(tok as int) ==> r is None,
            self.live(tok as int) ==> (r matches Some(chunk) && {
                let p = self.conn_at(tok as int).pending();
                &&& p.len() <= crate::connection::MAX_WRITE_LENGTH ==> chunk@ == p
                &&& p.len() > crate::connection::MAX_WRITE_LENGTH ==> chunk@ == p.take(
                    crate::connection::MAX_WRITE_LENGTH as int,
                )
            }),
    {
        if tok == 0 || tok > self.slots.len() {
            return None;
        }
        match &self.slots[tok - 1] {
            None => None,
            Some(conn) => Some(conn.write_chunk()),
        }
    }

    /// One writable event's outcome: the write attempt accepted `n` bytes,
    /// which leave the pending buffer; what remains waits for the next
    /// writable event, and a drained connection turns back to reading.
    pub fn on_written(&mut self, tok: usize, n: usize) -> (r: EventOutcome)
        requires
            old(self).wf(),
        ensures
            final(self).wf(),
            final(self).capacity() == old(self).capacity(),
            !old(self).live(tok as int) ==> r is NotLive && final(self).slots@ == old(self).slots@,
            old(self).live(tok as int) ==> ({
                let p = old(self).conn_at(tok as int).pending();
                let k = if n <= p.len() {
                    n as int
                } else {
                    p.len() as int
                };
                &&& final(self).live(tok as int)
                &&& final(self).conn_at(tok as int).pending() == p.skip(k)
                &&& final(self).conn_at(tok as int).req() == old(self).conn_at(tok as int).req()
                &&& (final(self).conn_at(tok as int).awaiting_writable() <==> p.skip(k).len() > 0)
                &&& r == EventOutcome::Rearm(final(self).conn_at(tok as int).interest)
                &&& forall|j: int|
                    0 <= j < old(self).slots@.len() && j != tok - 1 ==> final(self).slots@[j]
                        == old(self).slots@[j]
            }),
    {
        if tok == 0 || tok > self.slots.len() {
            return EventOutcome::NotLive;
        }
        let k = tok - 1;
        proof {
            assert(old(self).slots@[k as int] matches Some(c) ==> c.wf());
        }
        let slot = crate::table::slot_mut(&mut self.slots, k);
        match slot {
            None => EventOutcome::NotLive,
            Some(conn) => {
                conn.advance_write(n);
                let next = conn.interest;
                EventOutcome::Rearm(next)
            },
        }
    }
}

} // verus!
