//! One client connection's read/write state machine: the accumulated request
//! bytes, the pending response bytes, and the single readiness interest the
//! reactor should watch next.  All socket work happens outside; these methods
//! only decide how the buffers and the interest change.
use vstd::prelude::*;
use crate::framing::{msgs_of, rest_of, extract_messages};

verus! {

/// Most bytes a single write attempt may be offered, so one large response
/// cannot monopolise the event loop.
pub const MAX_WRITE_LENGTH: usize = 8192;

/// Which readiness a connection waits for next.  The protocol is strictly
/// half-duplex per turn, so a connection never waits for both at once; hangup
/// is always watched besides.
#[derive(Clone, Copy, Debug, PartialEq, Eq, Structural)]
pub enum Interest {
    Readable,
    Writable,
}

pub struct Connection {
    /// Bytes received but not yet framed into complete messages.
    pub request: Vec<u8>,
    /// Response bytes awaiting transmission; present iff a response is queued.
    pub write_buf: Option<Vec<u8>>,
    /// The readiness the reactor should watch for this connection.
    pub interest: Interest,
}

impl Connection {
    /// The not-yet-framed request bytes.
    pub open spec fn req(&self) -> Seq<u8> {
        self.request@
    }

    /// The response bytes still owed to the client.
    pub open spec fn pending(&self) -> Seq<u8> {
        match self.write_buf {
            Some(b) => b@,
            None => Seq::empty(),
        }
    }

    pub open spec fn awaiting_writable(&self) -> bool {
        self.interest is Writable
    }

    /// A write buffer exists exactly while a response is owed, and then the
    /// connection waits for writability; otherwise it waits for more input.
    pub open spec fn wf(&self) -> bool {
        &&& (self.write_buf is Some <==> self.interest is Writable)
        &&& (self.write_buf matches Some(b) ==> b@.len() > 0)
    }

    pub fn new() -> (c: Connection)
        ensures
            c.wf(),
            c.req() == Seq::<u8>::empty(),
            c.pending() == Seq::<u8>::empty(),
            !c.awaiting_writable(),
    {
        Connection { request: Vec::new(), write_buf: None, interest: Interest::Readable }
    }

    /// Takes the bytes of one read, appends them to the accumulated request,
    /// and hands back every message they complete, in arrival order; the
    /// bytes of a still-incomplete trailing message are retained for the next
    /// read.
    pub fn ingest(&mut self, data: Vec<u8>) -> (msgs: Vec<Vec<u8>>)
        requires
            old(self).wf(),
            !old(self).awaiting_writable(),
        ensures
            final(self).wf(),
            msgs.deep_view() == msgs_of(old(self).req() + data@),
            final(self).req() == rest_of(old(self).req() + data@),
            final(self).pending() == old(self).pending(),
            !final(self).awaiting_writable(),
    {
        let mut data = data;
        self.request.append(&mut data);
        let (msgs, rest) = extract_messages(&self.request);
        self.request = rest;
        msgs
    }

    /// Queues one batch's concatenated responses.  An empty batch queues
    /// nothing and the connection keeps reading; otherwise it turns to wait
    /// for writability.
    pub fn queue_responses(&mut self, out: Vec<u8>)
        requires
            old(self).wf(),
            !old(self).awaiting_writable(),
        ensures
            final(self).wf(),
            final(self).req() == old(self).req(),
            out@.len() == 0 ==> final(self).pending() == Seq::<u8>::empty()
                && !final(self).awaiting_writable(),
            out@.len() > 0 ==> final(self).pending() == out@
                && final(self).awaiting_writable(),
    {
        if out.len() > 0 {
            self.write_buf = Some(out);
            self.interest = Interest::Writable;
        }
    }

    /// The bytes to offer to the next write attempt: the whole pending buffer
    /// if it is small enough, else only its first `MAX_WRITE_LENGTH` bytes.
    pub fn write_chunk(&self) -> (chunk: Vec<u8>)
        ensures
            self.pending().len() <= MAX_WRITE_LENGTH ==> chunk@ == self.pending(),
            self.pending().len() > MAX_WRITE_LENGTH
                ==> chunk@ == self.pending().take(MAX_WRITE_LENGTH as int),
    {
        match &self.write_buf {
            None => Vec::new(),
            Some(buf) => {
                if buf.len() <= MAX_WRITE_LENGTH {
                    vstd::slice::slice_to_vec(buf.as_slice())
                } else {
                    let chunk = vstd::slice::slice_to_vec(
                        vstd::slice::slice_subrange(buf.as_slice(), 0, MAX_WRITE_LENGTH));
                    proof {
                        assert(self.pending().take(MAX_WRITE_LENGTH as int)
                            =~= buf@.subrange(0, MAX_WRITE_LENGTH as int));
                    }
                    chunk
                }
            },
        }
    }

    /// Records that the write attempt accepted `n` bytes: exactly those bytes
    /// leave the pending buffer, the remainder is retained for the next
    /// writable event, and a fully drained connection goes back to reading.
    pub fn advance_write(&mut self, n: usize)
        ensures
            final(self).wf(),
            final(self).req() == old(self).req(),
            ({
                let k = if n <= old(self).pending().len() {
                    n as int
                } else {
                    old(self).pending().len() as int
                };
                final(self).pending() == old(self).pending().skip(k)
            }),
            final(self).awaiting_writable() <==> final(self).pending().len() > 0,
    {
        let rem: Vec<u8> = match &self.write_buf {
            None => Vec::new(),
            Some(buf) => {
                let k = if n <= buf.len() { n } else { buf.len() };
                vstd::slice::slice_to_vec(
                    vstd::slice::slice_subrange(buf.as_slice(), k, buf.len()))
            },
        };
        if rem.len() > 0 {
            self.write_buf = Some(rem);
            self.interest = Interest::Writable;
        } else {
            self.write_buf = None;
            self.interest = Interest::Readable;
        }
    }
}

/// A response longer than one chunk reaches the client byte for byte, with no
/// duplication or loss, however the kernel splits the accepted counts: the
/// bytes taken by two successive write attempts are exactly the next
/// `n1 + n2` bytes of the buffer, in order.
pub proof fn lemma_write_resumption(p: Seq<u8>, n1: int, n2: int)
    requires
        0 <= n1,
        0 <= n2,
        n1 + n2 <= p.len(),
    ensures
        p.take(n1) + p.skip(n1).take(n2) == p.take(n1 + n2),
{
    assert(p.take(n1) + p.skip(n1).take(n2) =~= p.take(n1 + n2));
}

} // verus!
