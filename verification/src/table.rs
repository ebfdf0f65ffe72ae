//! The bounded connection table: a fixed arena of slots, each holding one
//! live connection, addressed by stable tokens.  Token 0 names the listening
//! socket itself, so client connections get tokens 1 ..= capacity.  A slot is
//! reused only after its connection has been removed; when every slot is
//! taken, a freshly accepted connection is handed straight back to be closed,
//! and no existing entry is touched.
use vstd::prelude::*;
use crate::connection::Connection;

verus! {

/// How many connections may be live at once.
pub const MAX_CONCURRENT_CONNECTIONS: usize = 1024;

/// The token of the listening socket; never a client's.
pub const SERVER_TOKEN: usize = 0;

pub struct ConnTable {
    pub slots: Vec<Option<Connection>>,
}

/// A mutable view of one slot; writes through it are writes to the table.
pub(crate) fn slot_mut(slots: &mut Vec<Option<Connection>>, i: usize) -> (r: &mut Option<Connection>)
    requires
        i < old(slots)@.len(),
    ensures
        *r == old(slots)@[i as int],
        final(slots)@ == old(slots)@.update(i as int, *final(r)),
{
    &mut slots[i]
}

impl ConnTable {
    pub open spec fn capacity(&self) -> nat {
        self.slots@.len()
    }

    /// Whether `tok` names a live client connection.
    pub open spec fn live(&self, tok: int) -> bool {
        1 <= tok <= self.slots@.len() && self.slots@[tok - 1] is Some
    }

    /// The connection a live token names.
    pub open spec fn conn_at(&self, tok: int) -> Connection {
        match self.slots@[tok - 1] {
            Some(c) => c,
            None => vstd::pervasive::arbitrary(),
        }
    }

    /// Every slot below `tok`'s is taken (tokens are first-free-slot).
    pub open spec fn first_free(&self, tok: int) -> bool {
        forall|j: int| 0 <= j < tok - 1 ==> self.slots@[j] is Some
    }

    /// Every live connection's buffers and interest are consistent.
    pub open spec fn wf(&self) -> bool {
        forall|i: int|
            0 <= i < self.slots@.len() ==> (#[trigger] self.slots@[i] matches Some(c)
                ==> c.wf())
    }

    /// An empty table of `capacity` slots.
    pub fn new(capacity: usize) -> (t: ConnTable)
        ensures
            t.wf(),
            t.capacity() == capacity,
            forall|i: int| 0 <= i < capacity ==> t.slots@[i] is None,
    {
        let mut slots: Vec<Option<Connection>> = Vec::new();
        while slots.len() < capacity
            invariant
                slots@.len() <= capacity,
                forall|i: int| 0 <= i < slots@.len() ==> slots@[i] is None,
            decreases capacity - slots@.len(),
        {
            slots.push(None);
        }
        ConnTable { slots }
    }

    /// Stores a freshly accepted connection in the first free slot and
    /// returns its token.  When the table is at capacity the connection comes
    /// back unchanged, to be closed by the caller, and no slot is touched.
    pub fn try_accept(&mut self, c: Connection) -> (r: Result<usize, Connection>)
        requires
            old(self).wf(),
            c.wf(),
        ensures
            final(self).wf(),
            final(self).capacity() == old(self).capacity(),
            r matches Ok(tok) ==> {
                &&& 1 <= tok <= old(self).capacity()
                &&& !old(self).live(tok as int)
                &&& old(self).first_free(tok as int)
                &&& final(self).slots@ == old(self).slots@.update(tok - 1, Some(c))
            },
            r matches Err(back) ==> {
                &&& back == c
                &&& final(self).slots@ == old(self).slots@
                &&& forall|i: int| 0 <= i < old(self).capacity() ==> old(self).slots@[i] is Some
            },
    {
        let mut k: usize = 0;
        while k < self.slots.len()
            invariant
                old(self).wf(),
                c.wf(),
                self == old(self),
                k <= self.slots@.len(),
                forall|j: int| 0 <= j < k ==> self.slots@[j] is Some,
            decreases self.slots@.len() - k,
        {
            let free = match &self.slots[k] {
                None => true,
                Some(_) => false,
            };
            if free {
                let slot = slot_mut(&mut self.slots, k);
                *slot = Some(c);
                return Ok(k + 1);
            }
            k = k + 1;
        }
        Err(c)
    }

    /// Unhooks the connection a token names, freeing its slot for reuse.
    /// Safe to repeat: a second call on the same token, or one with a token
    /// that never was a client's, does nothing and says so.
    pub fn remove(&mut self, tok: usize) -> (was_live: bool)
        requires
            old(self).wf(),
        ensures
            final(self).wf(),
            final(self).capacity() == old(self).capacity(),
            was_live == old(self).live(tok as int),
            old(self).live(tok as int) ==> final(self).slots@ == old(self).slots@.update(
                tok - 1,
                None,
            ),
            !old(self).live(tok as int) ==> final(self).slots@ == old(self).slots@,
    {
        if tok == 0 || tok > self.slots.len() {
            return false;
        }
        let slot = slot_mut(&mut self.slots, tok - 1);
        let was_live = match slot {
            Some(_) => true,
            None => false,
        };
        *slot = None;
        proof {
            if !old(self).live(tok as int) {
                assert(final(self).slots@ =~= old(self).slots@);
            }
        }
        was_live
    }
}

} // verus!
