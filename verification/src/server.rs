//! The reactor: single owner of the buffer arena and the live-connection
//! table, driven by one kernel completion at a time.
//!
//! The unverified I/O shell around this library operates the kernel
//! submission/completion interface. Each time it pops a completion it hands
//! the verbatim routing token, the signed result code and the flags field to
//! `Server::handle_completion`, which decodes the token, advances the
//! addressed connection's state machine (or the accept handler), and returns
//! the single `Action` the shell must perform next. Every per-connection
//! failure — OS error, peer close, short write — destroys only that
//! connection and returns its buffer slot to the arena; an undecodable token
//! is an internal-invariant violation and demands an abort.

use crate::buffer::BufferPool;
use crate::client::{produce_response, Client, ClientState};
use crate::common::{decode, spec_decode, Id, Route};
use std::collections::HashMap;
use vstd::prelude::*;

verus! {

/// Whether a completion's flags announce that the same multi-shot submission
/// will yield further completions (the `IORING_CQE_F_MORE` bit).
pub open spec fn spec_more(flags: u32) -> bool {
    flags & 2u32 != 0
}

/// Relies on `io_uring::cqueue::more`: it returns whether the flags carry
/// `IORING_CQE_F_MORE`, whose value is 2, i.e. `flags & 2 != 0`.
pub assume_specification[ io_uring::cqueue::more ](flags: u32) -> (r: bool)
    ensures
        r == spec_more(flags),
;

/// What the I/O shell must do after one completion has been processed.
/// Exactly one action comes back per completion.
#[derive(Clone, Copy, Debug, PartialEq, Eq, Structural)]
pub enum Action {
    /// Nothing to submit or close (accept error, or a completion for a
    /// connection already reaped — the shell may log it).
    Ignore,
    /// Close the just-accepted socket: no buffer slot (or no fresh id) was
    /// available, so the connection is rejected outright.
    Reject { fd: i32 },
    /// Submit a fixed-buffer read for connection `id`, over the whole slot
    /// `buf_idx`, tagged `Route::ClientRead(id)`.
    SubmitRead { fd: i32, id: Id, buf_idx: u16 },
    /// Submit a fixed-buffer write of the first `len` bytes of slot
    /// `buf_idx`, tagged `Route::ClientWrite(id)`.
    SubmitWrite { fd: i32, id: Id, buf_idx: u16, len: u32 },
    /// The connection was destroyed: close its socket.
    Close { fd: i32 },
    /// The token was never produced by this reactor's encoder: abort rather
    /// than misroute.
    Abort,
}

/// The reactor state: the arena, the live table, the id counter, and whether
/// the multi-shot accept stream is still expected to continue.
pub struct Server {
    pub buffer_pool: BufferPool,
    pub clients: HashMap<Id, Client>,
    pub client_id_counter: Id,
    pub accept_active: bool,
}

/// The arena's configuration and contents are the same; only the free list
/// may differ.
pub open spec fn pool_contents_unchanged(pre: BufferPool, post: BufferPool) -> bool {
    &&& post.spec_count() == pre.spec_count()
    &&& post.spec_size() == pre.spec_size()
    &&& post.storage() == pre.storage()
}

/// The arena is entirely unchanged.
pub open spec fn pool_unchanged(pre: BufferPool, post: BufferPool) -> bool {
    &&& pool_contents_unchanged(pre, post)
    &&& post.free() == pre.free()
}

/// Everything except the accept-stream flag is unchanged.
pub open spec fn state_preserved(pre: Server, post: Server) -> bool {
    &&& pool_unchanged(pre.buffer_pool, post.buffer_pool)
    &&& post.clients@ == pre.clients@
    &&& post.client_id_counter == pre.client_id_counter
}

/// Nothing observable about the reactor changed.
pub open spec fn untouched(pre: Server, post: Server) -> bool {
    &&& state_preserved(pre, post)
    &&& post.accept_active == pre.accept_active
}

/// Connection `id` was destroyed: removed from the live table, its buffer
/// slot pushed back onto the free list (the free count grows by exactly
/// one), with everything else unchanged.
pub open spec fn destroyed(pre: Server, post: Server, id: Id) -> bool {
    &&& pre.clients@.contains_key(id)
    &&& post.clients@ == pre.clients@.remove(id)
    &&& post.buffer_pool.free() == pre.buffer_pool.free().push(
        pre.clients@[id].buffer.spec_idx(),
    )
    &&& pool_contents_unchanged(pre.buffer_pool, post.buffer_pool)
    &&& post.client_id_counter == pre.client_id_counter
    &&& post.accept_active == pre.accept_active
}

/// Effect of one accept completion. A negative result is an accept error:
/// logged by the shell, never fatal, nothing changes. Otherwise the result
/// is the new socket. With no free buffer slot (or the id space exhausted)
/// the socket is rejected immediately — no connection is created and the
/// live count does not grow. Otherwise a fresh id is assigned, a connection
/// owning the popped slot is inserted awaiting its first read, and that read
/// is submitted. The accept-stream flag drops as soon as one accept
/// completion arrives without `IORING_CQE_F_MORE`.
pub open spec fn accept_step(pre: Server, post: Server, result: i32, flags: u32, action: Action) -> bool {
    &&& post.accept_active == (pre.accept_active && spec_more(flags))
    &&& if result < 0 {
        &&& state_preserved(pre, post)
        &&& action == Action::Ignore
    } else {
        let fd = result;
        if pre.buffer_pool.free().len() == 0 || pre.client_id_counter == Id::MAX {
            &&& state_preserved(pre, post)
            &&& action == (Action::Reject { fd })
        } else {
            let id = pre.client_id_counter;
            let idx = pre.buffer_pool.free().last();
            &&& post.client_id_counter == id + 1
            &&& post.clients@ == pre.clients@.insert(id, post.clients@[id])
            &&& post.clients@[id].id == id
            &&& post.clients@[id].socket == fd
            &&& post.clients@[id].state == ClientState::AwaitingRead
            &&& post.clients@[id].buffer.spec_idx() == idx
            &&& post.buffer_pool.free() == pre.buffer_pool.free().drop_last()
            &&& pool_contents_unchanged(pre.buffer_pool, post.buffer_pool)
            &&& action == (Action::SubmitRead { fd, id, buf_idx: idx })
        }
    }
}

/// Effect of one read completion for connection `id`. An unknown id or a
/// connection not awaiting a read is ignored (already reaped). A negative
/// result (OS error), a zero result (peer closed), or a length beyond the
/// slot destroys the connection. A positive length `len` hands the received
/// prefix to the response collaborator, stores the response (the same bytes
/// — so the storage is unchanged) back in the slot, records `len` as the
/// expected write length, and submits exactly one write of length `len`.
pub open spec fn read_step(pre: Server, post: Server, id: Id, result: i32, action: Action) -> bool {
    if !pre.clients@.contains_key(id) || pre.clients@[id].state != ClientState::AwaitingRead {
        &&& untouched(pre, post)
        &&& action == Action::Ignore
    } else {
        let c = pre.clients@[id];
        if result <= 0 || result as int > pre.buffer_pool.spec_size() as int {
            &&& destroyed(pre, post, id)
            &&& action == (Action::Close { fd: c.socket })
        } else {
            let len = result as u32;
            &&& post.clients@ == pre.clients@.insert(id, post.clients@[id])
            &&& post.clients@[id].id == c.id
            &&& post.clients@[id].socket == c.socket
            &&& post.clients@[id].buffer == c.buffer
            &&& post.clients@[id].state == (ClientState::AwaitingWrite { expected: len })
            &&& pool_unchanged(pre.buffer_pool, post.buffer_pool)
            &&& post.client_id_counter == pre.client_id_counter
            &&& post.accept_active == pre.accept_active
            &&& action == (Action::SubmitWrite {
                fd: c.socket,
                id,
                buf_idx: c.buffer.spec_idx(),
                len,
            })
        }
    }
}

/// Effect of one write completion for connection `id`. An unknown id or a
/// connection not awaiting a write is ignored. A result confirming exactly
/// the recorded expected length resubmits a read and returns the connection
/// to `AwaitingRead`; anything else — error, peer close, or a short write —
/// destroys the connection without submitting another read.
pub open spec fn write_step(pre: Server, post: Server, id: Id, result: i32, action: Action) -> bool {
    if !pre.clients@.contains_key(id) || !(pre.clients@[id].state matches
        ClientState::AwaitingWrite { .. }) {
        &&& untouched(pre, post)
        &&& action == Action::Ignore
    } else {
        let c = pre.clients@[id];
        if result > 0 && c.state == (ClientState::AwaitingWrite { expected: result as u32 }) {
            &&& post.clients@ == pre.clients@.insert(id, post.clients@[id])
            &&& post.clients@[id].id == c.id
            &&& post.clients@[id].socket == c.socket
            &&& post.clients@[id].buffer == c.buffer
            &&& post.clients@[id].state == ClientState::AwaitingRead
            &&& pool_unchanged(pre.buffer_pool, post.buffer_pool)
            &&& post.client_id_counter == pre.client_id_counter
            &&& post.accept_active == pre.accept_active
            &&& action == (Action::SubmitRead { fd: c.socket, id, buf_idx: c.buffer.spec_idx() })
        } else {
            &&& destroyed(pre, post, id)
            &&& action == (Action::Close { fd: c.socket })
        }
    }
}

/// Law: an accept completion that admits a connection adds exactly one entry
/// to the live table, keyed by the fresh id, and consumes exactly one buffer
/// slot; on the rejection and error paths the live table and the free list
/// do not change at all (so pool exhaustion never creates a connection).
pub proof fn lemma_accept_counts(pre: Server, post: Server, result: i32, flags: u32, action: Action)
    requires
        pre.wf(),
        accept_step(pre, post, result, flags, action),
    ensures
        (result >= 0 && pre.buffer_pool.free().len() > 0 && pre.client_id_counter != Id::MAX)
            ==> {
            &&& post.clients@.len() == pre.clients@.len() + 1
            &&& post.clients@.contains_key(pre.client_id_counter)
            &&& post.buffer_pool.free().len() == pre.buffer_pool.free().len() - 1
        },
        (result < 0 || pre.buffer_pool.free().len() == 0 || pre.client_id_counter == Id::MAX)
            ==> {
            &&& post.clients@ == pre.clients@
            &&& post.buffer_pool.free() == pre.buffer_pool.free()
        },
{
    if result >= 0 && pre.buffer_pool.free().len() > 0 && pre.client_id_counter != Id::MAX {
        let id = pre.client_id_counter;
        if pre.clients@.contains_key(id) {
            assert(pre.client_wf(id));
        }
        assert(pre.clients@.dom().finite());
        assert(post.clients@.dom() == pre.clients@.dom().insert(id));
    }
}

/// Law: destroying a connection removes exactly one entry from the live
/// table and returns exactly one slot to the free list.
pub proof fn lemma_destroyed_counts(pre: Server, post: Server, id: Id)
    requires
        destroyed(pre, post, id),
    ensures
        post.buffer_pool.free().len() == pre.buffer_pool.free().len() + 1,
        post.clients@.len() == pre.clients@.len() - 1,
        !post.clients@.contains_key(id),
{
    assert(pre.clients@.dom().finite());
    assert(post.clients@.dom() == pre.clients@.dom().remove(id));
}

/// Destroying one connection preserves the reactor invariant: the survivors'
/// slots are distinct from the slot just pushed back on the free list.
proof fn lemma_wf_after_destroy(pre: Server, post: Server, id: Id)
    requires
        pre.wf(),
        pre.clients@.contains_key(id),
        post.clients@ == pre.clients@.remove(id),
        post.buffer_pool.wf(),
        post.buffer_pool.free() == pre.buffer_pool.free().push(
            pre.clients@[id].buffer.spec_idx(),
        ),
        pool_contents_unchanged(pre.buffer_pool, post.buffer_pool),
        post.client_id_counter == pre.client_id_counter,
    ensures
        post.wf(),
{
    let gone = pre.clients@[id].buffer.spec_idx();
    assert forall|k: Id| #[trigger] post.clients@.contains_key(k) implies post.client_wf(k) by {
        assert(pre.clients@.contains_key(k));
        assert(pre.client_wf(k));
        let kidx = pre.clients@[k].buffer.spec_idx();
        assert(kidx != gone);
        if post.buffer_pool.free().contains(kidx) {
            let w = choose|w: int|
                0 <= w < post.buffer_pool.free().len() && post.buffer_pool.free()[w] == kidx;
            assert(pre.buffer_pool.free()[w] == kidx);
            assert(pre.buffer_pool.free().contains(kidx));
        }
    }
    assert forall|a: Id, b: Id|
        post.clients@.contains_key(a) && post.clients@.contains_key(b) && a != b implies post.clients@[a].buffer.spec_idx()
        != post.clients@[b].buffer.spec_idx() by {
        assert(pre.clients@.contains_key(a));
        assert(pre.clients@.contains_key(b));
    }
}

/// Replacing one connection's state (same id, same buffer guard) preserves
/// the reactor invariant when the arena is untouched.
proof fn lemma_wf_after_update(pre: Server, post: Server, id: Id)
    requires
        pre.wf(),
        pre.clients@.contains_key(id),
        post.clients@ == pre.clients@.insert(id, post.clients@[id]),
        post.clients@[id].id == id,
        post.clients@[id].buffer == pre.clients@[id].buffer,
        pool_unchanged(pre.buffer_pool, post.buffer_pool),
        post.client_id_counter == pre.client_id_counter,
    ensures
        post.wf(),
{
    assert forall|k: Id| #[trigger] post.clients@.contains_key(k) implies post.client_wf(k) by {
        assert(pre.clients@.contains_key(k));
        assert(pre.client_wf(k));
    }
    assert forall|a: Id, b: Id|
        post.clients@.contains_key(a) && post.clients@.contains_key(b) && a != b implies post.clients@[a].buffer.spec_idx()
        != post.clients@[b].buffer.spec_idx() by {
        assert(pre.clients@.contains_key(a));
        assert(pre.clients@.contains_key(b));
    }
}

impl Server {
    /// One live connection's place in the invariant: it is keyed by its own
    /// id, that id was assigned by the counter, and its buffer slot is in
    /// range and not on the free list.
    pub open spec fn client_wf(&self, id: Id) -> bool {
        let c = self.clients@[id];
        &&& c.id == id
        &&& id < self.client_id_counter
        &&& c.buffer.spec_idx() < self.buffer_pool.spec_count()
        &&& !self.buffer_pool.free().contains(c.buffer.spec_idx())
    }

    /// Reactor invariant: the arena is well formed, every live connection is
    /// well formed, and no two live connections hold the same buffer slot —
    /// live guards own disjoint byte ranges.
    pub open spec fn wf(&self) -> bool {
        &&& self.buffer_pool.wf()
        &&& forall|id: Id| #[trigger] self.clients@.contains_key(id) ==> self.client_wf(id)
        &&& forall|a: Id, b: Id|
            #![trigger self.clients@.contains_key(a), self.clients@.contains_key(b)]
            self.clients@.contains_key(a) && self.clients@.contains_key(b) && a != b
                ==> self.clients@[a].buffer.spec_idx() != self.clients@[b].buffer.spec_idx()
    }

    /// A fresh reactor: a zeroed arena with every slot free, no live
    /// connections, ids starting at zero, accept stream expected to run.
    pub fn new(buffer_count: u16, buffer_size: u32) -> (server: Server)
        requires
            buffer_count as int * buffer_size as int <= usize::MAX as int,
        ensures
            server.wf(),
            server.buffer_pool.spec_count() == buffer_count,
            server.buffer_pool.spec_size() == buffer_size,
            server.buffer_pool.free() == Seq::new(buffer_count as nat, |i: int| i as u16),
            server.buffer_pool.free().len() == buffer_count,
            server.buffer_pool.storage() == Seq::new(
                (buffer_count as int * buffer_size as int) as nat,
                |i: int| 0u8,
            ),
            server.clients@ == Map::<Id, Client>::empty(),
            server.client_id_counter == 0,
            server.accept_active,
    {
        Server {
            buffer_pool: BufferPool::new(buffer_count, buffer_size),
            clients: HashMap::new(),
            client_id_counter: 0,
            accept_active: true,
        }
    }

    /// Process one completion of the multi-shot accept stream. A negative
    /// result is an accept error and changes nothing; otherwise the result
    /// is the new socket, admitted only if a buffer slot and a fresh id are
    /// available, rejected immediately otherwise (no queueing).
    pub fn handle_accept(&mut self, result: i32, flags: u32) -> (action: Action)
        requires
            old(self).wf(),
        ensures
            final(self).wf(),
            accept_step(*old(self), *final(self), result, flags, action),
    {
        let keep = io_uring::cqueue::more(flags);
        self.accept_active = self.accept_active && keep;
        if result < 0 {
            return Action::Ignore;
        }
        let fd = result;
        if self.client_id_counter == Id::MAX {
            return Action::Reject { fd };
        }
        match self.buffer_pool.acquire() {
            Option::None => Action::Reject { fd },
            Option::Some(guard) => {
                let ghost pre = *old(self);
                let id = self.client_id_counter;
                self.client_id_counter = id + 1;
                let idx = guard.idx();
                let client = Client::new(id, fd, guard);
                self.clients.insert(id, client);
                proof {
                    let post = *self;
                    let m0 = pre.clients@;
                    let m1 = post.clients@;
                    assert(m1 == m0.insert(id, client));
                    assert forall|k: Id| #[trigger] m1.contains_key(k) implies post.client_wf(
                        k,
                    ) by {
                        if k != id {
                            assert(m0.contains_key(k));
                            assert(pre.client_wf(k));
                            let kidx = m0[k].buffer.spec_idx();
                            if post.buffer_pool.free().contains(kidx) {
                                let w = choose|w: int|
                                    0 <= w < post.buffer_pool.free().len()
                                        && post.buffer_pool.free()[w] == kidx;
                                assert(pre.buffer_pool.free()[w] == kidx);
                                assert(pre.buffer_pool.free().contains(kidx));
                            }
                        }
                    }
                    let lastpos = pre.buffer_pool.free().len() - 1;
                    assert(pre.buffer_pool.free()[lastpos] == idx);
                    assert(pre.buffer_pool.free().contains(idx));
                    assert forall|a: Id, b: Id|
                        m1.contains_key(a) && m1.contains_key(b) && a != b implies m1[a].buffer.spec_idx()
                        != m1[b].buffer.spec_idx() by {
                        if a == id {
                            assert(m0.contains_key(b));
                            assert(pre.client_wf(b));
                        } else if b == id {
                            assert(m0.contains_key(a));
                            assert(pre.client_wf(a));
                        } else {
                            assert(m0.contains_key(a));
                            assert(m0.contains_key(b));
                        }
                    }
                }
                Action::SubmitRead { fd, id, buf_idx: idx }
            },
        }
    }

    /// Process a read completion for connection `id`: destroy the connection
    /// on error or peer close, otherwise echo — store the collaborator's
    /// response over the received bytes and submit exactly one write of the
    /// received length, remembering it as the expected write length.
    pub fn handle_read(&mut self, id: Id, result: i32) -> (action: Action)
        requires
            old(self).wf(),
        ensures
            final(self).wf(),
            read_step(*old(self), *final(self), id, result, action),
    {
        let ghost pre = *old(self);
        let mut c = match self.clients.remove(&id) {
            Option::None => {
                proof {
                    assert(self.clients@ =~= pre.clients@);
                }
                return Action::Ignore;
            },
            Option::Some(c) => c,
        };
        let is_reading = match c.state {
            ClientState::AwaitingRead => true,
            ClientState::AwaitingWrite { .. } => false,
        };
        if !is_reading {
            self.clients.insert(id, c);
            proof {
                assert(self.clients@ =~= pre.clients@);
            }
            return Action::Ignore;
        }
        proof {
            assert(pre.clients@.contains_key(id));
            assert(pre.client_wf(id));
        }
        if result <= 0 || (result as u32) > self.buffer_pool.size() {
            let fd = c.socket;
            self.buffer_pool.release(c.buffer);
            proof {
                lemma_wf_after_destroy(pre, *self, id);
            }
            return Action::Close { fd };
        }
        let len = result as u32;
        let buf_idx = c.buffer.idx();
        let received = self.buffer_pool.slot_prefix(buf_idx, len);
        let response = produce_response(&received);
        proof {
            crate::buffer::lemma_slot_in_storage(
                buf_idx as int,
                self.buffer_pool.spec_count() as int,
                self.buffer_pool.spec_size() as int,
            );
        }
        self.buffer_pool.write_slot(buf_idx, &response);
        proof {
            let start = pre.buffer_pool.slot_start(buf_idx);
            assert forall|j: int|
                0 <= j < self.buffer_pool.storage().len() implies self.buffer_pool.storage()[j]
                == pre.buffer_pool.storage()[j] by {
                if start <= j < start + len as int {
                    assert(self.buffer_pool.storage()[start + (j - start)] == response@[j - start]);
                    assert(received@[j - start] == pre.buffer_pool.storage().subrange(
                        start,
                        start + len as int,
                    )[j - start]);
                }
            }
            assert(self.buffer_pool.storage() =~= pre.buffer_pool.storage());
        }
        c.state = ClientState::AwaitingWrite { expected: len };
        let socket = c.socket;
        self.clients.insert(id, c);
        proof {
            assert(self.clients@ =~= pre.clients@.insert(id, self.clients@[id]));
            lemma_wf_after_update(pre, *self, id);
        }
        Action::SubmitWrite { fd: socket, id, buf_idx, len }
    }

    /// Process a write completion for connection `id`: an exact-length
    /// confirmation resubmits a read; an error, a peer close, or a length
    /// mismatch (a partial write is never retried) destroys the connection.
    pub fn handle_write(&mut self, id: Id, result: i32) -> (action: Action)
        requires
            old(self).wf(),
        ensures
            final(self).wf(),
            write_step(*old(self), *final(self), id, result, action),
    {
        let ghost pre = *old(self);
        let mut c = match self.clients.remove(&id) {
            Option::None => {
                proof {
                    assert(self.clients@ =~= pre.clients@);
                }
                return Action::Ignore;
            },
            Option::Some(c) => c,
        };
        let expected = match c.state {
            ClientState::AwaitingWrite { expected } => expected,
            ClientState::AwaitingRead => {
                self.clients.insert(id, c);
                proof {
                    assert(self.clients@ =~= pre.clients@);
                }
                return Action::Ignore;
            },
        };
        proof {
            assert(pre.clients@.contains_key(id));
            assert(pre.client_wf(id));
        }
        if result > 0 && (result as u32) == expected {
            c.state = ClientState::AwaitingRead;
            let socket = c.socket;
            let buf_idx = c.buffer.idx();
            self.clients.insert(id, c);
            proof {
                assert(self.clients@ =~= pre.clients@.insert(id, self.clients@[id]));
                lemma_wf_after_update(pre, *self, id);
            }
            Action::SubmitRead { fd: socket, id, buf_idx }
        } else {
            let fd = c.socket;
            self.buffer_pool.release(c.buffer);
            proof {
                lemma_wf_after_destroy(pre, *self, id);
            }
            Action::Close { fd }
        }
    }

    /// Decode one completion's routing token and dispatch it. `None` from
    /// the decoder means a token this reactor never submitted — the shell
    /// must abort rather than let a completion be misrouted.
    pub fn handle_completion(&mut self, token: u64, result: i32, flags: u32) -> (action: Action)
        requires
            old(self).wf(),
        ensures
            final(self).wf(),
            match spec_decode(token) {
                Some(Route::Accept) => accept_step(*old(self), *final(self), result, flags, action),
                Some(Route::ClientRead(id)) => read_step(*old(self), *final(self), id, result, action),
                Some(Route::ClientWrite(id)) => write_step(
                    *old(self),
                    *final(self),
                    id,
                    result,
                    action,
                ),
                None => untouched(*old(self), *final(self)) && action == Action::Abort,
            },
    {
        match decode(token) {
            Option::Some(Route::Accept) => self.handle_accept(result, flags),
            Option::Some(Route::ClientRead(id)) => self.handle_read(id, result),
            Option::Some(Route::ClientWrite(id)) => self.handle_write(id, result),
            Option::None => Action::Abort,
        }
    }

    /// Number of live connections.
    pub fn live_count(&self) -> (n: usize)
        ensures
            n == self.clients@.len(),
    {
        self.clients.len()
    }
}

} // verus!
