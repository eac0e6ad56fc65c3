//! Connection registry and readiness-driven I/O driver.
//!
//! The registry owns one record per live connection — identifier, inbound
//! chunk queue, outbound chunk queue — keyed by a small integer identifier
//! that is never reused while the registry lives.  The driver drains each
//! readable or writable event to exhaustion: reads accumulate into one new
//! inbound chunk until the source suspends, and writes flush outbound chunks
//! front-first until the queue is empty or the sink suspends.

use vstd::prelude::*;

use crate::chunks::{chunk_views, concat_bytes};
use crate::ports::{ByteSink, ByteSource, ReadOutcome, WriteOutcome};

verus! {

/// Why the multiplexer refused a dispatch.
#[derive(Clone, Copy, Debug, PartialEq, Eq, Structural)]
pub enum MuxError {
    /// A readiness event named an identifier with no registered connection.
    UnknownToken,
}

/// How a write drain ended: the buffer was fully flushed, or the sink
/// suspended with bytes still pending.
#[derive(Clone, Copy, Debug, PartialEq, Eq, Structural)]
pub enum DrainOutcome {
    Flushed,
    Suspended,
}

/// Per-connection state: a stable identifier and the two chunk queues.
pub struct Connection {
    pub id: usize,
    pub inbound: Vec<Vec<u8>>,
    pub outbound: Vec<Vec<u8>>,
}

/// The connection registry: exactly one record per live identifier, and
/// identifiers are never reused while the registry lives.
pub struct Registry {
    conns: Vec<Connection>,
    next_id: usize,
}

impl Registry {
    /// Identifiers are unique among live connections and all below the next
    /// identifier to be handed out.
    pub closed spec fn wf(self) -> bool {
        (forall|i: int, j: int|
            0 <= i < self.conns@.len() && 0 <= j < self.conns@.len() && i != j
                ==> self.conns@[i].id != self.conns@[j].id) && (forall|i: int|
            0 <= i < self.conns@.len() ==> self.conns@[i].id < self.next_id)
    }

    /// Whether a live connection has this identifier.
    pub closed spec fn contains_id(self, id: usize) -> bool {
        exists|i: int| 0 <= i < self.conns@.len() && self.conns@[i].id == id
    }

    /// How many connections are live.
    pub closed spec fn count(self) -> nat {
        self.conns@.len()
    }

    /// The identifier space is used up: no fresh identifier is left to hand
    /// out without reusing one.
    pub closed spec fn exhausted(self) -> bool {
        self.next_id == usize::MAX
    }

    spec fn idx_of(self, id: usize) -> int {
        choose|i: int| 0 <= i < self.conns@.len() && self.conns@[i].id == id
    }

    /// The inbound chunk queue of the connection with this identifier.
    pub closed spec fn inbound_of(self, id: usize) -> Seq<Seq<u8>> {
        chunk_views(self.conns@[self.idx_of(id)].inbound@)
    }

    /// The outbound chunk queue of the connection with this identifier.
    pub closed spec fn outbound_of(self, id: usize) -> Seq<Seq<u8>> {
        chunk_views(self.conns@[self.idx_of(id)].outbound@)
    }

    /// The connection with this identifier is equally present in `pre` and
    /// `post`, with the same queues.
    pub open spec fn same_conn(pre: Registry, post: Registry, id: usize) -> bool {
        post.contains_id(id) == pre.contains_id(id) && (pre.contains_id(id)
            ==> post.inbound_of(id) == pre.inbound_of(id) && post.outbound_of(id)
            == pre.outbound_of(id))
    }

    proof fn lemma_idx_of(self, id: usize)
        requires
            self.wf(),
            self.contains_id(id),
        ensures
            0 <= self.idx_of(id) < self.conns@.len(),
            self.conns@[self.idx_of(id)].id == id,
            forall|j: int|
                0 <= j < self.conns@.len() && self.conns@[j].id == id ==> j == self.idx_of(id),
    {
        let i = self.idx_of(id);
        assert(0 <= i < self.conns@.len() && self.conns@[i].id == id);
    }

    /// An empty registry; the listener holds identifier zero, so connection
    /// identifiers start at one.
    pub fn new() -> (r: Registry)
        ensures
            r.wf(),
            r.count() == 0,
            !r.exhausted(),
            forall|id: usize| !r.contains_id(id),
    {
        Registry { conns: Vec::new(), next_id: 1 }
    }

    /// How many connections are live.
    pub fn len(&self) -> (r: usize)
        ensures
            r == self.count(),
    {
        self.conns.len()
    }

    /// Whether a live connection has this identifier.
    pub fn contains(&self, id: usize) -> (r: bool)
        ensures
            r == self.contains_id(id),
    {
        match self.find_index(id) {
            Some(_) => true,
            None => false,
        }
    }

    proof fn lemma_reg_push(pre: Registry, post: Registry, c: Connection)
        requires
            pre.wf(),
            c.id == pre.next_id,
            pre.next_id < usize::MAX,
            post.conns@ == pre.conns@.push(c),
            post.next_id == pre.next_id + 1,
        ensures
            post.wf(),
            post.contains_id(c.id),
            !pre.contains_id(c.id),
            post.inbound_of(c.id) == chunk_views(c.inbound@),
            post.outbound_of(c.id) == chunk_views(c.outbound@),
            forall|o: usize| o != c.id ==> Registry::same_conn(pre, post, o),
            post.count() == pre.count() + 1,
    {
        let n = pre.conns@.len() as int;
        assert(post.conns@[n] == c);
        assert(forall|i: int| 0 <= i < n ==> post.conns@[i] == pre.conns@[i]);
        assert(post.wf());
        assert(post.contains_id(c.id));
        post.lemma_idx_of(c.id);
        assert forall|o: usize| o != c.id implies Registry::same_conn(pre, post, o) by {
            if pre.contains_id(o) {
                pre.lemma_idx_of(o);
                let i = pre.idx_of(o);
                assert(post.conns@[i].id == o);
                assert(post.contains_id(o));
                post.lemma_idx_of(o);
                assert(post.idx_of(o) == i);
            } else {
                if post.contains_id(o) {
                    let i = choose|i: int|
                        0 <= i < post.conns@.len() && post.conns@[i].id == o;
                    assert(i != n);
                    assert(pre.conns@[i].id == o);
                }
            }
        }
    }

    proof fn lemma_reg_remove(pre: Registry, post: Registry, i: int)
        requires
            pre.wf(),
            0 <= i < pre.conns@.len(),
            post.conns@ == pre.conns@.remove(i),
            post.next_id == pre.next_id,
        ensures
            post.wf(),
            pre.contains_id(pre.conns@[i].id),
            !post.contains_id(pre.conns@[i].id),
            pre.inbound_of(pre.conns@[i].id) == chunk_views(pre.conns@[i].inbound@),
            pre.outbound_of(pre.conns@[i].id) == chunk_views(pre.conns@[i].outbound@),
            forall|o: usize| o != pre.conns@[i].id ==> Registry::same_conn(pre, post, o),
            post.count() == pre.count() - 1,
    {
        let cid = pre.conns@[i].id;
        assert(forall|j: int| 0 <= j < i ==> post.conns@[j] == pre.conns@[j]);
        assert(forall|j: int|
            i <= j < post.conns@.len() ==> post.conns@[j] == pre.conns@[j + 1]);
        assert(post.wf());
        assert(pre.contains_id(cid));
        pre.lemma_idx_of(cid);
        assert(pre.idx_of(cid) == i);
        assert forall|j: int| 0 <= j < post.conns@.len() implies post.conns@[j].id != cid by {
            if j < i {
                assert(post.conns@[j] == pre.conns@[j]);
            } else {
                assert(post.conns@[j] == pre.conns@[j + 1]);
            }
        }
        assert forall|o: usize| o != cid implies Registry::same_conn(pre, post, o) by {
            if pre.contains_id(o) {
                pre.lemma_idx_of(o);
                let j = pre.idx_of(o);
                assert(j != i);
                let j2: int = if j < i { j } else { j - 1 };
                assert(post.conns@[j2] == pre.conns@[j]);
                assert(post.contains_id(o));
                post.lemma_idx_of(o);
                assert(post.idx_of(o) == j2);
            } else {
                if post.contains_id(o) {
                    let j2 = choose|j2: int|
                        0 <= j2 < post.conns@.len() && post.conns@[j2].id == o;
                    if j2 < i {
                        assert(pre.conns@[j2].id == o);
                    } else {
                        assert(pre.conns@[j2 + 1].id == o);
                    }
                }
            }
        }
    }

    proof fn lemma_reg_update(pre: Registry, post: Registry, i: int, c: Connection)
        requires
            pre.wf(),
            0 <= i < pre.conns@.len(),
            c.id == pre.conns@[i].id,
            post.conns@ == pre.conns@.update(i, c),
            post.next_id == pre.next_id,
        ensures
            post.wf(),
            pre.contains_id(c.id),
            post.contains_id(c.id),
            pre.inbound_of(c.id) == chunk_views(pre.conns@[i].inbound@),
            pre.outbound_of(c.id) == chunk_views(pre.conns@[i].outbound@),
            post.inbound_of(c.id) == chunk_views(c.inbound@),
            post.outbound_of(c.id) == chunk_views(c.outbound@),
            forall|o: usize| o != c.id ==> Registry::same_conn(pre, post, o),
            post.count() == pre.count(),
    {
        assert(post.conns@[i] == c);
        assert(forall|j: int|
            0 <= j < pre.conns@.len() && j != i ==> post.conns@[j] == pre.conns@[j]);
        assert(post.wf());
        assert(pre.contains_id(c.id));
        assert(post.contains_id(c.id));
        pre.lemma_idx_of(c.id);
        post.lemma_idx_of(c.id);
        assert(pre.idx_of(c.id) == i);
        assert(post.idx_of(c.id) == i);
        assert forall|o: usize| o != c.id implies Registry::same_conn(pre, post, o) by {
            if pre.contains_id(o) {
                pre.lemma_idx_of(o);
                let j = pre.idx_of(o);
                assert(j != i);
                assert(post.conns@[j].id == o);
                assert(post.contains_id(o));
                post.lemma_idx_of(o);
                assert(post.idx_of(o) == j);
            } else {
                if post.contains_id(o) {
                    let j = choose|j: int|
                        0 <= j < post.conns@.len() && post.conns@[j].id == o;
                    assert(j != i);
                    assert(pre.conns@[j].id == o);
                }
            }
        }
    }

    fn find_index(&self, id: usize) -> (r: Option<usize>)
        ensures
            match r {
                Some(i) => i < self.conns@.len() && self.conns@[i as int].id == id
                    && self.contains_id(id),
                None => !self.contains_id(id),
            },
    {
        let mut i: usize = 0;
        while i < self.conns.len()
            invariant
                i <= self.conns@.len(),
                forall|j: int| 0 <= j < i ==> self.conns@[j].id != id,
            decreases self.conns@.len() - i,
        {
            if self.conns[i].id == id {
                return Some(i);
            }
            i = i + 1;
        }
        None
    }
    /// Registers a fresh connection with empty queues and returns its
    /// identifier, which no live connection shares and none ever reuses.
    /// `None` only once the identifier space is exhausted.
    pub fn register(&mut self) -> (r: Option<usize>)
        requires
            old(self).wf(),
        ensures
            final(self).wf(),
            match r {
                Some(id) => !old(self).contains_id(id) && final(self).contains_id(id)
                    && final(self).inbound_of(id) == Seq::<Seq<u8>>::empty()
                    && final(self).outbound_of(id) == Seq::<Seq<u8>>::empty()
                    && (forall|o: usize|
                        o != id ==> Registry::same_conn(*old(self), *final(self), o))
                    && final(self).count() == old(self).count() + 1,
                None => old(self).exhausted() && *final(self) == *old(self),
            },
    {
        if self.next_id == usize::MAX {
            return None;
        }
        let id = self.next_id;
        let ghost pre = *self;
        let c = Connection { id, inbound: Vec::new(), outbound: Vec::new() };
        let ghost cg = c;
        self.next_id = self.next_id + 1;
        self.conns.push(c);
        proof {
            Registry::lemma_reg_push(pre, *self, cg);
            assert(chunk_views(cg.inbound@) =~= Seq::<Seq<u8>>::empty());
            assert(chunk_views(cg.outbound@) =~= Seq::<Seq<u8>>::empty());
        }
        Some(id)
    }

    /// Removes the connection with this identifier, if it is live; every
    /// other connection keeps its place and its queues.
    pub fn remove_conn(&mut self, id: usize) -> (removed: bool)
        requires
            old(self).wf(),
        ensures
            final(self).wf(),
            removed == old(self).contains_id(id),
            !final(self).contains_id(id),
            forall|o: usize| o != id ==> Registry::same_conn(*old(self), *final(self), o),
            removed ==> final(self).count() == old(self).count() - 1,
            !removed ==> *final(self) == *old(self),
    {
        match self.find_index(id) {
            None => false,
            Some(i) => {
                let ghost pre = *self;
                let _ = self.conns.remove(i);
                proof {
                    Registry::lemma_reg_remove(pre, *self, i as int);
                }
                true
            },
        }
    }

    /// Appends a chunk to the outbound queue of the connection with this
    /// identifier; with no such connection the registry is unchanged.
    pub fn push_outbound(&mut self, id: usize, chunk: Vec<u8>) -> (ok: bool)
        requires
            old(self).wf(),
        ensures
            final(self).wf(),
            ok == old(self).contains_id(id),
            ok ==> final(self).contains_id(id)
                && final(self).outbound_of(id) == old(self).outbound_of(id).push(chunk@)
                && final(self).inbound_of(id) == old(self).inbound_of(id),
            !ok ==> *final(self) == *old(self),
            forall|o: usize| o != id ==> Registry::same_conn(*old(self), *final(self), o),
            final(self).count() == old(self).count(),
    {
        match self.find_index(id) {
            None => false,
            Some(i) => {
                let ghost pre = *self;
                let ghost chunkv = chunk@;
                let mut c = self.conns.remove(i);
                c.outbound.push(chunk);
                let ghost c2 = c;
                self.conns.insert(i, c);
                proof {
                    assert(self.conns@ =~= pre.conns@.update(i as int, c2));
                    Registry::lemma_reg_update(pre, *self, i as int, c2);
                    assert(chunk_views(c2.outbound@) =~= chunk_views(
                        pre.conns@[i as int].outbound@,
                    ).push(chunkv));
                    assert(chunk_views(c2.inbound@) =~= chunk_views(pre.conns@[i as int].inbound@));
                }
                true
            },
        }
    }

    /// Takes the front chunk of the inbound queue of the connection with this
    /// identifier, in arrival order; `None` when there is no such connection
    /// or its queue is empty.
    pub fn pop_inbound(&mut self, id: usize) -> (r: Option<Vec<u8>>)
        requires
            old(self).wf(),
        ensures
            final(self).wf(),
            match r {
                Some(chunk) => old(self).contains_id(id) && old(self).inbound_of(id).len() > 0
                    && chunk@ == old(self).inbound_of(id)[0] && final(self).contains_id(id)
                    && final(self).inbound_of(id) == old(self).inbound_of(id).skip(1)
                    && final(self).outbound_of(id) == old(self).outbound_of(id),
                None => (!old(self).contains_id(id) || old(self).inbound_of(id).len() == 0)
                    && *final(self) == *old(self),
            },
            forall|o: usize| o != id ==> Registry::same_conn(*old(self), *final(self), o),
            final(self).count() == old(self).count(),
    {
        match self.find_index(id) {
            None => None,
            Some(i) => {
                let ghost pre = *self;
                if self.conns[i].inbound.len() == 0 {
                    proof {
                        pre.lemma_idx_of(id);
                        assert(pre.idx_of(id) == i as int);
                        assert(pre.inbound_of(id).len() == 0);
                    }
                    return None;
                }
                let mut c = self.conns.remove(i);
                let chunk = c.inbound.remove(0);
                let ghost c2 = c;
                self.conns.insert(i, c);
                proof {
                    pre.lemma_idx_of(id);
                    assert(pre.idx_of(id) == i as int);
                    assert(self.conns@ =~= pre.conns@.update(i as int, c2));
                    Registry::lemma_reg_update(pre, *self, i as int, c2);
                    assert(chunk_views(c2.inbound@) =~= chunk_views(
                        pre.conns@[i as int].inbound@,
                    ).skip(1));
                    assert(chunk_views(c2.outbound@) =~= chunk_views(
                        pre.conns@[i as int].outbound@,
                    ));
                    assert(chunk@ == pre.inbound_of(id)[0]);
                }
                Some(chunk)
            },
        }
    }
}

impl Registry {
    /// Handles one readiness event for the connection with this identifier.
    ///
    /// A readable event drains the source to exhaustion and appends what
    /// arrived, if anything, as one chunk to the inbound queue; end-of-stream
    /// removes the connection once the event is fully handled.  A writable
    /// event flushes outbound chunks front-first until the queue is empty or
    /// the sink suspends: the sink takes exactly a prefix of the queued
    /// bytes, in enqueue order, and the rest stays queued.  An identifier
    /// with no live connection is refused and nothing changes.
    pub fn dispatch<S: ByteSource, W: ByteSink>(
        &mut self,
        id: usize,
        readable: bool,
        writable: bool,
        src: &mut S,
        sink: &mut W,
    ) -> (r: Result<(), MuxError>)
        requires
            old(self).wf(),
        ensures
            final(self).wf(),
            r is Err <==> !old(self).contains_id(id),
            r is Err ==> *final(self) == *old(self) && *final(src) == *old(src) && *final(sink)
                == *old(sink) && r == Err::<(), MuxError>(MuxError::UnknownToken),
            forall|o: usize| o != id ==> Registry::same_conn(*old(self), *final(self), o),
            !readable ==> *final(src) == *old(src),
            !writable ==> *final(sink) == *old(sink),
            r is Ok && readable && !old(src).at_eof() && final(src).at_eof()
                ==> !final(self).contains_id(id),
            r is Ok && (!readable || !final(src).at_eof()) ==> final(self).contains_id(id),
            r is Ok && readable && final(self).contains_id(id)
                ==> final(src).at_eof() == old(src).at_eof() && exists|c: Seq<u8>|
                final(src).delivered() == old(src).delivered() + c && final(self).inbound_of(id)
                    == (if c.len() > 0 {
                    old(self).inbound_of(id).push(c)
                } else {
                    old(self).inbound_of(id)
                }),
            r is Ok && !readable && final(self).contains_id(id) ==> final(self).inbound_of(id)
                == old(self).inbound_of(id),
            r is Ok && writable ==> exists|k: int|
                0 <= k <= concat_bytes(old(self).outbound_of(id)).len() && final(sink).accepted()
                    == old(sink).accepted() + concat_bytes(old(self).outbound_of(id)).take(k) && (
                final(self).contains_id(id) ==> concat_bytes(final(self).outbound_of(id))
                    == concat_bytes(old(self).outbound_of(id)).skip(k)),
            r is Ok && !writable && final(self).contains_id(id) ==> final(self).outbound_of(id)
                == old(self).outbound_of(id),
            r is Ok && final(self).contains_id(id) ==> final(self).count() == old(self).count(),
            r is Ok && !final(self).contains_id(id) ==> final(self).count() == old(self).count()
                - 1,
    {
        let idx = match self.find_index(id) {
            None => {
                return Err(MuxError::UnknownToken);
            },
            Some(i) => i,
        };
        let ghost pre = *self;
        proof {
            pre.lemma_idx_of(id);
            assert(pre.idx_of(id) == idx as int);
        }
        let ghost preconn = pre.conns@[idx as int];
        let mut conn = self.conns.remove(idx);
        let ghost mut pushed: Seq<u8> = Seq::empty();
        let mut eof = false;
        if readable {
            match read_until_blocks(src) {
                Some(chunk) => {
                    proof {
                        pushed = chunk@;
                    }
                    if chunk.len() > 0 {
                        conn.inbound.push(chunk);
                        proof {
                            assert(chunk_views(conn.inbound@) =~= chunk_views(
                                preconn.inbound@,
                            ).push(pushed));
                        }
                    }
                },
                None => {
                    eof = true;
                },
            }
        }
        let ghost ob0 = chunk_views(conn.outbound@);
        let ghost acc0 = sink.accepted();
        proof {
            assert(ob0 =~= chunk_views(preconn.outbound@));
            assert(pre.outbound_of(id) == chunk_views(preconn.outbound@));
            assert(pre.inbound_of(id) == chunk_views(preconn.inbound@));
        }
        if writable {
            drain_outbound(&mut conn.outbound, sink);
        }
        let ghost kw = choose|k: int|
            0 <= k <= concat_bytes(ob0).len() && sink.accepted() == acc0 + concat_bytes(ob0).take(
                k,
            ) && concat_bytes(chunk_views(conn.outbound@)) == concat_bytes(ob0).skip(k);
        if eof {
            proof {
                Registry::lemma_reg_remove(pre, *self, idx as int);
            }
            Ok(())
        } else {
            let ghost c2 = conn;
            self.conns.insert(idx, conn);
            proof {
                assert(self.conns@ =~= pre.conns@.update(idx as int, c2));
                Registry::lemma_reg_update(pre, *self, idx as int, c2);
                assert(c2.id == id);
                if readable {
                    assert(self.inbound_of(id) == chunk_views(c2.inbound@));
                    if pushed.len() > 0 {
                        assert(chunk_views(c2.inbound@) =~= chunk_views(preconn.inbound@).push(
                            pushed,
                        ));
                    } else {
                        assert(chunk_views(c2.inbound@) =~= chunk_views(preconn.inbound@));
                    }
                } else {
                    assert(chunk_views(c2.inbound@) =~= chunk_views(preconn.inbound@));
                }
                if writable {
                    assert(concat_bytes(self.outbound_of(id)) == concat_bytes(ob0).skip(kw));
                } else {
                    assert(chunk_views(c2.outbound@) =~= chunk_views(preconn.outbound@));
                }
            }
            Ok(())
        }
    }
}

/// Reads from the source until it suspends, accumulating everything
/// delivered into one chunk; `None` when the source reported end-of-stream,
/// in which case bytes read in the same pass are discarded.
pub fn read_until_blocks<S: ByteSource>(from: &mut S) -> (r: Option<Vec<u8>>)
    ensures
        (match r {
            Some(found) => final(from).delivered() == old(from).delivered() + found@
                && final(from).at_eof() == old(from).at_eof(),
            None => final(from).at_eof(),
        }),
        !old(from).at_eof() && final(from).at_eof() ==> r is None,
    decreases from.fuel(),
{
    match from.read_step() {
        ReadOutcome::Data(chunk) => {
            match read_until_blocks(from) {
                Some(rest) => {
                    let mut out = chunk;
                    let mut tail = rest;
                    let ghost outv = out@;
                    let ghost tailv = tail@;
                    out.append(&mut tail);
                    proof {
                        assert(old(from).delivered() + outv + tailv =~= old(from).delivered() + (
                        outv + tailv));
                    }
                    Some(out)
                },
                None => None,
            }
        },
        ReadOutcome::Eof => None,
        ReadOutcome::WouldBlock => {
            let out: Vec<u8> = Vec::new();
            proof {
                assert(old(from).delivered() + out@ =~= old(from).delivered());
            }
            Some(out)
        },
    }
}

/// Writes the front of `reading` into the sink until the chunk is empty or
/// the sink suspends; what was not taken stays in `reading`, in order.
pub fn drain_some_writeable<W: ByteSink>(reading: &mut Vec<u8>, into: &mut W) -> (r: DrainOutcome)
    ensures
        exists|k: int|
            0 <= k <= old(reading)@.len() && final(reading)@ == old(reading)@.skip(k)
                && final(into).accepted() == old(into).accepted() + old(reading)@.take(k),
        r is Flushed <==> final(reading)@.len() == 0,
    decreases old(reading)@.len(),
{
    if reading.len() == 0 {
        proof {
            assert(reading@ =~= old(reading)@.skip(0));
            assert(into.accepted() =~= old(into).accepted() + old(reading)@.take(0));
        }
        return DrainOutcome::Flushed;
    }
    match into.write_step(reading) {
        WriteOutcome::WouldBlock => {
            proof {
                assert(reading@ =~= old(reading)@.skip(0));
                assert(into.accepted() =~= old(into).accepted() + old(reading)@.take(0));
            }
            DrainOutcome::Suspended
        },
        WriteOutcome::Wrote(n) => {
            let rest = crate::chunks::drop_prefix(reading, n);
            *reading = rest;
            let ghost mid_reading = reading@;
            let ghost mid_acc = into.accepted();
            let out = drain_some_writeable(reading, into);
            proof {
                let k2 = choose|k2: int|
                    0 <= k2 <= mid_reading.len() && reading@ == mid_reading.skip(k2)
                        && into.accepted() == mid_acc + mid_reading.take(k2);
                let k = n + k2;
                assert(mid_reading =~= old(reading)@.skip(n as int));
                assert(mid_reading.skip(k2) =~= old(reading)@.skip(k));
                assert(mid_acc + mid_reading.take(k2) =~= old(into).accepted() + old(
                    reading,
                )@.take(k));
                assert(0 <= k <= old(reading)@.len() && reading@ == old(reading)@.skip(k)
                    && into.accepted() == old(into).accepted() + old(reading)@.take(k));
            }
            out
        },
    }
}

/// Flushes outbound chunks front-first until the queue is empty or the sink
/// suspends: the sink takes exactly a prefix of the queued bytes, in order,
/// and the unwritten suffix stays queued.
fn drain_outbound<W: ByteSink>(queue: &mut Vec<Vec<u8>>, into: &mut W)
    ensures
        exists|k: int|
            0 <= k <= concat_bytes(chunk_views(old(queue)@)).len()
                && final(into).accepted() == old(into).accepted() + concat_bytes(
                chunk_views(old(queue)@),
            ).take(k) && concat_bytes(chunk_views(final(queue)@)) == concat_bytes(
                chunk_views(old(queue)@),
            ).skip(k),
    decreases old(queue)@.len(),
{
    let ghost whole = concat_bytes(chunk_views(old(queue)@));
    if queue.len() == 0 {
        proof {
            assert(whole.len() == 0);
            assert(into.accepted() =~= old(into).accepted() + whole.take(0));
            assert(concat_bytes(chunk_views(queue@)) =~= whole.skip(0));
        }
        return ;
    }
    proof {
        crate::chunks::lemma_concat_first(chunk_views(old(queue)@));
        crate::chunks::lemma_chunk_views_skip(old(queue)@, 1);
    }
    let mut first = queue.remove(0);
    let ghost firstv = first@;
    let ghost restv = concat_bytes(chunk_views(queue@));
    proof {
        assert(queue@ =~= old(queue)@.skip(1));
        assert(chunk_views(old(queue)@)[0] == firstv);
        assert(whole == firstv + restv);
    }
    let ghost acc0 = into.accepted();
    let outcome = drain_some_writeable(&mut first, into);
    let ghost k1 = choose|k1: int|
        0 <= k1 <= firstv.len() && first@ == firstv.skip(k1) && into.accepted() == acc0
            + firstv.take(k1);
    match outcome {
        DrainOutcome::Flushed => {
            let ghost acc1 = into.accepted();
            proof {
                assert(first@.len() == 0);
                assert(firstv.skip(k1).len() == 0);
                assert(k1 == firstv.len());
                assert(firstv.take(k1) =~= firstv);
                assert(acc1 == acc0 + firstv);
            }
            drain_outbound(queue, into);
            proof {
                let k2 = choose|k2: int|
                    0 <= k2 <= restv.len() && into.accepted() == acc1 + restv.take(k2)
                        && concat_bytes(chunk_views(queue@)) == restv.skip(k2);
                let k = firstv.len() + k2;
                assert(whole.take(k) =~= firstv + restv.take(k2));
                assert(whole.skip(k) =~= restv.skip(k2));
                assert(into.accepted() =~= acc0 + whole.take(k));
                assert(0 <= k <= whole.len() && into.accepted() == old(into).accepted()
                    + whole.take(k) && concat_bytes(chunk_views(queue@)) == whole.skip(k));
            }
        },
        DrainOutcome::Suspended => {
            let ghost keptv = first@;
            queue.insert(0, first);
            proof {
                assert(keptv =~= firstv.skip(k1));
                assert(queue@[0]@ == keptv);
                assert(queue@.skip(1) =~= old(queue)@.skip(1));
                crate::chunks::lemma_concat_first(chunk_views(queue@));
                crate::chunks::lemma_chunk_views_skip(queue@, 1);
                assert(concat_bytes(chunk_views(queue@)) == keptv + restv);
                assert(keptv + restv =~= whole.skip(k1));
                assert(firstv.take(k1) =~= whole.take(k1));
                assert(into.accepted() =~= old(into).accepted() + whole.take(k1));
                assert(0 <= k1 <= whole.len() && into.accepted() == old(into).accepted()
                    + whole.take(k1) && concat_bytes(chunk_views(queue@)) == whole.skip(k1));
            }
        },
    }
}

} // verus!
