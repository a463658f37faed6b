//! The connection pool and the framing of one message on a connection.
//!
//! The pool keeps account of which connections are idle. A connection is known
//! to it by its index among the connections that were opened for the pool;
//! the byte streams themselves stay with the caller that opened them.

use crate::endian::{le_bytes, le_value, lemma_le_roundtrip_u64, push_u64_le, u64_from_le};
use crate::error::Error;
use std::collections::VecDeque;
use vstd::prelude::*;

verus! {

/// The state of a pool: the idle connections in the order in which they will
/// be handed out, the number of connections it was made for, and whether it
/// has been closed.
pub ghost struct PoolView {
    pub idle: Seq<usize>,
    pub size: nat,
    pub closed: bool,
}

impl PoolView {
    /// No connection is idle twice, every idle connection is one of the
    /// pool's, and a closed pool holds none.
    pub open spec fn wf(self) -> bool {
        &&& self.idle.no_duplicates()
        &&& forall|i: int| 0 <= i < self.idle.len() ==> #[trigger] self.idle[i] < self.size
        &&& self.closed ==> self.idle.len() == 0
    }

    /// A pool with all of its `size` connections idle.
    pub open spec fn full(size: nat) -> PoolView {
        PoolView { idle: Seq::new(size, |i: int| i as usize), size, closed: false }
    }

    /// Checking out: the connection that has been idle longest, if any, and the pool without it.
    pub open spec fn get(self) -> (Option<usize>, PoolView) {
        if self.idle.len() == 0 {
            (None, self)
        } else {
            (Some(self.idle[0]), PoolView { idle: self.idle.drop_first(), ..self })
        }
    }

    /// Whether the pool takes `connection` back: it is open, the connection
    /// is one of its own and is not idle already.
    pub open spec fn accepts(self, connection: usize) -> bool {
        !self.closed && connection < self.size && !self.idle.contains(connection)
    }

    /// Returning a connection: it joins the idle ones at the end where the pool accepts it.
    pub open spec fn put(self, connection: usize) -> PoolView {
        if self.accepts(connection) {
            PoolView { idle: self.idle.push(connection), ..self }
        } else {
            self
        }
    }

    /// Closing: no connection is idle any more, for good.
    pub open spec fn close(self) -> PoolView {
        PoolView { idle: Seq::empty(), closed: true, ..self }
    }
}

/// A fixed set of connections, each either idle in the pool or checked out
/// to exactly one operation.
pub struct SocketPool {
    idle: VecDeque<usize>,
    size: usize,
    closed: bool,
}

impl View for SocketPool {
    type V = PoolView;

    closed spec fn view(&self) -> PoolView {
        PoolView { idle: self.idle@, size: self.size as nat, closed: self.closed }
    }
}

impl SocketPool {
    /// A pool is well formed at all times.
    #[verifier::type_invariant]
    pub open spec fn inv(self) -> bool {
        self@.wf()
    }

    /// A pool over `size` connections, numbered from zero, all of them idle.
    pub fn new(size: usize) -> (pool: SocketPool)
        ensures
            pool@ == PoolView::full(size as nat),
            pool@.wf(),
    {
        let mut idle: VecDeque<usize> = VecDeque::new();
        let mut i: usize = 0;
        while i < size
            invariant
                i <= size,
                idle@ == Seq::new(i as nat, |k: int| k as usize),
            decreases size - i,
        {
            idle.push_back(i);
            assert(idle@ =~= Seq::new((i + 1) as nat, |k: int| k as usize));
            i += 1;
        }
        SocketPool { idle, size, closed: false }
    }

    /// Checks out the connection that has been idle longest. Never waits:
    /// with no idle connection the answer is `None`, and the pool is as it was.
    pub fn get(&mut self) -> (connection: Option<usize>)
        ensures
            connection == old(self)@.get().0,
            final(self)@ == old(self)@.get().1,
            final(self)@.wf(),
            connection matches Some(c) ==> c < final(self)@.size && !final(self)@.idle.contains(c),
    {
        proof {
            use_type_invariant(&*self);
            lemma_get_keeps_out(self@);
        }
        // The queue is taken out while it changes, so that the pool is well
        // formed at every step.
        let mut idle: VecDeque<usize> = VecDeque::new();
        core::mem::swap(&mut self.idle, &mut idle);
        let connection = idle.pop_front();
        assert(idle@ =~= old(self)@.get().1.idle);
        core::mem::swap(&mut self.idle, &mut idle);
        connection
    }

    /// Returns a connection to the idle ones. The pool refuses, and stays as
    /// it was, where it is closed, the index is none of its connections, or
    /// the connection is idle already; the answer says whether it took it.
    pub fn put(&mut self, connection: usize) -> (accepted: bool)
        ensures
            accepted == old(self)@.accepts(connection),
            final(self)@ == old(self)@.put(connection),
            final(self)@.wf(),
    {
        proof {
            use_type_invariant(&*self);
        }
        if self.closed || connection >= self.size {
            return false;
        }
        let mut i: usize = 0;
        while i < self.idle.len()
            invariant
                i <= self.idle@.len(),
                *self == *old(self),
                self@.wf(),
                forall|k: int| 0 <= k < i ==> self.idle@[k] != connection,
            decreases self.idle@.len() - i,
        {
            if self.idle[i] == connection {
                return false;
            }
            i += 1;
        }
        proof {
            lemma_put_keeps_wf(self@, connection);
            assert(!self@.idle.contains(connection));
        }
        let mut idle: VecDeque<usize> = VecDeque::new();
        core::mem::swap(&mut self.idle, &mut idle);
        idle.push_back(connection);
        core::mem::swap(&mut self.idle, &mut idle);
        true
    }

    /// The number of connections the pool was made for.
    pub fn size(&self) -> (size: usize)
        ensures
            size == self@.size,
    {
        self.size
    }

    /// The number of connections that are idle now.
    pub fn available(&self) -> (count: usize)
        ensures
            count == self@.idle.len(),
    {
        self.idle.len()
    }

    /// Discards every idle connection and disables the pool: from now on
    /// `get` finds nothing and `put` takes nothing back. Closing never fails.
    pub fn close(&mut self) -> (r: Result<(), Error>)
        ensures
            r is Ok,
            final(self)@ == old(self)@.close(),
            final(self)@.wf(),
    {
        self.idle = VecDeque::new();
        self.closed = true;
        Ok(())
    }
}

/// A checked-out connection is not handed out again: after `get` has given
/// out a connection, it is not among the idle ones, and the pool is still
/// well formed.
pub proof fn lemma_get_keeps_out(pool: PoolView)
    requires
        pool.wf(),
    ensures
        pool.get().1.wf(),
        pool.idle.len() == 0 <==> pool.get().0 is None,
        pool.get().0 matches Some(c) ==> c < pool.size && !pool.get().1.idle.contains(c),
{
    if pool.idle.len() > 0 {
        let rest = pool.idle.drop_first();
        assert forall|i: int| 0 <= i < rest.len() implies #[trigger] rest[i] == pool.idle[i + 1] by {}
        assert forall|i: int| 0 <= i < rest.len() implies #[trigger] rest[i] < pool.size by {
            assert(rest[i] == pool.idle[i + 1]);
        }
    }
}

/// No double checkout: two checkouts with no return between them never give
/// the same connection.
pub proof fn lemma_no_double_checkout(pool: PoolView)
    requires
        pool.wf(),
    ensures
        ({
            let (first, after) = pool.get();
            let (second, _) = after.get();
            first is Some && second is Some ==> first != second
        }),
{
    lemma_get_keeps_out(pool);
    let (first, after) = pool.get();
    if first is Some && after.idle.len() > 0 {
        assert(after.idle.contains(after.idle[0]));
    }
}

/// A connection that is checked out stays out until it is returned itself:
/// no checkout gives it, and neither a checkout, nor the return of another
/// connection, nor closing makes it idle.
pub proof fn lemma_checked_out_stays_out(pool: PoolView, held: usize, other: usize)
    requires
        pool.wf(),
        !pool.idle.contains(held),
        other != held,
    ensures
        pool.get().0 != Some(held),
        !pool.get().1.idle.contains(held),
        !pool.put(other).idle.contains(held),
        !pool.close().idle.contains(held),
        pool.put(other).wf(),
        pool.close().wf(),
{
    if pool.idle.len() > 0 {
        assert(pool.idle.contains(pool.idle[0]));
        let rest = pool.idle.drop_first();
        if rest.contains(held) {
            let i = choose|i: int| 0 <= i < rest.len() && rest[i] == held;
            assert(pool.idle[i + 1] == held);
        }
    }
    let more = pool.idle.push(other);
    if more.contains(held) {
        let i = choose|i: int| 0 <= i < more.len() && more[i] == held;
        assert(pool.idle[i] == held);
    }
    lemma_put_keeps_wf(pool, other);
}

/// Returning a connection keeps the pool well formed.
pub proof fn lemma_put_keeps_wf(pool: PoolView, connection: usize)
    requires
        pool.wf(),
    ensures
        pool.put(connection).wf(),
{
    if pool.accepts(connection) {
        let more = pool.idle.push(connection);
        assert forall|i: int, j: int| 0 <= i < more.len() && 0 <= j < more.len() && i != j implies more[i] != more[j] by {
            if i < pool.idle.len() {
                assert(pool.idle.contains(pool.idle[i]));
            }
            if j < pool.idle.len() {
                assert(pool.idle.contains(pool.idle[j]));
            }
        }
    }
}

/// What a caller does to a pool.
pub ghost enum PoolOp {
    /// Checks out a connection, if one is idle.
    Get,
    /// Returns the given connection.
    Put(usize),
    /// Closes the pool.
    Close,
}

/// A pool together with the connections that its callers hold.
pub ghost struct Ledger {
    pub pool: PoolView,
    pub held: Set<usize>,
}

impl Ledger {
    /// The pool is well formed, and no connection is idle while a caller holds it.
    pub open spec fn wf(self) -> bool {
        &&& self.pool.wf()
        &&& forall|c: usize| self.held.contains(c) ==> !self.pool.idle.contains(c)
    }

    /// One operation: a checkout gives its connection to a caller, and a
    /// caller returns only a connection that it holds.
    pub open spec fn apply(self, op: PoolOp) -> Ledger {
        match op {
            PoolOp::Get => match self.pool.get().0 {
                Some(c) => Ledger { pool: self.pool.get().1, held: self.held.insert(c) },
                None => self,
            },
            PoolOp::Put(c) => if self.held.contains(c) {
                Ledger { pool: self.pool.put(c), held: self.held.remove(c) }
            } else {
                self
            },
            PoolOp::Close => Ledger { pool: self.pool.close(), held: self.held },
        }
    }

    /// The operations of all callers in the order in which the pool takes them.
    pub open spec fn run(self, ops: Seq<PoolOp>) -> Ledger
        decreases ops.len(),
    {
        if ops.len() == 0 {
            self
        } else {
            self.apply(ops[0]).run(ops.drop_first())
        }
    }
}

/// In whatever order the callers' checkouts, returns and closes reach the
/// pool, no connection is ever idle while a caller holds it, and so every
/// checkout gives a connection that no caller holds.
pub proof fn lemma_never_shared(ledger: Ledger, ops: Seq<PoolOp>)
    requires
        ledger.wf(),
    ensures
        ledger.run(ops).wf(),
        ledger.run(ops).pool.get().0 matches Some(c) ==> !ledger.run(ops).held.contains(c),
    decreases ops.len(),
{
    if ops.len() == 0 {
        if ledger.pool.idle.len() > 0 {
            assert(ledger.pool.idle.contains(ledger.pool.idle[0]));
        }
    } else {
        lemma_apply_keeps_wf(ledger, ops[0]);
        lemma_never_shared(ledger.apply(ops[0]), ops.drop_first());
    }
}

/// Closing is for good: whatever the callers do to a closed pool, it stays
/// closed and empty, and no checkout finds a connection.
pub proof fn lemma_closed_is_final(ledger: Ledger, ops: Seq<PoolOp>)
    requires
        ledger.pool.wf(),
        ledger.pool.closed,
    ensures
        ledger.run(ops).pool.closed,
        ledger.run(ops).pool.idle.len() == 0,
        ledger.run(ops).pool.get().0 is None,
    decreases ops.len(),
{
    if ops.len() > 0 {
        lemma_closed_is_final(ledger.apply(ops[0]), ops.drop_first());
    }
}

/// One operation keeps the ledger well formed.
pub proof fn lemma_apply_keeps_wf(ledger: Ledger, op: PoolOp)
    requires
        ledger.wf(),
    ensures
        ledger.apply(op).wf(),
{
    let next = ledger.apply(op);
    match op {
        PoolOp::Get => {
            lemma_get_keeps_out(ledger.pool);
            if ledger.pool.idle.len() > 0 {
                let rest = ledger.pool.idle.drop_first();
                assert forall|c: usize| next.held.contains(c) implies !rest.contains(c) by {
                    if rest.contains(c) {
                        let i = choose|i: int| 0 <= i < rest.len() && rest[i] == c;
                        assert(ledger.pool.idle[i + 1] == c);
                        assert(ledger.pool.idle.contains(c));
                    }
                }
            }
        },
        PoolOp::Put(c) => {
            lemma_put_keeps_wf(ledger.pool, c);
            if ledger.held.contains(c) {
                let more = ledger.pool.put(c).idle;
                assert forall|d: usize| next.held.contains(d) implies !more.contains(d) by {
                    if more.contains(d) {
                        let i = choose|i: int| 0 <= i < more.len() && more[i] == d;
                        if i < ledger.pool.idle.len() {
                            assert(ledger.pool.idle[i] == d);
                            assert(ledger.pool.idle.contains(d));
                        }
                    }
                }
            }
        },
        PoolOp::Close => {},
    }
}

/// One message on the wire: the length of the payload as eight little-endian
/// bytes, then the payload.
pub open spec fn spec_message(data: Seq<u8>) -> Seq<u8> {
    le_bytes(data.len() as int, 8) + data
}

/// Frames a payload for sending.
pub fn message(data: &[u8]) -> (bytes: Vec<u8>)
    ensures
        bytes@ == spec_message(data@),
{
    let mut bytes: Vec<u8> = Vec::new();
    push_u64_le(&mut bytes, data.len() as u64);
    let ghost head = bytes@;
    let mut i: usize = 0;
    while i < data.len()
        invariant
            i <= data.len(),
            bytes@ == head + data@.subrange(0, i as int),
        decreases data.len() - i,
    {
        bytes.push(data[i]);
        assert(bytes@ =~= head + data@.subrange(0, i + 1));
        i += 1;
    }
    assert(data@.subrange(0, i as int) =~= data@);
    bytes
}

/// The payload length that the eight bytes of a length prefix announce.
pub fn message_length(prefix: &[u8; 8]) -> (len: u64)
    ensures
        len == le_value(prefix@),
{
    u64_from_le(prefix)
}

/// The prefix of a framed message announces the length of its payload.
pub proof fn lemma_message_prefix(data: Seq<u8>)
    requires
        data.len() <= u64::MAX,
    ensures
        spec_message(data).len() == 8 + data.len(),
        le_value(spec_message(data).subrange(0, 8)) == data.len(),
        spec_message(data).subrange(8, 8 + data.len() as int) == data,
{
    lemma_le_roundtrip_u64(data.len() as u64);
    assert(spec_message(data).subrange(0, 8) =~= le_bytes(data.len() as int, 8));
    assert(spec_message(data).subrange(8, 8 + data.len() as int) =~= data);
}

} // verus!
