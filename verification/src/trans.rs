use vstd::prelude::*;
use crate::codec::KId;
use crate::rpc::KTransId;
use crate::serde_extra::socket_addr::SocketAddr;

verus! {

/// The bytes of a transaction number, high byte first.
pub open spec fn tid_bytes(tid: u16) -> Seq<u8> {
    seq![((tid >> 8) & 0xff) as u8, (tid & 0xff) as u8]
}

/// The transaction number that two bytes denote, high byte first.
pub open spec fn tid_of_bytes(high: u8, low: u8) -> u16 {
    ((high as u16) << 8) | (low as u16)
}

/// The key of the transaction that a routing key names: the peer and the
/// number. A routing key without a transaction identifier, or with one that
/// is not exactly two bytes long, names none.
pub open spec fn trans_key(id: (SocketAddr, Option<Seq<u8>>)) -> Option<(SocketAddr, u16)> {
    match id.1 {
        Some(bytes) => if bytes.len() == 2 {
            Some((id.0, tid_of_bytes(bytes[0], bytes[1])))
        } else {
            None
        },
        None => None,
    }
}

/// The number that follows `tid`: it wraps from 65535 to 0.
pub open spec fn next_tid(tid: u16) -> u16 {
    if tid == 0xffff {
        0
    } else {
        (tid + 1) as u16
    }
}

/// Different numbers have different bytes: two transactions with one peer
/// share a routing key only where they share the number.
pub proof fn lemma_tid_bytes_injective(a: u16, b: u16)
    requires
        tid_bytes(a) == tid_bytes(b),
    ensures
        a == b,
{
    assert(tid_bytes(a)[0] == tid_bytes(b)[0]);
    assert(tid_bytes(a)[1] == tid_bytes(b)[1]);
    assert(a == b) by (bit_vector)
        requires
            ((a >> 8) & 0xff) as u8 == ((b >> 8) & 0xff) as u8,
            (a & 0xff) as u8 == (b & 0xff) as u8,
    ;
}

/// The routing key that a started transaction is given names that
/// transaction.
pub proof fn lemma_trans_key_of_tid(addr: SocketAddr, tid: u16)
    ensures
        trans_key((addr, Some(tid_bytes(tid)))) == Some((addr, tid)),
{
    assert(tid_of_bytes(((tid >> 8) & 0xff) as u8, (tid & 0xff) as u8) == tid) by (bit_vector);
}

/// What starting a transaction with `addr` makes of a table and of the last
/// number given: the new table, the number given, and the routing key that
/// is handed out.
pub open spec fn started<Data>(
    table: Map<(SocketAddr, u16), Data>,
    last_tid: u16,
    addr: SocketAddr,
    data: Data,
) -> (Map<(SocketAddr, u16), Data>, u16, (SocketAddr, Option<Seq<u8>>)) {
    let tid = next_tid(last_tid);
    (table.insert((addr, tid), data), tid, (addr, Some(tid_bytes(tid))))
}

/// What ending the transaction that `id` names makes of a table: the new
/// table, and what is handed over.
pub open spec fn ended<Data>(
    table: Map<(SocketAddr, u16), Data>,
    id: (SocketAddr, Option<Seq<u8>>),
) -> (Map<(SocketAddr, u16), Data>, Option<Data>) {
    match trans_key(id) {
        Some(key) => if table.contains_key(key) {
            (table.remove(key), Some(table[key]))
        } else {
            (table, None)
        },
        None => (table, None),
    }
}

/// A transaction that was started is ended exactly once: the first end with
/// its routing key hands over what was kept, and takes it out of the table;
/// a second end with the same key hands over nothing.
pub proof fn lemma_end_once<Data>(
    table: Map<(SocketAddr, u16), Data>,
    last_tid: u16,
    addr: SocketAddr,
    data: Data,
)
    ensures
        ({
            let (pending, tid, id) = started(table, last_tid, addr, data);
            let (after, first) = ended(pending, id);
            &&& first == Some(data)
            &&& !after.contains_key((addr, tid))
            &&& ended(after, id) == (after, None::<Data>)
        }),
{
    lemma_trans_key_of_tid(addr, next_tid(last_tid));
}

/// An end leaves every other pending transaction as it was.
pub proof fn lemma_end_keeps_others<Data>(
    table: Map<(SocketAddr, u16), Data>,
    id: (SocketAddr, Option<Seq<u8>>),
    other: (SocketAddr, u16),
)
    requires
        trans_key(id) != Some(other),
    ensures
        ended(table, id).0.contains_key(other) == table.contains_key(other),
        table.contains_key(other) ==> ended(table, id).0[other] == table[other],
{
}

/// An end with a routing key that names no pending transaction hands over
/// nothing and leaves the table as it was: so for a key without a
/// transaction identifier, for an identifier that is not two bytes long,
/// and for a transaction that is not pending.
pub proof fn lemma_end_unknown<Data>(
    table: Map<(SocketAddr, u16), Data>,
    id: (SocketAddr, Option<Seq<u8>>),
)
    requires
        id.1 is None || id.1->Some_0.len() != 2 || !table.contains_key(trans_key(id)->Some_0),
    ensures
        ended(table, id) == (table, None::<Data>),
{
}

/// After an end the transaction that the routing key names is no longer
/// pending.
pub proof fn lemma_end_clears<Data>(
    table: Map<(SocketAddr, u16), Data>,
    id: (SocketAddr, Option<Seq<u8>>),
)
    requires
        trans_key(id) is Some,
    ensures
        !ended(table, id).0.contains_key(trans_key(id)->Some_0),
{
}

/// A transaction is named by one routing key only: the peer, and the two
/// bytes of the number.
pub proof fn lemma_trans_key_names_one(id: (SocketAddr, Option<Seq<u8>>), addr: SocketAddr, tid: u16)
    requires
        trans_key(id) == Some((addr, tid)),
    ensures
        id == (addr, Some(tid_bytes(tid))),
{
    let bytes = id.1->Some_0;
    let (high, low) = (bytes[0], bytes[1]);
    assert(((tid >> 8) & 0xff) as u8 == high && (tid & 0xff) as u8 == low) by (bit_vector)
        requires
            tid == ((high as u16) << 8) | (low as u16),
    ;
    assert(bytes =~= tid_bytes(tid));
}

/// A start raises the number of pending transactions by one, but where the
/// number that it gives is still pending with the same peer: there it
/// replaces that entry, and the number of pending transactions stays.
pub proof fn lemma_start_counts<Data>(
    table: Map<(SocketAddr, u16), Data>,
    last_tid: u16,
    addr: SocketAddr,
    data: Data,
)
    requires
        table.dom().finite(),
    ensures
        started(table, last_tid, addr, data).0.dom().finite(),
        started(table, last_tid, addr, data).0.dom().len() == if table.contains_key(
            (addr, next_tid(last_tid)),
        ) {
            table.dom().len()
        } else {
            table.dom().len() + 1
        },
{
    let key = (addr, next_tid(last_tid));
    assert(started(table, last_tid, addr, data).0.dom() =~= table.dom().insert(key));
}

/// One operation on the table: a start with a peer, or an end with a
/// routing key.
pub enum KTransOp<Data> {
    Start(SocketAddr, Data),
    End((SocketAddr, Option<Seq<u8>>)),
}

/// The number of starts among operations.
pub open spec fn starts<Data>(ops: Seq<KTransOp<Data>>) -> nat
    decreases ops.len(),
{
    if ops.len() == 0 {
        0
    } else if ops.last() is Start {
        starts(ops.drop_last()) + 1
    } else {
        starts(ops.drop_last())
    }
}

/// What a run of operations makes of a table and of the last number given.
pub open spec fn after<Data>(
    table: Map<(SocketAddr, u16), Data>,
    last_tid: u16,
    ops: Seq<KTransOp<Data>>,
) -> (Map<(SocketAddr, u16), Data>, u16)
    decreases ops.len(),
{
    if ops.len() == 0 {
        (table, last_tid)
    } else {
        let (before, last) = after(table, last_tid, ops.drop_last());
        match ops.last() {
            KTransOp::Start(addr, data) => {
                let (next, tid, _) = started(before, last, addr, data);
                (next, tid)
            },
            KTransOp::End(id) => (ended(before, id).0, last),
        }
    }
}

/// Whether no end among the operations names the transaction `key`.
pub open spec fn never_ended<Data>(ops: Seq<KTransOp<Data>>, key: (SocketAddr, u16)) -> bool {
    forall|i: int|
        0 <= i < ops.len() ==> ((#[trigger] ops[i]) matches KTransOp::End(id) ==> trans_key(id)
            != Some(key))
}

/// A transaction that is not pending is not started again by fewer starts
/// than there are numbers: where `given` starts have been made since its
/// number was given, a run with fewer than `65536 - given` starts leaves it
/// not pending.
pub proof fn lemma_not_started_again<Data>(
    table: Map<(SocketAddr, u16), Data>,
    last_tid: u16,
    ops: Seq<KTransOp<Data>>,
    key: (SocketAddr, u16),
    given: nat,
)
    requires
        !table.contains_key(key),
        last_tid == (key.1 + given) % 0x10000,
        given + starts(ops) < 0x10000,
    ensures
        !after(table, last_tid, ops).0.contains_key(key),
        after(table, last_tid, ops).1 == (key.1 + given + starts(ops)) % 0x10000,
    decreases ops.len(),
{
    if ops.len() > 0 {
        lemma_not_started_again(table, last_tid, ops.drop_last(), key, given);
    }
}

/// A pending transaction stays pending, with what was kept for it, through
/// a run of operations none of whose ends names it and that holds fewer
/// starts than there are numbers.
pub proof fn lemma_stays_pending<Data>(
    table: Map<(SocketAddr, u16), Data>,
    last_tid: u16,
    ops: Seq<KTransOp<Data>>,
    key: (SocketAddr, u16),
    given: nat,
)
    requires
        table.contains_key(key),
        last_tid == (key.1 + given) % 0x10000,
        given + starts(ops) < 0x10000,
        never_ended(ops, key),
    ensures
        after(table, last_tid, ops).0.contains_key(key),
        after(table, last_tid, ops).0[key] == table[key],
        after(table, last_tid, ops).1 == (key.1 + given + starts(ops)) % 0x10000,
    decreases ops.len(),
{
    if ops.len() > 0 {
        let front = ops.drop_last();
        assert forall|i: int| 0 <= i < front.len() implies ((#[trigger] front[i]) matches KTransOp::End(
            id,
        ) ==> trans_key(id) != Some(key)) by {
            assert(front[i] == ops[i]);
        }
        lemma_stays_pending(table, last_tid, front, key, given);
        assert(ops.last() == ops[ops.len() - 1]);
    }
}

/// Each start is matched by exactly one end that hands over what was kept.
/// A transaction is started; other transactions are started and ended; the
/// first end with its routing key hands over what was kept for it; after
/// more starts and ends, a second end with the same key hands over nothing
/// and leaves the table as it is. This holds as long as fewer starts follow
/// the transaction's own than there are numbers, 65536.
pub proof fn lemma_end_exactly_once<Data>(
    table: Map<(SocketAddr, u16), Data>,
    last_tid: u16,
    addr: SocketAddr,
    data: Data,
    between: Seq<KTransOp<Data>>,
    later: Seq<KTransOp<Data>>,
)
    requires
        starts(between) + starts(later) < 0x10000,
        never_ended(between, (addr, started(table, last_tid, addr, data).1)),
    ensures
        ({
            let (pending, tid, id) = started(table, last_tid, addr, data);
            let (waiting, reached) = after(pending, tid, between);
            let (taken, first) = ended(waiting, id);
            let (rest, _) = after(taken, reached, later);
            &&& first == Some(data)
            &&& !rest.contains_key((addr, tid))
            &&& ended(rest, id) == (rest, None::<Data>)
        }),
{
    let (pending, tid, id) = started(table, last_tid, addr, data);
    let key = (addr, tid);
    lemma_trans_key_of_tid(addr, tid);
    lemma_stays_pending(pending, tid, between, key, 0);
    let (waiting, reached) = after(pending, tid, between);
    let (taken, first) = ended(waiting, id);
    lemma_not_started_again(taken, reached, later, key, starts(between));
}

/// One pending transaction.
struct Entry<Data> {
    addr: SocketAddr,
    tid: u16,
    data: Data,
}

/// Whether no two entries have the same peer and number.
spec fn distinct<Data>(pool: Seq<Entry<Data>>) -> bool {
    forall|i: int, j: int|
        0 <= i < j < pool.len() ==> !(#[trigger] pool[i].addr == #[trigger] pool[j].addr
            && pool[i].tid == pool[j].tid)
}

/// Whether the entry at `i` has the given key.
spec fn at<Data>(pool: Seq<Entry<Data>>, i: int, key: (SocketAddr, u16)) -> bool {
    0 <= i < pool.len() && pool[i].addr == key.0 && pool[i].tid == key.1
}

/// The map that a pool stands for.
spec fn model<Data>(pool: Seq<Entry<Data>>) -> Map<(SocketAddr, u16), Data> {
    Map::new(
        |key: (SocketAddr, u16)| exists|i: int| at(pool, i, key),
        |key: (SocketAddr, u16)| pool[choose|i: int| at(pool, i, key)].data,
    )
}

/// An entry of a pool without doubles is what the map holds under its key.
proof fn lemma_model_at<Data>(pool: Seq<Entry<Data>>, i: int)
    requires
        distinct(pool),
        0 <= i < pool.len(),
    ensures
        model(pool).contains_key((pool[i].addr, pool[i].tid)),
        model(pool)[(pool[i].addr, pool[i].tid)] == pool[i].data,
{
    let key = (pool[i].addr, pool[i].tid);
    assert(at(pool, i, key));
    let j = choose|j: int| at(pool, j, key);
    assert(i == j);
}

/// A pool with one more entry, under a key that it did not hold, stands for
/// the map with that entry put in.
proof fn lemma_model_push<Data>(pool: Seq<Entry<Data>>, entry: Entry<Data>)
    requires
        distinct(pool),
        !model(pool).contains_key((entry.addr, entry.tid)),
    ensures
        distinct(pool.push(entry)),
        model(pool.push(entry)) == model(pool).insert((entry.addr, entry.tid), entry.data),
{
    let more = pool.push(entry);
    let key = (entry.addr, entry.tid);
    assert forall|i: int, j: int| 0 <= i < j < more.len() implies !(#[trigger] more[i].addr
        == #[trigger] more[j].addr && more[i].tid == more[j].tid) by {
        if j == pool.len() {
            if more[i].addr == entry.addr && more[i].tid == entry.tid {
                assert(at(pool, i, key));
            }
        } else {
            assert(more[i] == pool[i] && more[j] == pool[j]);
        }
    }
    assert forall|k: (SocketAddr, u16)| #[trigger]
        model(more).contains_key(k) == model(pool).insert(key, entry.data).contains_key(k) by {
        if model(more).contains_key(k) {
            let i = choose|i: int| at(more, i, k);
            if i < pool.len() {
                assert(at(pool, i, k));
            }
        }
        if model(pool).contains_key(k) {
            let i = choose|i: int| at(pool, i, k);
            assert(at(more, i, k));
        }
        if k == key {
            assert(at(more, pool.len() as int, k));
        }
    }
    assert forall|k: (SocketAddr, u16)| model(more).contains_key(k) implies #[trigger] model(
        more,
    )[k] == model(pool).insert(key, entry.data)[k] by {
        let i = choose|i: int| at(more, i, k);
        lemma_model_at(more, i);
        if i < pool.len() {
            lemma_model_at(pool, i);
        }
    }
    assert(model(more) =~= model(pool).insert(key, entry.data));
}

/// A pool whose entry at `i` has its data replaced stands for the map with
/// the new data under that entry's key.
proof fn lemma_model_update<Data>(pool: Seq<Entry<Data>>, i: int, data: Data)
    requires
        distinct(pool),
        0 <= i < pool.len(),
    ensures
        distinct(pool.update(i, Entry { addr: pool[i].addr, tid: pool[i].tid, data })),
        model(pool.update(i, Entry { addr: pool[i].addr, tid: pool[i].tid, data })) == model(
            pool,
        ).insert((pool[i].addr, pool[i].tid), data),
{
    let key = (pool[i].addr, pool[i].tid);
    let new = pool.update(i, Entry { addr: pool[i].addr, tid: pool[i].tid, data });
    assert forall|a: int, b: int| 0 <= a < b < new.len() implies !(#[trigger] new[a].addr
        == #[trigger] new[b].addr && new[a].tid == new[b].tid) by {
        assert(new[a].addr == pool[a].addr && new[a].tid == pool[a].tid);
        assert(new[b].addr == pool[b].addr && new[b].tid == pool[b].tid);
    }
    assert forall|k: (SocketAddr, u16)| #[trigger]
        model(new).contains_key(k) == model(pool).insert(key, data).contains_key(k) by {
        if model(new).contains_key(k) {
            let j = choose|j: int| at(new, j, k);
            assert(at(pool, j, k));
        }
        if model(pool).contains_key(k) {
            let j = choose|j: int| at(pool, j, k);
            assert(at(new, j, k));
        }
        if k == key {
            assert(at(new, i, k));
        }
    }
    assert forall|k: (SocketAddr, u16)| model(new).contains_key(k) implies #[trigger] model(
        new,
    )[k] == model(pool).insert(key, data)[k] by {
        let j = choose|j: int| at(new, j, k);
        lemma_model_at(new, j);
        lemma_model_at(pool, j);
    }
    assert(model(new) =~= model(pool).insert(key, data));
}

/// A pool without its entry at `i` stands for the map without that entry's
/// key.
proof fn lemma_model_remove<Data>(pool: Seq<Entry<Data>>, i: int)
    requires
        distinct(pool),
        0 <= i < pool.len(),
    ensures
        distinct(pool.remove(i)),
        model(pool.remove(i)) == model(pool).remove((pool[i].addr, pool[i].tid)),
{
    let key = (pool[i].addr, pool[i].tid);
    let less = pool.remove(i);
    assert forall|a: int| 0 <= a < less.len() implies #[trigger] less[a] == pool[if a < i {
        a
    } else {
        a + 1
    }] by {}
    assert forall|a: int, b: int| 0 <= a < b < less.len() implies !(#[trigger] less[a].addr
        == #[trigger] less[b].addr && less[a].tid == less[b].tid) by {
        let a2 = if a < i {
            a
        } else {
            a + 1
        };
        let b2 = if b < i {
            b
        } else {
            b + 1
        };
        assert(less[a] == pool[a2] && less[b] == pool[b2]);
    }
    assert forall|k: (SocketAddr, u16)| #[trigger]
        model(less).contains_key(k) == model(pool).remove(key).contains_key(k) by {
        if model(less).contains_key(k) {
            let j = choose|j: int| at(less, j, k);
            let j2 = if j < i {
                j
            } else {
                j + 1
            };
            assert(less[j] == pool[j2]);
            assert(at(pool, j2, k));
            if k == key {
                assert(pool[i].addr == pool[j2].addr && pool[i].tid == pool[j2].tid);
                assert(false);
            }
        }
        if model(pool).remove(key).contains_key(k) {
            let j = choose|j: int| at(pool, j, k);
            assert(j != i);
            let j2 = if j < i {
                j
            } else {
                j - 1
            };
            assert(less[j2] == pool[j]);
            assert(at(less, j2, k));
        }
    }
    assert forall|k: (SocketAddr, u16)| model(less).contains_key(k) implies #[trigger] model(
        less,
    )[k] == model(pool).remove(key)[k] by {
        let j = choose|j: int| at(less, j, k);
        let j2 = if j < i {
            j
        } else {
            j + 1
        };
        assert(less[j] == pool[j2]);
        lemma_model_at(less, j);
        lemma_model_at(pool, j2);
    }
    assert(model(less) =~= model(pool).remove(key));
}

/// A pool without doubles stands for a map with as many keys as the pool
/// has entries.
proof fn lemma_model_len<Data>(pool: Seq<Entry<Data>>)
    requires
        distinct(pool),
    ensures
        model(pool).dom().finite(),
        model(pool).dom().len() == pool.len(),
    decreases pool.len(),
{
    if pool.len() == 0 {
        assert(model(pool).dom() =~= Set::empty());
    } else {
        let front = pool.drop_last();
        let last = pool.last();
        assert forall|i: int, j: int| 0 <= i < j < front.len() implies !(#[trigger] front[i].addr
            == #[trigger] front[j].addr && front[i].tid == front[j].tid) by {
            assert(front[i] == pool[i] && front[j] == pool[j]);
        }
        lemma_model_len(front);
        if model(front).contains_key((last.addr, last.tid)) {
            let i = choose|i: int| at(front, i, (last.addr, last.tid));
            assert(pool[i] == front[i]);
            assert(false);
        }
        lemma_model_push(front, last);
        assert(front.push(last) =~= pool);
        assert(model(pool).dom() =~= model(front).dom().insert((last.addr, last.tid)));
    }
}

/// The table of pending transactions: what waits for the answer to each
/// query that was sent, under the peer that was asked and the number that
/// the query was given.
pub struct KTrans<Data> {
    last_tid: u16,
    pool: Vec<Entry<Data>>,
}

impl<Data> View for KTrans<Data> {
    type V = Map<(SocketAddr, u16), Data>;

    closed spec fn view(&self) -> Map<(SocketAddr, u16), Data> {
        model(self.pool@)
    }
}

impl<Data> KTrans<Data> {
    #[verifier::type_invariant]
    spec fn well_formed(self) -> bool {
        distinct(self.pool@)
    }

    /// The number that the last started transaction was given: zero before
    /// the first.
    pub closed spec fn last_tid(&self) -> u16 {
        self.last_tid
    }

    /// An empty table.
    pub fn new() -> (trans: Self)
        ensures
            trans@ == Map::<(SocketAddr, u16), Data>::empty(),
            trans.last_tid() == 0,
    {
        let trans = KTrans { last_tid: 0, pool: Vec::new() };
        assert(trans@ =~= Map::<(SocketAddr, u16), Data>::empty());
        trans
    }

    /// The number of pending transactions.
    pub fn active(&self) -> (count: usize)
        ensures
            self@.dom().finite(),
            count == self@.dom().len(),
    {
        proof {
            use_type_invariant(self);
            lemma_model_len(self.pool@);
        }
        self.pool.len()
    }

    /// The index of the entry with the given key.
    fn position(&self, addr: &SocketAddr, tid: u16) -> (found: Option<usize>)
        ensures
            match found {
                Some(i) => at(self.pool@, i as int, (*addr, tid)),
                None => !self@.contains_key((*addr, tid)),
            },
    {
        let mut i: usize = 0;
        while i < self.pool.len()
            invariant
                i <= self.pool.len(),
                forall|j: int| 0 <= j < i ==> !at(self.pool@, j, (*addr, tid)),
            decreases self.pool.len() - i,
        {
            if self.pool[i].addr == *addr && self.pool[i].tid == tid {
                return Some(i);
            }
            i += 1;
        }
        None
    }

    /// Starts a transaction with `addr`: gives it the next number, keeps
    /// `data` under the peer and the number, and hands out the routing key
    /// that names it. An entry that is still pending under the same peer and
    /// number is replaced.
    pub fn start(&mut self, addr: SocketAddr, data: Data) -> (id: KId)
        ensures
            (final(self)@, final(self).last_tid(), id@) == started(
                old(self)@,
                old(self).last_tid(),
                addr,
                data,
            ),
    {
        proof {
            use_type_invariant(&*self);
        }
        let tid: u16 = if self.last_tid == 0xffff {
            0
        } else {
            self.last_tid + 1
        };
        let found = self.position(&addr, tid);
        self.last_tid = tid;
        let mut pool: Vec<Entry<Data>> = Vec::new();
        std::mem::swap(&mut self.pool, &mut pool);
        match found {
            Some(i) => {
                proof {
                    lemma_model_update(pool@, i as int, data);
                }
                pool[i] = Entry { addr, tid, data };
            },
            None => {
                proof {
                    lemma_model_push(pool@, Entry { addr, tid, data });
                }
                pool.push(Entry { addr, tid, data });
            },
        }
        std::mem::swap(&mut self.pool, &mut pool);
        assert((tid >> 8) & 0xff <= 0xff && tid & 0xff <= 0xff) by (bit_vector);
        let mut bytes: Vec<u8> = Vec::new();
        bytes.push(((tid >> 8) & 0xff) as u8);
        bytes.push((tid & 0xff) as u8);
        assert(bytes@ =~= tid_bytes(tid));
        KId(addr, Some(KTransId(bytes)))
    }

    /// Ends the transaction that a routing key names: takes out what was
    /// kept for it and hands it over. There is nothing to hand over where the
    /// key names no transaction or none that is pending.
    pub fn end(&mut self, trans: &KId) -> (data: Option<Data>)
        ensures
            final(self).last_tid() == old(self).last_tid(),
            (final(self)@, data) == ended(old(self)@, trans@),
    {
        proof {
            use_type_invariant(&*self);
        }
        if let KId(addr, Some(KTransId(tid))) = trans {
            if tid.len() == 2 {
                let tid: u16 = ((tid[0] as u16) << 8) | (tid[1] as u16);
                match self.position(addr, tid) {
                    Some(i) => {
                        proof {
                            lemma_model_at(self.pool@, i as int);
                            lemma_model_remove(self.pool@, i as int);
                        }
                        let mut pool: Vec<Entry<Data>> = Vec::new();
                        std::mem::swap(&mut self.pool, &mut pool);
                        let entry = pool.remove(i);
                        std::mem::swap(&mut self.pool, &mut pool);
                        return Some(entry.data);
                    },
                    None => {
                        assert(self@.remove((*addr, tid)) =~= self@);
                        return None;
                    },
                }
            }
        }
        None
    }
}

} // verus!
