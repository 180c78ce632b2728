//! The hash lifecycle table: record ids, their digests and a two-state
//! lifecycle flag, kept ordered by id.
use vstd::prelude::*;

use crate::hexcode::{hex_encode, hex_text};
use crate::protocol::{IdHash, IdHashBinary};

verus! {

/// Where a record stands: known but not fetched yet, or durably stored.
#[derive(Debug, PartialEq, Eq, Structural, Clone, Copy)]
pub enum HashState {
    Pending,
    Complete,
}

/// One row of the table.
#[derive(Debug, Clone, Copy)]
pub struct HashRecord {
    pub id: i32,
    pub hash: crate::protocol::Hash,
    pub state: HashState,
}

/// The mathematical content of a row.
pub struct HashEntry {
    pub id: i32,
    pub digest: Seq<u8>,
    pub state: HashState,
}

impl View for HashRecord {
    type V = HashEntry;

    open spec fn view(&self) -> HashEntry {
        HashEntry { id: self.id, digest: self.hash@, state: self.state }
    }
}

/// Rows in strictly increasing id order: ids are unique.
pub open spec fn sorted(s: Seq<HashEntry>) -> bool {
    forall|i: int, j: int| 0 <= i < j < s.len() ==> s[i].id < s[j].id
}

/// The table after an insert-or-ignore of one row: a row whose id is already
/// there leaves the table as it is; otherwise the row takes its place in id order.
pub open spec fn ins(s: Seq<HashEntry>, e: HashEntry) -> Seq<HashEntry>
    decreases s.len(),
{
    if s.len() == 0 {
        seq![e]
    } else if e.id < s[0].id {
        seq![e] + s
    } else if e.id == s[0].id {
        s
    } else {
        seq![s[0]] + ins(s.drop_first(), e)
    }
}

/// The table after an insert-or-ignore of each row in turn.
pub open spec fn ins_all(s: Seq<HashEntry>, rs: Seq<HashEntry>) -> Seq<HashEntry>
    decreases rs.len(),
{
    if rs.len() == 0 {
        s
    } else {
        ins(ins_all(s, rs.drop_last()), rs.last())
    }
}

/// A new row in the `Pending` state.
pub open spec fn pending_entry(b: IdHashBinary) -> HashEntry {
    HashEntry { id: b.id_spec(), digest: b.hash_spec(), state: HashState::Pending }
}

/// A new row in the `Complete` state.
pub open spec fn complete_entry(b: IdHashBinary) -> HashEntry {
    HashEntry { id: b.id_spec(), digest: b.hash_spec(), state: HashState::Complete }
}

/// A row after `MarkComplete` of some ids.
pub open spec fn mark_entry(e: HashEntry, ids: Seq<i32>) -> HashEntry {
    if ids.contains(e.id) {
        HashEntry { id: e.id, digest: e.digest, state: HashState::Complete }
    } else {
        e
    }
}

/// The table after `MarkComplete` of some ids.
pub open spec fn marked(s: Seq<HashEntry>, ids: Seq<i32>) -> Seq<HashEntry> {
    Seq::new(s.len(), |k: int| mark_entry(s[k], ids))
}

/// How many rows `MarkComplete` of some ids turns from `Pending` to `Complete`.
pub open spec fn count_marked(s: Seq<HashEntry>, ids: Seq<i32>) -> nat
    decreases s.len(),
{
    if s.len() == 0 {
        0
    } else {
        count_marked(s.drop_last(), ids) + if s.last().state == HashState::Pending && ids.contains(
            s.last().id,
        ) {
            1nat
        } else {
            0nat
        }
    }
}

/// The `Pending` rows, last row first: by id descending in a sorted table.
pub open spec fn pending_desc(s: Seq<HashEntry>) -> Seq<HashEntry>
    decreases s.len(),
{
    if s.len() == 0 {
        Seq::empty()
    } else {
        pending_desc(s.drop_first()) + if s[0].state == HashState::Pending {
            seq![s[0]]
        } else {
            Seq::empty()
        }
    }
}

/// What `QueryPending(n)` returns: up to `n` pending rows, by id descending.
pub open spec fn query_pending_spec(s: Seq<HashEntry>, n: nat) -> Seq<HashEntry> {
    let p = pending_desc(s);
    if n < p.len() {
        p.take(n as int)
    } else {
        p
    }
}

/// Whether a row with this id is in the table.
pub open spec fn has_id(s: Seq<HashEntry>, id: i32) -> bool {
    exists|i: int| 0 <= i < s.len() && #[trigger] s[i].id == id
}

/// A row that stands for an earlier one: same id, same digest, and
/// `Complete` if the earlier one was.
pub open spec fn holds_at(e: HashEntry, f: HashEntry) -> bool {
    &&& f.id == e.id
    &&& f.digest == e.digest
    &&& e.state == HashState::Complete ==> f.state == HashState::Complete
}

/// Some row of the table stands for the given one.
pub open spec fn kept_in(e: HashEntry, t: Seq<HashEntry>) -> bool {
    exists|j: int| 0 <= j < t.len() && holds_at(e, #[trigger] t[j])
}

/// From one table to a later one: no row is removed, no digest changes, and
/// no `Complete` row goes back to `Pending`.
pub open spec fn evolves(s: Seq<HashEntry>, t: Seq<HashEntry>) -> bool {
    forall|i: int| 0 <= i < s.len() ==> kept_in(#[trigger] s[i], t)
}

/// Where an id goes in a sorted table: every row before `i` has a smaller id,
/// and the row at `i`, if any, an id at least as large.
pub open spec fn insert_point(s: Seq<HashEntry>, id: i32, i: int) -> bool {
    &&& 0 <= i <= s.len()
    &&& forall|j: int| 0 <= j < i ==> #[trigger] s[j].id < id
    &&& i < s.len() ==> s[i].id >= id
}

proof fn lemma_ins_at(s: Seq<HashEntry>, e: HashEntry, i: int)
    requires
        insert_point(s, e.id, i),
    ensures
        ins(s, e) == if i < s.len() && s[i].id == e.id {
            s
        } else {
            s.insert(i, e)
        },
    decreases s.len(),
{
    if s.len() == 0 {
        assert(ins(s, e) =~= s.insert(i, e));
    } else if i == 0 {
        if e.id < s[0].id {
            assert(ins(s, e) =~= s.insert(i, e));
        }
    } else {
        let t = s.drop_first();
        assert(s[0].id < e.id);
        assert forall|j: int| 0 <= j < i - 1 implies #[trigger] t[j].id < e.id by {
            assert(s[j + 1].id < e.id);
        }
        lemma_ins_at(t, e, i - 1);
        if i < s.len() && s[i].id == e.id {
            assert(ins(s, e) =~= s);
        } else {
            assert(ins(s, e) =~= s.insert(i, e));
        }
    }
}

proof fn lemma_insert_point_exists(s: Seq<HashEntry>, id: i32) -> (i: int)
    requires
        sorted(s),
    ensures
        insert_point(s, id, i),
    decreases s.len(),
{
    if s.len() == 0 {
        0
    } else if s.last().id < id {
        let k = lemma_insert_point_exists(s.drop_last(), id);
        if k < s.len() - 1 {
            assert(s.drop_last()[k] == s[k]);
            assert(s[k].id < s[s.len() - 1].id);
            0
        } else {
            assert forall|j: int| 0 <= j < s.len() implies #[trigger] s[j].id < id by {
                if j < s.len() - 1 {
                    assert(s.drop_last()[j] == s[j]);
                }
            }
            s.len() as int
        }
    } else {
        let k = lemma_insert_point_exists(s.drop_last(), id);
        assert forall|j: int| 0 <= j < k implies #[trigger] s[j].id < id by {
            assert(s.drop_last()[j] == s[j]);
        }
        k
    }
}

proof fn lemma_ins_sorted(s: Seq<HashEntry>, e: HashEntry, i: int)
    requires
        sorted(s),
        insert_point(s, e.id, i),
        !(i < s.len() && s[i].id == e.id),
    ensures
        sorted(s.insert(i, e)),
{
    let t = s.insert(i, e);
    assert forall|a: int, b: int| 0 <= a < b < t.len() implies t[a].id < t[b].id by {
        if b < i {
        } else if b == i {
        } else if a < i {
            assert(t[b] == s[b - 1]);
        } else if a == i {
            assert(t[b] == s[b - 1]);
        } else {
            assert(t[a] == s[a - 1]);
            assert(t[b] == s[b - 1]);
        }
    }
}

/// Inserting into a sorted table keeps it sorted, loses no row, and leaves the id present.
proof fn lemma_ins_facts(s: Seq<HashEntry>, e: HashEntry)
    requires
        sorted(s),
    ensures
        sorted(ins(s, e)),
        evolves(s, ins(s, e)),
        has_id(ins(s, e), e.id),
        has_id(s, e.id) ==> ins(s, e) == s,
{
    let i = lemma_insert_point_exists(s, e.id);
    lemma_ins_at(s, e, i);
    let t = ins(s, e);
    if i < s.len() && s[i].id == e.id {
        assert(t[i].id == e.id);
        assert forall|k: int| 0 <= k < s.len() implies kept_in(#[trigger] s[k], t) by {
            assert(holds_at(s[k], t[k]));
        }
    } else {
        assert(t[i] == e);
        lemma_ins_sorted(s, e, i);
        assert forall|k: int| 0 <= k < s.len() implies kept_in(#[trigger] s[k], t) by {
            if k < i {
                assert(holds_at(s[k], t[k]));
            } else {
                assert(holds_at(s[k], t[k + 1]));
            }
        }
        if has_id(s, e.id) {
            let j = choose|j: int| 0 <= j < s.len() && #[trigger] s[j].id == e.id;
            if j > i {
                assert(s[i].id < s[j].id);
            }
        }
    }
}

/// Moving forward twice is moving forward.
pub proof fn lemma_evolves_trans(a: Seq<HashEntry>, b: Seq<HashEntry>, c: Seq<HashEntry>)
    requires
        evolves(a, b),
        evolves(b, c),
    ensures
        evolves(a, c),
{
    assert forall|i: int| 0 <= i < a.len() implies kept_in(#[trigger] a[i], c) by {
        assert(kept_in(a[i], b));
        let j = choose|j: int| 0 <= j < b.len() && holds_at(a[i], #[trigger] b[j]);
        assert(kept_in(b[j], c));
        let k = choose|k: int| 0 <= k < c.len() && holds_at(b[j], #[trigger] c[k]);
        assert(holds_at(a[i], c[k]));
    }
}

/// A table moves forward to itself.
pub proof fn lemma_evolves_refl(a: Seq<HashEntry>)
    ensures
        evolves(a, a),
{
    assert forall|i: int| 0 <= i < a.len() implies kept_in(#[trigger] a[i], a) by {
        assert(holds_at(a[i], a[i]));
    }
}

/// A batch of inserts keeps the table sorted, loses no row, and leaves every id of the batch present.
proof fn lemma_ins_all_facts(s: Seq<HashEntry>, rs: Seq<HashEntry>)
    requires
        sorted(s),
    ensures
        sorted(ins_all(s, rs)),
        evolves(s, ins_all(s, rs)),
        forall|k: int| 0 <= k < rs.len() ==> has_id(ins_all(s, rs), #[trigger] rs[k].id),
    decreases rs.len(),
{
    if rs.len() == 0 {
        lemma_evolves_refl(s);
    } else {
        let p = ins_all(s, rs.drop_last());
        lemma_ins_all_facts(s, rs.drop_last());
        lemma_ins_facts(p, rs.last());
        lemma_evolves_trans(s, p, ins_all(s, rs));
        assert forall|k: int| 0 <= k < rs.len() implies has_id(ins_all(s, rs), #[trigger] rs[k].id) by {
            if k < rs.len() - 1 {
                assert(rs.drop_last()[k] == rs[k]);
                let i = choose|i: int| 0 <= i < p.len() && #[trigger] p[i].id == rs[k].id;
                assert(kept_in(p[i], ins_all(s, rs)));
                let j = choose|j: int|
                    0 <= j < ins_all(s, rs).len() && holds_at(p[i], #[trigger] ins_all(s, rs)[j]);
                assert(ins_all(s, rs)[j].id == rs[k].id);
            }
        }
    }
}

proof fn lemma_ins_all_present(t: Seq<HashEntry>, rs: Seq<HashEntry>)
    requires
        sorted(t),
        forall|k: int| 0 <= k < rs.len() ==> has_id(t, #[trigger] rs[k].id),
    ensures
        ins_all(t, rs) == t,
    decreases rs.len(),
{
    if rs.len() > 0 {
        assert forall|k: int| 0 <= k < rs.drop_last().len() implies has_id(
            t,
            #[trigger] rs.drop_last()[k].id,
        ) by {
            assert(rs.drop_last()[k] == rs[k]);
        }
        lemma_ins_all_present(t, rs.drop_last());
        lemma_ins_facts(t, rs.last());
    }
}

/// Inserting the same batch of rows twice leaves the table as inserting it once.
pub proof fn lemma_upsert_idempotent(s: Seq<HashEntry>, rs: Seq<HashEntry>)
    requires
        sorted(s),
    ensures
        ins_all(ins_all(s, rs), rs) == ins_all(s, rs),
{
    lemma_ins_all_facts(s, rs);
    lemma_ins_all_present(ins_all(s, rs), rs);
}

/// Inserting the same row twice leaves the table as inserting it once.
pub proof fn lemma_insert_idempotent(s: Seq<HashEntry>, e: HashEntry)
    requires
        sorted(s),
    ensures
        ins(ins(s, e), e) == ins(s, e),
{
    lemma_ins_facts(s, e);
    lemma_ins_facts(ins(s, e), e);
}

/// A batch of inserts keeps the table sorted, loses no row, changes no
/// digest and turns no `Complete` row back.
pub proof fn lemma_upsert_monotone(s: Seq<HashEntry>, rs: Seq<HashEntry>)
    requires
        sorted(s),
    ensures
        sorted(ins_all(s, rs)),
        evolves(s, ins_all(s, rs)),
{
    lemma_ins_all_facts(s, rs);
}

/// An insert keeps the table sorted, loses no row, changes no digest and
/// turns no `Complete` row back.
pub proof fn lemma_insert_monotone(s: Seq<HashEntry>, e: HashEntry)
    requires
        sorted(s),
    ensures
        sorted(ins(s, e)),
        evolves(s, ins(s, e)),
{
    lemma_ins_facts(s, e);
}

/// `MarkComplete` keeps the table sorted, loses no row, changes no digest and
/// turns no `Complete` row back.
pub proof fn lemma_mark_monotone(s: Seq<HashEntry>, ids: Seq<i32>)
    requires
        sorted(s),
    ensures
        sorted(marked(s, ids)),
        evolves(s, marked(s, ids)),
{
    let t = marked(s, ids);
    assert forall|i: int| 0 <= i < s.len() implies kept_in(#[trigger] s[i], t) by {
        assert(holds_at(s[i], t[i]));
    }
}

proof fn lemma_pending_desc_concat(a: Seq<HashEntry>, b: Seq<HashEntry>)
    ensures
        pending_desc(a + b) == pending_desc(b) + pending_desc(a),
    decreases a.len(),
{
    if a.len() == 0 {
        assert(a + b =~= b);
        assert(pending_desc(b) + pending_desc(a) =~= pending_desc(b));
    } else {
        lemma_pending_desc_concat(a.drop_first(), b);
        assert((a + b).drop_first() =~= a.drop_first() + b);
        assert((a + b)[0] == a[0]);
        let tail = if a[0].state == HashState::Pending {
            seq![a[0]]
        } else {
            Seq::<HashEntry>::empty()
        };
        assert(pending_desc(a + b) == pending_desc(a.drop_first() + b) + tail);
        assert(pending_desc(b) + pending_desc(a.drop_first()) + tail =~= pending_desc(b) + (
        pending_desc(a.drop_first()) + tail));
    }
}

/// Every row that `pending_desc` lists is a `Pending` row of the table.
pub proof fn lemma_pending_desc_rows(s: Seq<HashEntry>)
    ensures
        forall|k: int|
            0 <= k < pending_desc(s).len() ==> (#[trigger] pending_desc(s)[k]).state
                == HashState::Pending && exists|i: int| 0 <= i < s.len() && s[i] == pending_desc(s)[k],
    decreases s.len(),
{
    if s.len() > 0 {
        let t = s.drop_first();
        lemma_pending_desc_rows(t);
        let p = pending_desc(s);
        assert forall|k: int| 0 <= k < p.len() implies (#[trigger] p[k]).state == HashState::Pending
            && exists|i: int| 0 <= i < s.len() && s[i] == p[k] by {
            if k < pending_desc(t).len() {
                assert(p[k] == pending_desc(t)[k]);
                let i = choose|i: int| 0 <= i < t.len() && t[i] == pending_desc(t)[k];
                assert(s[i + 1] == p[k]);
            } else {
                assert(s[0] == p[k]);
            }
        }
    }
}

/// Once `MarkComplete` of some ids has run, no query for pending rows
/// returns any of those ids, whatever its limit.
pub proof fn lemma_query_excludes_marked(s: Seq<HashEntry>, ids: Seq<i32>, n: nat)
    ensures
        forall|k: int|
            0 <= k < query_pending_spec(marked(s, ids), n).len() ==> !ids.contains(
                #[trigger] query_pending_spec(marked(s, ids), n)[k].id,
            ),
{
    let t = marked(s, ids);
    let q = query_pending_spec(t, n);
    lemma_pending_desc_rows(t);
    assert forall|k: int| 0 <= k < q.len() implies !ids.contains(#[trigger] q[k].id) by {
        assert(q[k] == pending_desc(t)[k]);
        let i = choose|i: int| 0 <= i < t.len() && t[i] == pending_desc(t)[k];
        assert(t[i] == mark_entry(s[i], ids));
    }
}

/// The hash lifecycle table, ordered by id.
pub struct HashTable {
    records: Vec<HashRecord>,
}

impl View for HashTable {
    type V = Seq<HashEntry>;

    closed spec fn view(&self) -> Seq<HashEntry> {
        self.records@.map_values(|r: HashRecord| r@)
    }
}

/// Whether `id` is in the list.
fn contains_id(ids: &Vec<i32>, id: i32) -> (r: bool)
    ensures
        r == ids@.contains(id),
{
    let mut i: usize = 0;
    while i < ids.len()
        invariant
            0 <= i <= ids@.len(),
            forall|j: int| 0 <= j < i ==> ids@[j] != id,
        decreases ids@.len() - i,
    {
        if ids[i] == id {
            return true;
        }
        i = i + 1;
    }
    false
}

impl HashTable {
    /// The table's invariant: ids strictly increase.
    pub open spec fn wf(&self) -> bool {
        sorted(self@)
    }

    /// An empty table.
    pub fn new() -> (r: HashTable)
        ensures
            r.wf(),
            r@ == Seq::<HashEntry>::empty(),
    {
        let r = HashTable { records: Vec::new() };
        assert(r@ =~= Seq::<HashEntry>::empty());
        r
    }

    /// The number of rows.
    pub fn len(&self) -> (r: usize)
        ensures
            r == self@.len(),
    {
        self.records.len()
    }

    fn insert_record(&mut self, rec: HashRecord)
        requires
            old(self).wf(),
        ensures
            final(self).wf(),
            final(self)@ == ins(old(self)@, rec@),
    {
        let ghost s = self@;
        let mut i: usize = 0;
        while i < self.records.len() && self.records[i].id < rec.id
            invariant
                self@ == s,
                0 <= i <= s.len(),
                forall|j: int| 0 <= j < i ==> #[trigger] s[j].id < rec.id,
            decreases s.len() - i,
        {
            i = i + 1;
        }
        proof {
            lemma_ins_at(s, rec@, i as int);
            lemma_ins_facts(s, rec@);
        }
        if i < self.records.len() && self.records[i].id == rec.id {
            return;
        }
        self.records.insert(i, rec);
        assert(self@ =~= s.insert(i as int, rec@));
    }

    /// `UpsertPendingBatch`: inserts each record as `Pending` unless its id
    /// is already there, and returns how many records were offered.
    pub fn upsert_pending_batch(&mut self, records: &Vec<IdHashBinary>) -> (r: usize)
        requires
            old(self).wf(),
        ensures
            final(self).wf(),
            final(self)@ == ins_all(old(self)@, records@.map_values(|b: IdHashBinary| pending_entry(b))),
            r == records@.len(),
    {
        let ghost s = self@;
        let ghost rs = records@.map_values(|b: IdHashBinary| pending_entry(b));
        let mut i: usize = 0;
        while i < records.len()
            invariant
                0 <= i <= records@.len(),
                rs == records@.map_values(|b: IdHashBinary| pending_entry(b)),
                self.wf(),
                self@ == ins_all(s, rs.take(i as int)),
            decreases records@.len() - i,
        {
            let b = &records[i];
            let rec = HashRecord { id: b.get_id(), hash: b.get_hash(), state: HashState::Pending };
            assert(rec@ == rs[i as int]);
            assert(rs.take(i + 1).drop_last() =~= rs.take(i as int));
            self.insert_record(rec);
            i = i + 1;
        }
        assert(rs.take(i as int) =~= rs);
        i
    }

    /// `InsertComplete`: inserts the record as `Complete` unless its id is already there.
    pub fn insert_complete(&mut self, record: &IdHashBinary)
        requires
            old(self).wf(),
        ensures
            final(self).wf(),
            final(self)@ == ins(old(self)@, complete_entry(*record)),
    {
        let rec = HashRecord { id: record.get_id(), hash: record.get_hash(), state: HashState::Complete };
        self.insert_record(rec);
    }

    /// `MarkComplete`: turns each listed id that is `Pending` into `Complete`,
    /// and returns how many rows changed; absent or complete ids are skipped.
    pub fn mark_complete(&mut self, ids: &Vec<i32>) -> (r: usize)
        requires
            old(self).wf(),
        ensures
            final(self).wf(),
            final(self)@ == marked(old(self)@, ids@),
            r == count_marked(old(self)@, ids@),
    {
        let ghost s = self@;
        proof {
            lemma_mark_monotone(s, ids@);
        }
        let mut count: usize = 0;
        let mut i: usize = 0;
        while i < self.records.len()
            invariant
                0 <= i <= s.len(),
                self@.len() == s.len(),
                forall|k: int| 0 <= k < i ==> self@[k] == mark_entry(s[k], ids@),
                forall|k: int| i <= k < s.len() ==> self@[k] == s[k],
                count == count_marked(s.take(i as int), ids@),
                count <= i,
            decreases s.len() - i,
        {
            let rec = self.records[i];
            assert(s.take(i + 1).drop_last() =~= s.take(i as int));
            assert(s.take(i + 1).last() == s[i as int]);
            assert(rec@ == s[i as int]);
            if rec.state == HashState::Pending && contains_id(ids, rec.id) {
                let ghost before = self@;
                let done = HashRecord { id: rec.id, hash: rec.hash, state: HashState::Complete };
                self.records.set(i, done);
                assert(self@ =~= before.update(i as int, done@));
                assert(done@ == mark_entry(s[i as int], ids@));
                count = count + 1;
            } else {
                assert(mark_entry(s[i as int], ids@) == s[i as int]);
            }
            i = i + 1;
        }
        assert(self@ =~= marked(s, ids@));
        assert(s.take(i as int) =~= s);
        count
    }

    /// `QueryPending(n)`: up to `n` pending records, by id descending, each
    /// with its digest as lowercase hexadecimal text.
    pub fn query_pending(&self, n: u32) -> (r: Vec<IdHash>)
        requires
            self.wf(),
        ensures
            r@.len() == query_pending_spec(self@, n as nat).len(),
            forall|k: int|
                0 <= k < r@.len() ==> (#[trigger] r@[k]).0 == query_pending_spec(self@, n as nat)[k].id
                    && r@[k].1@ == hex_text(query_pending_spec(self@, n as nat)[k].digest),
    {
        let ghost s = self@;
        let mut r: Vec<IdHash> = Vec::new();
        let mut i: usize = self.records.len();
        while i > 0 && r.len() < n as usize
            invariant
                s == self@,
                0 <= i <= s.len(),
                r@.len() <= n,
                r@.len() == pending_desc(s.subrange(i as int, s.len() as int)).len(),
                forall|k: int|
                    0 <= k < r@.len() ==> (#[trigger] r@[k]).0 == pending_desc(
                        s.subrange(i as int, s.len() as int),
                    )[k].id && r@[k].1@ == hex_text(
                        pending_desc(s.subrange(i as int, s.len() as int))[k].digest,
                    ),
            decreases i,
        {
            i = i - 1;
            let rec = self.records[i];
            let ghost x = s.subrange(i as int, s.len() as int);
            assert(x.drop_first() =~= s.subrange(i + 1, s.len() as int));
            assert(x[0] == rec@);
            if rec.state == HashState::Pending {
                r.push((rec.id, hex_encode(rec.hash.as_slice())));
            }
        }
        proof {
            let x = s.subrange(i as int, s.len() as int);
            assert(s =~= s.take(i as int) + x);
            lemma_pending_desc_concat(s.take(i as int), x);
            if i == 0 {
                assert(x =~= s);
            } else {
                assert(pending_desc(s).take(n as int) =~= pending_desc(x));
            }
        }
        r
    }

    /// The row with this id, if there is one.
    pub fn get(&self, id: i32) -> (r: Option<HashRecord>)
        ensures
            r is None <==> !has_id(self@, id),
            r matches Some(rec) ==> rec.id == id && exists|i: int|
                0 <= i < self@.len() && self@[i] == rec@,
    {
        let mut i: usize = 0;
        while i < self.records.len()
            invariant
                0 <= i <= self@.len(),
                forall|j: int| 0 <= j < i ==> #[trigger] self@[j].id != id,
            decreases self@.len() - i,
        {
            if self.records[i].id == id {
                assert(self@[i as int] == self.records@[i as int]@);
                assert(self@[i as int].id == id);
                return Some(self.records[i]);
            }
            i = i + 1;
        }
        None
    }
}

} // verus!
