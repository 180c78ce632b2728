//! The coordinator: the single owner of the hash lifecycle table, which runs
//! commands one at a time in the order they arrived.
use vstd::prelude::*;

use std::collections::VecDeque;

use crate::hexcode::{hex_bytes, hex_text};
use crate::protocol::{conversion_error, id_hash_valid, CmdEvent, DataEvent, IdHash, IdHashBinary};
use crate::store::{
    count_marked, evolves, has_id, holds_at, ins, ins_all, kept_in, lemma_evolves_refl,
    lemma_evolves_trans, lemma_insert_idempotent, lemma_insert_monotone, lemma_mark_monotone,
    lemma_pending_desc_rows, lemma_upsert_idempotent, lemma_upsert_monotone, mark_entry, marked,
    pending_desc, pending_entry, query_pending_spec, sorted, HashEntry, HashState, HashTable,
};

verus! {

/// The row that `SaveHandledHash` creates.
pub open spec fn handled_entry(id: i32, text: Seq<char>) -> HashEntry {
    HashEntry { id, digest: hex_bytes(text), state: HashState::Complete }
}

/// The table after one command.
pub open spec fn step(s: Seq<HashEntry>, cmd: CmdEvent) -> Seq<HashEntry> {
    match cmd {
        CmdEvent::SaveDailyReport(report) => ins_all(
            s,
            report.killmails@.map_values(|b: IdHashBinary| pending_entry(b)),
        ),
        CmdEvent::MarkComplete(ids) => marked(s, ids@),
        CmdEvent::SaveHandledHash(h) => if id_hash_valid(h.0, h.1@) {
            ins(s, handled_entry(h.0, h.1@))
        } else {
            s
        },
        _ => s,
    }
}

/// The table after a sequence of commands, in order.
pub open spec fn run(s: Seq<HashEntry>, cmds: Seq<CmdEvent>) -> Seq<HashEntry>
    decreases cmds.len(),
{
    if cmds.len() == 0 {
        s
    } else {
        step(run(s, cmds.drop_last()), cmds.last())
    }
}

/// The pairs that answer `RequestLastHashes(n)` on a table.
pub open spec fn answers(v: Seq<IdHash>, s: Seq<HashEntry>, n: u32) -> bool {
    &&& v.len() == query_pending_spec(s, n as nat).len()
    &&& forall|k: int|
        0 <= k < v.len() ==> (#[trigger] v[k]).0 == query_pending_spec(s, n as nat)[k].id
            && v[k].1@ == hex_text(query_pending_spec(s, n as nat)[k].digest)
}

/// What the coordinator did with a command.
#[derive(Debug)]
pub enum Reply {
    /// A daily report was stored; the count of records offered.
    Inserted(usize),
    /// This message goes out on the data channel.
    Publish(DataEvent),
    /// Ids were marked complete; the count of rows that changed.
    Marked(usize),
    /// A handled record was stored as complete.
    Stored,
    /// A command with no handler; nothing changed.
    Ignored,
    /// The coordinator stops after this command.
    Quit,
}

/// The coordinator's state: the hash lifecycle table.
pub struct HashManager {
    table: HashTable,
}

impl View for HashManager {
    type V = Seq<HashEntry>;

    closed spec fn view(&self) -> Seq<HashEntry> {
        self.table@
    }
}

impl HashManager {
    /// The invariant of the table it owns: ids strictly increase.
    pub open spec fn wf(&self) -> bool {
        sorted(self@)
    }

    /// A coordinator over an empty table.
    pub fn new() -> (r: HashManager)
        ensures
            r.wf(),
            r@ == Seq::<HashEntry>::empty(),
    {
        HashManager { table: HashTable::new() }
    }

    /// The table that the coordinator owns.
    pub fn table(&self) -> (r: &HashTable)
        ensures
            r@ == self@,
    {
        &self.table
    }

    /// Runs one command to completion: the table becomes `step(table, cmd)`,
    /// and the reply says what follows. A handled record whose digest does
    /// not convert is an error, and the table is left as it was.
    pub fn handle(&mut self, cmd: CmdEvent) -> (r: Result<Reply, &'static str>)
        requires
            old(self).wf(),
        ensures
            final(self).wf(),
            final(self)@ == step(old(self)@, cmd),
            cmd matches CmdEvent::SaveDailyReport(report) ==> (r matches Ok(Reply::Inserted(c)) && c
                == report.killmails@.len()),
            cmd matches CmdEvent::RequestLastHashes(n) ==> (r matches Ok(Reply::Publish(
                DataEvent::HashesToHandle(v),
            )) && answers(v@, old(self)@, n)),
            cmd matches CmdEvent::MarkComplete(ids) ==> (r matches Ok(Reply::Marked(c)) && c
                == count_marked(old(self)@, ids@)),
            cmd matches CmdEvent::SaveHandledHash(h) ==> (id_hash_valid(h.0, h.1@) <==> r matches Ok(
                Reply::Stored,
            )),
            cmd matches CmdEvent::SaveHandledHash(h) ==> (r matches Err(e) ==> e == conversion_error(
                h.1@,
            )),
            cmd is ReturnHash ==> r matches Ok(Reply::Ignored),
            cmd is Quit ==> r matches Ok(Reply::Quit),
    {
        match cmd {
            CmdEvent::SaveDailyReport(report) => {
                let count = self.table.upsert_pending_batch(&report.killmails);
                Ok(Reply::Inserted(count))
            },
            CmdEvent::RequestLastHashes(n) => {
                let payload = self.table.query_pending(n);
                Ok(Reply::Publish(DataEvent::HashesToHandle(payload)))
            },
            CmdEvent::MarkComplete(ids) => {
                let updated = self.table.mark_complete(&ids);
                Ok(Reply::Marked(updated))
            },
            CmdEvent::SaveHandledHash((id, hash)) => {
                match IdHashBinary::try_from((id, hash.as_str())) {
                    Ok(b) => {
                        self.table.insert_complete(&b);
                        Ok(Reply::Stored)
                    },
                    Err(e) => Err(e),
                }
            },
            CmdEvent::ReturnHash(_) => Ok(Reply::Ignored),
            CmdEvent::Quit => Ok(Reply::Quit),
        }
    }
}

/// Every command keeps the table sorted, and moves it forward: no row is
/// removed, no digest changes, and no `Complete` row goes back to `Pending`.
pub proof fn lemma_step_monotone(s: Seq<HashEntry>, cmd: CmdEvent)
    requires
        sorted(s),
    ensures
        sorted(step(s, cmd)),
        evolves(s, step(s, cmd)),
{
    match cmd {
        CmdEvent::SaveDailyReport(report) => {
            lemma_upsert_monotone(s, report.killmails@.map_values(|b: IdHashBinary| pending_entry(b)));
        },
        CmdEvent::MarkComplete(ids) => {
            lemma_mark_monotone(s, ids@);
        },
        CmdEvent::SaveHandledHash(h) => {
            lemma_insert_monotone(s, handled_entry(h.0, h.1@));
        },
        _ => {
            lemma_mark_monotone(s, Seq::empty());
            assert(marked(s, Seq::empty()) =~= s);
        },
    }
}

/// Running a command a second time changes nothing: every handler tolerates
/// duplicate delivery.
pub proof fn lemma_step_idempotent(s: Seq<HashEntry>, cmd: CmdEvent)
    requires
        sorted(s),
    ensures
        step(step(s, cmd), cmd) == step(s, cmd),
{
    match cmd {
        CmdEvent::SaveDailyReport(report) => {
            lemma_upsert_idempotent(s, report.killmails@.map_values(|b: IdHashBinary| pending_entry(b)));
        },
        CmdEvent::MarkComplete(ids) => {
            assert(marked(marked(s, ids@), ids@) =~= marked(s, ids@));
        },
        CmdEvent::SaveHandledHash(h) => {
            if id_hash_valid(h.0, h.1@) {
                lemma_insert_idempotent(s, handled_entry(h.0, h.1@));
            }
        },
        _ => {},
    }
}

/// Over any sequence of commands the table only moves forward: for every
/// id, the observed state never goes from `Complete` back to `Pending`, and
/// no row or digest is lost.
pub proof fn lemma_run_monotone(s: Seq<HashEntry>, cmds: Seq<CmdEvent>)
    requires
        sorted(s),
    ensures
        sorted(run(s, cmds)),
        evolves(s, run(s, cmds)),
    decreases cmds.len(),
{
    if cmds.len() == 0 {
        lemma_evolves_refl(s);
    } else {
        lemma_run_monotone(s, cmds.drop_last());
        lemma_step_monotone(run(s, cmds.drop_last()), cmds.last());
        lemma_evolves_trans(s, run(s, cmds.drop_last()), run(s, cmds));
    }
}

/// A row that is `Complete` is never offered again: after any later
/// commands, no query for pending rows returns its id.
pub proof fn lemma_complete_never_offered(
    s: Seq<HashEntry>,
    i: int,
    later: Seq<CmdEvent>,
    n: nat,
)
    requires
        sorted(s),
        0 <= i < s.len(),
        s[i].state == HashState::Complete,
    ensures
        forall|k: int|
            0 <= k < query_pending_spec(run(s, later), n).len() ==> (#[trigger] query_pending_spec(
                run(s, later),
                n,
            )[k]).id != s[i].id,
{
    let t = run(s, later);
    let q = query_pending_spec(t, n);
    lemma_run_monotone(s, later);
    assert(kept_in(s[i], t));
    let j = choose|j: int| 0 <= j < t.len() && holds_at(s[i], #[trigger] t[j]);
    lemma_pending_desc_rows(t);
    assert forall|k: int| 0 <= k < q.len() implies (#[trigger] q[k]).id != s[i].id by {
        assert(q[k] == pending_desc(t)[k]);
        let a = choose|a: int| 0 <= a < t.len() && t[a] == pending_desc(t)[k];
        if t[a].id == s[i].id {
            if a < j {
                assert(t[a].id < t[j].id);
            } else if a > j {
                assert(t[j].id < t[a].id);
            }
        }
    }
}

/// After `MarkComplete` of some ids commits, whatever commands follow, no
/// query for pending rows returns any of those ids that the table held.
pub proof fn lemma_marked_never_offered(
    s: Seq<HashEntry>,
    ids: Seq<i32>,
    id: i32,
    later: Seq<CmdEvent>,
    n: nat,
)
    requires
        sorted(s),
        ids.contains(id),
        has_id(s, id),
    ensures
        forall|k: int|
            0 <= k < query_pending_spec(run(marked(s, ids), later), n).len() ==> (
            #[trigger] query_pending_spec(run(marked(s, ids), later), n)[k]).id != id,
{
    let i = choose|i: int| 0 <= i < s.len() && #[trigger] s[i].id == id;
    lemma_mark_monotone(s, ids);
    assert(marked(s, ids)[i] == mark_entry(s[i], ids));
    lemma_complete_never_offered(marked(s, ids), i, later, n);
}

/// The coordinator's queue of commands waiting to run: first in, first out.
pub struct CommandQueue {
    items: VecDeque<CmdEvent>,
}

impl View for CommandQueue {
    type V = Seq<CmdEvent>;

    closed spec fn view(&self) -> Seq<CmdEvent> {
        self.items@
    }
}

impl CommandQueue {
    /// An empty queue.
    pub fn new() -> (r: CommandQueue)
        ensures
            r@ == Seq::<CmdEvent>::empty(),
    {
        CommandQueue { items: VecDeque::new() }
    }

    /// Adds a command at the back.
    pub fn enqueue(&mut self, cmd: CmdEvent)
        ensures
            final(self)@ == old(self)@.push(cmd),
    {
        self.items.push_back(cmd);
    }

    /// Takes the command at the front, if there is one.
    pub fn dequeue(&mut self) -> (r: Option<CmdEvent>)
        ensures
            old(self)@.len() == 0 ==> r is None && final(self)@ == old(self)@,
            old(self)@.len() > 0 ==> r == Some(old(self)@[0]) && final(self)@ == old(self)@.drop_first(),
    {
        let r = self.items.pop_front();
        proof {
            if old(self)@.len() > 0 {
                assert(old(self)@.subrange(1, old(self)@.len() as int) =~= old(self)@.drop_first());
            }
        }
        r
    }

    /// Whether no command waits.
    pub fn is_empty(&self) -> (r: bool)
        ensures
            r == (self@.len() == 0),
    {
        self.items.len() == 0
    }
}

} // verus!
