//! The ingestion worker's decisions: how a fetch is retried, which batches
//! are worth storing, the rows a batch becomes, and the commands that follow
//! a commit.
use vstd::prelude::*;

use crate::protocol::{Attackers, CmdEvent, Killmail};

verus! {

/// The first wait, in seconds, before a fetch is tried again.
pub const FIRST_BACKOFF_SECS: u64 = 3;

/// The longest wait, in seconds, between two tries of a fetch.
pub const MAX_BACKOFF_SECS: u64 = 300;

/// How many pending records the worker asks for at a time.
pub const REQUEST_COUNT: u32 = 8;

/// The layout of a killmail's time: ISO-8601 in UTC.
pub const KILLMAIL_TIME_FORMAT: &'static str = "%Y-%m-%dT%H:%M:%SZ";

/// The wait after the given one: doubled, and capped at `MAX_BACKOFF_SECS`.
pub open spec fn next_backoff_spec(secs: u64) -> u64 {
    if 2 * secs >= MAX_BACKOFF_SECS {
        MAX_BACKOFF_SECS
    } else {
        (2 * secs) as u64
    }
}

/// The wait after the given one: doubled, and capped at `MAX_BACKOFF_SECS`.
pub fn next_backoff(secs: u64) -> (r: u64)
    ensures
        r == next_backoff_spec(secs),
{
    if secs >= MAX_BACKOFF_SECS / 2 {
        MAX_BACKOFF_SECS
    } else {
        secs * 2
    }
}

/// How one try of a fetch ended.
#[derive(Debug, PartialEq, Eq, Structural, Clone, Copy)]
pub enum FetchOutcome {
    /// The source answered with success.
    Success,
    /// The source answered, but not with success.
    NotSuccess,
    /// The request failed, or the payload did not parse.
    Failed,
}

/// What the fetch task does next.
#[derive(Debug, PartialEq, Eq, Structural, Clone, Copy)]
pub enum FetchAction {
    /// Read the payload.
    Accept,
    /// Wait `wait_secs`, then try again; the wait after that is `next_secs`.
    Retry { wait_secs: u64, next_secs: u64 },
    /// Give up the fetch, and with it the batch.
    Abort,
}

/// The retry rule of a fetch: a non-success answer is tried again after the
/// current wait, which then doubles up to its cap; any other failure ends the
/// fetch at once.
pub fn fetch_step(outcome: FetchOutcome, backoff_secs: u64) -> (r: FetchAction)
    ensures
        outcome == FetchOutcome::Success ==> r == FetchAction::Accept,
        outcome == FetchOutcome::NotSuccess ==> r == (FetchAction::Retry {
            wait_secs: backoff_secs,
            next_secs: next_backoff_spec(backoff_secs),
        }),
        outcome == FetchOutcome::Failed ==> r == FetchAction::Abort,
{
    match outcome {
        FetchOutcome::Success => FetchAction::Accept,
        FetchOutcome::NotSuccess => FetchAction::Retry {
            wait_secs: backoff_secs,
            next_secs: next_backoff(backoff_secs),
        },
        FetchOutcome::Failed => FetchAction::Abort,
    }
}

/// The UTC timestamp, in seconds, of a date and time written in the given
/// layout, or none where the text does not parse.
pub uninterp spec fn datetime_timestamp(text: Seq<char>, format: Seq<char>) -> Option<i64>;

/// Relies on chrono's `NaiveDateTime::parse_from_str`, and on the timestamp
/// of the parsed value taken as UTC: the result depends on the text and the
/// layout alone.
#[verifier::external_body]
fn parse_timestamp(text: &str, format: &str) -> (r: Option<i64>)
    ensures
        r == datetime_timestamp(text@, format@),
{
    match chrono::NaiveDateTime::parse_from_str(text, format) {
        Ok(t) => Some(t.and_utc().timestamp()),
        Err(_) => None,
    }
}

/// The timestamps of killmails' times, where they parse.
pub open spec fn killmail_times(ks: Seq<Killmail>) -> Seq<Option<i64>> {
    ks.map_values(|k: Killmail| datetime_timestamp(k.killmail_time@, KILLMAIL_TIME_FORMAT@))
}

/// The acceptance rule: some timestamp is strictly after the cutoff.
pub open spec fn accepted(times: Seq<Option<i64>>, cutoff: i64) -> bool {
    exists|i: int| 0 <= i < times.len() && (#[trigger] times[i] matches Some(t) && cutoff < t)
}

/// Whether some of the timestamps is strictly after the cutoff; the ones that
/// did not parse count for nothing.
pub fn acceptable_timestamps(times: &Vec<Option<i64>>, cutoff: i64) -> (r: bool)
    ensures
        r == accepted(times@, cutoff),
{
    let mut i: usize = 0;
    while i < times.len()
        invariant
            0 <= i <= times@.len(),
            forall|j: int| 0 <= j < i ==> !(#[trigger] times@[j] matches Some(t) && cutoff < t),
        decreases times@.len() - i,
    {
        if let Some(t) = times[i] {
            if cutoff < t {
                assert(times@[i as int] matches Some(t) && cutoff < t);
                return true;
            }
        }
        i = i + 1;
    }
    false
}

/// Whether a fetched batch is worth storing: some killmail's time is strictly
/// after the cutoff (a UTC timestamp in seconds).
pub fn acceptable(killmails: &Vec<Killmail>, up_to_date: i64) -> (r: bool)
    ensures
        r == accepted(killmail_times(killmails@), up_to_date),
{
    let mut times: Vec<Option<i64>> = Vec::new();
    let mut i: usize = 0;
    while i < killmails.len()
        invariant
            0 <= i <= killmails@.len(),
            times@ == killmail_times(killmails@.take(i as int)),
        decreases killmails@.len() - i,
    {
        let t = parse_timestamp(killmails[i].killmail_time.as_str(), KILLMAIL_TIME_FORMAT);
        times.push(t);
        assert(times@ =~= killmail_times(killmails@.take(i + 1)));
        i = i + 1;
    }
    assert(killmails@.take(i as int) =~= killmails@);
    acceptable_timestamps(&times, up_to_date)
}

/// A row of the killmails table.
#[derive(Debug, PartialEq, Eq, Clone)]
pub struct KillmailRow {
    pub killmail_id: i32,
    pub killmail_time: String,
    pub solar_system_id: i32,
}

/// A row of the participants table: the victim, or one attacker.
#[derive(Debug, PartialEq, Eq, Structural, Clone, Copy)]
pub struct ParticipantRow {
    pub killmail_id: i32,
    pub character_id: Option<i32>,
    pub corporation_id: Option<i32>,
    pub alliance_id: Option<i32>,
    pub ship_type_id: Option<i32>,
    pub damage: i32,
    pub is_victim: bool,
}

/// Everything a batch writes, in one transaction: one row per killmail, one
/// per participant, and the ids that are then complete.
#[derive(Debug, PartialEq, Eq, Clone)]
pub struct StorePlan {
    pub killmails: Vec<KillmailRow>,
    pub participants: Vec<ParticipantRow>,
    pub ids: Vec<i32>,
}

/// The victim's row of a killmail.
pub open spec fn victim_row(k: Killmail) -> ParticipantRow {
    ParticipantRow {
        killmail_id: k.killmail_id,
        character_id: k.victim.character_id,
        corporation_id: k.victim.corporation_id,
        alliance_id: k.victim.alliance_id,
        ship_type_id: k.victim.ship_type_id,
        damage: k.victim.damage_taken,
        is_victim: true,
    }
}

/// An attacker's row of a killmail.
pub open spec fn attacker_row(killmail_id: i32, a: Attackers) -> ParticipantRow {
    ParticipantRow {
        killmail_id,
        character_id: a.character_id,
        corporation_id: a.corporation_id,
        alliance_id: a.alliance_id,
        ship_type_id: a.ship_type_id,
        damage: a.damage_done,
        is_victim: false,
    }
}

/// The participant rows of one killmail: the victim first, then each attacker in order.
pub open spec fn participant_rows(k: Killmail) -> Seq<ParticipantRow> {
    seq![victim_row(k)] + k.attackers@.map_values(|a: Attackers| attacker_row(k.killmail_id, a))
}

/// The participant rows of killmails, killmail after killmail.
pub open spec fn all_participants(ks: Seq<Killmail>) -> Seq<ParticipantRow>
    decreases ks.len(),
{
    if ks.len() == 0 {
        Seq::empty()
    } else {
        all_participants(ks.drop_last()) + participant_rows(ks.last())
    }
}

/// The killmail row of a killmail.
pub open spec fn killmail_row_of(r: KillmailRow, k: Killmail) -> bool {
    &&& r.killmail_id == k.killmail_id
    &&& r.killmail_time@ == k.killmail_time@
    &&& r.solar_system_id == k.solar_system_id
}

/// The plan writes exactly the rows of these killmails, and names their ids in order.
pub open spec fn plan_of(p: StorePlan, ks: Seq<Killmail>) -> bool {
    &&& p.killmails@.len() == ks.len()
    &&& forall|i: int| 0 <= i < ks.len() ==> killmail_row_of(#[trigger] p.killmails@[i], ks[i])
    &&& p.participants@ == all_participants(ks)
    &&& p.ids@ == ks.map_values(|k: Killmail| k.killmail_id)
}

impl StorePlan {
    /// A plan that writes nothing.
    pub fn new() -> (r: StorePlan)
        ensures
            plan_of(r, Seq::empty()),
    {
        let r = StorePlan { killmails: Vec::new(), participants: Vec::new(), ids: Vec::new() };
        assert(r.ids@ =~= Seq::<Killmail>::empty().map_values(|k: Killmail| k.killmail_id));
        r
    }

    /// Adds one killmail's rows.
    pub fn push_killmail(&mut self, k: &Killmail)
        ensures
            forall|ks: Seq<Killmail>| plan_of(*old(self), ks) ==> plan_of(*final(self), ks.push(*k)),
    {
        let ghost parts_before = self.participants@;
        let ghost rows_before = self.killmails@;
        let ghost ids_before = self.ids@;
        self.killmails.push(
            KillmailRow {
                killmail_id: k.killmail_id,
                killmail_time: k.killmail_time.clone(),
                solar_system_id: k.solar_system_id,
            },
        );
        let ghost rows_mid = self.killmails@;
        assert(killmail_row_of(rows_mid[rows_before.len() as int], *k));
        let v = &k.victim;
        self.participants.push(
            ParticipantRow {
                killmail_id: k.killmail_id,
                character_id: v.character_id,
                corporation_id: v.corporation_id,
                alliance_id: v.alliance_id,
                ship_type_id: v.ship_type_id,
                damage: v.damage_taken,
                is_victim: true,
            },
        );
        let mut i: usize = 0;
        while i < k.attackers.len()
            invariant
                0 <= i <= k.attackers@.len(),
                self.killmails@ == rows_mid,
                rows_mid.len() == rows_before.len() + 1,
                forall|j: int| 0 <= j < rows_before.len() ==> rows_mid[j] == rows_before[j],
                self.ids@ == ids_before,
                self.participants@ == parts_before + seq![victim_row(*k)] + k.attackers@.take(i as int).map_values(
                    |a: Attackers| attacker_row(k.killmail_id, a),
                ),
            decreases k.attackers@.len() - i,
        {
            let a = &k.attackers[i];
            self.participants.push(
                ParticipantRow {
                    killmail_id: k.killmail_id,
                    character_id: a.character_id,
                    corporation_id: a.corporation_id,
                    alliance_id: a.alliance_id,
                    ship_type_id: a.ship_type_id,
                    damage: a.damage_done,
                    is_victim: false,
                },
            );
            assert(k.attackers@.take(i + 1).map_values(|a: Attackers| attacker_row(k.killmail_id, a))
                =~= k.attackers@.take(i as int).map_values(
                |a: Attackers| attacker_row(k.killmail_id, a),
            ).push(attacker_row(k.killmail_id, k.attackers@[i as int])));
            i = i + 1;
        }
        assert(k.attackers@.take(i as int) =~= k.attackers@);
        self.ids.push(k.killmail_id);
        let ghost rows_after = self.killmails@;
        let ghost parts_after = self.participants@;
        let ghost ids_after = self.ids@;
        assert(ids_after == ids_before.push(k.killmail_id));
        assert(rows_after.len() == rows_before.len() + 1);
        assert(killmail_row_of(rows_after[rows_before.len() as int], *k));
        assert forall|ks: Seq<Killmail>|
            rows_before.len() == ks.len() && (forall|i: int|
                0 <= i < ks.len() ==> killmail_row_of(#[trigger] rows_before[i], ks[i])) && parts_before
                == all_participants(ks) && ids_before == ks.map_values(
                |k: Killmail| k.killmail_id,
            ) implies rows_after.len() == ks.push(*k).len() && (forall|i: int|
            0 <= i < ks.push(*k).len() ==> killmail_row_of(#[trigger] rows_after[i], ks.push(*k)[i])) && parts_after
            == all_participants(ks.push(*k)) && ids_after == ks.push(*k).map_values(
            |k: Killmail| k.killmail_id,
        ) by {
            let ks2 = ks.push(*k);
            assert(ks2.drop_last() =~= ks);
            assert(parts_after =~= all_participants(ks) + participant_rows(*k));
            assert(ids_after =~= ks2.map_values(|k: Killmail| k.killmail_id));
            assert forall|i: int| 0 <= i < ks2.len() implies killmail_row_of(#[trigger] rows_after[i], ks2[i]) by {
                if i < ks.len() {
                    assert(rows_after[i] == rows_before[i]);
                }
            }
        }
    }
}

/// The rows that a batch of killmails becomes, killmail after killmail.
pub fn store_plan(killmails: &Vec<Killmail>) -> (r: StorePlan)
    ensures
        plan_of(r, killmails@),
{
    let mut plan = StorePlan::new();
    let mut i: usize = 0;
    assert(killmails@.take(0) =~= Seq::<Killmail>::empty());
    while i < killmails.len()
        invariant
            0 <= i <= killmails@.len(),
            plan_of(plan, killmails@.take(i as int)),
        decreases killmails@.len() - i,
    {
        plan.push_killmail(&killmails[i]);
        assert(killmails@.take(i as int).push(killmails@[i as int]) =~= killmails@.take(i + 1));
        i = i + 1;
    }
    assert(killmails@.take(i as int) =~= killmails@);
    plan
}

/// What the worker does with a resolved batch or a live record: write the
/// plan in one transaction, then publish the commands in order.
#[derive(Debug)]
pub struct Ingest {
    pub plan: StorePlan,
    pub publish: Vec<CmdEvent>,
}

/// A fully fetched batch: if no killmail's time is after the cutoff, the
/// whole batch is discarded and nothing changes anywhere; otherwise every
/// killmail is written, then its ids are marked complete and the next batch
/// is requested.
pub fn handle_batch(killmails: &Vec<Killmail>, up_to_date: i64) -> (r: Option<Ingest>)
    ensures
        r is None <==> !accepted(killmail_times(killmails@), up_to_date),
        r matches Some(ing) ==> plan_of(ing.plan, killmails@) && ing.publish@.len() == 2 && (
        ing.publish@[0] matches CmdEvent::MarkComplete(ids) && ids@ == ing.plan.ids@)
            && ing.publish@[1] == CmdEvent::RequestLastHashes(REQUEST_COUNT),
{
    if !acceptable(killmails, up_to_date) {
        return None;
    }
    let plan = store_plan(killmails);
    let ids = plan.ids.clone();
    let mut publish: Vec<CmdEvent> = Vec::new();
    publish.push(CmdEvent::MarkComplete(ids));
    publish.push(CmdEvent::RequestLastHashes(REQUEST_COUNT));
    Some(Ingest { plan, publish })
}

/// A record from the live feed: with a digest attached it is written on its
/// own, with no date filter, and then saved as handled; without one it is
/// skipped.
pub fn handle_live(killmail: &Killmail) -> (r: Option<Ingest>)
    ensures
        r is None <==> killmail.zkb is None,
        r matches Some(ing) ==> plan_of(ing.plan, seq![*killmail]) && ing.publish@.len() == 1 && (
        ing.publish@[0] matches CmdEvent::SaveHandledHash(h) && h.0 == killmail.killmail_id && h.1@
            == killmail.zkb->0.hash@),
{
    match &killmail.zkb {
        None => None,
        Some(zkb) => {
            let mut plan = StorePlan::new();
            plan.push_killmail(killmail);
            assert(Seq::<Killmail>::empty().push(*killmail) =~= seq![*killmail]);
            let mut publish: Vec<CmdEvent> = Vec::new();
            publish.push(CmdEvent::SaveHandledHash((killmail.killmail_id, zkb.hash.clone())));
            Some(Ingest { plan, publish })
        },
    }
}

} // verus!
