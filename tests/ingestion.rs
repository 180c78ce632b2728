use zkb::ingest::{
    acceptable, acceptable_timestamps, fetch_step, handle_batch, handle_live, next_backoff,
    store_plan, FetchAction, FetchOutcome, ParticipantRow, FIRST_BACKOFF_SECS, REQUEST_COUNT,
};
use zkb::{Attackers, CmdEvent, Killmail, Victim, Zkb};

// 2022-01-01T00:00:00Z
const CUTOFF: i64 = 1640995200;

fn attacker(character: Option<i32>, damage: i32) -> Attackers {
    Attackers {
        alliance_id: None,
        character_id: character,
        corporation_id: Some(77),
        damage_done: damage,
        ship_type_id: Some(600),
        weapon_type_id: Some(700),
    }
}

fn killmail(id: i32, time: &str, attackers: Vec<Attackers>, zkb: Option<Zkb>) -> Killmail {
    Killmail {
        killmail_id: id,
        killmail_time: String::from(time),
        solar_system_id: 30000142,
        victim: Victim {
            alliance_id: Some(5),
            character_id: Some(308241937),
            corporation_id: Some(6),
            damage_taken: 1234,
            ship_type_id: Some(587),
        },
        attackers,
        zkb,
    }
}

#[test]
fn backoff_doubles_up_to_cap() {
    assert_eq!(FIRST_BACKOFF_SECS, 3);
    let mut secs = FIRST_BACKOFF_SECS;
    let mut seen = vec![secs];
    for _ in 0..8 {
        secs = next_backoff(secs);
        seen.push(secs);
    }
    assert_eq!(seen, vec![3, 6, 12, 24, 48, 96, 192, 300, 300]);
    assert_eq!(next_backoff(149), 298);
    assert_eq!(next_backoff(150), 300);
    assert_eq!(next_backoff(u64::MAX), 300);
}

#[test]
fn fetch_step_rules() {
    assert_eq!(fetch_step(FetchOutcome::Success, 3), FetchAction::Accept);
    assert_eq!(
        fetch_step(FetchOutcome::NotSuccess, 3),
        FetchAction::Retry { wait_secs: 3, next_secs: 6 }
    );
    assert_eq!(
        fetch_step(FetchOutcome::NotSuccess, 300),
        FetchAction::Retry { wait_secs: 300, next_secs: 300 }
    );
    assert_eq!(fetch_step(FetchOutcome::Failed, 48), FetchAction::Abort);
}

#[test]
fn acceptance_needs_a_time_strictly_after_cutoff() {
    assert!(!acceptable_timestamps(&vec![], CUTOFF));
    assert!(!acceptable_timestamps(&vec![None, Some(CUTOFF), Some(CUTOFF - 1)], CUTOFF));
    assert!(acceptable_timestamps(&vec![None, Some(CUTOFF + 1)], CUTOFF));
}

#[test]
fn acceptable_parses_killmail_times() {
    let old = killmail(1, "2021-12-31T23:59:59Z", vec![], None);
    let at_cutoff = killmail(2, "2022-01-01T00:00:00Z", vec![], None);
    let new = killmail(3, "2022-01-01T00:00:01Z", vec![], None);
    let bad = killmail(4, "not a time", vec![], None);
    assert!(!acceptable(&vec![old.clone(), at_cutoff.clone(), bad.clone()], CUTOFF));
    assert!(acceptable(&vec![old, new, bad], CUTOFF));
}

#[test]
fn batch_before_cutoff_is_discarded_whole() {
    let batch = vec![
        killmail(1, "2021-06-01T10:00:00Z", vec![attacker(Some(9), 10)], None),
        killmail(2, "2021-12-31T23:59:59Z", vec![], None),
    ];
    assert!(handle_batch(&batch, CUTOFF).is_none());
}

#[test]
fn accepted_batch_writes_all_and_reports() {
    let batch = vec![
        killmail(1, "2021-06-01T10:00:00Z", vec![attacker(Some(9), 10), attacker(None, 20)], None),
        killmail(2, "2022-03-01T08:30:00Z", vec![], None),
    ];
    let ing = handle_batch(&batch, CUTOFF).unwrap();
    assert_eq!(ing.plan.ids, vec![1, 2]);
    assert_eq!(ing.plan.killmails.len(), 2);
    assert_eq!(ing.plan.killmails[1].killmail_time, "2022-03-01T08:30:00Z");
    assert_eq!(ing.plan.participants.len(), 4);
    assert_eq!(
        ing.publish,
        vec![CmdEvent::MarkComplete(vec![1, 2]), CmdEvent::RequestLastHashes(REQUEST_COUNT)]
    );
    assert_eq!(REQUEST_COUNT, 8);
}

#[test]
fn plan_rows_victim_then_attackers() {
    let k = killmail(97318112, "2022-01-02T00:00:00Z", vec![attacker(Some(9), 10), attacker(None, 20)], None);
    let plan = store_plan(&vec![k]);
    assert_eq!(plan.killmails[0].killmail_id, 97318112);
    assert_eq!(plan.killmails[0].solar_system_id, 30000142);
    assert_eq!(
        plan.participants,
        vec![
            ParticipantRow {
                killmail_id: 97318112,
                character_id: Some(308241937),
                corporation_id: Some(6),
                alliance_id: Some(5),
                ship_type_id: Some(587),
                damage: 1234,
                is_victim: true,
            },
            ParticipantRow {
                killmail_id: 97318112,
                character_id: Some(9),
                corporation_id: Some(77),
                alliance_id: None,
                ship_type_id: Some(600),
                damage: 10,
                is_victim: false,
            },
            ParticipantRow {
                killmail_id: 97318112,
                character_id: None,
                corporation_id: Some(77),
                alliance_id: None,
                ship_type_id: Some(600),
                damage: 20,
                is_victim: false,
            },
        ]
    );
}

#[test]
fn empty_batch_is_discarded() {
    assert!(handle_batch(&vec![], CUTOFF).is_none());
    let plan = store_plan(&vec![]);
    assert!(plan.ids.is_empty() && plan.killmails.is_empty() && plan.participants.is_empty());
}

#[test]
fn live_record_is_stored_without_date_filter() {
    let hash = String::from("9377f28e34eabc18162e57e7e85f7a15c9339604");
    let k = killmail(98190688, "2001-01-01T00:00:00Z", vec![attacker(Some(1), 5)], Some(Zkb { hash: hash.clone() }));
    let ing = handle_live(&k).unwrap();
    assert_eq!(ing.plan.ids, vec![98190688]);
    assert_eq!(ing.plan.participants.len(), 2);
    assert_eq!(ing.publish, vec![CmdEvent::SaveHandledHash((98190688, hash))]);
}

#[test]
fn live_record_without_digest_is_skipped() {
    let k = killmail(5, "2023-01-01T00:00:00Z", vec![], None);
    assert!(handle_live(&k).is_none());
}
