//! Hash-lifecycle coordination for a killmail ingestion pipeline: the event
//! protocol, the hash lifecycle table, the coordinator's command dispatch and
//! the ingestion worker's decisions.
use vstd::prelude::*;

pub mod coordinator;
pub mod hexcode;
pub mod ingest;
pub mod protocol;
pub mod store;

pub use protocol::{
    build_report, Attackers, CmdEvent, DailyReport, DataEvent, IdHash, IdHashBinary, Killmail,
    Victim, Zkb, CMD_TOPIC, DATA_TOPIC,
};

verus! {

} // verus!
