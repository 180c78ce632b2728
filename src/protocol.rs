//! The messages that the pipeline's processes exchange, and the records they carry.
use vstd::prelude::*;

use crate::hexcode::{hex_bytes, hex_decode, hex_encode, hex_text, is_hex_text};

verus! {

/// A content digest: twenty bytes.
pub type Hash = [u8; 20];

/// A record id with its digest as hexadecimal text.
pub type IdHash = (i32, String);

/// The channel on which commands travel to the coordinator.
pub const CMD_TOPIC: &'static str = "zkb/commands";

/// The channel on which data travels to the ingestion worker.
pub const DATA_TOPIC: &'static str = "zkb/data";

/// A record id with its digest in binary form.
#[derive(Debug, PartialEq, Eq, Clone, Copy)]
pub struct IdHashBinary {
    id: i32,
    hash: Hash,
}

impl IdHashBinary {
    /// The error for a digest that is not hexadecimal text.
    pub const ERR_DECODE: &'static str = "Can't decode hash to binary";

    /// The error for a digest that does not decode to twenty bytes.
    pub const ERR_ARRAY: &'static str = "Unexpected length of the vector";

    /// The record's id.
    pub closed spec fn id_spec(&self) -> i32 {
        self.id
    }

    /// The record's digest.
    pub closed spec fn hash_spec(&self) -> Seq<u8> {
        self.hash@
    }

    /// A record from an id and a digest already in binary form.
    pub fn from_parts(id: i32, hash: Hash) -> (r: IdHashBinary)
        ensures
            r.id_spec() == id,
            r.hash_spec() == hash@,
    {
        IdHashBinary { id, hash }
    }

    pub fn get_id(&self) -> (r: i32)
        ensures
            r == self.id_spec(),
    {
        self.id
    }

    pub fn get_hash(&self) -> (r: Hash)
        ensures
            r@ == self.hash_spec(),
    {
        self.hash
    }

    /// Lowercase hexadecimal text of a digest.
    pub fn hash_to_string(hash: &[u8]) -> (r: String)
        ensures
            r@ == hex_text(hash@),
    {
        hex_encode(hash)
    }

    /// The bytes that hexadecimal text stands for.
    pub fn string_to_hash(hash: String) -> (r: Result<Vec<u8>, &'static str>)
        ensures
            r.is_ok() == is_hex_text(hash@),
            r matches Ok(v) ==> v@ == hex_bytes(hash@),
            r matches Err(e) ==> e == Self::ERR_DECODE,
    {
        match hex_decode(hash.as_str()) {
            Some(v) => Ok(v),
            None => Err(Self::ERR_DECODE),
        }
    }

    /// Builds a record from an id and a digest in hexadecimal text.
    pub fn try_from(value: (i32, &str)) -> (r: Result<IdHashBinary, &'static str>)
        ensures
            !is_hex_text(value.1@) ==> r == Err::<IdHashBinary, &'static str>(Self::ERR_DECODE),
            is_hex_text(value.1@) && value.1@.len() != 40 ==> r == Err::<IdHashBinary, &'static str>(
                Self::ERR_ARRAY,
            ),
            is_hex_text(value.1@) && value.1@.len() == 40 ==> (r matches Ok(b) && b.id_spec()
                == value.0 && b.hash_spec() == hex_bytes(value.1@)),
    {
        let (id, text) = value;
        let binary = match hex_decode(text) {
            Some(v) => v,
            None => return Err(Self::ERR_DECODE),
        };
        if binary.len() != 20 {
            return Err(Self::ERR_ARRAY);
        }
        let mut hash: Hash = [0u8; 20];
        let mut i: usize = 0;
        while i < 20
            invariant
                binary@.len() == 20,
                0 <= i <= 20,
                forall|j: int| 0 <= j < i ==> hash@[j] == binary@[j],
            decreases 20 - i,
        {
            hash.set(i, binary[i]);
            i = i + 1;
        }
        assert(hash@ =~= binary@);
        Ok(IdHashBinary { id, hash })
    }
}

/// A day's worth of record ids with their digests, as the historical index reports them.
#[derive(Debug, PartialEq, Eq, Clone)]
pub struct DailyReport {
    pub date: String,
    pub killmails: Vec<IdHashBinary>,
}

impl DailyReport {
    /// An empty report for a day.
    pub fn new(day: String) -> (r: Self)
        ensures
            r.date@ == day@,
            r.killmails@.len() == 0,
    {
        DailyReport { date: day, killmails: Vec::new() }
    }
}

/// The record that an id with a digest in hexadecimal text stands for, when
/// the digest is valid.
pub open spec fn id_hash_valid(id: i32, text: Seq<char>) -> bool {
    is_hex_text(text) && text.len() == 40
}

/// The error for a digest in hexadecimal text that does not convert.
pub open spec fn conversion_error(text: Seq<char>) -> &'static str {
    if !is_hex_text(text) {
        IdHashBinary::ERR_DECODE
    } else {
        IdHashBinary::ERR_ARRAY
    }
}

/// Builds a day's report from the index entries, in their order; the first
/// entry whose digest does not convert decides the error.
pub fn build_report(day: String, entries: &Vec<IdHash>) -> (r: Result<DailyReport, &'static str>)
    ensures
        (forall|i: int| 0 <= i < entries@.len() ==> id_hash_valid(entries@[i].0, #[trigger] entries@[i].1@))
            ==> (r matches Ok(report) && report.date@ == day@ && report.killmails@.len()
            == entries@.len() && forall|i: int|
            0 <= i < entries@.len() ==> (#[trigger] report.killmails@[i]).id_spec() == entries@[i].0
                && report.killmails@[i].hash_spec() == hex_bytes(entries@[i].1@)),
        r is Err <==> exists|i: int|
            0 <= i < entries@.len() && !id_hash_valid(entries@[i].0, #[trigger] entries@[i].1@),
        r matches Err(e) ==> exists|i: int|
            0 <= i < entries@.len() && (forall|j: int|
                0 <= j < i ==> id_hash_valid(entries@[j].0, #[trigger] entries@[j].1@)) && !id_hash_valid(
                entries@[i].0,
                entries@[i].1@,
            ) && e == conversion_error(#[trigger] entries@[i].1@),
{
    let mut report = DailyReport::new(day);
    let mut i: usize = 0;
    while i < entries.len()
        invariant
            0 <= i <= entries@.len(),
            report.date@ == day@,
            report.killmails@.len() == i,
            forall|j: int| 0 <= j < i ==> id_hash_valid(entries@[j].0, #[trigger] entries@[j].1@),
            forall|j: int|
                0 <= j < i ==> (#[trigger] report.killmails@[j]).id_spec() == entries@[j].0
                    && report.killmails@[j].hash_spec() == hex_bytes(entries@[j].1@),
        decreases entries@.len() - i,
    {
        let id_hash = IdHashBinary::try_from((entries[i].0, entries[i].1.as_str()));
        match id_hash {
            Ok(b) => report.killmails.push(b),
            Err(e) => {
                assert(!id_hash_valid(entries@[i as int].0, entries@[i as int].1@));
                assert(e == conversion_error(entries@[i as int].1@));
                return Err(e);
            },
        }
        i = i + 1;
    }
    Ok(report)
}

/// Details of the destroyed party in a killmail.
#[derive(Debug, PartialEq, Eq, Clone)]
pub struct Victim {
    pub alliance_id: Option<i32>,
    pub character_id: Option<i32>,
    pub corporation_id: Option<i32>,
    pub damage_taken: i32,
    pub ship_type_id: Option<i32>,
}

/// Details of one attacking party in a killmail.
#[derive(Debug, PartialEq, Eq, Clone)]
pub struct Attackers {
    pub alliance_id: Option<i32>,
    pub character_id: Option<i32>,
    pub corporation_id: Option<i32>,
    pub damage_done: i32,
    pub ship_type_id: Option<i32>,
    pub weapon_type_id: Option<i32>,
}

/// The digest that the live feed attaches to a killmail.
#[derive(Debug, PartialEq, Eq, Clone)]
pub struct Zkb {
    pub hash: String,
}

/// A fully fetched combat event.
#[derive(Debug, PartialEq, Eq, Clone)]
pub struct Killmail {
    pub killmail_id: i32,
    pub killmail_time: String,
    pub solar_system_id: i32,
    pub victim: Victim,
    pub attackers: Vec<Attackers>,
    pub zkb: Option<Zkb>,
}

/// Commands; the coordinator is their sole consumer.
#[derive(Debug, PartialEq, Eq)]
pub enum CmdEvent {
    SaveDailyReport(DailyReport),
    ReturnHash(IdHash),
    RequestLastHashes(u32),
    MarkComplete(Vec<i32>),
    SaveHandledHash(IdHash),
    Quit,
}

/// Data for the ingestion worker.
#[derive(Debug, PartialEq, Eq)]
pub enum DataEvent {
    HashesToHandle(Vec<IdHash>),
    KillmailToStore(Killmail),
}

impl Clone for CmdEvent {
    fn clone(&self) -> Self {
        match self {
            CmdEvent::SaveDailyReport(report) => CmdEvent::SaveDailyReport(report.clone()),
            CmdEvent::ReturnHash((id, hash)) => CmdEvent::ReturnHash((*id, hash.clone())),
            CmdEvent::RequestLastHashes(n) => CmdEvent::RequestLastHashes(*n),
            CmdEvent::MarkComplete(ids) => CmdEvent::MarkComplete(ids.clone()),
            CmdEvent::SaveHandledHash((id, hash)) => CmdEvent::SaveHandledHash((*id, hash.clone())),
            CmdEvent::Quit => CmdEvent::Quit,
        }
    }
}

impl Clone for DataEvent {
    fn clone(&self) -> Self {
        match self {
            DataEvent::HashesToHandle(hashes) => DataEvent::HashesToHandle(hashes.clone()),
            DataEvent::KillmailToStore(killmail) => DataEvent::KillmailToStore(killmail.clone()),
        }
    }
}

} // verus!
