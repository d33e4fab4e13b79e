//! The append-only log of computed differences: a JSON array of single-key
//! objects, each keyed by the epoch seconds at which it was computed.
use vstd::prelude::*;
use crate::aggregate::Differences;

verus! {

/// The compact JSON text `{"<timestamp>":{"cores":[[..],..],"cpu":[..]}}` of one record.
pub uninterp spec fn record_json(timestamp: u64, cpu: Seq<i64>, cores: Seq<Seq<i64>>) -> Seq<u8>;

/// Relies on serde_json's `Value` conversions from `Vec<i64>` and `Map`, and on
/// its `Display` (compact JSON): the text depends on the arguments alone.
#[verifier::external_body]
fn encode_record(timestamp: u64, cpu: &Vec<i64>, cores: &Vec<Vec<i64>>) -> (r: Vec<u8>)
    ensures
        r@ == record_json(timestamp, cpu@, cores.deep_view()),
{
    let mut inner = serde_json::Map::new();
    inner.insert("cpu".to_string(), serde_json::Value::from(cpu.clone()));
    inner.insert("cores".to_string(), serde_json::Value::from(cores.clone()));
    let mut outer = serde_json::Map::new();
    outer.insert(timestamp.to_string(), serde_json::Value::Object(inner));
    serde_json::Value::Object(outer).to_string().into_bytes()
}

pub const OPEN_BRACKET: u8 = 91;
pub const CLOSE_BRACKET: u8 = 93;
pub const COMMA: u8 = 44;
pub const LINE_FEED: u8 = 10;

/// The log's contents after appending the record text `record` to `existing`:
/// an empty log becomes `[` record `\n]`; otherwise the closing bracket is
/// replaced by `,` record `\n]`.
pub open spec fn appended(existing: Seq<u8>, record: Seq<u8>) -> Seq<u8> {
    if existing.len() == 0 {
        seq![OPEN_BRACKET] + record + seq![LINE_FEED, CLOSE_BRACKET]
    } else {
        existing.drop_last() + seq![COMMA] + record + seq![LINE_FEED, CLOSE_BRACKET]
    }
}

/// The records, each followed by a line feed, separated by commas.
pub open spec fn joined(records: Seq<Seq<u8>>) -> Seq<u8>
    decreases records.len(),
{
    if records.len() == 0 {
        Seq::empty()
    } else if records.len() == 1 {
        records[0] + seq![LINE_FEED]
    } else {
        joined(records.drop_last()) + seq![COMMA] + records.last() + seq![LINE_FEED]
    }
}

/// The log holding `records`, in order, as one JSON array.
pub open spec fn log_of(records: Seq<Seq<u8>>) -> Seq<u8> {
    if records.len() == 0 {
        Seq::empty()
    } else {
        seq![OPEN_BRACKET] + joined(records) + seq![CLOSE_BRACKET]
    }
}

/// The contents of the log after appending the record text `record`.
pub fn append_record(existing: &[u8], record: &[u8]) -> (r: Vec<u8>)
    ensures
        r@ == appended(existing@, record@),
{
    let mut out: Vec<u8> = Vec::new();
    if existing.len() == 0 {
        out.push(OPEN_BRACKET);
    } else {
        let mut i: usize = 0;
        while i < existing.len() - 1
            invariant
                existing@.len() > 0,
                i <= existing@.len() - 1,
                out@ == existing@.take(i as int),
            decreases existing@.len() - 1 - i,
        {
            out.push(existing[i]);
            i = i + 1;
            assert(out@ =~= existing@.take(i as int));
        }
        out.push(COMMA);
    }
    let ghost head = out@;
    let mut j: usize = 0;
    while j < record.len()
        invariant
            j <= record@.len(),
            out@ == head + record@.take(j as int),
        decreases record@.len() - j,
    {
        out.push(record[j]);
        j = j + 1;
        assert(out@ =~= head + record@.take(j as int));
    }
    out.push(LINE_FEED);
    out.push(CLOSE_BRACKET);
    assert(record@.take(j as int) =~= record@);
    assert(out@ =~= appended(existing@, record@));
    out
}

/// Appends the differences, keyed by `timestamp`, to the log contents `existing`
/// and returns the new contents.
pub fn store_differences(existing: &[u8], timestamp: u64, d: &Differences) -> (r: Vec<u8>)
    ensures
        r@ == appended(existing@, record_json(timestamp, d.cpu@, d.cores.deep_view())),
{
    let record = encode_record(timestamp, &d.cpu, &d.cores);
    append_record(existing, record.as_slice())
}

/// The log after appending each of `records` in turn to `start`.
pub open spec fn append_each(start: Seq<u8>, records: Seq<Seq<u8>>) -> Seq<u8>
    decreases records.len(),
{
    if records.len() == 0 {
        start
    } else {
        appended(append_each(start, records.drop_last()), records.last())
    }
}

/// Appending records one by one to an empty log yields a single JSON array
/// that holds all of them, in the order appended.
pub proof fn lemma_log_holds_all(records: Seq<Seq<u8>>)
    ensures
        append_each(Seq::empty(), records) == log_of(records),
    decreases records.len(),
{
    if records.len() == 0 {
    } else if records.len() == 1 {
        assert(records.drop_last() =~= Seq::<Seq<u8>>::empty());
        assert(append_each(Seq::empty(), records.drop_last()) == Seq::<u8>::empty());
        assert(records.last() == records[0]);
        assert(appended(Seq::empty(), records[0]) =~= log_of(records));
    } else {
        lemma_log_holds_all(records.drop_last());
        let prev = log_of(records.drop_last());
        assert(prev.drop_last() =~= seq![OPEN_BRACKET] + joined(records.drop_last()));
        assert(prev.len() > 0);
        assert(appended(prev, records.last()) =~= log_of(records));
        assert(append_each(Seq::empty(), records) == appended(prev, records.last()));
    }
}

/// Appending a record leaves every byte of the log before its closing bracket
/// as it was: the earlier records stay intact.
pub proof fn lemma_append_keeps_earlier(existing: Seq<u8>, record: Seq<u8>)
    requires
        existing.len() > 0,
    ensures
        appended(existing, record).take(existing.len() - 1) == existing.take(existing.len() - 1),
{
    assert(appended(existing, record).take(existing.len() - 1) =~= existing.take(existing.len() - 1));
}

/// One record read back from the log.
pub struct LogRecord {
    /// The record's key, as written: stringified epoch seconds.
    pub key: String,
    pub cpu: Vec<i64>,
    pub cores: Vec<Vec<i64>>,
}

/// Position of the first record whose key is exactly `key`, if any.
pub fn find_record(records: &Vec<LogRecord>, key: &String) -> (r: Option<usize>)
    ensures
        match r {
            Some(i) => i < records@.len() && records@[i as int].key@ == key@ && forall|j: int|
                0 <= j < i ==> (#[trigger] records@[j]).key@ != key@,
            None => forall|j: int| 0 <= j < records@.len() ==> (#[trigger] records@[j]).key@ != key@,
        },
{
    let mut i: usize = 0;
    while i < records.len()
        invariant
            i <= records@.len(),
            forall|j: int| 0 <= j < i ==> (#[trigger] records@[j]).key@ != key@,
        decreases records@.len() - i,
    {
        if records[i].key == *key {
            return Some(i);
        }
        i = i + 1;
    }
    None
}

} // verus!
