//! Small materialized aggregates, and the bytes that they are stored as.

use crate::encoding::{
    bincode_decoding, bincode_encoding, law_record_is_read_back, StoredView,
};
use crate::results::{
    distinct_keys, last_wins, optional_bytes, pairs_of, F64Bits, OutlierEntry, OutlierView, Results,
};
use vstd::prelude::*;

verus! {

/// The head of an SMA file.
#[derive(Debug)]
pub struct SMAHeader {
    /// The kind of file.
    pub version: String,
    /// A number of predicates.
    pub predicate_count: usize,
}

/// The contents of an SMA file.
#[derive(Debug)]
pub struct SMA {
    /// The head.
    pub header: SMAHeader,
    /// What is kept of each column.
    pub results: Results,
}

/// What an [`SMA`] holds.
#[verifier::ext_equal]
pub struct SmaView {
    pub version: Seq<char>,
    pub predicate_count: nat,
    pub results: Map<Seq<char>, OutlierView>,
}

/// The fields of an [`OutlierEntry`], in order.
pub type EntryRecord = (String, F64Bits, F64Bits, F64Bits, F64Bits, Option<Vec<u8>>);

/// The fields of an [`SMA`], in order.
pub type SmaRecord = ((String, u64), Vec<(String, EntryRecord)>);

/// The entry that a record stands for.
pub open spec fn entry_view(record: EntryRecord) -> OutlierView {
    OutlierView {
        predicate: record.0@,
        min: record.1,
        max: record.2,
        lower_threshold: record.3,
        upper_threshold: record.4,
        outliers: optional_bytes(record.5),
    }
}

/// The contents of a file that a record stands for.
pub open spec fn record_view(record: SmaRecord) -> StoredView {
    StoredView {
        version: record.0.0@,
        predicate_count: record.0.1,
        results: record.1@.map_values(|p: (String, EntryRecord)| (p.0@, entry_view(p.1))),
    }
}

/// What became of the bytes of an SMA file.
#[derive(Debug, Clone, Copy, PartialEq, Eq, Structural)]
pub enum SmaError {
    /// They are not those of an SMA file.
    Malformed,
}

/// The error of `bincode`, which is only told apart from success.
#[verifier::external_type_specification]
#[verifier::external_body]
pub struct ExErrorKind(bincode::ErrorKind);

/// Calls `bincode::serialize`. Trusted: strings, integers, options, tuples and
/// vectors can always be serialized without a size limit, and the bytes are those
/// of [`bincode_encoding`].
#[verifier::external_body]
fn bincode_serialize(record: &SmaRecord) -> (r: Result<Vec<u8>, Box<bincode::ErrorKind>>)
    ensures
        r is Ok,
        r->Ok_0@ == bincode_encoding(record_view(*record)),
{
    bincode::serialize(record)
}

/// Calls `bincode::deserialize`. Trusted: the bytes begin with the record that is
/// found, as [`bincode_encoding`] writes it, and if none is found they begin with
/// none. Bytes that follow the record are ignored.
#[verifier::external_body]
fn bincode_deserialize(bytes: &Vec<u8>) -> (r: Result<SmaRecord, Box<bincode::ErrorKind>>)
    ensures
        match r {
            Ok(record) => bincode_encoding(record_view(record)).is_prefix_of(bytes@),
            Err(_) => forall|s: StoredView|
                !(#[trigger] bincode_encoding(s)).is_prefix_of(bytes@),
        },
{
    bincode::deserialize(bytes)
}

/// The contents that are read from a record. The number of predicates has to fit
/// into a size; of several entries for one column, the last counts.
pub open spec fn contents_of(stored: StoredView) -> Option<SmaView> {
    if stored.predicate_count <= usize::MAX {
        Some(
            SmaView {
                version: stored.version,
                predicate_count: stored.predicate_count as nat,
                results: last_wins(stored.results),
            },
        )
    } else {
        None
    }
}

/// The contents of a file with these bytes.
pub open spec fn decoded(bytes: Seq<u8>) -> Option<SmaView> {
    match bincode_decoding(bytes) {
        Some(stored) => contents_of(stored),
        None => None,
    }
}

impl SmaView {
    /// The contents of a new file.
    pub open spec fn empty() -> SmaView {
        SmaView { version: "SMA"@, predicate_count: 0, results: Map::empty() }
    }
}

impl View for SMA {
    type V = SmaView;

    open spec fn view(&self) -> SmaView {
        SmaView {
            version: self.header.version@,
            predicate_count: self.header.predicate_count as nat,
            results: self.results@,
        }
    }
}

impl SMA {
    /// The fields as they are written.
    pub open spec fn stored(self) -> StoredView {
        StoredView {
            version: self.header.version@,
            predicate_count: self.header.predicate_count as u64,
            results: self.results.pairs(),
        }
    }

    /// The contents of a new file: no column is known.
    pub fn new() -> (r: SMA)
        ensures
            r@ == SmaView::empty(),
            r.stored() == (StoredView { version: "SMA"@, predicate_count: 0, results: seq![] }),
    {
        let r = SMA {
            header: SMAHeader { version: "SMA".to_owned(), predicate_count: 0 },
            results: Results::new(),
        };
        assert(r.stored().results =~= seq![]);
        r
    }

    /// The record that is written. Reading it gives back the same contents.
    pub fn into_record(self) -> (r: SmaRecord)
        ensures
            record_view(r) == self.stored(),
            distinct_keys(self.stored().results),
            contents_of(record_view(r)) == Some(self@),
    {
        let entries: Vec<(String, OutlierEntry)> = self.results.into_entries();
        let ghost pairs = pairs_of(entries@);
        let mut results: Vec<(String, EntryRecord)> = Vec::new();
        for pair in it: entries
            invariant
                it.seq() == entries@,
                results@.len() == it.index(),
                forall|i: int|
                    #![trigger results@[i]]
                    0 <= i < results@.len() ==> (results@[i].0@, entry_view(results@[i].1))
                        == (entries@[i].0@, entries@[i].1@),
        {
            let (key, e) = pair;
            results.push(
                (
                    key,
                    (e.predicate, e.min, e.max, e.lower_threshold, e.upper_threshold, e.outliers),
                ),
            );
        }
        let record: SmaRecord = (
            (self.header.version, self.header.predicate_count as u64),
            results,
        );
        assert(record_view(record).results =~= pairs);
        record
    }

    /// Reads the contents of a file from a record. Of several entries for one
    /// column, the last counts.
    pub fn from_record(record: SmaRecord) -> (r: Result<SMA, SmaError>)
        ensures
            match r {
                Ok(sma) => contents_of(record_view(record)) == Some(sma@),
                Err(e) => e == SmaError::Malformed && contents_of(record_view(record)) is None,
            },
    {
        let ghost stored = record_view(record);
        let ((version, count), list) = record;
        if count > usize::MAX as u64 {
            return Err(SmaError::Malformed);
        }
        let mut results: Results = Results::new();
        for pair in it: list
            invariant
                stored.results == list@.map_values(
                    |p: (String, EntryRecord)| (p.0@, entry_view(p.1)),
                ),
                it.seq() == list@,
                results@ == last_wins(stored.results.take(it.index() as int)),
        {
            let ghost i = it.index() as int;
            let (key, e) = pair;
            let entry = OutlierEntry {
                predicate: e.0,
                min: e.1,
                max: e.2,
                lower_threshold: e.3,
                upper_threshold: e.4,
                outliers: e.5,
            };
            assert(entry@ =~= entry_view(e));
            assert(stored.results.take(i + 1).drop_last() =~= stored.results.take(i));
            results.insert(key, entry);
        }
        assert(stored.results.take(list@.len() as int) =~= stored.results);
        Ok(SMA { header: SMAHeader { version, predicate_count: count as usize }, results })
    }

    /// The bytes that the file is written as. Reading them gives back the same
    /// contents.
    pub fn encode(self) -> (r: Vec<u8>)
        ensures
            r@ == bincode_encoding(self.stored()),
            distinct_keys(self.stored().results),
            decoded(r@) == Some(self@),
    {
        let record: SmaRecord = self.into_record();
        match bincode_serialize(&record) {
            Ok(bytes) => {
                proof {
                    assert(bytes@.len() == bytes.len());
                    law_record_is_read_back(record_view(record), bytes@);
                }
                bytes
            },
            Err(_) => vstd::pervasive::unreached(),
        }
    }

    /// Reads the contents of a file from its bytes.
    pub fn decode(bytes: &Vec<u8>) -> (r: Result<SMA, SmaError>)
        ensures
            match r {
                Ok(sma) => decoded(bytes@) == Some(sma@),
                Err(e) => e == SmaError::Malformed && decoded(bytes@) is None,
            },
    {
        match bincode_deserialize(bytes) {
            Ok(record) => {
                proof {
                    assert(bytes@.len() == bytes.len());
                    law_record_is_read_back(record_view(record), bytes@);
                }
                SMA::from_record(record)
            },
            Err(_) => Err(SmaError::Malformed),
        }
    }
}

/// A record is written and read field by field, in the order of the fields.
pub proof fn law_record_is_seen(record: SmaRecord, i: int)
    ensures
        record_view(record).version == record.0.0@,
        record_view(record).predicate_count == record.0.1,
        record_view(record).results.len() == record.1@.len(),
        0 <= i < record.1@.len() ==> {
            let seen = record_view(record).results[i].1;
            let (predicate, min, max, lower_threshold, upper_threshold, outliers) = record.1@[i].1;
            &&& record_view(record).results[i].0 == record.1@[i].0@
            &&& seen.predicate == predicate@
            &&& seen.min == min
            &&& seen.max == max
            &&& seen.lower_threshold == lower_threshold
            &&& seen.upper_threshold == upper_threshold
            &&& outliers is None <==> seen.outliers is None
            &&& outliers is Some ==> seen.outliers.unwrap() == outliers.unwrap()@
        },
{
}

/// The contents of a file are seen and written with their own fields, and a new
/// file holds no column.
pub proof fn law_contents_are_seen(sma: SMA, column: Seq<char>)
    ensures
        sma@.version == sma.header.version@,
        sma@.predicate_count == sma.header.predicate_count,
        sma@.results == sma.results@,
        sma.stored().version == sma.header.version@,
        sma.stored().predicate_count == sma.header.predicate_count,
        sma.stored().results == sma.results.pairs(),
        SmaView::empty().version == "SMA"@,
        SmaView::empty().predicate_count == 0,
        !SmaView::empty().results.contains_key(column),
{
}

/// A record is read as what it holds: its head, and for each column the entry
/// with which it occurs last. It can be read if and only if its number of
/// predicates is a size.
pub proof fn law_record_is_read(stored: StoredView)
    ensures
        contents_of(stored) is Some <==> stored.predicate_count <= usize::MAX,
        contents_of(stored) matches Some(sma) ==> {
            &&& sma.version == stored.version
            &&& sma.predicate_count == stored.predicate_count
            &&& sma.results == last_wins(stored.results)
        },
{
}

/// Bytes that begin with a record are read as what the record holds: its head,
/// and for each column the entry with which it occurs last. Other bytes, and a
/// number of predicates that is no size, are read as nothing.
pub proof fn law_bytes_are_read(stored: StoredView, bytes: Seq<u8>)
    requires
        bytes.len() <= u64::MAX,
    ensures
        bincode_encoding(stored).is_prefix_of(bytes) && stored.predicate_count <= usize::MAX ==> {
            &&& decoded(bytes) matches Some(sma)
            &&& sma.version == stored.version
            &&& sma.predicate_count == stored.predicate_count
            &&& sma.results == last_wins(stored.results)
        },
        bincode_encoding(stored).is_prefix_of(bytes) && stored.predicate_count > usize::MAX
            ==> decoded(bytes) is None,
        (forall|s: StoredView| !(#[trigger] bincode_encoding(s)).is_prefix_of(bytes)) ==> decoded(
            bytes,
        ) is None,
{
    if bincode_encoding(stored).is_prefix_of(bytes) {
        law_record_is_read_back(stored, bytes);
    }
}

} // verus!
