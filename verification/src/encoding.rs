//! The bytes that SMA files are written as.
//!
//! Fields stand one after the other. Integers and lengths are eight bytes, from
//! the lowest up; strings and lists stand behind their lengths; and an optional
//! value stands behind a byte that says whether it is there. Nothing separates
//! the fields, and still no two records begin with the same bytes.

use crate::results::OutlierView;
use vstd::bytes::{
    lemma_auto_spec_u64_to_from_le_bytes, spec_u64_from_le_bytes, spec_u64_to_le_bytes,
};
use vstd::prelude::*;
use vstd::utf8::{decode_utf8, encode_utf8, encode_utf8_decode_utf8};

verus! {

/// The contents of an SMA file as they are written: a head, and a list of keys
/// and entries.
#[verifier::ext_equal]
pub struct StoredView {
    pub version: Seq<char>,
    pub predicate_count: u64,
    pub results: Seq<(Seq<char>, OutlierView)>,
}

/// A length as `bincode` writes it.
pub open spec fn encoded_len(len: nat) -> Seq<u8> {
    spec_u64_to_le_bytes(len as u64)
}

/// A string as `bincode` writes it.
pub open spec fn encoded_text(text: Seq<char>) -> Seq<u8> {
    encoded_len(encode_utf8(text).len()) + encode_utf8(text)
}

/// An optional list of bytes as `bincode` writes it.
pub open spec fn encoded_bytes(bytes: Option<Seq<u8>>) -> Seq<u8> {
    match bytes {
        Some(b) => seq![1u8] + encoded_len(b.len()) + b,
        None => seq![0u8],
    }
}

/// A key and its entry as `bincode` writes them.
pub open spec fn encoded_entry(key: Seq<char>, entry: OutlierView) -> Seq<u8> {
    encoded_text(key) + encoded_text(entry.predicate) + spec_u64_to_le_bytes(entry.min)
        + spec_u64_to_le_bytes(entry.max) + spec_u64_to_le_bytes(entry.lower_threshold)
        + spec_u64_to_le_bytes(entry.upper_threshold) + encoded_bytes(entry.outliers)
}

/// Keys and entries as `bincode` writes them, without the length of the list.
pub open spec fn encoded_entries(results: Seq<(Seq<char>, OutlierView)>) -> Seq<u8> {
    results.map_values(|p: (Seq<char>, OutlierView)| encoded_entry(p.0, p.1)).flatten()
}

/// A record as `bincode` writes it.
pub open spec fn bincode_encoding(record: StoredView) -> Seq<u8> {
    encoded_text(record.version) + spec_u64_to_le_bytes(record.predicate_count) + encoded_len(
        record.results.len(),
    ) + encoded_entries(record.results)
}

/// The record that the bytes begin with, if there is one.
pub open spec fn bincode_decoding(bytes: Seq<u8>) -> Option<StoredView> {
    if exists|s: StoredView| (#[trigger] bincode_encoding(s)).is_prefix_of(bytes) {
        Some(choose|s: StoredView| (#[trigger] bincode_encoding(s)).is_prefix_of(bytes))
    } else {
        None
    }
}

/// Two equal lists whose first parts are of one length agree in both parts.
proof fn lemma_parts(a: Seq<u8>, b: Seq<u8>, x: Seq<u8>, y: Seq<u8>)
    requires
        a + x == b + y,
        a.len() == b.len(),
    ensures
        a == b,
        x == y,
{
    let n = a.len() as int;
    assert(a =~= (a + x).take(n));
    assert(b =~= (b + y).take(n));
    assert(x =~= (a + x).skip(n));
    assert(y =~= (b + y).skip(n));
}

/// Bytes begin with one integer only.
proof fn lemma_word(v: u64, w: u64, x: Seq<u8>, y: Seq<u8>)
    requires
        spec_u64_to_le_bytes(v) + x == spec_u64_to_le_bytes(w) + y,
    ensures
        v == w,
        x == y,
{
    lemma_auto_spec_u64_to_from_le_bytes();
    lemma_parts(spec_u64_to_le_bytes(v), spec_u64_to_le_bytes(w), x, y);
    assert(spec_u64_from_le_bytes(spec_u64_to_le_bytes(v)) == v);
    assert(spec_u64_from_le_bytes(spec_u64_to_le_bytes(w)) == w);
}

/// Bytes begin with one list of bytes behind its length only.
proof fn lemma_sized(a: Seq<u8>, b: Seq<u8>, x: Seq<u8>, y: Seq<u8>)
    requires
        encoded_len(a.len()) + a + x == encoded_len(b.len()) + b + y,
        (encoded_len(a.len()) + a + x).len() <= u64::MAX,
    ensures
        a == b,
        x == y,
{
    let whole = encoded_len(a.len()) + a + x;
    assert(whole.len() == encoded_len(a.len()).len() + a.len() + x.len());
    assert(whole.len() == encoded_len(b.len()).len() + b.len() + y.len());
    assert(whole =~= encoded_len(a.len()) + (a + x));
    assert(whole =~= encoded_len(b.len()) + (b + y));
    lemma_word(a.len() as u64, b.len() as u64, a + x, b + y);
    lemma_parts(a, b, x, y);
}

/// Bytes begin with one string only.
proof fn lemma_text(t: Seq<char>, u: Seq<char>, x: Seq<u8>, y: Seq<u8>)
    requires
        encoded_text(t) + x == encoded_text(u) + y,
        (encoded_text(t) + x).len() <= u64::MAX,
    ensures
        t == u,
        x == y,
{
    lemma_sized(encode_utf8(t), encode_utf8(u), x, y);
    encode_utf8_decode_utf8(t);
    encode_utf8_decode_utf8(u);
    assert(decode_utf8(encode_utf8(t)) == t);
    assert(decode_utf8(encode_utf8(u)) == u);
}

/// Bytes begin with one optional list of bytes only.
proof fn lemma_optional(a: Option<Seq<u8>>, b: Option<Seq<u8>>, x: Seq<u8>, y: Seq<u8>)
    requires
        encoded_bytes(a) + x == encoded_bytes(b) + y,
        (encoded_bytes(a) + x).len() <= u64::MAX,
    ensures
        a == b,
        x == y,
{
    assert((encoded_bytes(a) + x)[0] == encoded_bytes(a)[0]);
    assert((encoded_bytes(b) + y)[0] == encoded_bytes(b)[0]);
    if a is Some {
        let c = a.unwrap();
        let d = b.unwrap();
        let left = encoded_len(c.len()) + c + x;
        let right = encoded_len(d.len()) + d + y;
        assert(encoded_bytes(a) + x =~= seq![1u8] + left);
        assert(encoded_bytes(b) + y =~= seq![1u8] + right);
        lemma_parts(seq![1u8], seq![1u8], left, right);
        lemma_sized(c, d, x, y);
    } else {
        lemma_parts(seq![0u8], seq![0u8], x, y);
    }
}

/// Bytes begin with one key and entry only.
proof fn lemma_entry(
    k: Seq<char>,
    e: OutlierView,
    l: Seq<char>,
    f: OutlierView,
    x: Seq<u8>,
    y: Seq<u8>,
)
    requires
        encoded_entry(k, e) + x == encoded_entry(l, f) + y,
        (encoded_entry(k, e) + x).len() <= u64::MAX,
    ensures
        k == l,
        e == f,
        x == y,
{
    let (x6, y6) = (encoded_bytes(e.outliers) + x, encoded_bytes(f.outliers) + y);
    let x5 = spec_u64_to_le_bytes(e.upper_threshold) + x6;
    let y5 = spec_u64_to_le_bytes(f.upper_threshold) + y6;
    let x4 = spec_u64_to_le_bytes(e.lower_threshold) + x5;
    let y4 = spec_u64_to_le_bytes(f.lower_threshold) + y5;
    let (x3, y3) = (spec_u64_to_le_bytes(e.max) + x4, spec_u64_to_le_bytes(f.max) + y4);
    let (x2, y2) = (spec_u64_to_le_bytes(e.min) + x3, spec_u64_to_le_bytes(f.min) + y3);
    let (x1, y1) = (encoded_text(e.predicate) + x2, encoded_text(f.predicate) + y2);
    assert(encoded_entry(k, e) + x =~= encoded_text(k) + x1);
    assert(encoded_entry(l, f) + y =~= encoded_text(l) + y1);
    lemma_text(k, l, x1, y1);
    lemma_text(e.predicate, f.predicate, x2, y2);
    lemma_word(e.min, f.min, x3, y3);
    lemma_word(e.max, f.max, x4, y4);
    lemma_word(e.lower_threshold, f.lower_threshold, x5, y5);
    lemma_word(e.upper_threshold, f.upper_threshold, x6, y6);
    lemma_optional(e.outliers, f.outliers, x, y);
}

/// The first of several keys and entries is written first.
proof fn lemma_first_entry(p: Seq<(Seq<char>, OutlierView)>)
    requires
        p.len() > 0,
    ensures
        encoded_entries(p) == encoded_entry(p[0].0, p[0].1) + encoded_entries(p.drop_first()),
{
    let f = |q: (Seq<char>, OutlierView)| encoded_entry(q.0, q.1);
    assert(p.map_values(f).drop_first() =~= p.drop_first().map_values(f));
}

/// Every entry takes up some bytes.
proof fn lemma_entries_len(p: Seq<(Seq<char>, OutlierView)>)
    ensures
        p.len() <= encoded_entries(p).len(),
    decreases p.len(),
{
    if p.len() > 0 {
        lemma_first_entry(p);
        lemma_entries_len(p.drop_first());
        assert(encoded_entry(p[0].0, p[0].1).len() >= encoded_bytes(p[0].1.outliers).len() >= 1);
    }
}

/// Bytes begin with one list of a given length of keys and entries only.
proof fn lemma_entries(
    p: Seq<(Seq<char>, OutlierView)>,
    q: Seq<(Seq<char>, OutlierView)>,
    x: Seq<u8>,
    y: Seq<u8>,
)
    requires
        p.len() == q.len(),
        encoded_entries(p) + x == encoded_entries(q) + y,
        (encoded_entries(p) + x).len() <= u64::MAX,
    ensures
        p == q,
        x == y,
    decreases p.len(),
{
    if p.len() == 0 {
        assert(encoded_entries(p) + x =~= x);
        assert(encoded_entries(q) + y =~= y);
        assert(p =~= q);
    } else {
        let x1 = encoded_entries(p.drop_first()) + x;
        let y1 = encoded_entries(q.drop_first()) + y;
        lemma_first_entry(p);
        lemma_first_entry(q);
        assert(encoded_entries(p) + x =~= encoded_entry(p[0].0, p[0].1) + x1);
        assert(encoded_entries(q) + y =~= encoded_entry(q[0].0, q[0].1) + y1);
        lemma_entry(p[0].0, p[0].1, q[0].0, q[0].1, x1, y1);
        lemma_entries(p.drop_first(), q.drop_first(), x, y);
        assert(p =~= seq![p[0]] + p.drop_first());
        assert(q =~= seq![q[0]] + q.drop_first());
    }
}

/// A record is written field by field.
proof fn lemma_fields(s: StoredView, x: Seq<u8>)
    ensures
        bincode_encoding(s) + x == encoded_text(s.version) + (spec_u64_to_le_bytes(
            s.predicate_count,
        ) + (encoded_len(s.results.len()) + (encoded_entries(s.results) + x))),
{
    let a = encoded_text(s.version);
    let b = spec_u64_to_le_bytes(s.predicate_count);
    let c = encoded_len(s.results.len());
    let d = encoded_entries(s.results);
    assert(a + b + c + d + x =~= a + (b + (c + (d + x))));
}

/// Bytes begin with one record only.
#[verifier::spinoff_prover]
pub proof fn law_bytes_begin_with_one_record(s: StoredView, t: StoredView, bytes: Seq<u8>)
    requires
        bytes.len() <= u64::MAX,
        bincode_encoding(s).is_prefix_of(bytes),
        bincode_encoding(t).is_prefix_of(bytes),
    ensures
        s == t,
{
    let x = bytes.skip(bincode_encoding(s).len() as int);
    let y = bytes.skip(bincode_encoding(t).len() as int);
    assert(bytes =~= bincode_encoding(s) + x);
    assert(bytes =~= bincode_encoding(t) + y);
    lemma_fields(s, x);
    lemma_fields(t, y);
    let (x3, y3) = (encoded_entries(s.results) + x, encoded_entries(t.results) + y);
    let (x2, y2) = (encoded_len(s.results.len()) + x3, encoded_len(t.results.len()) + y3);
    let x1 = spec_u64_to_le_bytes(s.predicate_count) + x2;
    let y1 = spec_u64_to_le_bytes(t.predicate_count) + y2;
    lemma_text(s.version, t.version, x1, y1);
    lemma_word(s.predicate_count, t.predicate_count, x2, y2);
    lemma_entries_len(s.results);
    lemma_entries_len(t.results);
    lemma_word(s.results.len() as u64, t.results.len() as u64, x3, y3);
    lemma_entries(s.results, t.results, x, y);
}

/// What a record is written as is read as that record, whatever bytes follow.
pub proof fn law_record_is_read_back(s: StoredView, bytes: Seq<u8>)
    requires
        bytes.len() <= u64::MAX,
        bincode_encoding(s).is_prefix_of(bytes),
    ensures
        bincode_decoding(bytes) == Some(s),
{
    law_bytes_begin_with_one_record(s, bincode_decoding(bytes).unwrap(), bytes);
}

/// Bytes that begin with no record are read as none.
pub proof fn law_nothing_is_read(bytes: Seq<u8>)
    requires
        forall|s: StoredView| !(#[trigger] bincode_encoding(s)).is_prefix_of(bytes),
    ensures
        bincode_decoding(bytes) is None,
{
}

/// Where the fields of an entry are written: text behind its length, then the
/// four numbers, then the outliers behind a byte that says whether there are any.
pub proof fn law_entry_layout(key: Seq<char>, entry: OutlierView)
    ensures
        ({
            let bytes = encoded_entry(key, entry);
            let k = 8 + encode_utf8(key).len() as int;
            let p = k + 8 + encode_utf8(entry.predicate).len();
            &&& bytes.subrange(0, 8) == spec_u64_to_le_bytes(encode_utf8(key).len() as u64)
            &&& bytes.subrange(8, k) == encode_utf8(key)
            &&& bytes.subrange(k, k + 8) == spec_u64_to_le_bytes(
                encode_utf8(entry.predicate).len() as u64,
            )
            &&& bytes.subrange(k + 8, p) == encode_utf8(entry.predicate)
            &&& bytes.subrange(p, p + 8) == spec_u64_to_le_bytes(entry.min)
            &&& bytes.subrange(p + 8, p + 16) == spec_u64_to_le_bytes(entry.max)
            &&& bytes.subrange(p + 16, p + 24) == spec_u64_to_le_bytes(entry.lower_threshold)
            &&& bytes.subrange(p + 24, p + 32) == spec_u64_to_le_bytes(entry.upper_threshold)
            &&& bytes[p + 32] == if entry.outliers is Some {
                1u8
            } else {
                0u8
            }
            &&& entry.outliers is None ==> bytes.len() == p + 33
            &&& entry.outliers matches Some(b) ==> bytes.subrange(p + 33, p + 41)
                == spec_u64_to_le_bytes(b.len() as u64) && bytes.skip(p + 41) == b
        }),
{
    lemma_auto_spec_u64_to_from_le_bytes();
    let bytes = encoded_entry(key, entry);
    let k = 8 + encode_utf8(key).len() as int;
    let p = k + 8 + encode_utf8(entry.predicate).len();
    assert(bytes.subrange(0, 8) =~= spec_u64_to_le_bytes(encode_utf8(key).len() as u64));
    assert(bytes.subrange(8, k) =~= encode_utf8(key));
    assert(bytes.subrange(k, k + 8) =~= spec_u64_to_le_bytes(
        encode_utf8(entry.predicate).len() as u64,
    ));
    assert(bytes.subrange(k + 8, p) =~= encode_utf8(entry.predicate));
    assert(bytes.subrange(p, p + 8) =~= spec_u64_to_le_bytes(entry.min));
    assert(bytes.subrange(p + 8, p + 16) =~= spec_u64_to_le_bytes(entry.max));
    assert(bytes.subrange(p + 16, p + 24) =~= spec_u64_to_le_bytes(entry.lower_threshold));
    assert(bytes.subrange(p + 24, p + 32) =~= spec_u64_to_le_bytes(entry.upper_threshold));
    if entry.outliers is Some {
        let b = entry.outliers.unwrap();
        assert(bytes.subrange(p + 33, p + 41) =~= spec_u64_to_le_bytes(b.len() as u64));
        assert(bytes.skip(p + 41) =~= b);
    }
}

/// Where the fields of a record are written: the version behind its length, the
/// number of predicates, the number of entries, and the entries in order.
pub proof fn law_record_layout(
    version: Seq<char>,
    predicate_count: u64,
    results: Seq<(Seq<char>, OutlierView)>,
    key: Seq<char>,
    entry: OutlierView,
)
    ensures
        bincode_encoding(StoredView { version, predicate_count, results: seq![] })
            == spec_u64_to_le_bytes(encode_utf8(version).len() as u64) + encode_utf8(version)
            + spec_u64_to_le_bytes(predicate_count) + spec_u64_to_le_bytes(0),
        ({
            let bytes = bincode_encoding(StoredView { version, predicate_count, results });
            let more = bincode_encoding(
                StoredView { version, predicate_count, results: results.push((key, entry)) },
            );
            let n = 16 + encode_utf8(version).len() as int;
            &&& more.take(n) == bytes.take(n)
            &&& more.subrange(n, n + 8) == spec_u64_to_le_bytes((results.len() + 1) as u64)
            &&& more.skip(n + 8) == bytes.skip(n + 8) + encoded_entry(key, entry)
        }),
{
    lemma_auto_spec_u64_to_from_le_bytes();
    let f = |q: (Seq<char>, OutlierView)| encoded_entry(q.0, q.1);
    let empty: Seq<(Seq<char>, OutlierView)> = seq![];
    assert(encoded_entries(empty) =~= Seq::<u8>::empty());
    assert(bincode_encoding(StoredView { version, predicate_count, results: empty })
        =~= spec_u64_to_le_bytes(encode_utf8(version).len() as u64) + encode_utf8(version)
        + spec_u64_to_le_bytes(predicate_count) + spec_u64_to_le_bytes(0));
    let bytes = bincode_encoding(StoredView { version, predicate_count, results });
    let longer = results.push((key, entry));
    let more = bincode_encoding(StoredView { version, predicate_count, results: longer });
    let n = 16 + encode_utf8(version).len() as int;
    assert(longer.map_values(f) =~= results.map_values(f).push(encoded_entry(key, entry)));
    results.map_values(f).lemma_flatten_push(encoded_entry(key, entry));
    assert(encoded_entries(longer) == encoded_entries(results) + encoded_entry(key, entry));
    assert(more.take(n) =~= bytes.take(n));
    assert(more.subrange(n, n + 8) =~= spec_u64_to_le_bytes((results.len() + 1) as u64));
    assert(bytes.skip(n + 8) =~= encoded_entries(results));
    assert(more.skip(n + 8) =~= encoded_entries(longer));
}

} // verus!
