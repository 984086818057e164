//! What is kept of a column, and the collection of what is kept of all columns.

use vstd::prelude::*;

verus! {

/// The bits of a 64-bit floating-point number.
pub type F64Bits = u64;

/// What is kept of one column.
#[derive(Debug)]
pub struct OutlierEntry {
    /// The column that a predicate has been asked for.
    pub predicate: String,
    /// The smallest value.
    pub min: F64Bits,
    /// The largest value.
    pub max: F64Bits,
    /// Values below this one are outliers.
    pub lower_threshold: F64Bits,
    /// Values above this one are outliers.
    pub upper_threshold: F64Bits,
    /// The rows with outliers, as the bytes of a serialized data frame.
    pub outliers: Option<Vec<u8>>,
}

/// What an [`OutlierEntry`] holds.
#[verifier::ext_equal]
pub struct OutlierView {
    pub predicate: Seq<char>,
    pub min: F64Bits,
    pub max: F64Bits,
    pub lower_threshold: F64Bits,
    pub upper_threshold: F64Bits,
    pub outliers: Option<Seq<u8>>,
}

/// The bytes of an optional vector.
pub open spec fn optional_bytes(bytes: Option<Vec<u8>>) -> Option<Seq<u8>> {
    match bytes {
        Some(b) => Some(b@),
        None => None,
    }
}

impl View for OutlierEntry {
    type V = OutlierView;

    open spec fn view(&self) -> OutlierView {
        OutlierView {
            predicate: self.predicate@,
            min: self.min,
            max: self.max,
            lower_threshold: self.lower_threshold,
            upper_threshold: self.upper_threshold,
            outliers: optional_bytes(self.outliers),
        }
    }
}

/// The entries that a list of keys and entries stands for: of several entries
/// with one key, the last.
pub open spec fn last_wins(pairs: Seq<(Seq<char>, OutlierView)>) -> Map<Seq<char>, OutlierView>
    decreases pairs.len(),
{
    if pairs.len() == 0 {
        Map::empty()
    } else {
        last_wins(pairs.drop_last()).insert(pairs.last().0, pairs.last().1)
    }
}

/// The entries of an SMA file, by column.
#[derive(Debug)]
pub struct Results {
    entries: Vec<(String, OutlierEntry)>,
}

/// Whether no key occurs twice.
pub open spec fn distinct_keys(pairs: Seq<(Seq<char>, OutlierView)>) -> bool {
    forall|i: int, j: int|
        0 <= i < j < pairs.len() ==> (#[trigger] pairs[i]).0 != (#[trigger] pairs[j]).0
}

/// Keys and entries as they are held, taken by their views.
pub open spec fn pairs_of(entries: Seq<(String, OutlierEntry)>) -> Seq<(Seq<char>, OutlierView)> {
    entries.map_values(|e: (String, OutlierEntry)| (e.0@, e.1@))
}

impl View for Results {
    type V = Map<Seq<char>, OutlierView>;

    closed spec fn view(&self) -> Map<Seq<char>, OutlierView> {
        last_wins(self.pairs())
    }
}

impl Results {
    /// The keys and entries, in the order in which they are written.
    pub closed spec fn pairs(self) -> Seq<(Seq<char>, OutlierView)> {
        pairs_of(self.entries@)
    }

    #[verifier::type_invariant]
    spec fn inv(self) -> bool {
        distinct_keys(self.pairs())
    }

    /// No entries.
    pub fn new() -> (r: Results)
        ensures
            r@ == Map::<Seq<char>, OutlierView>::empty(),
            r.pairs() == Seq::<(Seq<char>, OutlierView)>::empty(),
    {
        let entries: Vec<(String, OutlierEntry)> = Vec::new();
        assert(pairs_of(entries@) =~= Seq::<(Seq<char>, OutlierView)>::empty());
        Results { entries }
    }

    /// Where the entry for `key` stands.
    fn position(&self, key: &str) -> (r: Option<usize>)
        ensures
            match r {
                Some(i) => i < self.entries.len() && self.pairs()[i as int].0 == key@,
                None => forall|i: int|
                    0 <= i < self.pairs().len() ==> (#[trigger] self.pairs()[i]).0 != key@,
            },
    {
        let wanted: String = key.to_owned();
        let mut i: usize = 0;
        while i < self.entries.len()
            invariant
                i <= self.entries.len(),
                wanted@ == key@,
                forall|j: int| 0 <= j < i ==> (#[trigger] self.pairs()[j]).0 != key@,
            decreases self.entries.len() - i,
        {
            if self.entries[i].0 == wanted {
                return Some(i);
            }
            i = i + 1;
        }
        None
    }

    /// Puts in an entry for `key`, in place of the one that was there.
    pub fn insert(&mut self, key: String, entry: OutlierEntry)
        ensures
            final(self)@ == old(self)@.insert(key@, entry@),
    {
        proof {
            use_type_invariant(&*self);
        }
        let ghost pairs = self.pairs();
        let ghost pair = (key@, entry@);
        let found: Option<usize> = self.position(key.as_str());
        let mut entries: Vec<(String, OutlierEntry)> = Vec::new();
        assert(pairs_of(entries@) =~= Seq::<(Seq<char>, OutlierView)>::empty());
        std::mem::swap(&mut entries, &mut self.entries);
        match found {
            Some(i) => {
                entries[i] = (key, entry);
                proof {
                    assert(pairs_of(entries@) =~= pairs.update(i as int, pair));
                    lemma_update(pairs, i as int, pair);
                }
            },
            None => {
                entries.push((key, entry));
                proof {
                    assert(pairs_of(entries@) =~= pairs.push(pair));
                    assert(pairs.push(pair).drop_last() =~= pairs);
                }
            },
        }
        self.entries = entries;
    }

    /// The entry for `key`.
    pub fn get(&self, key: &str) -> (r: Option<&OutlierEntry>)
        ensures
            match r {
                Some(entry) => self@.contains_key(key@) && self@[key@] == entry@,
                None => !self@.contains_key(key@),
            },
    {
        proof {
            use_type_invariant(self);
            lemma_keys(self.pairs(), key@);
        }
        match self.position(key) {
            Some(i) => {
                proof {
                    lemma_lookup(self.pairs(), i as int);
                }
                Some(&self.entries[i].1)
            },
            None => None,
        }
    }

    /// Whether there is an entry for `key`.
    pub fn contains_key(&self, key: &str) -> (r: bool)
        ensures
            r == self@.contains_key(key@),
    {
        self.get(key).is_some()
    }

    /// The keys and entries as a list.
    pub fn into_entries(self) -> (r: Vec<(String, OutlierEntry)>)
        ensures
            pairs_of(r@) == self.pairs(),
            distinct_keys(pairs_of(r@)),
            last_wins(pairs_of(r@)) == self@,
    {
        proof {
            use_type_invariant(&self);
        }
        self.entries
    }
}

/// A key has an entry if it stands in the list.
proof fn lemma_keys(pairs: Seq<(Seq<char>, OutlierView)>, key: Seq<char>)
    ensures
        last_wins(pairs).contains_key(key) <==> exists|i: int|
            0 <= i < pairs.len() && (#[trigger] pairs[i]).0 == key,
    decreases pairs.len(),
{
    if pairs.len() > 0 {
        let rest = pairs.drop_last();
        lemma_keys(rest, key);
        if pairs.last().0 == key {
            assert(pairs[pairs.len() - 1].0 == key);
        }
        if exists|i: int| 0 <= i < pairs.len() && (#[trigger] pairs[i]).0 == key {
            let i = choose|i: int| 0 <= i < pairs.len() && (#[trigger] pairs[i]).0 == key;
            if i < rest.len() {
                assert(rest[i].0 == key);
            }
        }
        if exists|i: int| 0 <= i < rest.len() && (#[trigger] rest[i]).0 == key {
            let i = choose|i: int| 0 <= i < rest.len() && (#[trigger] rest[i]).0 == key;
            assert(pairs[i].0 == key);
        }
    }
}

/// The only entry with a key is the one that is found.
proof fn lemma_lookup(pairs: Seq<(Seq<char>, OutlierView)>, i: int)
    requires
        distinct_keys(pairs),
        0 <= i < pairs.len(),
    ensures
        last_wins(pairs).contains_key(pairs[i].0),
        last_wins(pairs)[pairs[i].0] == pairs[i].1,
    decreases pairs.len(),
{
    if i < pairs.len() - 1 {
        assert(distinct_keys(pairs.drop_last()));
        lemma_lookup(pairs.drop_last(), i);
        assert(pairs[i].0 != pairs[pairs.len() - 1].0);
    }
}

/// Exchanging the entry with a key is inserting the new one.
proof fn lemma_update(
    pairs: Seq<(Seq<char>, OutlierView)>,
    i: int,
    pair: (Seq<char>, OutlierView),
)
    requires
        distinct_keys(pairs),
        0 <= i < pairs.len(),
        pairs[i].0 == pair.0,
    ensures
        distinct_keys(pairs.update(i, pair)),
        last_wins(pairs.update(i, pair)) == last_wins(pairs).insert(pair.0, pair.1),
    decreases pairs.len(),
{
    let rest = pairs.drop_last();
    let new = pairs.update(i, pair);
    assert(distinct_keys(new)) by {
        assert forall|a: int, b: int| 0 <= a < b < new.len() implies (#[trigger] new[a]).0 != (
        #[trigger] new[b]).0 by {
            assert(pairs[a].0 != pairs[b].0);
        }
    }
    if i == pairs.len() - 1 {
        assert(new.drop_last() =~= rest);
        assert(last_wins(new) =~= last_wins(pairs).insert(pair.0, pair.1));
    } else {
        assert(distinct_keys(rest));
        lemma_update(rest, i, pair);
        assert(new.drop_last() =~= rest.update(i, pair));
        assert(pairs[i].0 != pairs[pairs.len() - 1].0);
        assert(last_wins(new) =~= last_wins(pairs).insert(pair.0, pair.1));
    }
}

/// An entry is seen with its own fields.
pub proof fn law_entry_is_seen(e: OutlierEntry, bytes: Vec<u8>)
    ensures
        e@.predicate == e.predicate@,
        e@.min == e.min,
        e@.max == e.max,
        e@.lower_threshold == e.lower_threshold,
        e@.upper_threshold == e.upper_threshold,
        e.outliers is None <==> e@.outliers is None,
        e.outliers is Some ==> e@.outliers.unwrap() == e.outliers.unwrap()@,
        optional_bytes(None) is None,
        optional_bytes(Some(bytes)) == Some(bytes@),
{
}

/// A list of keys and entries stands for the entry with which a key occurs last.
pub proof fn law_last_wins(pairs: Seq<(Seq<char>, OutlierView)>, i: int, key: Seq<char>)
    ensures
        last_wins(pairs).contains_key(key) <==> exists|j: int|
            0 <= j < pairs.len() && (#[trigger] pairs[j]).0 == key,
        0 <= i < pairs.len() && (forall|j: int|
            i < j < pairs.len() ==> (#[trigger] pairs[j]).0 != pairs[i].0) ==> last_wins(
            pairs,
        )[pairs[i].0] == pairs[i].1,
    decreases pairs.len(),
{
    lemma_keys(pairs, key);
    if 0 <= i < pairs.len() - 1 && (forall|j: int|
        i < j < pairs.len() ==> (#[trigger] pairs[j]).0 != pairs[i].0) {
        let rest = pairs.drop_last();
        assert(pairs[pairs.len() - 1].0 != pairs[i].0);
        assert forall|j: int| i < j < rest.len() implies (#[trigger] rest[j]).0 != rest[i].0 by {
            assert(pairs[j].0 != pairs[i].0);
        }
        law_last_wins(rest, i, key);
    }
}

/// Keys and entries that are held are seen in order.
pub proof fn law_pairs(entries: Seq<(String, OutlierEntry)>, i: int, j: int)
    ensures
        pairs_of(entries).len() == entries.len(),
        0 <= i < entries.len() ==> pairs_of(entries)[i].0 == entries[i].0@ && pairs_of(
            entries,
        )[i].1 == entries[i].1@,
        distinct_keys(pairs_of(entries)) && 0 <= i < entries.len() && 0 <= j < entries.len() && i
            != j ==> entries[i].0@ != entries[j].0@,
{
    if distinct_keys(pairs_of(entries)) && 0 <= i < entries.len() && 0 <= j < entries.len() && i
        != j {
        assert(pairs_of(entries)[i].0 != pairs_of(entries)[j].0);
    }
}

} // verus!
