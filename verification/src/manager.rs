//! Which SMA files exist, and what is read from and written to them.

use crate::encoding::{bincode_encoding, StoredView};
use crate::paths::{base_path, in_base_folder};
use crate::results::distinct_keys;
use crate::sma::{decoded, SmaError, SmaView, SMA};
use vstd::hash_set::StringHashSet;
use vstd::prelude::*;

verus! {

/// Keeps track of the SMA files that exist.
pub struct SMAManager {
    smas: StringHashSet,
}

/// A file to be written: created, or emptied if it is there, and filled.
#[derive(Debug)]
pub struct FileWrite {
    /// The path of the file.
    pub path: String,
    /// Its new contents.
    pub contents: Vec<u8>,
}

/// Calls `std::path::Path::exists`. Nothing is promised of the result: it rests
/// on what is on disk.
#[verifier::external_body]
fn path_exists(path: &str) -> (r: bool) {
    std::path::Path::new(path).exists()
}

/// Whether a query on `column` can be answered from an SMA file with these bytes:
/// the file exists, and it holds an entry for the column. A file that does not
/// exist is not read.
pub open spec fn can_retrieve(file_exists: bool, column: Seq<char>, bytes: Seq<u8>) -> Result<
    bool,
    SmaError,
> {
    if !file_exists {
        Ok(false)
    } else {
        match decoded(bytes) {
            Some(sma) => Ok(sma.results.contains_key(column)),
            None => Err(SmaError::Malformed),
        }
    }
}

impl View for SMAManager {
    type V = Set<Seq<char>>;

    /// The names of the files that are known to exist.
    closed spec fn view(&self) -> Set<Seq<char>> {
        self.smas@
    }
}

impl SMAManager {
    /// Knows of no file.
    pub fn new() -> (r: SMAManager)
        ensures
            r@ == Set::<Seq<char>>::empty(),
    {
        SMAManager { smas: StringHashSet::new() }
    }

    /// Takes note of a file that exists.
    pub fn insert_sma(&mut self, file_name: String)
        ensures
            final(self)@ == old(self)@.insert(file_name@),
    {
        self.smas.insert(file_name);
    }

    /// Takes note of what a look into the base folder has shown, and returns
    /// whether the file exists.
    pub fn note_probe(&mut self, file_name: &str, found_in_base_folder: bool) -> (r: bool)
        ensures
            r == (old(self)@.contains(file_name@) || found_in_base_folder),
            final(self)@ == if found_in_base_folder {
                old(self)@.insert(file_name@)
            } else {
                old(self)@
            },
    {
        if found_in_base_folder {
            self.smas.insert(file_name.to_owned());
            return true;
        }
        self.smas.contains(file_name)
    }

    /// Whether the SMA file exists. A file that is known to exist is not looked
    /// for; any other is, in the base folder, and is known from then on if it is
    /// there.
    pub fn sma_file_exist(&mut self, file_name: &str) -> (r: bool)
        ensures
            old(self)@.contains(file_name@) ==> r,
            r == final(self)@.contains(file_name@),
            final(self)@ == if r {
                old(self)@.insert(file_name@)
            } else {
                old(self)@
            },
    {
        if self.smas.contains(file_name) {
            assert(self@.insert(file_name@) =~= self@);
            return true;
        }
        let path: String = in_base_folder(file_name);
        let found: bool = path_exists(path.as_str());
        self.note_probe(file_name, found)
    }

    /// Whether a query on `column` can be answered from an SMA file, given
    /// whether the file exists and the bytes that it then holds.
    pub fn holds_entry(file_exists: bool, column: &str, buffer: &Vec<u8>) -> (r: Result<
        bool,
        SmaError,
    >)
        ensures
            r == can_retrieve(file_exists, column@, buffer@),
    {
        if !file_exists {
            return Ok(false);
        }
        match SMA::decode(buffer) {
            Ok(sma) => Ok(sma.results.contains_key(column)),
            Err(e) => Err(e),
        }
    }

    /// Whether the SMA file and, in its bytes `buffer`, an entry for `column`
    /// exist. Whether the file exists is found out as by
    /// [`SMAManager::sma_file_exist`].
    pub fn can_retrieve_from_sma(
        &mut self,
        file_path: &str,
        column: &str,
        buffer: &Vec<u8>,
    ) -> (r: Result<bool, SmaError>)
        ensures
            r == can_retrieve(final(self)@.contains(file_path@), column@, buffer@),
            old(self)@.contains(file_path@) ==> final(self)@.contains(file_path@),
            final(self)@ == if final(self)@.contains(file_path@) {
                old(self)@.insert(file_path@)
            } else {
                old(self)@
            },
    {
        let file_exists: bool = self.sma_file_exist(file_path);
        SMAManager::holds_entry(file_exists, column, buffer)
    }

    /// Reads the contents of an SMA file from its bytes.
    pub fn deserialize_sma_file(&self, buffer: &Vec<u8>) -> (r: Result<SMA, SmaError>)
        ensures
            match r {
                Ok(sma) => decoded(buffer@) == Some(sma@),
                Err(e) => e == SmaError::Malformed && decoded(buffer@) is None,
            },
    {
        SMA::decode(buffer)
    }

    /// The new SMA file `file_name`: an empty one, in the base folder.
    pub fn create_sma_file(&self, file_name: &str) -> (r: FileWrite)
        ensures
            r.path@ == base_path(file_name@),
            r.contents@ == bincode_encoding(
                StoredView { version: "SMA"@, predicate_count: 0, results: seq![] },
            ),
            decoded(r.contents@) == Some(SmaView::empty()),
    {
        FileWrite { path: in_base_folder(file_name), contents: SMA::new().encode() }
    }

    /// Takes note of an SMA file if it could be created.
    pub fn sma_file_created<E>(&mut self, file_name: &str, written: Result<(), E>) -> (r: Result<
        (),
        E,
    >)
        ensures
            r == written,
            final(self)@ == if written is Ok {
                old(self)@.insert(file_name@)
            } else {
                old(self)@
            },
    {
        if written.is_ok() {
            self.insert_sma(file_name.to_owned());
        }
        written
    }

    /// The SMA file `file_name` with new contents, in the base folder.
    pub fn update_sma_file(&self, file_name: &str, sma: SMA) -> (r: FileWrite)
        ensures
            r.path@ == base_path(file_name@),
            r.contents@ == bincode_encoding(sma.stored()),
            distinct_keys(sma.stored().results),
            decoded(r.contents@) == Some(sma@),
    {
        FileWrite { path: in_base_folder(file_name), contents: sma.encode() }
    }
}

/// A query on a column can be answered from a file if and only if the file
/// exists and its bytes hold an entry for the column. Bytes of a file that exists
/// and that cannot be read are the only error.
pub proof fn law_can_retrieve(file_exists: bool, column: Seq<char>, bytes: Seq<u8>)
    ensures
        can_retrieve(file_exists, column, bytes) == Ok::<bool, SmaError>(true) <==> file_exists
            && decoded(bytes) is Some && decoded(bytes).unwrap().results.contains_key(column),
        can_retrieve(file_exists, column, bytes) is Err <==> file_exists && decoded(bytes) is None,
        can_retrieve(file_exists, column, bytes) matches Err(e) ==> e == SmaError::Malformed,
{
}

} // verus!
