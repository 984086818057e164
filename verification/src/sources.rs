//! The files of a scan.

use vstd::prelude::*;

verus! {

/// The files of a scan.
#[derive(Debug)]
pub enum ScanSources {
    /// Paths or URLs. All are cloud URLs, or none is.
    Paths { paths: Vec<String>, is_cloud_url: bool },
    /// Open files.
    Files(usize),
    /// Files in memory.
    Buffers(usize),
}

impl ScanSources {
    /// The path of the first file, if the files are given by paths.
    pub open spec fn first(self) -> Option<Seq<char>> {
        match self {
            ScanSources::Paths { paths, .. } => if paths@.len() > 0 {
                Some(paths@[0]@)
            } else {
                None
            },
            _ => None,
        }
    }

    /// The path of a file, if the files are given by paths.
    pub open spec fn path_of(self, source: int) -> Option<Seq<char>> {
        match self {
            ScanSources::Paths { paths, .. } => Some(paths@[source]@),
            _ => None,
        }
    }

    /// The number of files.
    pub open spec fn count(self) -> nat {
        match self {
            ScanSources::Paths { paths, .. } => paths@.len(),
            ScanSources::Files(n) => n as nat,
            ScanSources::Buffers(n) => n as nat,
        }
    }

    /// Whether the files lie in cloud storage.
    pub open spec fn on_cloud(self) -> bool {
        self matches ScanSources::Paths { is_cloud_url, .. } && is_cloud_url
    }

    /// The number of files.
    pub fn len(&self) -> (r: usize)
        ensures
            r == self.count(),
    {
        match self {
            ScanSources::Paths { paths, .. } => paths.len(),
            ScanSources::Files(n) => *n,
            ScanSources::Buffers(n) => *n,
        }
    }

    /// Whether the files are given by paths.
    pub fn is_paths(&self) -> (r: bool)
        ensures
            r == (self is Paths),
    {
        matches!(self, ScanSources::Paths { .. })
    }

    /// Whether the files lie in cloud storage.
    pub fn is_cloud_url(&self) -> (r: bool)
        ensures
            r == self.on_cloud(),
    {
        match self {
            ScanSources::Paths { is_cloud_url, .. } => *is_cloud_url,
            _ => false,
        }
    }

    /// The path of a file, if the files are given by paths.
    pub fn path(&self, source: usize) -> (r: Option<&String>)
        requires
            source < self.count(),
        ensures
            match r {
                Some(path) => self.path_of(source as int) == Some(path@),
                None => self.path_of(source as int) is None,
            },
    {
        match self {
            ScanSources::Paths { paths, .. } => Some(&paths[source]),
            _ => None,
        }
    }

    /// The path of the first file, if the files are given by paths.
    pub fn first_path(&self) -> (r: Option<&String>)
        ensures
            match r {
                Some(path) => self.first() == Some(path@),
                None => self.first() is None,
            },
    {
        match self {
            ScanSources::Paths { paths, .. } => if paths.len() > 0 {
                Some(&paths[0])
            } else {
                None
            },
            _ => None,
        }
    }
}

/// Each file given by a path has the path at its own place in the list, the first
/// of them is the first path, and there are as many files as paths. Files that
/// are not given by paths have none and do not lie in cloud storage.
pub proof fn law_paths(paths: Vec<String>, is_cloud_url: bool, n: usize, i: int)
    ensures
        ({
            let sources = ScanSources::Paths { paths, is_cloud_url };
            &&& sources.count() == paths@.len()
            &&& sources.on_cloud() <==> is_cloud_url
            &&& 0 <= i < paths@.len() ==> sources.path_of(i) == Some(paths@[i]@)
            &&& paths@.len() > 0 ==> sources.first() == Some(paths@[0]@)
            &&& paths@.len() == 0 ==> sources.first() is None
        }),
        ScanSources::Files(n).count() == n,
        ScanSources::Files(n).path_of(i) is None,
        ScanSources::Files(n).first() is None,
        !ScanSources::Files(n).on_cloud(),
        ScanSources::Buffers(n).count() == n,
        ScanSources::Buffers(n).path_of(i) is None,
        ScanSources::Buffers(n).first() is None,
        !ScanSources::Buffers(n).on_cloud(),
{
}

} // verus!
