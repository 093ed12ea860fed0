use vstd::prelude::*;
use vstd::string::*;

use crate::decimal::{decimal_digits, decimal_string};
use crate::path_helper::{clear_unc_prefix, diff_paths, spec_clear_unc_prefix, spec_diff_paths};

verus! {

/// Where a source file comes from. Paths are built only by the source map.
#[derive(Clone, Debug, PartialEq, Eq, Hash)]
pub struct SourcePath {
    kind: SourcePathKind,
}

#[derive(Clone, Debug, PartialEq, Eq, Hash)]
enum SourcePathKind {
    /// The canonical, unique path of a file on disk.
    Local(String),
    /// A file made from a string, mostly for tests, with an optional name and
    /// a number that tells unnamed ones apart.
    Test { name: Option<String>, uid: u32 },
}

impl SourcePath {
    /// The canonical path of a local file, `None` for a virtual one.
    pub closed spec fn local_path(&self) -> Option<Seq<char>> {
        match self.kind {
            SourcePathKind::Local(p) => Some(p@),
            SourcePathKind::Test { .. } => None,
        }
    }

    /// The name and number of a virtual file, `None` for a local one.
    pub closed spec fn virtual_id(&self) -> Option<(Option<Seq<char>>, u32)> {
        match self.kind {
            SourcePathKind::Local(_) => None,
            SourcePathKind::Test { name, uid } => Some(
                (
                    match name {
                        Some(n) => Some(n@),
                        None => None,
                    },
                    uid,
                ),
            ),
        }
    }

    /// The number of a virtual file, -1 for a local one.
    pub open spec fn uid(&self) -> int {
        match self.virtual_id() {
            Some(v) => v.1 as int,
            None => -1,
        }
    }

    /// The name of the file in messages: a local path without a verbatim
    /// marker, the name of a virtual file, or its number.
    pub open spec fn spec_readable_name(&self) -> Seq<char> {
        match self.local_path() {
            Some(p) => spec_clear_unc_prefix(p),
            None => match self.virtual_id() {
                Some((Some(n), _)) => n,
                Some((None, uid)) => "virtual #"@ + decimal_digits(uid as nat),
                None => seq![],
            },
        }
    }

    pub(crate) fn local_file(path: String) -> (r: SourcePath)
        ensures
            r.local_path() == Some(path@),
            r.virtual_id() is None,
    {
        SourcePath { kind: SourcePathKind::Local(path) }
    }

    pub(crate) fn test_file(name: Option<String>, uid: u32) -> (r: SourcePath)
        ensures
            r.virtual_id() == Some(
                (
                    match name {
                        Some(n) => Some(n@),
                        None => None,
                    },
                    uid,
                ),
            ),
            r.local_path() is None,
    {
        SourcePath { kind: SourcePathKind::Test { name, uid } }
    }

    pub(crate) fn is_local_file(&self) -> (r: bool)
        ensures
            r == self.local_path() is Some,
    {
        match self.kind {
            SourcePathKind::Local(_) => true,
            SourcePathKind::Test { .. } => false,
        }
    }

    pub(crate) fn is_test_file(&self) -> (r: bool)
        ensures
            r == self.virtual_id() is Some,
    {
        match self.kind {
            SourcePathKind::Local(_) => false,
            SourcePathKind::Test { .. } => true,
        }
    }

    /// This is the local path `path`.
    pub(crate) fn is_local_path(&self, path: &String) -> (r: bool)
        ensures
            r == (self.local_path() == Some(path@)),
    {
        match &self.kind {
            SourcePathKind::Local(p) => p.eq(path),
            SourcePathKind::Test { .. } => false,
        }
    }

    /// The name of the file in messages, with a local path made relative to
    /// `cwd` where it can be.
    pub open spec fn spec_readable_name_in(&self, cwd: Seq<char>) -> Seq<char> {
        match self.local_path() {
            Some(p) => match spec_diff_paths(p, cwd) {
                Some(rel) => rel,
                None => spec_clear_unc_prefix(p),
            },
            None => self.spec_readable_name(),
        }
    }

    pub fn readable_name_in(&self, cwd: &str) -> (r: String)
        ensures
            r@ == self.spec_readable_name_in(cwd@),
    {
        match &self.kind {
            SourcePathKind::Local(p) => match diff_paths(p.as_str(), cwd) {
                Some(rel) => rel,
                None => clear_unc_prefix(p.as_str()),
            },
            SourcePathKind::Test { .. } => self.readable_name(),
        }
    }

    pub fn readable_name(&self) -> (r: String)
        ensures
            r@ == self.spec_readable_name(),
    {
        match &self.kind {
            SourcePathKind::Local(p) => clear_unc_prefix(p.as_str()),
            SourcePathKind::Test { name, uid } => match name {
                Some(n) => n.clone(),
                None => {
                    let digits = decimal_string(*uid as u64);
                    let mut r = String::from_str("virtual #");
                    r.append(digits.as_str());
                    r
                },
            },
        }
    }
}

} // verus!
