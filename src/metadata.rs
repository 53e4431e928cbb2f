//! Repository and workspace metadata: versions, packages and operations.
use std::ops::Range;
use vstd::prelude::*;

use crate::names::{CleanName, CleanPath, Sha1Hash, is_clean_name};

verus! {

/// A revision of the application, with its description.
#[derive(Debug)]
pub struct Version {
    pub revision: CleanName,
    pub description: String,
}

impl Version {
    pub fn revision(&self) -> (r: &CleanName)
        ensures
            r@ == self.revision@,
    {
        &self.revision
    }

    pub fn description(&self) -> (r: &str)
        ensures
            r@ == self.description@,
    {
        self.description.as_str()
    }
}

impl Clone for Version {
    fn clone(&self) -> (r: Self)
        ensures
            r.revision@ == self.revision@,
            r.description@ == self.description@,
    {
        Version { revision: self.revision.clone(), description: self.description.clone() }
    }
}

/// The view of an optional name.
pub open spec fn opt_name(n: Option<CleanName>) -> Option<Seq<char>> {
    match n {
        Some(n) => Some(n@),
        None => None,
    }
}

/// The name of a package: `patch<from>_<to>` or `complete_<to>`, then the suffix.
pub open spec fn package_name_of(from: Option<Seq<char>>, to: Seq<char>, suffix: Seq<char>) -> Seq<
    char,
> {
    match from {
        Some(f) => seq!['p', 'a', 't', 'c', 'h'] + f + seq!['_'] + to + suffix,
        None => seq!['c', 'o', 'm', 'p', 'l', 'e', 't', 'e', '_'] + to + suffix,
    }
}

/// The suffix of a package's metadata file.
pub open spec fn metadata_suffix() -> Seq<char> {
    seq!['.', 'm', 'e', 't', 'a', 'd', 'a', 't', 'a']
}

/// A package: an edge from a revision (or from nothing) to a revision.
#[derive(Debug)]
pub struct Package {
    pub from: Option<CleanName>,
    pub to: CleanName,
    pub size: u64,
}

impl Clone for Package {
    fn clone(&self) -> (r: Self)
        ensures
            opt_name(r.from) == opt_name(self.from),
            r.to@ == self.to@,
            r.size == self.size,
    {
        let from = match &self.from {
            Some(f) => Some(f.clone()),
            None => None,
        };
        Package { from, to: self.to.clone(), size: self.size }
    }
}

impl Package {
    /// True if this package needs no previous revision.
    pub fn is_standalone(&self) -> (r: bool)
        ensures
            r == (self.from is None),
    {
        self.from.is_none()
    }

    pub fn from(&self) -> (r: Option<&CleanName>)
        ensures
            match r {
                Some(n) => self.from is Some && n@ == self.from->Some_0@,
                None => self.from is None,
            },
    {
        match &self.from {
            Some(f) => Some(f),
            None => None,
        }
    }

    pub fn to(&self) -> (r: &CleanName)
        ensures
            r@ == self.to@,
    {
        &self.to
    }

    pub fn size(&self) -> (r: u64)
        ensures
            r == self.size,
    {
        self.size
    }

    /// Same origin and same target.
    pub fn same_edge(&self, other: &Package) -> (r: bool)
        ensures
            r == (opt_name(self.from) == opt_name(other.from) && self.to@ == other.to@),
    {
        let same_from = match (&self.from, &other.from) {
            (Some(a), Some(b)) => a.equals(b),
            (None, None) => true,
            _ => false,
        };
        same_from && self.to.equals(&other.to)
    }

    /// Same origin, same target and same size.
    pub fn same_as(&self, other: &Package) -> (r: bool)
        ensures
            r == (opt_name(self.from) == opt_name(other.from) && self.to@ == other.to@
                && self.size == other.size),
    {
        let same_from = match (&self.from, &other.from) {
            (Some(a), Some(b)) => a.equals(b),
            (None, None) => true,
            _ => false,
        };
        same_from && self.to.equals(&other.to) && self.size == other.size
    }

    fn package_name(&self, suffix: &str) -> (r: CleanName)
        requires
            suffix@.len() == 0 || suffix@ == metadata_suffix(),
        ensures
            r@ == package_name_of(opt_name(self.from), self.to@, suffix@),
    {
        let to = self.to.as_str();
        let s = match &self.from {
            Some(from) => {
                let head = "patch";
                let sep = "_";
                proof {
                    reveal_strlit("patch");
                    reveal_strlit("_");
                }
                let f = from.as_str();
                String::from_str(head).concat(f).concat(sep).concat(to).concat(suffix)
            },
            None => {
                let head = "complete_";
                proof {
                    reveal_strlit("complete_");
                }
                String::from_str(head).concat(to).concat(suffix)
            },
        };
        let ghost target = package_name_of(opt_name(self.from), self.to@, suffix@);
        assert(s@ =~= target);
        assert(is_clean_name(target)) by {
            let t = self.to@;
            assert forall|i: int| 0 <= i < target.len() implies crate::names::is_name_char(
                #[trigger] target[i],
            ) by {
                match self.from {
                    Some(f) => {
                        let fv = f@;
                        assert(is_clean_name(fv));
                        if i >= 6 + fv.len() && i < 6 + fv.len() + t.len() {
                            assert(target[i] == t[i - 6 - fv.len()]);
                        } else if i >= 5 && i < 5 + fv.len() {
                            assert(target[i] == fv[i - 5]);
                        }
                    },
                    None => {
                        if i >= 9 && i < 9 + t.len() {
                            assert(target[i] == t[i - 9]);
                        }
                    },
                }
            }
        }
        match CleanName::new(s) {
            Ok(n) => n,
            Err(_) => {
                proof {
                    assert(false);
                }
                self.to.clone()
            },
        }
    }

    /// Name of the package's data blob.
    pub fn package_data_name(&self) -> (r: CleanName)
        ensures
            r@ == package_name_of(opt_name(self.from), self.to@, Seq::empty()),
    {
        let suffix = "";
        proof {
            reveal_strlit("");
        }
        self.package_name(suffix)
    }

    /// Name of the package's metadata file.
    pub fn package_metadata_name(&self) -> (r: CleanName)
        ensures
            r@ == package_name_of(opt_name(self.from), self.to@, metadata_suffix()),
    {
        let suffix = ".metadata";
        proof {
            reveal_strlit(".metadata");
        }
        assert(suffix@ =~= metadata_suffix());
        self.package_name(suffix)
    }
}

/// Operation type (add, patch, check, ...)
#[derive(Debug, Clone, Copy, PartialEq, Eq, Structural)]
pub enum OperationKind {
    Add,
    Patch,
    Check,
    Rm,
    MkDir,
    RmDir,
}

/// The view of an optional path.
pub open spec fn opt_path(n: Option<CleanPath>) -> Option<Seq<char>> {
    match n {
        Some(n) => Some(n@),
        None => None,
    }
}

/// Fields shared by operations that carry a file.
#[derive(Debug)]
pub struct Common {
    pub path: CleanPath,
    pub slice: Option<CleanPath>,
    pub exe: bool,
    /// Name of the slice handler for operations with a slice and the same path
    pub slice_handler: Option<CleanName>,
}

impl Clone for Common {
    fn clone(&self) -> (r: Self)
        ensures
            r.path@ == self.path@,
            opt_path(r.slice) == opt_path(self.slice),
            r.exe == self.exe,
            opt_name(r.slice_handler) == opt_name(self.slice_handler),
    {
        let slice = match &self.slice {
            Some(s) => Some(s.clone()),
            None => None,
        };
        let slice_handler = match &self.slice_handler {
            Some(s) => Some(s.clone()),
            None => None,
        };
        Common { path: self.path.clone(), slice, exe: self.exe, slice_handler }
    }
}

/// Add a file (or a slice of one) from downloaded data.
#[derive(Debug)]
pub struct Add {
    pub common: Common,
    pub data_offset: u64,
    pub data_size: u64,
    pub data_sha1: Sha1Hash,
    pub data_compression: CleanName,
    pub final_offset: u64,
    pub final_size: u64,
    pub final_sha1: Sha1Hash,
}

/// Patch a local file (or a slice of one) with downloaded data.
#[derive(Debug)]
pub struct Patch {
    pub common: Common,
    pub data_offset: u64,
    pub data_size: u64,
    pub data_sha1: Sha1Hash,
    pub data_compression: CleanName,
    pub patch_type: CleanName,
    pub local_offset: u64,
    pub local_size: u64,
    pub local_sha1: Sha1Hash,
    pub final_offset: u64,
    pub final_size: u64,
    pub final_sha1: Sha1Hash,
}

/// Check that a local file (or a slice of one) has the expected content.
#[derive(Debug)]
pub struct Check {
    pub common: Common,
    pub local_offset: u64,
    pub local_size: u64,
    pub local_sha1: Sha1Hash,
}

/// Remove a file (or a slice of one).
#[derive(Debug)]
pub struct Rm {
    pub path: CleanPath,
    pub slice: Option<CleanPath>,
}

/// One instruction of a package.
#[derive(Debug)]
pub enum Operation {
    Add(Add),
    Patch(Patch),
    Check(Check),
    Rm(Rm),
    MkDir { path: CleanPath },
    RmDir { path: CleanPath },
}

impl Operation {
    pub open spec fn spec_kind(&self) -> OperationKind {
        match self {
            Operation::Add(_) => OperationKind::Add,
            Operation::Patch(_) => OperationKind::Patch,
            Operation::Check(_) => OperationKind::Check,
            Operation::Rm(_) => OperationKind::Rm,
            Operation::MkDir { .. } => OperationKind::MkDir,
            Operation::RmDir { .. } => OperationKind::RmDir,
        }
    }

    /// The path the operation works on.
    pub open spec fn spec_path(&self) -> Seq<char> {
        match self {
            Operation::Add(a) => a.common.path@,
            Operation::Patch(p) => p.common.path@,
            Operation::Check(c) => c.common.path@,
            Operation::Rm(r) => r.path@,
            Operation::MkDir { path } => path@,
            Operation::RmDir { path } => path@,
        }
    }

    /// The slice of the path the operation works on, if any.
    pub open spec fn spec_slice(&self) -> Option<Seq<char>> {
        match self {
            Operation::Add(a) => opt_path(a.common.slice),
            Operation::Patch(p) => opt_path(p.common.slice),
            Operation::Check(c) => opt_path(c.common.slice),
            Operation::Rm(r) => opt_path(r.slice),
            _ => None,
        }
    }

    /// Bytes of the package blob that the operation carries.
    pub open spec fn spec_data_size(&self) -> u64 {
        match self {
            Operation::Add(a) => a.data_size,
            Operation::Patch(p) => p.data_size,
            _ => 0,
        }
    }

    /// Where the operation's bytes start in the package blob.
    pub open spec fn spec_data_offset(&self) -> u64 {
        match self {
            Operation::Add(a) => a.data_offset,
            Operation::Patch(p) => p.data_offset,
            _ => 0,
        }
    }

    /// Size of the file (or slice) once the operation is applied.
    pub open spec fn spec_final_size(&self) -> u64 {
        match self {
            Operation::Add(a) => a.final_size,
            Operation::Patch(p) => p.final_size,
            _ => 0,
        }
    }

    /// Bytes that a check operation reads.
    pub open spec fn spec_check_size(&self) -> u64 {
        match self {
            Operation::Check(c) => c.local_size,
            _ => 0,
        }
    }

    /// The operation carries bytes of the package blob.
    pub open spec fn carries_data(&self) -> bool {
        self is Add || self is Patch
    }

    /// The operation's byte range fits in a `u64`.
    pub open spec fn range_fits(&self) -> bool {
        self.spec_data_offset() + self.spec_data_size() <= u64::MAX
    }

    pub fn kind(&self) -> (r: OperationKind)
        ensures
            r == self.spec_kind(),
    {
        match self {
            Operation::Add(_) => OperationKind::Add,
            Operation::Patch(_) => OperationKind::Patch,
            Operation::Check(_) => OperationKind::Check,
            Operation::Rm(_) => OperationKind::Rm,
            Operation::MkDir { .. } => OperationKind::MkDir,
            Operation::RmDir { .. } => OperationKind::RmDir,
        }
    }

    pub fn path(&self) -> (r: &CleanPath)
        ensures
            r@ == self.spec_path(),
    {
        match self {
            Operation::Add(a) => &a.common.path,
            Operation::Patch(p) => &p.common.path,
            Operation::Check(c) => &c.common.path,
            Operation::Rm(r) => &r.path,
            Operation::MkDir { path } => path,
            Operation::RmDir { path } => path,
        }
    }

    pub fn slice(&self) -> (r: Option<&CleanPath>)
        ensures
            match r {
                Some(s) => self.spec_slice() == Some(s@),
                None => self.spec_slice() is None,
            },
    {
        let s = match self {
            Operation::Add(a) => &a.common.slice,
            Operation::Patch(p) => &p.common.slice,
            Operation::Check(c) => &c.common.slice,
            Operation::Rm(r) => &r.slice,
            _ => {
                return None;
            },
        };
        match s {
            Some(x) => Some(x),
            None => None,
        }
    }

    pub fn slice_handler(&self) -> (r: Option<&CleanName>)
        ensures
            match r {
                Some(h) => match self {
                    Operation::Add(a) => opt_name(a.common.slice_handler) == Some(h@),
                    Operation::Patch(p) => opt_name(p.common.slice_handler) == Some(h@),
                    Operation::Check(c) => opt_name(c.common.slice_handler) == Some(h@),
                    _ => false,
                },
                None => match self {
                    Operation::Add(a) => a.common.slice_handler is None,
                    Operation::Patch(p) => p.common.slice_handler is None,
                    Operation::Check(c) => c.common.slice_handler is None,
                    _ => true,
                },
            },
    {
        let h = match self {
            Operation::Add(a) => &a.common.slice_handler,
            Operation::Patch(p) => &p.common.slice_handler,
            Operation::Check(c) => &c.common.slice_handler,
            _ => {
                return None;
            },
        };
        match h {
            Some(x) => Some(x),
            None => None,
        }
    }

    /// The range of the package blob that the operation carries.
    pub fn range(&self) -> (r: Option<Range<u64>>)
        requires
            self.range_fits(),
        ensures
            self.carries_data() ==> r is Some && r->Some_0.start == self.spec_data_offset()
                && r->Some_0.end == self.spec_data_offset() + self.spec_data_size(),
            !self.carries_data() ==> r is None,
    {
        match self {
            Operation::Add(a) => Some(Range { start: a.data_offset, end: a.data_offset + a.data_size }),
            Operation::Patch(p) => Some(Range { start: p.data_offset, end: p.data_offset + p.data_size }),
            _ => None,
        }
    }

    pub fn check_size(&self) -> (r: u64)
        ensures
            r == self.spec_check_size(),
    {
        match self {
            Operation::Check(c) => c.local_size,
            _ => 0,
        }
    }

    pub fn data_size(&self) -> (r: u64)
        ensures
            r == self.spec_data_size(),
    {
        match self {
            Operation::Add(a) => a.data_size,
            Operation::Patch(p) => p.data_size,
            _ => 0,
        }
    }

    pub fn final_size(&self) -> (r: u64)
        ensures
            r == self.spec_final_size(),
    {
        match self {
            Operation::Add(a) => a.final_size,
            Operation::Patch(p) => p.final_size,
            _ => 0,
        }
    }

    /// Moves the operation's bytes to `offset` in the package blob.
    pub fn set_data_offset(&mut self, offset: u64)
        ensures
            final(self).spec_kind() == old(self).spec_kind(),
            final(self).spec_path() == old(self).spec_path(),
            final(self).spec_data_size() == old(self).spec_data_size(),
            final(self).spec_final_size() == old(self).spec_final_size(),
            final(self).carries_data() ==> final(self).spec_data_offset() == offset,
            !final(self).carries_data() ==> *final(self) == *old(self),
    {
        match self {
            Operation::Add(a) => {
                a.data_offset = offset;
            },
            Operation::Patch(p) => {
                p.data_offset = offset;
            },
            _ => {},
        }
    }

    /// The check that the workspace passes once this operation is applied:
    /// `Add` and `Patch` become a check of their final content, `Check` and
    /// `MkDir` stay as they are, removals have none.
    pub fn as_check_operation(&self) -> (r: Option<Operation>)
        ensures
            match r {
                Some(c) => check_form(*self, c),
                None => self is Rm || self is RmDir,
            },
    {
        match self {
            Operation::Add(a) => Some(
                Operation::Check(
                    Check {
                        common: a.common.clone(),
                        local_offset: a.final_offset,
                        local_size: a.final_size,
                        local_sha1: a.final_sha1.clone(),
                    },
                ),
            ),
            Operation::Patch(p) => Some(
                Operation::Check(
                    Check {
                        common: p.common.clone(),
                        local_offset: p.final_offset,
                        local_size: p.final_size,
                        local_sha1: p.final_sha1.clone(),
                    },
                ),
            ),
            Operation::Check(c) => Some(
                Operation::Check(
                    Check {
                        common: c.common.clone(),
                        local_offset: c.local_offset,
                        local_size: c.local_size,
                        local_sha1: c.local_sha1.clone(),
                    },
                ),
            ),
            Operation::MkDir { path } => Some(Operation::MkDir { path: path.clone() }),
            _ => None,
        }
    }
}

/// Repository `current` file: the latest revision.
#[derive(Debug)]
pub enum Current {
    V1 { current: Version },
}

impl Current {
    pub fn filename() -> (r: &'static str)
        ensures
            r@ == seq!['c', 'u', 'r', 'r', 'e', 'n', 't'],
    {
        let r = "current";
        proof {
            reveal_strlit("current");
        }
        r
    }

    pub open spec fn spec_version(&self) -> Seq<char> {
        match self {
            Current::V1 { current } => current.revision@,
        }
    }

    pub fn version(&self) -> (r: &CleanName)
        ensures
            r@ == self.spec_version(),
    {
        match self {
            Current::V1 { current } => &current.revision,
        }
    }

    /// The `current` file that points at `revision`, taken from the list of
    /// known versions; `None` if that revision is not listed.
    pub fn from_versions(versions: &Versions, revision: &CleanName) -> (r: Option<Current>)
        ensures
            match r {
                Some(c) => exists|i: int|
                    0 <= i < versions.spec_versions().len() && versions.spec_versions()[i].revision@
                        == revision@ && c.spec_version() == revision@ && (c matches Current::V1 {
                        current,
                    } && current.description@ == versions.spec_versions()[i].description@),
                None => forall|i: int|
                    0 <= i < versions.spec_versions().len() ==> (
                    #[trigger] versions.spec_versions()[i]).revision@ != revision@,
            },
    {
        let list = versions.as_slice();
        let mut i: usize = 0;
        while i < list.len()
            invariant
                list@ == versions.spec_versions(),
                i <= list@.len(),
                forall|j: int| 0 <= j < i ==> (#[trigger] list@[j]).revision@ != revision@,
            decreases list@.len() - i,
        {
            if list[i].revision.equals(revision) {
                return Some(Current::V1 { current: list[i].clone() });
            }
            i = i + 1;
        }
        None
    }
}

/// Repository `versions` file: the changelog, in chronological order.
#[derive(Debug)]
pub enum Versions {
    V1 { versions: Vec<Version> },
}

/// The revisions of a list of versions, with their descriptions.
pub open spec fn revisions(v: Seq<Version>) -> Seq<(Seq<char>, Seq<char>)> {
    v.map_values(|x: Version| (x.revision@, x.description@))
}

impl Versions {
    pub open spec fn spec_versions(&self) -> Seq<Version> {
        match self {
            Versions::V1 { versions } => versions@,
        }
    }

    pub fn filename() -> (r: &'static str)
        ensures
            r@ == seq!['v', 'e', 'r', 's', 'i', 'o', 'n', 's'],
    {
        let r = "versions";
        proof {
            reveal_strlit("versions");
        }
        r
    }

    pub fn len(&self) -> (r: usize)
        ensures
            r == self.spec_versions().len(),
    {
        match self {
            Versions::V1 { versions } => versions.len(),
        }
    }

    pub fn as_slice(&self) -> (r: &[Version])
        ensures
            r@ == self.spec_versions(),
    {
        match self {
            Versions::V1 { versions } => versions.as_slice(),
        }
    }

    /// The list without `revision`.
    pub fn without_version(&self, revision: &CleanName) -> (r: Versions)
        ensures
            revisions(r.spec_versions()) == revisions(self.spec_versions()).filter(
                |x: (Seq<char>, Seq<char>)| x.0 != revision@,
            ),
    {
        let list = self.as_slice();
        let mut out: Vec<Version> = Vec::new();
        let mut i: usize = 0;
        while i < list.len()
            invariant
                list@ == self.spec_versions(),
                i <= list@.len(),
                revisions(out@) == revisions(list@.subrange(0, i as int)).filter(
                    |x: (Seq<char>, Seq<char>)| x.0 != revision@,
                ),
            decreases list@.len() - i,
        {
            let ghost prev = out@;
            proof {
                assert(revisions(list@.subrange(0, i + 1)) =~= revisions(
                    list@.subrange(0, i as int),
                ).push((list@[i as int].revision@, list@[i as int].description@)));
                reveal_with_fuel(Seq::filter, 1);
                assert(revisions(list@.subrange(0, i + 1)).drop_last() =~= revisions(
                    list@.subrange(0, i as int),
                ));
            }
            if !list[i].revision.equals(revision) {
                out.push(list[i].clone());
                proof {
                    assert(revisions(out@) =~= revisions(prev).push((list@[i as int].revision@, list@[i as int].description@)));
                }
            }
            i = i + 1;
        }
        proof {
            assert(list@.subrange(0, list@.len() as int) =~= list@);
        }
        Versions::V1 { versions: out }
    }

    /// The list with `version` registered last, replacing any entry with the
    /// same revision.
    pub fn with_version(&self, version: &Version) -> (r: Versions)
        ensures
            revisions(r.spec_versions()) == revisions(self.spec_versions()).filter(
                |x: (Seq<char>, Seq<char>)| x.0 != version.revision@,
            ).push((version.revision@, version.description@)),
            r.spec_versions().last().description@ == version.description@,
    {
        let r = self.without_version(&version.revision);
        match r {
            Versions::V1 { versions } => {
                let mut versions = versions;
                let ghost prev = versions@;
                versions.push(version.clone());
                proof {
                    assert(revisions(versions@) =~= revisions(prev).push((version.revision@, version.description@)));
                }
                Versions::V1 { versions }
            },
        }
    }
}

/// Repository `packages` file: the update graph.
#[derive(Debug)]
pub enum Packages {
    V1 { packages: Vec<Package> },
}

/// Packages seen as (from, to, size).
pub open spec fn package_view(p: Package) -> (Option<Seq<char>>, Seq<char>, u64) {
    (opt_name(p.from), p.to@, p.size)
}

pub open spec fn package_views(v: Seq<Package>) -> Seq<(Option<Seq<char>>, Seq<char>, u64)> {
    v.map_values(|p: Package| package_view(p))
}

impl Packages {
    pub open spec fn spec_packages(&self) -> Seq<Package> {
        match self {
            Packages::V1 { packages } => packages@,
        }
    }

    pub fn filename() -> (r: &'static str)
        ensures
            r@ == seq!['p', 'a', 'c', 'k', 'a', 'g', 'e', 's'],
    {
        let r = "packages";
        proof {
            reveal_strlit("packages");
        }
        r
    }

    pub fn len(&self) -> (r: usize)
        ensures
            r == self.spec_packages().len(),
    {
        match self {
            Packages::V1 { packages } => packages.len(),
        }
    }

    pub fn as_slice(&self) -> (r: &[Package])
        ensures
            r@ == self.spec_packages(),
    {
        match self {
            Packages::V1 { packages } => packages.as_slice(),
        }
    }

    /// The list without any package on the edge of `package` (same origin and
    /// target, whatever its size): such packages share its name and blob.
    pub fn without_package(&self, package: &Package) -> (r: Packages)
        ensures
            package_views(r.spec_packages()) == package_views(self.spec_packages()).filter(
                |x: (Option<Seq<char>>, Seq<char>, u64)| !(x.0 == opt_name(package.from) && x.1 == package.to@),
            ),
    {
        let list = self.as_slice();
        let mut out: Vec<Package> = Vec::new();
        let mut i: usize = 0;
        while i < list.len()
            invariant
                list@ == self.spec_packages(),
                i <= list@.len(),
                package_views(out@) == package_views(list@.subrange(0, i as int)).filter(
                    |x: (Option<Seq<char>>, Seq<char>, u64)| !(x.0 == opt_name(package.from) && x.1 == package.to@),
                ),
            decreases list@.len() - i,
        {
            let ghost prev = out@;
            proof {
                assert(package_views(list@.subrange(0, i + 1)) =~= package_views(
                    list@.subrange(0, i as int),
                ).push(package_view(list@[i as int])));
                reveal_with_fuel(Seq::filter, 1);
                assert(package_views(list@.subrange(0, i + 1)).drop_last() =~= package_views(
                    list@.subrange(0, i as int),
                ));
            }
            if !list[i].same_edge(package) {
                out.push(list[i].clone());
                proof {
                    assert(package_views(out@) =~= package_views(prev).push(
                        package_view(list@[i as int]),
                    ));
                }
            }
            i = i + 1;
        }
        proof {
            assert(list@.subrange(0, list@.len() as int) =~= list@);
        }
        Packages::V1 { packages: out }
    }

    /// The list with `package` registered last, replacing any package on the
    /// same edge.
    pub fn with_package(&self, package: &Package) -> (r: Packages)
        ensures
            package_views(r.spec_packages()) == package_views(self.spec_packages()).filter(
                |x: (Option<Seq<char>>, Seq<char>, u64)| !(x.0 == opt_name(package.from) && x.1 == package.to@),
            ).push(package_view(*package)),
    {
        let r = self.without_package(package);
        match r {
            Packages::V1 { packages } => {
                let mut packages = packages;
                let ghost prev = packages@;
                packages.push(package.clone());
                proof {
                    assert(package_views(packages@) =~= package_views(prev).push(
                        package_view(*package),
                    ));
                }
                Packages::V1 { packages }
            },
        }
    }
}

/// A package's metadata: the package and its ordered operations.
#[derive(Debug)]
pub enum PackageMetadata {
    V1 { package: Package, operations: Vec<Operation> },
}

impl PackageMetadata {
    pub open spec fn spec_package(&self) -> Package {
        match self {
            PackageMetadata::V1 { package, .. } => *package,
        }
    }

    pub open spec fn spec_operations(&self) -> Seq<Operation> {
        match self {
            PackageMetadata::V1 { operations, .. } => operations@,
        }
    }

    pub fn package(&self) -> (r: &Package)
        ensures
            *r == self.spec_package(),
    {
        match self {
            PackageMetadata::V1 { package, .. } => package,
        }
    }

    /// The operations, in order.
    pub fn iter(&self) -> (r: &[Operation])
        ensures
            r@ == self.spec_operations(),
    {
        match self {
            PackageMetadata::V1 { operations, .. } => operations.as_slice(),
        }
    }

    /// The checks that hold once the package is applied, in operation order:
    /// the check form of every operation but removals.
    pub fn check_operations(&self) -> (r: Vec<Operation>)
        ensures
            check_views(r@) == check_views(self.spec_operations().filter(|o: Operation| has_check(o))),
            forall|i: int| 0 <= i < r@.len() ==> (#[trigger] r@[i]) is Check || r@[i] is MkDir,
    {
        let ops = self.iter();
        let ghost keep = |o: Operation| has_check(o);
        let mut out: Vec<Operation> = Vec::new();
        let mut i: usize = 0;
        while i < ops.len()
            invariant
                ops@ == self.spec_operations(),
                keep == (|o: Operation| has_check(o)),
                i <= ops@.len(),
                check_views(out@) == check_views(ops@.subrange(0, i as int).filter(keep)),
                forall|j: int| 0 <= j < out@.len() ==> (#[trigger] out@[j]) is Check || out@[j] is MkDir,
            decreases ops@.len() - i,
        {
            let ghost prefix = ops@.subrange(0, i as int);
            proof {
                assert(ops@.subrange(0, i + 1) =~= prefix.push(ops@[i as int]));
                reveal_with_fuel(Seq::filter, 1);
                assert(prefix.push(ops@[i as int]).drop_last() =~= prefix);
            }
            let ghost before = out@;
            match ops[i].as_check_operation() {
                Some(c) => {
                    out.push(c);
                    proof {
                        assert(ops@.subrange(0, i + 1).filter(keep) =~= prefix.filter(keep).push(ops@[i as int]));
                        assert(check_views(out@) =~= check_views(before).push(check_view(ops@[i as int])));
                        assert(check_views(prefix.filter(keep).push(ops@[i as int])) =~= check_views(prefix.filter(keep)).push(check_view(ops@[i as int])));
                    }
                },
                None => {
                    proof {
                        assert(ops@.subrange(0, i + 1).filter(keep) =~= prefix.filter(keep));
                    }
                },
            }
            i = i + 1;
        }
        proof {
            assert(ops@.subrange(0, ops@.len() as int) =~= ops@);
        }
        out
    }
}

/// Operations that leave something to check: all but removals.
pub open spec fn has_check(o: Operation) -> bool {
    !(o is Rm || o is RmDir)
}

/// What the check form of an operation checks: its kind (check or
/// directory), path, slice and size.
pub open spec fn check_view(o: Operation) -> (bool, Seq<char>, Option<Seq<char>>, u64) {
    match o {
        Operation::Add(a) => (true, a.common.path@, opt_path(a.common.slice), a.final_size),
        Operation::Patch(p) => (true, p.common.path@, opt_path(p.common.slice), p.final_size),
        Operation::Check(c) => (true, c.common.path@, opt_path(c.common.slice), c.local_size),
        _ => (false, o.spec_path(), None, 0),
    }
}

pub open spec fn check_views(v: Seq<Operation>) -> Seq<(bool, Seq<char>, Option<Seq<char>>, u64)> {
    v.map_values(|o: Operation| check_view(o))
}

/// The workspace `check.json` file: the checks of the last applied package.
#[derive(Debug)]
pub enum WorkspaceChecks {
    V1 { operations: Vec<Operation> },
}

impl WorkspaceChecks {
    pub open spec fn spec_operations(&self) -> Seq<Operation> {
        match self {
            WorkspaceChecks::V1 { operations } => operations@,
        }
    }

    pub fn iter(&self) -> (r: &[Operation])
        ensures
            r@ == self.spec_operations(),
    {
        match self {
            WorkspaceChecks::V1 { operations } => operations.as_slice(),
        }
    }
}

/// Fields shared by file operations have the same values.
pub open spec fn same_common(a: Common, b: Common) -> bool {
    &&& a.path@ == b.path@
    &&& opt_path(a.slice) == opt_path(b.slice)
    &&& a.exe == b.exe
    &&& opt_name(a.slice_handler) == opt_name(b.slice_handler)
}

/// Two operations are the same: same variant, and every field has the same
/// value.
pub open spec fn same_op(a: Operation, b: Operation) -> bool {
    match (a, b) {
        (Operation::Add(x), Operation::Add(y)) => {
            &&& same_common(x.common, y.common)
            &&& x.data_offset == y.data_offset && x.data_size == y.data_size
            &&& x.data_sha1@ == y.data_sha1@ && x.data_compression@ == y.data_compression@
            &&& x.final_offset == y.final_offset && x.final_size == y.final_size
            &&& x.final_sha1@ == y.final_sha1@
        },
        (Operation::Patch(x), Operation::Patch(y)) => {
            &&& same_common(x.common, y.common)
            &&& x.data_offset == y.data_offset && x.data_size == y.data_size
            &&& x.data_sha1@ == y.data_sha1@ && x.data_compression@ == y.data_compression@
            &&& x.patch_type@ == y.patch_type@
            &&& x.local_offset == y.local_offset && x.local_size == y.local_size
            &&& x.local_sha1@ == y.local_sha1@
            &&& x.final_offset == y.final_offset && x.final_size == y.final_size
            &&& x.final_sha1@ == y.final_sha1@
        },
        (Operation::Check(x), Operation::Check(y)) => {
            &&& same_common(x.common, y.common)
            &&& x.local_offset == y.local_offset && x.local_size == y.local_size
            &&& x.local_sha1@ == y.local_sha1@
        },
        (Operation::Rm(x), Operation::Rm(y)) => x.path@ == y.path@ && opt_path(x.slice) == opt_path(
            y.slice,
        ),
        (Operation::MkDir { path: x }, Operation::MkDir { path: y }) => x@ == y@,
        (Operation::RmDir { path: x }, Operation::RmDir { path: y }) => x@ == y@,
        _ => false,
    }
}

/// `c` is the check form of `o`: a check of the final content of an
/// addition or a patch, or the check or directory creation itself.
pub open spec fn check_form(o: Operation, c: Operation) -> bool {
    match o {
        Operation::Add(a) => c matches Operation::Check(k) && same_common(k.common, a.common)
            && k.local_offset == a.final_offset && k.local_size == a.final_size && k.local_sha1@
            == a.final_sha1@,
        Operation::Patch(p) => c matches Operation::Check(k) && same_common(k.common, p.common)
            && k.local_offset == p.final_offset && k.local_size == p.final_size && k.local_sha1@
            == p.final_sha1@,
        Operation::Check(_) => same_op(c, o),
        Operation::MkDir { .. } => same_op(c, o),
        _ => false,
    }
}

impl Clone for Operation {
    fn clone(&self) -> (r: Self)
        ensures
            same_op(r, *self),
            r.spec_kind() == self.spec_kind(),
            r.spec_path() == self.spec_path(),
            r.spec_slice() == self.spec_slice(),
            r.spec_data_offset() == self.spec_data_offset(),
            r.spec_data_size() == self.spec_data_size(),
            r.spec_final_size() == self.spec_final_size(),
            r.spec_check_size() == self.spec_check_size(),
    {
        match self {
            Operation::Add(a) => Operation::Add(
                Add {
                    common: a.common.clone(),
                    data_offset: a.data_offset,
                    data_size: a.data_size,
                    data_sha1: a.data_sha1.clone(),
                    data_compression: a.data_compression.clone(),
                    final_offset: a.final_offset,
                    final_size: a.final_size,
                    final_sha1: a.final_sha1.clone(),
                },
            ),
            Operation::Patch(p) => Operation::Patch(
                Patch {
                    common: p.common.clone(),
                    data_offset: p.data_offset,
                    data_size: p.data_size,
                    data_sha1: p.data_sha1.clone(),
                    data_compression: p.data_compression.clone(),
                    patch_type: p.patch_type.clone(),
                    local_offset: p.local_offset,
                    local_size: p.local_size,
                    local_sha1: p.local_sha1.clone(),
                    final_offset: p.final_offset,
                    final_size: p.final_size,
                    final_sha1: p.final_sha1.clone(),
                },
            ),
            Operation::Check(c) => Operation::Check(
                Check {
                    common: c.common.clone(),
                    local_offset: c.local_offset,
                    local_size: c.local_size,
                    local_sha1: c.local_sha1.clone(),
                },
            ),
            Operation::Rm(r) => {
                let slice = match &r.slice {
                    Some(x) => Some(x.clone()),
                    None => None,
                };
                Operation::Rm(Rm { path: r.path.clone(), slice })
            },
            Operation::MkDir { path } => Operation::MkDir { path: path.clone() },
            Operation::RmDir { path } => Operation::RmDir { path: path.clone() },
        }
    }
}

} // verus!
