//! Repository index management: the changes that registering or removing a
//! version or a package makes to the `current`, `versions` and `packages`
//! files. Reading and atomically replacing those files is left to callers.
use vstd::prelude::*;

use crate::metadata::{
    Current, Package, Packages, Version, Versions, opt_name, package_view, package_views, revisions,
};
use crate::names::CleanName;
use vstd::string::StrSliceExecFns;

verus! {

/// Why a repository change is refused.
#[derive(Debug, Clone, Copy, PartialEq, Eq, Structural)]
pub enum RepositoryError {
    /// The version is not in the `versions` file
    UnknownVersion,
    /// The repository URL has a scheme other than `https`, `http` or `file`
    UnsupportedScheme,
}

/// A repository directory.
#[derive(Debug)]
pub struct Repository {
    dir: String,
}

impl Repository {
    pub fn new(dir: String) -> (r: Repository)
        ensures
            r.spec_dir() == dir@,
    {
        Repository { dir }
    }

    pub closed spec fn spec_dir(&self) -> Seq<char> {
        self.dir@
    }

    pub fn dir(&self) -> (r: &str)
        ensures
            r@ == self.spec_dir(),
    {
        self.dir.as_str()
    }

    /// The index files of a new repository: no version, no package.
    pub fn init(&self) -> (r: (Versions, Packages))
        ensures
            r.0.spec_versions().len() == 0,
            r.1.spec_packages().len() == 0,
    {
        (Versions::V1 { versions: Vec::new() }, Packages::V1 { packages: Vec::new() })
    }

    /// The `current` file pointing at `version`, which must be listed in
    /// `versions`.
    pub fn set_current_version(&self, versions: &Versions, version: &CleanName) -> (r: Result<
        Current,
        RepositoryError,
    >)
        ensures
            match r {
                Ok(c) => c.spec_version() == version@ && exists|i: int|
                    0 <= i < versions.spec_versions().len()
                        && versions.spec_versions()[i].revision@ == version@ && (c matches Current::V1 {
                        current,
                    } && current.description@ == versions.spec_versions()[i].description@),
                Err(e) => e == RepositoryError::UnknownVersion && forall|i: int|
                    0 <= i < versions.spec_versions().len() ==> (
                    #[trigger] versions.spec_versions()[i]).revision@ != version@,
            },
    {
        match Current::from_versions(versions, version) {
            Some(c) => Ok(c),
            None => Err(RepositoryError::UnknownVersion),
        }
    }

    /// The `versions` file with `version` registered (or updated) last.
    pub fn register_version(&self, versions: &Versions, version: &Version) -> (r: Versions)
        ensures
            revisions(r.spec_versions()) == revisions(versions.spec_versions()).filter(
                |x: (Seq<char>, Seq<char>)| x.0 != version.revision@,
            ).push((version.revision@, version.description@)),
            r.spec_versions().last().description@ == version.description@,
    {
        versions.with_version(version)
    }

    /// The `versions` file without `revision`.
    pub fn unregister_version(&self, versions: &Versions, revision: &CleanName) -> (r: Versions)
        ensures
            revisions(r.spec_versions()) == revisions(versions.spec_versions()).filter(
                |x: (Seq<char>, Seq<char>)| x.0 != revision@,
            ),
    {
        versions.without_version(revision)
    }

    /// The `packages` file with `package` registered last, replacing any
    /// package on the same edge (they share its name and blob).
    pub fn register_package(&self, packages: &Packages, package: &Package) -> (r: Packages)
        ensures
            package_views(r.spec_packages()) == package_views(packages.spec_packages()).filter(
                |x: (Option<Seq<char>>, Seq<char>, u64)| !(x.0 == opt_name(package.from) && x.1 == package.to@),
            ).push(package_view(*package)),
    {
        packages.with_package(package)
    }

    /// The `packages` file without the packages on the edge of `package`.
    pub fn unregister_package(&self, packages: &Packages, package: &Package) -> (r: Packages)
        ensures
            package_views(r.spec_packages()) == package_views(packages.spec_packages()).filter(
                |x: (Option<Seq<char>>, Seq<char>, u64)| !(x.0 == opt_name(package.from) && x.1 == package.to@),
            ),
    {
        packages.without_package(package)
    }
}

/// `s` begins with `p`.
pub open spec fn starts_with(s: Seq<char>, p: Seq<char>) -> bool {
    p.len() <= s.len() && s.subrange(0, p.len() as int) == p
}

fn has_prefix(s: &str, p: &str) -> (r: bool)
    ensures
        r == starts_with(s@, p@),
{
    let n = s.unicode_len();
    let k = p.unicode_len();
    if k > n {
        return false;
    }
    s.substring_char(0, k).to_owned() == p.to_owned()
}

/// Where a repository is, as its URL tells.
#[derive(Debug)]
pub enum AutoRepository {
    /// Reached over HTTP(S), with optional basic authentication
    Https { url: String, auth: Option<(String, String)> },
    /// A local directory
    File { dir: String },
}

pub open spec fn chars_https() -> Seq<char> {
    seq!['h', 't', 't', 'p', 's', ':', '/', '/']
}

pub open spec fn chars_http() -> Seq<char> {
    seq!['h', 't', 't', 'p', ':', '/', '/']
}

pub open spec fn chars_file() -> Seq<char> {
    seq!['f', 'i', 'l', 'e', ':', '/', '/']
}

impl AutoRepository {
    /// The repository an URL names: `https://` and `http://` URLs are remote
    /// (with `auth` as user and password), `file://` ones name the directory
    /// that follows; any other scheme is refused.
    pub fn new(repository_url: &str, auth: Option<(&str, &str)>) -> (r: Result<
        AutoRepository,
        RepositoryError,
    >)
        ensures
            starts_with(repository_url@, chars_https()) || starts_with(repository_url@, chars_http())
                ==> (r matches Ok(AutoRepository::Https { url, auth: a }) && url@ == repository_url@
                && match (a, auth) {
                (Some(x), Some(y)) => x.0@ == y.0@ && x.1@ == y.1@,
                (None, None) => true,
                _ => false,
            }),
            !(starts_with(repository_url@, chars_https()) || starts_with(
                repository_url@,
                chars_http(),
            )) && starts_with(repository_url@, chars_file()) ==> (r matches Ok(
                AutoRepository::File { dir },
            ) && dir@ == repository_url@.subrange(7, repository_url@.len() as int)),
            !(starts_with(repository_url@, chars_https()) || starts_with(
                repository_url@,
                chars_http(),
            ) || starts_with(repository_url@, chars_file())) ==> r == Err::<
                AutoRepository,
                RepositoryError,
            >(RepositoryError::UnsupportedScheme),
    {
        let https = "https://";
        let http = "http://";
        let file = "file://";
        proof {
            reveal_strlit("https://");
            reveal_strlit("http://");
            reveal_strlit("file://");
            assert(https@ =~= chars_https());
            assert(http@ =~= chars_http());
            assert(file@ =~= chars_file());
        }
        if has_prefix(repository_url, https) || has_prefix(repository_url, http) {
            let auth = match auth {
                Some((user, password)) => Some((user.to_owned(), password.to_owned())),
                None => None,
            };
            return Ok(AutoRepository::Https { url: repository_url.to_owned(), auth });
        }
        if has_prefix(repository_url, file) {
            let n = repository_url.unicode_len();
            let dir = repository_url.substring_char(7, n).to_owned();
            return Ok(AutoRepository::File { dir });
        }
        Err(RepositoryError::UnsupportedScheme)
    }
}

} // verus!
