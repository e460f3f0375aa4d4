//! What the package registry knows of a package, and which of its versions
//! are candidates for an upgrade.

use crate::release::{release_views, Release, ReleaseView};
use crate::semver::{spec_format, spec_parse, Semver};
use crate::text::{lemma_lex_transitive, lex_lt, text_lt};
use vstd::prelude::*;

verus! {

/// Where a package's sources live.
#[derive(Debug, Clone, PartialEq, Eq)]
pub struct Repository {
    pub url: String,
    pub kind: String,
}

/// One published version of a package.
#[derive(Debug, Clone, PartialEq, Eq)]
pub struct NpmVersion {
    pub name: String,
    pub version: String,
    pub repository: Repository,
}

/// A package as the registry describes it. `versions` pairs each version
/// string with its entry, in the order of the version strings.
#[derive(Debug, Clone, PartialEq, Eq)]
pub struct NpmPackage {
    pub name: String,
    pub repository: Repository,
    pub versions: Vec<(String, NpmVersion)>,
}

/// The release that the version string `key` of the package `name` stands
/// for, if it is a candidate: it reads as a version that is a minor update of
/// `current` and does not come after `latest`.
pub open spec fn candidate(
    name: Seq<char>,
    url: Seq<char>,
    current: Semver,
    latest: Semver,
    key: Seq<char>,
) -> Option<ReleaseView> {
    match spec_parse(key) {
        Ok(v) => if v.spec_is_minor_update_of(current) && v.spec_le(latest) {
            Some(ReleaseView { package: name, semver: spec_format(v), repository_url: url })
        } else {
            None
        },
        Err(_) => None,
    }
}

/// The candidates among the version strings `keys`, in the order of `keys`.
pub open spec fn candidates(
    name: Seq<char>,
    url: Seq<char>,
    current: Semver,
    latest: Semver,
    keys: Seq<Seq<char>>,
) -> Seq<ReleaseView> {
    keys.filter_map(|key: Seq<char>| candidate(name, url, current, latest, key))
}

impl NpmPackage {
    /// The version strings of the package, in order.
    pub open spec fn version_keys(&self) -> Seq<Seq<char>> {
        self.versions@.map_values(|e: (String, NpmVersion)| e.0@)
    }

    /// No version string occurs twice, and each comes before the next.
    pub open spec fn wf(&self) -> bool {
        forall|i: int, j: int|
            0 <= i < j < self.versions@.len() ==> lex_lt(
                #[trigger] self.version_keys()[i],
                #[trigger] self.version_keys()[j],
            )
    }

    /// A package with the given versions, if their strings stand in
    /// strictly rising order.
    pub fn new(name: String, repository: Repository, versions: Vec<(String, NpmVersion)>) -> (r:
        Option<NpmPackage>)
        ensures
            r == if (NpmPackage { name, repository, versions }).wf() {
                Some(NpmPackage { name, repository, versions })
            } else {
                None
            },
    {
        let package = NpmPackage { name, repository, versions };
        let ghost keys = package.version_keys();
        let mut i: usize = 1;
        while i < package.versions.len()
            invariant
                1 <= i,
                package == (NpmPackage { name, repository, versions }),
                keys == package.version_keys(),
                forall|a: int, b: int| 0 <= a < b < i && b < keys.len() ==> lex_lt(keys[a], keys[b]),
            decreases package.versions.len() - i,
        {
            if !text_lt(package.versions[i - 1].0.as_str(), package.versions[i].0.as_str()) {
                proof {
                    let all = package.version_keys();
                    assert(all[i - 1] == package.versions@[i - 1].0@);
                    assert(all[i as int] == package.versions@[i as int].0@);
                    assert(!lex_lt(all[i - 1], all[i as int]));
                }
                return None;
            }
            proof {
                assert forall|a: int, b: int| 0 <= a < b < i + 1 && b < keys.len() implies lex_lt(
                    keys[a],
                    keys[b],
                ) by {
                    if b == i && a < i - 1 {
                        lemma_lex_transitive(keys[a], keys[i - 1], keys[i as int]);
                    }
                }
            }
            i += 1;
        }
        Some(package)
    }

    /// The version strings of the package, in order.
    pub fn iter_versions(&self) -> (keys: Vec<&String>)
        ensures
            keys@.map_values(|k: &String| k@) == self.version_keys(),
    {
        let mut keys: Vec<&String> = Vec::new();
        let mut i: usize = 0;
        while i < self.versions.len()
            invariant
                i <= self.versions.len(),
                keys@.map_values(|k: &String| k@) == self.version_keys().take(i as int),
            decreases self.versions.len() - i,
        {
            let ghost before = keys@;
            keys.push(&self.versions[i].0);
            proof {
                assert(keys@.map_values(|k: &String| k@) =~= before.map_values(|k: &String| k@).push(
                    self.versions@[i as int].0@,
                ));
                assert(self.version_keys().take(i + 1) =~= self.version_keys().take(i as int).push(
                    self.versions@[i as int].0@,
                ));
            }
            i += 1;
        }
        assert(self.version_keys().take(i as int) == self.version_keys());
        keys
    }

    /// The releases of this package that are minor updates of `current` and
    /// do not come after `latest`, in the order of the version strings. Each
    /// carries the package's name and repository, and its version written
    /// anew.
    pub fn fetch_releases(&self, current: Semver, latest: Semver) -> (releases: Vec<Release>)
        ensures
            release_views(releases@) == candidates(
                self.name@,
                self.repository.url@,
                current,
                latest,
                self.version_keys(),
            ),
    {
        let keys = self.iter_versions();
        let ghost all = self.version_keys();
        let ghost pick = |key: Seq<char>|
            candidate(self.name@, self.repository.url@, current, latest, key);
        let mut releases: Vec<Release> = Vec::new();
        let mut i: usize = 0;
        assert(all.take(0).filter_map(pick) =~= Seq::<ReleaseView>::empty());
        while i < keys.len()
            invariant
                i <= keys.len(),
                keys@.map_values(|k: &String| k@) == all,
                pick == |key: Seq<char>|
                    candidate(self.name@, self.repository.url@, current, latest, key),
                release_views(releases@) == all.take(i as int).filter_map(pick),
            decreases keys.len() - i,
        {
            let key: &String = keys[i];
            assert(all[i as int] == key@);
            proof {
                all.lemma_filter_map_take_succ(pick, i as int);
            }
            let ghost before = releases@;
            match Semver::parse(key.as_str()) {
                Ok(v) => {
                    if v.is_minor_update_of(&current) && v.is_at_most(&latest) {
                        let release = Release {
                            package: self.name.clone(),
                            semver: v.to_string(),
                            repository_url: self.repository.url.clone(),
                        };
                        releases.push(release);
                        assert(release_views(releases@) =~= release_views(before).push(release@));
                    }
                },
                Err(_) => {},
            }
            assert(release_views(releases@) =~= all.take(i + 1).filter_map(pick));
            i += 1;
        }
        assert(all.take(i as int) == all);
        releases
    }
}

} // verus!
