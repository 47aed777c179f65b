use crate::asset::{assets_view, Asset, AssetV};
use crate::error::GitHubApiError;
use crate::os::{compact_spec, OsKind};
use vstd::prelude::*;
use vstd::string::StrSliceExecFns;

verus! {

/// A parsed semantic version: the numeric triple a release tag denotes.
#[derive(Debug, Clone, Copy, PartialEq, Eq, Structural)]
pub struct SemVer {
    pub major: u64,
    pub minor: u64,
    pub patch: u64,
}

/// The semantic-version triple a text denotes, when the text is valid
/// semantic-version syntax.
pub uninterp spec fn semver_of(s: Seq<char>) -> Option<(u64, u64, u64)>;

/// Relies on semver::Version::parse: whether the text parses, and the numeric
/// triple it denotes, depend on the text alone.
#[verifier::external_body]
fn parse_semver(s: &str) -> (r: Option<SemVer>)
    ensures
        match r {
            Some(v) => semver_of(s@) == Some((v.major, v.minor, v.patch)),
            None => semver_of(s@) is None,
        },
{
    match semver::Version::parse(s) {
        Ok(v) => Some(SemVer { major: v.major, minor: v.minor, patch: v.patch }),
        Err(_) => None,
    }
}

/// The text with its first character removed; empty when the text has at
/// most one character.
pub open spec fn without_first_spec(s: Seq<char>) -> Seq<char> {
    if s.len() <= 1 {
        Seq::empty()
    } else {
        s.subrange(1, s.len() as int)
    }
}

/// Drops a version tag's leading marker character.
fn without_first(s: &str) -> (r: &str)
    ensures
        r@ == without_first_spec(s@),
{
    let n = s.unicode_len();
    if n <= 1 {
        let r = "";
        proof {
            reveal_strlit("");
            assert(r@ =~= without_first_spec(s@));
        }
        r
    } else {
        s.substring_char(1, n)
    }
}

/// One tagged publication: its exact version string (leading marker
/// included), its release timestamp, its prerelease flag, and its artifacts
/// keyed by OS bucket.
#[derive(Debug)]
pub struct Release {
    version: String,
    released_date: u64,
    releases_per_os: Vec<(OsKind, Asset)>,
    prerelease: bool,
}

/// The mathematical content of a release. The bucket-to-artifact mapping is
/// derived from the entry list by [`ReleaseV::per_os`].
pub ghost struct ReleaseV {
    pub version: Seq<char>,
    pub released_date: u64,
    pub entries: Seq<(OsKind, AssetV)>,
    pub prerelease: bool,
}

/// The views of OS-keyed artifact entries.
pub open spec fn entries_view(s: Seq<(OsKind, Asset)>) -> Seq<(OsKind, AssetV)> {
    s.map_values(|e: (OsKind, Asset)| (e.0, e.1@))
}

/// The artifact of each entry.
pub open spec fn entry_assets(s: Seq<(OsKind, AssetV)>) -> Seq<AssetV> {
    s.map_values(|e: (OsKind, AssetV)| e.1)
}

/// The bucket-to-artifact mapping an entry list builds up: at most one
/// artifact per bucket, a later entry overriding an earlier one with the
/// same bucket.
pub open spec fn os_map_of(s: Seq<(OsKind, AssetV)>) -> Map<OsKind, AssetV>
    decreases s.len(),
{
    if s.len() == 0 {
        Map::empty()
    } else {
        os_map_of(s.drop_last()).insert(s.last().0, s.last().1)
    }
}

impl ReleaseV {
    /// The bucket-to-artifact mapping of this release.
    pub open spec fn per_os(self) -> Map<OsKind, AssetV> {
        os_map_of(self.entries)
    }
}

impl View for Release {
    type V = ReleaseV;

    closed spec fn view(&self) -> ReleaseV {
        ReleaseV {
            version: self.version@,
            released_date: self.released_date,
            entries: entries_view(self.releases_per_os@),
            prerelease: self.prerelease,
        }
    }
}

/// A key's image in the built mapping is the artifact of its last entry.
proof fn lemma_os_map_last(s: Seq<(OsKind, AssetV)>, k: OsKind, i: int)
    requires
        0 <= i < s.len(),
        s[i].0 == k,
        forall|j: int| i < j < s.len() ==> (#[trigger] s[j]).0 != k,
    ensures
        os_map_of(s).contains_key(k),
        os_map_of(s)[k] == s[i].1,
    decreases s.len(),
{
    if i < s.len() - 1 {
        let sub = s.drop_last();
        assert forall|j: int| i < j < sub.len() implies (#[trigger] sub[j]).0 != k by {
            assert(sub[j] == s[j]);
        }
        lemma_os_map_last(sub, k, i);
    }
}

/// A key no entry names is absent from the built mapping.
proof fn lemma_os_map_absent(s: Seq<(OsKind, AssetV)>, k: OsKind)
    requires
        forall|j: int| 0 <= j < s.len() ==> (#[trigger] s[j]).0 != k,
    ensures
        !os_map_of(s).contains_key(k),
    decreases s.len(),
{
    if s.len() > 0 {
        let sub = s.drop_last();
        assert forall|j: int| 0 <= j < sub.len() implies (#[trigger] sub[j]).0 != k by {
            assert(sub[j] == s[j]);
        }
        lemma_os_map_absent(sub, k);
    }
}

impl Release {
    /// Builds a release from its version tag, timestamp, prerelease flag and
    /// OS-keyed artifacts.
    pub fn new(
        version: String,
        released_date: u64,
        prerelease: bool,
        releases_per_os: Vec<(OsKind, Asset)>,
    ) -> (r: Release)
        ensures
            r@.version == version@,
            r@.released_date == released_date,
            r@.prerelease == prerelease,
            r@.entries == entries_view(releases_per_os@),
    {
        Release { version, released_date, releases_per_os, prerelease }
    }

    /// The artifact this release offers for a host identifier: the entry of
    /// the identifier's coarse bucket, or `None` when the release has no
    /// build for that platform.
    pub fn get_release_for_os(&self, os_type: OsKind) -> (r: Option<Asset>)
        ensures
            match r {
                Some(a) => self@.per_os().contains_key(compact_spec(os_type)) && a@
                    == self@.per_os()[compact_spec(os_type)],
                None => !self@.per_os().contains_key(compact_spec(os_type)),
            },
    {
        let key = os_type.compact();
        let n = self.releases_per_os.len();
        let mut i: usize = n;
        while i > 0
            invariant
                n == self.releases_per_os@.len(),
                i <= n,
                key == compact_spec(os_type),
                forall|j: int|
                    i <= j < n ==> (#[trigger] entries_view(self.releases_per_os@)[j]).0 != key,
            decreases i,
        {
            i -= 1;
            if self.releases_per_os[i].0 == key {
                let a = self.releases_per_os[i].1.clone();
                proof {
                    lemma_os_map_last(entries_view(self.releases_per_os@), key, i as int);
                }
                return Some(a);
            }
        }
        proof {
            lemma_os_map_absent(entries_view(self.releases_per_os@), key);
        }
        None
    }

    /// The stored artifacts, one per entry, in stored order.
    pub fn assets(&self) -> (r: Vec<Asset>)
        ensures
            assets_view(r@) == entry_assets(self@.entries),
    {
        let mut r: Vec<Asset> = Vec::new();
        let n = self.releases_per_os.len();
        let mut i: usize = 0;
        while i < n
            invariant
                n == self.releases_per_os@.len(),
                i <= n,
                assets_view(r@) == entry_assets(entries_view(self.releases_per_os@)).take(i as int),
            decreases n - i,
        {
            let a = self.releases_per_os[i].1.clone();
            let ghost av = a@;
            let ghost old_r = r@;
            r.push(a);
            proof {
                let ghost ev = entry_assets(entries_view(self.releases_per_os@));
                assert(assets_view(old_r).len() == old_r.len());
                assert(old_r.len() == i);
                assert forall|t: int| 0 <= t < i + 1 implies assets_view(r@)[t] == ev.take(
                    i as int + 1,
                )[t] by {
                    if t < i {
                        assert(r@[t] == old_r[t]);
                        assert(assets_view(old_r)[t] == ev.take(i as int)[t]);
                    } else {
                        assert(assets_view(r@)[t] == av);
                        assert(ev[i as int] == entries_view(self.releases_per_os@)[i as int].1);
                    }
                }
                assert(assets_view(r@) =~= ev.take(i as int + 1));
            }
            i += 1;
        }
        proof {
            assert(entry_assets(entries_view(self.releases_per_os@)).take(n as int) =~= entry_assets(
                entries_view(self.releases_per_os@),
            ));
        }
        r
    }

    /// The stored OS-keyed artifact entries.
    pub fn releases_per_os(&self) -> (r: &Vec<(OsKind, Asset)>)
        ensures
            entries_view(r@) == self@.entries,
    {
        &self.releases_per_os
    }

    /// The release's exact version string, leading marker included.
    pub fn version_str(&self) -> (r: String)
        ensures
            r@ == self@.version,
    {
        self.version.clone()
    }

    /// The semantic version the tag denotes once its leading marker
    /// character is stripped; `None` when the remainder is not valid
    /// semantic-version syntax.
    pub fn version(&self) -> (r: Option<SemVer>)
        ensures
            match r {
                Some(v) => semver_of(without_first_spec(self@.version)) == Some(
                    (v.major, v.minor, v.patch),
                ),
                None => semver_of(without_first_spec(self@.version)) is None,
            },
    {
        parse_semver(without_first(self.version.as_str()))
    }

    /// When the release was published.
    pub fn released_date(&self) -> (r: u64)
        ensures
            r == self@.released_date,
    {
        self.released_date
    }

    /// Whether the release is marked as a prerelease.
    pub fn prerelease(&self) -> (r: bool)
        ensures
            r == self@.prerelease,
    {
        self.prerelease
    }
}

/// The views of the releases in a sequence.
pub open spec fn releases_view(s: Seq<Release>) -> Seq<ReleaseV> {
    s.map_values(|r: Release| r@)
}

/// The first release whose version string equals `ver` exactly — no
/// normalisation, no semantic comparison.
pub open spec fn find_release(vs: Seq<ReleaseV>, ver: Seq<char>) -> Option<ReleaseV>
    decreases vs.len(),
{
    if vs.len() == 0 {
        None
    } else if vs[0].version == ver {
        Some(vs[0])
    } else {
        find_release(vs.drop_first(), ver)
    }
}

proof fn lemma_find_release_hit(vs: Seq<ReleaseV>, ver: Seq<char>, i: int)
    requires
        0 <= i < vs.len(),
        vs[i].version == ver,
        forall|j: int| 0 <= j < i ==> (#[trigger] vs[j]).version != ver,
    ensures
        find_release(vs, ver) == Some(vs[i]),
    decreases vs.len(),
{
    if i > 0 {
        let sub = vs.drop_first();
        assert forall|j: int| 0 <= j < i - 1 implies (#[trigger] sub[j]).version != ver by {
            assert(sub[j] == vs[j + 1]);
        }
        lemma_find_release_hit(sub, ver, i - 1);
    }
}

proof fn lemma_find_release_miss(vs: Seq<ReleaseV>, ver: Seq<char>)
    requires
        forall|j: int| 0 <= j < vs.len() ==> (#[trigger] vs[j]).version != ver,
    ensures
        find_release(vs, ver) is None,
    decreases vs.len(),
{
    if vs.len() > 0 {
        let sub = vs.drop_first();
        assert forall|j: int| 0 <= j < sub.len() implies (#[trigger] sub[j]).version != ver by {
            assert(sub[j] == vs[j + 1]);
        }
        lemma_find_release_miss(sub, ver);
    }
}

/// Every known release, in the order the fetch delivered them.
pub struct CachedReleases {
    inner: Vec<Release>,
}

impl View for CachedReleases {
    type V = Seq<ReleaseV>;

    closed spec fn view(&self) -> Seq<ReleaseV> {
        releases_view(self.inner@)
    }
}

impl CachedReleases {
    pub fn new(inner: Vec<Release>) -> (r: CachedReleases)
        ensures
            r@ == releases_view(inner@),
    {
        CachedReleases { inner }
    }

    /// The stored releases, in the order they arrived.
    pub fn releases(&self) -> (r: &Vec<Release>)
        ensures
            releases_view(r@) == self@,
    {
        &self.inner
    }

    /// Resolves the artifact for a version string and a host identifier.
    ///
    /// Fails with `CannotFindReleaseWithVersion` when no release carries
    /// exactly that version string. Otherwise answers with the found
    /// release's artifact for the identifier's coarse bucket — `None`, not an
    /// error, when the release has no build for that platform.
    pub fn get_asset_for_os_by_version(&self, version: String, os_type: OsKind) -> (r: Result<
        Option<Asset>,
        GitHubApiError,
    >)
        ensures
            match find_release(self@, version@) {
                None => r matches Err(GitHubApiError::CannotFindReleaseWithVersion(v)) && v@
                    == version@,
                Some(rel) => match r {
                    Ok(Some(a)) => rel.per_os().contains_key(compact_spec(os_type)) && a@
                        == rel.per_os()[compact_spec(os_type)],
                    Ok(None) => !rel.per_os().contains_key(compact_spec(os_type)),
                    Err(_) => false,
                },
            },
    {
        let n = self.inner.len();
        let mut i: usize = 0;
        while i < n
            invariant
                n == self.inner@.len(),
                i <= n,
                forall|j: int|
                    0 <= j < i ==> (#[trigger] releases_view(self.inner@)[j]).version != version@,
            decreases n - i,
        {
            if self.inner[i].version == version {
                proof {
                    assert(releases_view(self.inner@)[i as int] == self.inner@[i as int]@);
                    lemma_find_release_hit(self@, version@, i as int);
                }
                return Ok(self.inner[i].get_release_for_os(os_type));
            }
            i += 1;
        }
        proof {
            lemma_find_release_miss(self@, version@);
        }
        Err(GitHubApiError::CannotFindReleaseWithVersion(version))
    }
}

} // verus!
