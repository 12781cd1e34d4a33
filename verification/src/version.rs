//! The changes to apply to a telemetry schema for its different versions:
//! renamings of attributes and metrics, how a schema's versions take over
//! those of its parent schema, and the renamings in force at a version.
use vstd::prelude::*;
use crate::text_map::{TextMap, pairs_map, keys_unique, lemma_pairs_map_push};

verus! {

/// A map from old names to new names.
pub type RenameMap = Map<Seq<char>, Seq<char>>;

/// What `semver::Version::parse` reads from a text: major, minor and patch
/// numbers, pre-release and build metadata, or `None` when the text is not a
/// semantic version.
pub uninterp spec fn semver_parse(s: Seq<char>) -> Option<(u64, u64, u64, Seq<char>, Seq<char>)>;

/// Calls `semver::Version::parse`. Claims only that the components handed back
/// are those that `semver_parse` names for the text, and that an error comes
/// exactly when `semver_parse` gives `None`.
#[verifier::external_body]
fn parse_semver(s: &str) -> (r: Result<(u64, u64, u64, String, String), String>)
    ensures
        match r {
            Ok(t) => semver_parse(s@) == Some((t.0, t.1, t.2, t.3@, t.4@)),
            Err(_) => semver_parse(s@) is None,
        },
{
    match semver::Version::parse(s) {
        Ok(v) => Ok((v.major, v.minor, v.patch, v.pre.as_str().to_string(), v.build.as_str().to_string())),
        Err(e) => Err(e.to_string()),
    }
}

/// An error that can occur while loading or resolving version changes.
pub enum Error {
    /// The `versions` file was not found.
    VersionsNotFound {
        /// The path or URL of the `versions` file.
        path_or_url: String,
        /// The error that occurred.
        error: String,
    },
    /// The `versions` file is invalid.
    InvalidVersions {
        /// The path or URL of the `versions` file.
        path_or_url: String,
        /// The line number where the error occurred.
        line: Option<usize>,
        /// The column number where the error occurred.
        column: Option<usize>,
        /// The error that occurred.
        error: String,
    },
    /// A version is not a semantic version, or carries a pre-release or
    /// build part, which versions of a schema do not take.
    InvalidVersion {
        /// The text of the version.
        version: String,
        /// The reason.
        error: String,
    },
}

/// A schema version: major, minor and patch numbers.
#[derive(Clone, Copy, Debug, PartialEq, Eq, Structural, Hash, PartialOrd, Ord)]
pub struct Version {
    /// The major number.
    pub major: u64,
    /// The minor number.
    pub minor: u64,
    /// The patch number.
    pub patch: u64,
}

/// `a` comes strictly before `b` (semantic version precedence).
pub open spec fn version_lt(a: Version, b: Version) -> bool {
    ||| a.major < b.major
    ||| a.major == b.major && a.minor < b.minor
    ||| a.major == b.major && a.minor == b.minor && a.patch < b.patch
}

impl Version {
    /// Parses a version written `major.minor.patch`.
    pub fn parse(s: &str) -> (r: Result<Version, Error>)
        ensures
            match semver_parse(s@) {
                Some(t) => if t.3.len() == 0 && t.4.len() == 0 {
                    r == Ok::<Version, Error>(Version { major: t.0, minor: t.1, patch: t.2 })
                } else {
                    r matches Err(Error::InvalidVersion { version, .. }) && version@ == s@
                },
                None => r matches Err(Error::InvalidVersion { version, .. }) && version@ == s@,
            },
    {
        match parse_semver(s) {
            Ok((major, minor, patch, pre, build)) => {
                if pre.as_str().unicode_len() == 0 && build.as_str().unicode_len() == 0 {
                    Ok(Version { major, minor, patch })
                } else {
                    Err(Error::InvalidVersion {
                        version: s.to_owned(),
                        error: "pre-release and build parts are not taken".to_owned(),
                    })
                }
            },
            Err(e) => Err(Error::InvalidVersion { version: s.to_owned(), error: e }),
        }
    }

    /// Strict precedence between two versions.
    pub fn lt(&self, other: &Version) -> (r: bool)
        ensures
            r == version_lt(*self, *other),
    {
        self.major < other.major || (self.major == other.major && (self.minor < other.minor || (
        self.minor == other.minor && self.patch < other.patch)))
    }

    /// Equality of two versions.
    pub fn same(&self, other: &Version) -> (r: bool)
        ensures
            r == (*self == *other),
    {
        self.major == other.major && self.minor == other.minor && self.patch == other.patch
    }
}

/// A change holding a map of renamings.
pub trait RenameChange: Sized {
    /// The renamings, old name to new name.
    spec fn renames(&self) -> RenameMap;

    /// The map of renamings.
    fn rename_map(&self) -> (r: &TextMap)
        ensures
            r@ == self.renames(),
    ;

    /// A change made of the given renamings.
    fn from_renames(m: TextMap) -> (r: Self)
        ensures
            r.renames() == m@,
    ;
}

/// The renamings of a sequence of changes.
pub open spec fn change_maps<C: RenameChange>(cs: Seq<C>) -> Seq<RenameMap> {
    cs.map_values(|c: C| c.renames())
}

/// The renamings of an optional sequence of changes.
pub open spec fn opt_change_maps<C: RenameChange>(o: Option<Vec<C>>) -> Option<Seq<RenameMap>> {
    match o {
        Some(v) => Some(change_maps(v@)),
        None => None,
    }
}

/// The changes of an optional sequence, none where it is absent.
pub open spec fn base_maps(o: Option<Seq<RenameMap>>) -> Seq<RenameMap> {
    match o {
        Some(l) => l,
        None => Seq::empty(),
    }
}

/// A collection of attribute renamings.
pub struct RenameAttributes {
    /// Old attribute name to new attribute name.
    pub attribute_map: TextMap,
}

/// Changes to apply to the resource attributes for a specific version.
pub struct ResourceChange {
    /// The attribute renamings.
    pub rename_attributes: RenameAttributes,
}

/// Changes to apply to the log attributes for a specific version.
pub struct LogsChange {
    /// The attribute renamings.
    pub rename_attributes: RenameAttributes,
}

/// Changes to apply to the span attributes for a specific version.
pub struct SpansChange {
    /// The attribute renamings.
    pub rename_attributes: RenameAttributes,
}

/// Changes to apply to the metrics for a specific version.
pub struct MetricsChange {
    /// A collection of rename operations to apply to the metric names.
    pub rename_metrics: TextMap,
}

impl RenameChange for ResourceChange {
    open spec fn renames(&self) -> RenameMap {
        self.rename_attributes.attribute_map@
    }

    fn rename_map(&self) -> (r: &TextMap) {
        &self.rename_attributes.attribute_map
    }

    fn from_renames(m: TextMap) -> (r: Self) {
        ResourceChange { rename_attributes: RenameAttributes { attribute_map: m } }
    }
}

impl RenameChange for LogsChange {
    open spec fn renames(&self) -> RenameMap {
        self.rename_attributes.attribute_map@
    }

    fn rename_map(&self) -> (r: &TextMap) {
        &self.rename_attributes.attribute_map
    }

    fn from_renames(m: TextMap) -> (r: Self) {
        LogsChange { rename_attributes: RenameAttributes { attribute_map: m } }
    }
}

impl RenameChange for SpansChange {
    open spec fn renames(&self) -> RenameMap {
        self.rename_attributes.attribute_map@
    }

    fn rename_map(&self) -> (r: &TextMap) {
        &self.rename_attributes.attribute_map
    }

    fn from_renames(m: TextMap) -> (r: Self) {
        SpansChange { rename_attributes: RenameAttributes { attribute_map: m } }
    }
}

impl RenameChange for MetricsChange {
    open spec fn renames(&self) -> RenameMap {
        self.rename_metrics@
    }

    fn rename_map(&self) -> (r: &TextMap) {
        &self.rename_metrics
    }

    fn from_renames(m: TextMap) -> (r: Self) {
        MetricsChange { rename_metrics: m }
    }
}

impl MetricsChange {
    /// A change with no renaming.
    pub fn new() -> (r: MetricsChange)
        ensures
            r.renames() == Map::<Seq<char>, Seq<char>>::empty(),
    {
        MetricsChange { rename_metrics: TextMap::new() }
    }
}

/// Changes to apply to the resources for a specific version.
pub struct ResourceVersion {
    /// The changes, in order.
    pub changes: Vec<ResourceChange>,
}

/// Changes to apply to the logs for a specific version.
pub struct LogsVersion {
    /// Changes to apply to the logs for a specific version.
    pub changes: Vec<LogsChange>,
}

/// Changes to apply to the spans for a specific version.
pub struct SpansVersion {
    /// Changes to apply to the spans for a specific version.
    pub changes: Vec<SpansChange>,
}

/// Changes to apply to the metrics for a specific version.
pub struct MetricsVersion {
    /// Changes to apply to the metrics for a specific version.
    pub changes: Vec<MetricsChange>,
}

/// The renamings of a version, each category as the sequence of its
/// changes' maps (`None` where the category is absent).
pub struct VersionSpecView {
    /// Metric renamings.
    pub metrics: Option<Seq<RenameMap>>,
    /// Log attribute renamings.
    pub logs: Option<Seq<RenameMap>>,
    /// Span attribute renamings.
    pub spans: Option<Seq<RenameMap>>,
    /// Resource attribute renamings.
    pub resources: Option<Seq<RenameMap>>,
}

/// The kinds of renamings.
#[derive(Clone, Copy, Debug, PartialEq, Eq, Structural)]
pub enum Category {
    /// Renamings of resource attributes.
    Resources,
    /// Renamings of metrics.
    Metrics,
    /// Renamings of log attributes.
    Logs,
    /// Renamings of span attributes.
    Spans,
}

impl VersionSpecView {
    /// The changes of one category.
    pub open spec fn category(self, c: Category) -> Option<Seq<RenameMap>> {
        match c {
            Category::Resources => self.resources,
            Category::Metrics => self.metrics,
            Category::Logs => self.logs,
            Category::Spans => self.spans,
        }
    }

    /// The changes of one category, none where it is absent.
    pub open spec fn maps(self, c: Category) -> Seq<RenameMap> {
        match self.category(c) {
            Some(s) => s,
            None => Seq::empty(),
        }
    }
}

/// An history of changes to apply to the schema for different versions.
pub struct VersionSpec {
    /// The changes to apply to the metrics specification for a specific version.
    pub metrics: Option<MetricsVersion>,
    /// The changes to apply to the logs specification for a specific version.
    pub logs: Option<LogsVersion>,
    /// The changes to apply to the spans specification for a specific version.
    pub spans: Option<SpansVersion>,
    /// The changes to apply to the resource specification for a specific version.
    pub resources: Option<ResourceVersion>,
}

impl View for VersionSpec {
    type V = VersionSpecView;

    open spec fn view(&self) -> VersionSpecView {
        VersionSpecView {
            metrics: match self.metrics {
                Some(m) => Some(change_maps(m.changes@)),
                None => None,
            },
            logs: match self.logs {
                Some(m) => Some(change_maps(m.changes@)),
                None => None,
            },
            spans: match self.spans {
                Some(m) => Some(change_maps(m.changes@)),
                None => None,
            },
            resources: match self.resources {
                Some(m) => Some(change_maps(m.changes@)),
                None => None,
            },
        }
    }
}

/// Every old name that some of the changes renames.
pub open spec fn renamed_keys(maps: Seq<RenameMap>) -> Set<Seq<char>> {
    Set::new(|k: Seq<char>| exists|i: int| 0 <= i < maps.len() && #[trigger] maps[i].contains_key(k))
}

/// The renamings of the parent's changes whose old name is not in `excluded`,
/// a later change overriding an earlier one.
pub open spec fn added_renames(parent: Seq<RenameMap>, excluded: Set<Seq<char>>) -> RenameMap
    decreases parent.len(),
{
    if parent.len() == 0 {
        Map::empty()
    } else {
        added_renames(parent.drop_last(), excluded).union_prefer_right(
            parent.last().remove_keys(excluded),
        )
    }
}

/// A category of changes after taking over the parent's changes: the parent's
/// renamings of names that no local change renames are gathered into one
/// more change, appended when it renames anything.
pub open spec fn extend_category(local: Option<Seq<RenameMap>>, parent: Option<Seq<RenameMap>>) -> Option<
    Seq<RenameMap>,
> {
    match parent {
        None => local,
        Some(p) => {
            let base = base_maps(local);
            let added = added_renames(p, renamed_keys(base));
            if added.len() > 0 {
                Some(base.push(added))
            } else {
                local
            }
        },
    }
}

/// A version's changes after taking over those of the parent's same version.
pub open spec fn extend_spec(local: VersionSpecView, parent: VersionSpecView) -> VersionSpecView {
    VersionSpecView {
        metrics: extend_category(local.metrics, parent.metrics),
        logs: extend_category(local.logs, parent.logs),
        spans: extend_category(local.spans, parent.spans),
        resources: extend_category(local.resources, parent.resources),
    }
}

/// Whether some local change renames `key`.
fn renamed_locally<C: RenameChange>(local: &Option<Vec<C>>, key: &String) -> (r: bool)
    ensures
        r == renamed_keys(base_maps(opt_change_maps(*local))).contains(key@),
{
    match local {
        None => false,
        Some(changes) => {
            assert(base_maps(opt_change_maps(*local)) == change_maps(changes@));
            let mut i: usize = 0;
            while i < changes.len()
                invariant
                    i <= changes@.len(),
                    forall|j: int| 0 <= j < i ==> !(#[trigger] changes@[j].renames()).contains_key(key@),
                    base_maps(opt_change_maps(*local)) == change_maps(changes@),
                decreases changes@.len() - i,
            {
                let k: &str = key.as_str();
                if changes[i].rename_map().contains_key(k) {
                    proof {
                        assert(change_maps(changes@)[i as int].contains_key(key@));
                        assert(renamed_keys(change_maps(changes@)).contains(key@));
                        assert(renamed_keys(base_maps(opt_change_maps(*local))).contains(key@));
                    }
                    return true;
                }
                i = i + 1;
            }
            proof {
                assert forall|j: int| 0 <= j < change_maps(changes@).len() implies !(#[trigger] change_maps(
                    changes@,
                )[j]).contains_key(key@) by {
                    assert(change_maps(changes@)[j] == changes@[j].renames());
                }
            }
            false
        },
    }
}

/// Takes over the parent's changes of one category.
fn extend_changes<C: RenameChange>(local: Option<Vec<C>>, parent: Option<Vec<C>>) -> (r: Option<Vec<C>>)
    ensures
        opt_change_maps(r) == extend_category(opt_change_maps(local), opt_change_maps(parent)),
{
    match parent {
        None => local,
        Some(pchanges) => {
            let ghost base = base_maps(opt_change_maps(local));
            let ghost excluded = renamed_keys(base);
            let ghost pmaps = change_maps(pchanges@);
            let mut added = TextMap::new();
            let mut i: usize = 0;
            while i < pchanges.len()
                invariant
                    i <= pchanges@.len(),
                    pmaps == change_maps(pchanges@),
                    excluded == renamed_keys(base),
                    base == base_maps(opt_change_maps(local)),
                    added@ == added_renames(pmaps.subrange(0, i as int), excluded),
                decreases pchanges@.len() - i,
            {
                let m = pchanges[i].rename_map();
                let n = m.len();
                let ghost start = added@;
                let mut j: usize = 0;
                while j < n
                    invariant
                        j <= n,
                        n == m.entries().len(),
                        keys_unique(m.entries()),
                        m@ == pairs_map(m.entries()),
                        excluded == renamed_keys(base),
                        base == base_maps(opt_change_maps(local)),
                        added@ == start.union_prefer_right(
                            pairs_map(m.entries().subrange(0, j as int)).remove_keys(excluded),
                        ),
                    decreases n - j,
                {
                    let (old, new) = m.pair_at(j);
                    let skip = renamed_locally(&local, old);
                    proof {
                        let e = m.entries();
                        assert(e.subrange(0, j + 1).drop_last() == e.subrange(0, j as int));
                        assert(e.subrange(0, j + 1).last() == e[j as int]);
                    }
                    if !skip {
                        added.insert(old.clone(), new.clone());
                    }
                    proof {
                        let e = m.entries();
                        assert(added@ =~= start.union_prefer_right(
                            pairs_map(e.subrange(0, j + 1)).remove_keys(excluded),
                        ));
                    }
                    j = j + 1;
                }
                proof {
                    assert(m.entries().subrange(0, n as int) == m.entries());
                    assert(pmaps.subrange(0, i + 1).drop_last() == pmaps.subrange(0, i as int));
                    assert(pmaps[i as int] == m@);
                }
                i = i + 1;
            }
            proof {
                assert(pmaps.subrange(0, pchanges@.len() as int) == pmaps);
            }
            if added.len() > 0 {
                let change = C::from_renames(added);
                match local {
                    Some(mut v) => {
                        v.push(change);
                        proof {
                            assert(change_maps(v@) =~= base.push(change.renames()));
                        }
                        Some(v)
                    },
                    None => {
                        let mut v: Vec<C> = Vec::new();
                        v.push(change);
                        proof {
                            assert(change_maps(v@) =~= base.push(change.renames()));
                        }
                        Some(v)
                    },
                }
            } else {
                local
            }
        },
    }
}

impl VersionSpec {
    /// Update the current `VersionSpec` to include the transformations of the parent `VersionSpec`.
    /// Transformations of the current `VersionSpec` take precedence over the parent `VersionSpec`.
    pub fn extend(&mut self, parent_spec: VersionSpec)
        ensures
            final(self)@ == extend_spec(old(self)@, parent_spec@),
    {
        let VersionSpec { metrics, logs, spans, resources } = parent_spec;

        let local = match self.resources.take() {
            Some(v) => Some(v.changes),
            None => None,
        };
        let parent = match resources {
            Some(v) => Some(v.changes),
            None => None,
        };
        self.resources = match extend_changes(local, parent) {
            Some(changes) => Some(ResourceVersion { changes }),
            None => None,
        };

        let local = match self.metrics.take() {
            Some(v) => Some(v.changes),
            None => None,
        };
        let parent = match metrics {
            Some(v) => Some(v.changes),
            None => None,
        };
        self.metrics = match extend_changes(local, parent) {
            Some(changes) => Some(MetricsVersion { changes }),
            None => None,
        };

        let local = match self.logs.take() {
            Some(v) => Some(v.changes),
            None => None,
        };
        let parent = match logs {
            Some(v) => Some(v.changes),
            None => None,
        };
        self.logs = match extend_changes(local, parent) {
            Some(changes) => Some(LogsVersion { changes }),
            None => None,
        };

        let local = match self.spans.take() {
            Some(v) => Some(v.changes),
            None => None,
        };
        let parent = match spans {
            Some(v) => Some(v.changes),
            None => None,
        };
        self.spans = match extend_changes(local, parent) {
            Some(changes) => Some(SpansVersion { changes }),
            None => None,
        };
    }
}

/// Items ordered by strictly increasing version.
pub open spec fn sorted_versions(s: Seq<(Version, VersionSpec)>) -> bool {
    forall|i: int, j: int| 0 <= i < j < s.len() ==> version_lt(#[trigger] s[i].0, #[trigger] s[j].0)
}

/// Some item has version `k`.
pub open spec fn has_version(s: Seq<(Version, VersionSpec)>, k: Version) -> bool {
    exists|i: int| 0 <= i < s.len() && #[trigger] s[i].0 == k
}

/// The map from version to changes that a sequence of items denotes.
pub open spec fn versions_map(s: Seq<(Version, VersionSpec)>) -> Map<Version, VersionSpecView> {
    Map::new(
        |k: Version| has_version(s, k),
        |k: Version| s[choose|i: int| 0 <= i < s.len() && #[trigger] s[i].0 == k].1@,
    )
}

proof fn lemma_versions_map_at(s: Seq<(Version, VersionSpec)>, i: int)
    requires
        sorted_versions(s),
        0 <= i < s.len(),
    ensures
        versions_map(s).contains_key(s[i].0),
        versions_map(s)[s[i].0] == s[i].1@,
{
    assert(has_version(s, s[i].0));
    let j = choose|j: int| 0 <= j < s.len() && #[trigger] s[j].0 == s[i].0;
    if j < i {
        assert(version_lt(s[j].0, s[i].0));
    } else if i < j {
        assert(version_lt(s[i].0, s[j].0));
    }
}

proof fn lemma_versions_map_update(s: Seq<(Version, VersionSpec)>, i: int, e: (Version, VersionSpec))
    requires
        sorted_versions(s),
        0 <= i < s.len(),
        e.0 == s[i].0,
    ensures
        sorted_versions(s.update(i, e)),
        versions_map(s.update(i, e)) == versions_map(s).insert(e.0, e.1@),
{
    let t = s.update(i, e);
    assert(sorted_versions(t)) by {
        assert forall|a: int, b: int| 0 <= a < b < t.len() implies version_lt(
            #[trigger] t[a].0,
            #[trigger] t[b].0,
        ) by {
            assert(version_lt(s[a].0, s[b].0));
        }
    }
    assert forall|k: Version| #![auto] has_version(t, k) == (has_version(s, k) || k == e.0) by {
        if has_version(s, k) {
            let j = choose|j: int| 0 <= j < s.len() && #[trigger] s[j].0 == k;
            assert(t[j].0 == k);
        }
        if has_version(t, k) {
            let j = choose|j: int| 0 <= j < t.len() && #[trigger] t[j].0 == k;
            assert(s[j].0 == k);
        }
        if k == e.0 {
            assert(t[i].0 == k);
        }
    }
    assert forall|k: Version| #[trigger] versions_map(t).contains_key(k) implies versions_map(t)[k]
        == versions_map(s).insert(e.0, e.1@)[k] by {
        let j = choose|j: int| 0 <= j < t.len() && #[trigger] t[j].0 == k;
        lemma_versions_map_at(t, j);
        if j != i {
            lemma_versions_map_at(s, j);
            assert(s[j] == t[j]);
        }
    }
    assert(versions_map(t) =~= versions_map(s).insert(e.0, e.1@));
}

proof fn lemma_versions_map_insert(s: Seq<(Version, VersionSpec)>, pos: int, e: (Version, VersionSpec))
    requires
        sorted_versions(s),
        0 <= pos <= s.len(),
        forall|j: int| 0 <= j < pos ==> version_lt(#[trigger] s[j].0, e.0),
        forall|j: int| pos <= j < s.len() ==> version_lt(e.0, #[trigger] s[j].0),
    ensures
        sorted_versions(s.insert(pos, e)),
        versions_map(s.insert(pos, e)) == versions_map(s).insert(e.0, e.1@),
{
    let t = s.insert(pos, e);
    assert(sorted_versions(t)) by {
        assert forall|a: int, b: int| 0 <= a < b < t.len() implies version_lt(
            #[trigger] t[a].0,
            #[trigger] t[b].0,
        ) by {
            if b < pos {
                assert(version_lt(s[a].0, s[b].0));
            } else if b == pos {
                assert(version_lt(s[a].0, e.0));
            } else if a < pos {
                assert(version_lt(s[a].0, s[b - 1].0));
            } else if a == pos {
                assert(version_lt(e.0, s[b - 1].0));
            } else {
                assert(version_lt(s[a - 1].0, s[b - 1].0));
            }
        }
    }
    assert forall|k: Version| #![auto] has_version(t, k) == (has_version(s, k) || k == e.0) by {
        if has_version(s, k) {
            let j = choose|j: int| 0 <= j < s.len() && #[trigger] s[j].0 == k;
            if j < pos {
                assert(t[j].0 == k);
            } else {
                assert(t[j + 1].0 == k);
            }
        }
        if has_version(t, k) {
            let j = choose|j: int| 0 <= j < t.len() && #[trigger] t[j].0 == k;
            if j < pos {
                assert(s[j].0 == k);
            } else if j > pos {
                assert(s[j - 1].0 == k);
            }
        }
        if k == e.0 {
            assert(t[pos].0 == k);
        }
    }
    assert forall|k: Version| #[trigger] versions_map(t).contains_key(k) implies versions_map(t)[k]
        == versions_map(s).insert(e.0, e.1@)[k] by {
        let j = choose|j: int| 0 <= j < t.len() && #[trigger] t[j].0 == k;
        lemma_versions_map_at(t, j);
        if j < pos {
            lemma_versions_map_at(s, j);
        } else if j > pos {
            lemma_versions_map_at(s, j - 1);
        }
    }
    assert(versions_map(t) =~= versions_map(s).insert(e.0, e.1@));
}

/// The first `k` items come before `v`, the others do not.
pub open spec fn split_below(s: Seq<(Version, VersionSpec)>, v: Version, k: int) -> bool {
    &&& 0 <= k <= s.len()
    &&& forall|i: int| 0 <= i < k ==> version_lt(#[trigger] s[i].0, v)
    &&& forall|i: int| k <= i < s.len() ==> !version_lt(#[trigger] s[i].0, v)
}

/// The first `k` items are at most `v`, the others come after it.
pub open spec fn split_upto(s: Seq<(Version, VersionSpec)>, v: Version, k: int) -> bool {
    &&& 0 <= k <= s.len()
    &&& forall|i: int| 0 <= i < k ==> !version_lt(v, #[trigger] s[i].0)
    &&& forall|i: int| k <= i < s.len() ==> version_lt(v, #[trigger] s[i].0)
}

/// Where a version stands among sorted items: `Ok` with its index when it is
/// there, else `Err` with the index at which it would be inserted.
fn locate(s: &Vec<(Version, VersionSpec)>, v: &Version) -> (r: Result<usize, usize>)
    requires
        sorted_versions(s@),
    ensures
        match r {
            Ok(i) => i < s@.len() && s@[i as int].0 == *v,
            Err(p) => p <= s@.len() && (forall|j: int| 0 <= j < p ==> version_lt(#[trigger] s@[j].0, *v))
                && (forall|j: int| p <= j < s@.len() ==> version_lt(*v, #[trigger] s@[j].0)),
        },
{
    let mut i: usize = 0;
    while i < s.len()
        invariant
            i <= s@.len(),
            sorted_versions(s@),
            forall|j: int| 0 <= j < i ==> version_lt(#[trigger] s@[j].0, *v),
        decreases s@.len() - i,
    {
        if s[i].0.same(v) {
            return Ok(i);
        }
        if v.lt(&s[i].0) {
            proof {
                assert forall|j: int| i <= j < s@.len() implies version_lt(*v, #[trigger] s@[j].0) by {
                    if j > i {
                        assert(version_lt(s@[i as int].0, s@[j].0));
                    }
                }
            }
            return Err(i);
        }
        i = i + 1;
    }
    Err(i)
}

/// Versions of `a` and `b` together; where both have a version, `a`'s changes
/// take over `b`'s.
pub open spec fn merge_versions(a: Map<Version, VersionSpecView>, b: Map<Version, VersionSpecView>) -> Map<
    Version,
    VersionSpecView,
> {
    Map::new(
        |k: Version| a.contains_key(k) || b.contains_key(k),
        |k: Version|
            if a.contains_key(k) && b.contains_key(k) {
                extend_spec(a[k], b[k])
            } else if a.contains_key(k) {
                a[k]
            } else {
                b[k]
            },
    )
}

/// List of versions with their changes.
pub struct Versions {
    versions: Vec<(Version, VersionSpec)>,
}

impl View for Versions {
    type V = Map<Version, VersionSpecView>;

    open spec fn view(&self) -> Map<Version, VersionSpecView> {
        versions_map(self.items())
    }
}

impl Versions {
    /// The versions with their changes, by increasing version.
    pub closed spec fn items(&self) -> Seq<(Version, VersionSpec)> {
        self.versions@
    }

    #[verifier::type_invariant]
    closed spec fn ordered(&self) -> bool {
        sorted_versions(self.versions@)
    }

    /// No version.
    pub fn new() -> (r: Versions)
        ensures
            r.items().len() == 0,
            r@ == Map::<Version, VersionSpecView>::empty(),
    {
        let r = Versions { versions: Vec::new() };
        proof {
            assert(r@ =~= Map::<Version, VersionSpecView>::empty());
        }
        r
    }

    /// The items are ordered by strictly increasing version, and make up the map.
    pub fn len(&self) -> (r: usize)
        ensures
            r == self.items().len(),
            sorted_versions(self.items()),
            forall|i: int| 0 <= i < self.items().len() ==> self@.contains_key(#[trigger] self.items()[i].0)
                && self@[self.items()[i].0] == self.items()[i].1@,
            forall|k: Version| #[trigger] self@.contains_key(k) ==> has_version(self.items(), k),
    {
        proof {
            use_type_invariant(self);
            assert forall|i: int| 0 <= i < self.items().len() implies self@.contains_key(
                #[trigger] self.items()[i].0,
            ) && self@[self.items()[i].0] == self.items()[i].1@ by {
                lemma_versions_map_at(self.versions@, i);
            }
        }
        self.versions.len()
    }

    /// Sets the changes of a version, replacing any previous changes for it.
    pub fn insert(&mut self, version: Version, spec: VersionSpec)
        ensures
            final(self)@ == old(self)@.insert(version, spec@),
    {
        proof {
            use_type_invariant(&*self);
        }
        let mut items: Vec<(Version, VersionSpec)> = Vec::new();
        std::mem::swap(&mut items, &mut self.versions);
        match locate(&items, &version) {
            Ok(i) => {
                proof {
                    lemma_versions_map_update(items@, i as int, (version, spec));
                }
                items.set(i, (version, spec));
            },
            Err(p) => {
                proof {
                    lemma_versions_map_insert(items@, p as int, (version, spec));
                }
                items.insert(p, (version, spec));
            },
        }
        self.versions = items;
    }

    /// The changes of a version, if it is listed.
    pub fn get(&self, version: &Version) -> (r: Option<&VersionSpec>)
        ensures
            match r {
                Some(s) => self@.contains_key(*version) && self@[*version] == s@,
                None => !self@.contains_key(*version),
            },
    {
        proof {
            use_type_invariant(self);
        }
        match locate(&self.versions, version) {
            Ok(i) => {
                proof {
                    lemma_versions_map_at(self.versions@, i as int);
                }
                Some(&self.versions[i].1)
            },
            Err(p) => {
                proof {
                    if has_version(self.versions@, *version) {
                        let j = choose|j: int| 0 <= j < self.versions@.len() && #[trigger] self.versions@[j].0
                            == *version;
                        if j < p {
                            assert(version_lt(self.versions@[j].0, *version));
                        } else {
                            assert(version_lt(*version, self.versions@[j].0));
                        }
                    }
                }
                None
            },
        }
    }

    /// Returns the most recent version or None if there are no versions.
    pub fn latest_version(&self) -> (r: Option<&Version>)
        ensures
            match r {
                Some(v) => self@.contains_key(*v) && forall|k: Version| #[trigger] self@.contains_key(k)
                    ==> !version_lt(*v, k),
                None => self@ == Map::<Version, VersionSpecView>::empty(),
            },
    {
        proof {
            use_type_invariant(self);
        }
        let n = self.versions.len();
        if n == 0 {
            proof {
                assert(self@ =~= Map::<Version, VersionSpecView>::empty());
            }
            None
        } else {
            proof {
                lemma_versions_map_at(self.versions@, n - 1);
                assert forall|k: Version| #[trigger] self@.contains_key(k) implies !version_lt(
                    self.versions@[n - 1].0,
                    k,
                ) by {
                    let j = choose|j: int| 0 <= j < self.versions@.len() && #[trigger] self.versions@[j].0 == k;
                    if j < n - 1 {
                        assert(version_lt(self.versions@[j].0, self.versions@[n - 1].0));
                    }
                }
            }
            Some(&self.versions[n - 1].0)
        }
    }

    /// Returns a vector of tuples containing the versions and their corresponding changes
    /// in ascending order.
    pub fn versions_asc(&self) -> (r: Vec<(&Version, &VersionSpec)>)
        ensures
            r@.len() == self.items().len(),
            forall|i: int| 0 <= i < r@.len() ==> *(#[trigger] r@[i]).0 == self.items()[i].0 && *r@[i].1
                == self.items()[i].1,
            forall|i: int, j: int| 0 <= i < j < r@.len() ==> version_lt(*(#[trigger] r@[i]).0, *(#[trigger] r@[j]).0),
    {
        proof {
            use_type_invariant(self);
        }
        let mut out: Vec<(&Version, &VersionSpec)> = Vec::new();
        let mut i: usize = 0;
        while i < self.versions.len()
            invariant
                i <= self.versions@.len(),
                out@.len() == i,
                forall|j: int| 0 <= j < i ==> *(#[trigger] out@[j]).0 == self.versions@[j].0 && *out@[j].1
                    == self.versions@[j].1,
            decreases self.versions@.len() - i,
        {
            out.push((&self.versions[i].0, &self.versions[i].1));
            i = i + 1;
        }
        proof {
            assert forall|a: int, b: int| 0 <= a < b < out@.len() implies version_lt(
                *(#[trigger] out@[a]).0,
                *(#[trigger] out@[b]).0,
            ) by {
                assert(version_lt(self.versions@[a].0, self.versions@[b].0));
            }
        }
        out
    }

    /// Returns a vector of tuples containing the versions and their corresponding changes
    /// in descending order.
    pub fn versions_desc(&self) -> (r: Vec<(&Version, &VersionSpec)>)
        ensures
            r@.len() == self.items().len(),
            forall|i: int| 0 <= i < r@.len() ==> *(#[trigger] r@[i]).0 == self.items()[r@.len() - 1 - i].0
                && *r@[i].1 == self.items()[r@.len() - 1 - i].1,
            forall|i: int, j: int| 0 <= i < j < r@.len() ==> version_lt(*(#[trigger] r@[j]).0, *(#[trigger] r@[i]).0),
    {
        proof {
            use_type_invariant(self);
        }
        let n = self.versions.len();
        let mut out: Vec<(&Version, &VersionSpec)> = Vec::new();
        let mut i: usize = n;
        while i > 0
            invariant
                i <= n,
                n == self.versions@.len(),
                out@.len() == n - i,
                forall|j: int| 0 <= j < n - i ==> *(#[trigger] out@[j]).0 == self.versions@[n - 1 - j].0
                    && *out@[j].1 == self.versions@[n - 1 - j].1,
            decreases i,
        {
            i = i - 1;
            out.push((&self.versions[i].0, &self.versions[i].1));
        }
        proof {
            assert forall|a: int, b: int| 0 <= a < b < out@.len() implies version_lt(
                *(#[trigger] out@[b]).0,
                *(#[trigger] out@[a]).0,
            ) by {
                assert(version_lt(self.versions@[n - 1 - b].0, self.versions@[n - 1 - a].0));
            }
        }
        out
    }

    /// Returns a vector of tuples containing the versions and their corresponding changes
    /// in ascending order from the given version.
    pub fn versions_asc_from(&self, version: &Version) -> (r: Vec<(&Version, &VersionSpec)>)
        ensures
            exists|k: int|
                #[trigger] split_below(self.items(), *version, k) && r@.len() == self.items().len() - k
                    && (forall|i: int| 0 <= i < r@.len() ==> *(#[trigger] r@[i]).0 == self.items()[k + i].0
                    && *r@[i].1 == self.items()[k + i].1),
    {
        proof {
            use_type_invariant(self);
        }
        let n = self.versions.len();
        let mut k: usize = 0;
        while k < n && self.versions[k].0.lt(version)
            invariant
                k <= n,
                n == self.versions@.len(),
                forall|i: int| 0 <= i < k ==> version_lt(#[trigger] self.versions@[i].0, *version),
            decreases n - k,
        {
            k = k + 1;
        }
        proof {
            assert forall|i: int| k <= i < n implies !version_lt(#[trigger] self.versions@[i].0, *version) by {
                if i > k {
                    assert(version_lt(self.versions@[k as int].0, self.versions@[i].0));
                }
            }
            assert(split_below(self.items(), *version, k as int));
        }
        let mut out: Vec<(&Version, &VersionSpec)> = Vec::new();
        let mut i: usize = k;
        while i < n
            invariant
                k <= i <= n,
                n == self.versions@.len(),
                out@.len() == i - k,
                forall|j: int| 0 <= j < i - k ==> *(#[trigger] out@[j]).0 == self.versions@[k + j].0
                    && *out@[j].1 == self.versions@[k + j].1,
            decreases n - i,
        {
            out.push((&self.versions[i].0, &self.versions[i].1));
            i = i + 1;
        }
        out
    }

    /// Returns a vector of tuples containing the versions and their corresponding changes
    /// in descending order from the given version.
    pub fn versions_desc_from(&self, version: &Version) -> (r: Vec<(&Version, &VersionSpec)>)
        ensures
            exists|k: int|
                #[trigger] split_upto(self.items(), *version, k) && r@.len() == k && (forall|i: int|
                    0 <= i < r@.len() ==> *(#[trigger] r@[i]).0 == self.items()[k - 1 - i].0 && *r@[i].1
                    == self.items()[k - 1 - i].1),
    {
        proof {
            use_type_invariant(self);
        }
        let n = self.versions.len();
        let k = self.upto(version);
        assert(split_upto(self.items(), *version, k as int));
        let mut out: Vec<(&Version, &VersionSpec)> = Vec::new();
        let mut i: usize = k;
        while i > 0
            invariant
                i <= k,
                k <= n,
                n == self.versions@.len(),
                out@.len() == k - i,
                forall|j: int| 0 <= j < k - i ==> *(#[trigger] out@[j]).0 == self.versions@[k - 1 - j].0
                    && *out@[j].1 == self.versions@[k - 1 - j].1,
            decreases i,
        {
            i = i - 1;
            out.push((&self.versions[i].0, &self.versions[i].1));
        }
        out
    }

    /// Number of items whose version is at most `version`; they come first.
    fn upto(&self, version: &Version) -> (k: usize)
        ensures
            k <= self.items().len(),
            forall|i: int| 0 <= i < k ==> !version_lt(*version, #[trigger] self.items()[i].0),
            forall|i: int| k <= i < self.items().len() ==> version_lt(*version, #[trigger] self.items()[i].0),
    {
        proof {
            use_type_invariant(self);
        }
        let n = self.versions.len();
        let mut k: usize = 0;
        while k < n && !version.lt(&self.versions[k].0)
            invariant
                k <= n,
                n == self.versions@.len(),
                forall|i: int| 0 <= i < k ==> !version_lt(*version, #[trigger] self.versions@[i].0),
            decreases n - k,
        {
            k = k + 1;
        }
        proof {
            assert forall|i: int| k <= i < n implies version_lt(*version, #[trigger] self.versions@[i].0) by {
                if i > k {
                    assert(version_lt(self.versions@[k as int].0, self.versions@[i].0));
                }
            }
        }
        k
    }
}

/// The renamings gathered from `maps` processed in order, on top of `acc`:
/// a name already renamed keeps its first renaming.
pub open spec fn keep_first(acc: RenameMap, maps: Seq<RenameMap>) -> RenameMap
    decreases maps.len(),
{
    if maps.len() == 0 {
        acc
    } else {
        maps.last().union_prefer_right(keep_first(acc, maps.drop_last()))
    }
}

/// The renamings of one category in force at version `v`: the items whose
/// version is at most `v` are visited from the newest to the oldest, each
/// one's changes in order, and the first renaming met for a name is kept.
pub open spec fn desc_renames(s: Seq<(Version, VersionSpec)>, v: Version, c: Category) -> RenameMap
    decreases s.len(),
{
    if s.len() == 0 {
        Map::empty()
    } else {
        let rest = desc_renames(s.drop_first(), v, c);
        if !version_lt(v, s[0].0) {
            keep_first(rest, s[0].1@.maps(c))
        } else {
            rest
        }
    }
}

/// Adds the renamings of `changes` whose old name `acc` does not rename yet.
fn collect_renames<C: RenameChange>(acc: &mut TextMap, changes: &Vec<C>)
    ensures
        final(acc)@ == keep_first(old(acc)@, change_maps(changes@)),
{
    let ghost maps = change_maps(changes@);
    let mut i: usize = 0;
    while i < changes.len()
        invariant
            i <= changes@.len(),
            maps == change_maps(changes@),
            acc@ == keep_first(old(acc)@, maps.subrange(0, i as int)),
        decreases changes@.len() - i,
    {
        let m = changes[i].rename_map();
        let n = m.len();
        let ghost before = acc@;
        let mut j: usize = 0;
        while j < n
            invariant
                j <= n,
                n == m.entries().len(),
                keys_unique(m.entries()),
                m@ == pairs_map(m.entries()),
                acc@ == pairs_map(m.entries().subrange(0, j as int)).union_prefer_right(before),
            decreases n - j,
        {
            let (old, new) = m.pair_at(j);
            let present = acc.contains_key(old.as_str());
            proof {
                let e = m.entries();
                assert(e.subrange(0, j + 1).drop_last() == e.subrange(0, j as int));
                assert(e.subrange(0, j + 1).last() == e[j as int]);
                crate::text_map::lemma_pairs_map_contains(e.subrange(0, j as int), e[j as int].0@);
                if pairs_map(e.subrange(0, j as int)).contains_key(e[j as int].0@) {
                    let q = choose|q: int| 0 <= q < e.subrange(0, j as int).len() && e.subrange(0, j as int)[q].0@ == e[j as int].0@;
                    assert(e[q].0@ == e[j as int].0@);
                }
            }
            if !present {
                acc.insert(old.clone(), new.clone());
            }
            proof {
                let e = m.entries();
                assert(acc@ =~= pairs_map(e.subrange(0, j + 1)).union_prefer_right(before));
            }
            j = j + 1;
        }
        proof {
            assert(m.entries().subrange(0, n as int) == m.entries());
            assert(maps.subrange(0, i + 1).drop_last() == maps.subrange(0, i as int));
            assert(maps[i as int] == m@);
        }
        i = i + 1;
    }
    proof {
        assert(maps.subrange(0, changes@.len() as int) == maps);
    }
}

/// Adds the renamings of an optional category of changes.
fn collect_opt<C: RenameChange>(acc: &mut TextMap, changes: Option<&Vec<C>>)
    ensures
        final(acc)@ == keep_first(
            old(acc)@,
            match changes {
                Some(v) => change_maps(v@),
                None => Seq::empty(),
            },
        ),
{
    match changes {
        Some(v) => collect_renames(acc, v),
        None => {},
    }
}

/// The changes to apply to rename attributes and metrics for
/// a specific version.
pub struct VersionChanges {
    version: Version,
    resource_old_to_new_attributes: TextMap,
    metrics_old_to_new_names: TextMap,
    logs_old_to_new_attributes: TextMap,
    spans_old_to_new_attributes: TextMap,
}

impl VersionChanges {
    /// The version these changes are for.
    pub closed spec fn version(&self) -> Version {
        self.version
    }

    /// The renamings of a category.
    pub closed spec fn renames(&self, c: Category) -> RenameMap {
        match c {
            Category::Resources => self.resource_old_to_new_attributes@,
            Category::Metrics => self.metrics_old_to_new_names@,
            Category::Logs => self.logs_old_to_new_attributes@,
            Category::Spans => self.spans_old_to_new_attributes@,
        }
    }

    /// The new name of `name` under some renamings, or `name` itself.
    fn renamed(m: &TextMap, name: &str) -> (r: String)
        ensures
            r@ == if m@.contains_key(name@) {
                m@[name@]
            } else {
                name@
            },
    {
        match m.get(name) {
            Some(new_name) => new_name.clone(),
            None => name.to_owned(),
        }
    }

    /// Returns the new name of the given attribute (or metric) of a category,
    /// or the given name if it has not been renamed.
    pub fn get_attribute_name(&self, category: Category, name: &str) -> (r: String)
        ensures
            r@ == if self.renames(category).contains_key(name@) {
                self.renames(category)[name@]
            } else {
                name@
            },
    {
        match category {
            Category::Resources => Self::renamed(&self.resource_old_to_new_attributes, name),
            Category::Metrics => Self::renamed(&self.metrics_old_to_new_names, name),
            Category::Logs => Self::renamed(&self.logs_old_to_new_attributes, name),
            Category::Spans => Self::renamed(&self.spans_old_to_new_attributes, name),
        }
    }

    /// Returns the new name of the given resource attribute or the given name if the attribute
    /// has not been renamed.
    pub fn get_resource_attribute_name(&self, name: &str) -> (r: String)
        ensures
            r@ == if self.renames(Category::Resources).contains_key(name@) {
                self.renames(Category::Resources)[name@]
            } else {
                name@
            },
    {
        Self::renamed(&self.resource_old_to_new_attributes, name)
    }

    /// Returns the new name of the given metric or the given name if the metric
    /// has not been renamed.
    pub fn get_metric_name(&self, name: &str) -> (r: String)
        ensures
            r@ == if self.renames(Category::Metrics).contains_key(name@) {
                self.renames(Category::Metrics)[name@]
            } else {
                name@
            },
    {
        Self::renamed(&self.metrics_old_to_new_names, name)
    }

    /// Returns the new name of the given log attribute or the given name if the attribute
    /// has not been renamed.
    pub fn get_log_attribute_name(&self, name: &str) -> (r: String)
        ensures
            r@ == if self.renames(Category::Logs).contains_key(name@) {
                self.renames(Category::Logs)[name@]
            } else {
                name@
            },
    {
        Self::renamed(&self.logs_old_to_new_attributes, name)
    }

    /// Returns the new name of the given span attribute or the given name if the attribute
    /// has not been renamed.
    pub fn get_span_attribute_name(&self, name: &str) -> (r: String)
        ensures
            r@ == if self.renames(Category::Spans).contains_key(name@) {
                self.renames(Category::Spans)[name@]
            } else {
                name@
            },
    {
        Self::renamed(&self.spans_old_to_new_attributes, name)
    }
}

impl Default for VersionChanges {
    /// No renaming, for the version 0.0.0.
    fn default() -> (r: Self)
        ensures
            r.version() == (Version { major: 0, minor: 0, patch: 0 }),
            forall|c: Category| #[trigger] r.renames(c) == Map::<Seq<char>, Seq<char>>::empty(),
    {
        VersionChanges {
            version: Version { major: 0, minor: 0, patch: 0 },
            resource_old_to_new_attributes: TextMap::new(),
            metrics_old_to_new_names: TextMap::new(),
            logs_old_to_new_attributes: TextMap::new(),
            spans_old_to_new_attributes: TextMap::new(),
        }
    }
}

impl Versions {
    /// Returns the changes to apply for the given version including the changes
    /// of the previous versions.
    /// The current supported changes are:
    /// - Renaming of attributes (for resources, logs and spans)
    /// - Renaming of metrics
    pub fn version_changes_for(&self, version: &Version) -> (r: VersionChanges)
        ensures
            r.version() == *version,
            forall|c: Category| #[trigger] r.renames(c) == desc_renames(self.items(), *version, c),
    {
        proof {
            use_type_invariant(self);
        }
        let n = self.versions.len();
        let mut resources = TextMap::new();
        let mut metrics = TextMap::new();
        let mut logs = TextMap::new();
        let mut spans = TextMap::new();
        let mut i: usize = n;
        proof {
            assert(self.versions@.subrange(n as int, n as int).len() == 0);
        }
        while i > 0
            invariant
                i <= n,
                n == self.versions@.len(),
                resources@ == desc_renames(self.versions@.subrange(i as int, n as int), *version, Category::Resources),
                metrics@ == desc_renames(self.versions@.subrange(i as int, n as int), *version, Category::Metrics),
                logs@ == desc_renames(self.versions@.subrange(i as int, n as int), *version, Category::Logs),
                spans@ == desc_renames(self.versions@.subrange(i as int, n as int), *version, Category::Spans),
            decreases i,
        {
            i = i - 1;
            let spec = &self.versions[i].1;
            let ghost s = self.versions@.subrange(i as int, n as int);
            proof {
                assert(s.drop_first() == self.versions@.subrange(i + 1, n as int));
                assert(s[0] == self.versions@[i as int]);
            }
            if !version.lt(&self.versions[i].0) {
                collect_opt(&mut resources, match &spec.resources { Some(v) => Some(&v.changes), None => None });
                collect_opt(&mut metrics, match &spec.metrics { Some(v) => Some(&v.changes), None => None });
                collect_opt(&mut logs, match &spec.logs { Some(v) => Some(&v.changes), None => None });
                collect_opt(&mut spans, match &spec.spans { Some(v) => Some(&v.changes), None => None });
            }
        }
        proof {
            assert(self.versions@.subrange(0, n as int) == self.versions@);
        }
        let r = VersionChanges {
            version: *version,
            resource_old_to_new_attributes: resources,
            metrics_old_to_new_names: metrics,
            logs_old_to_new_attributes: logs,
            spans_old_to_new_attributes: spans,
        };
        proof {
            assert forall|c: Category| #[trigger] r.renames(c) == desc_renames(self.items(), *version, c) by {
                match c {
                    Category::Resources => {},
                    Category::Metrics => {},
                    Category::Logs => {},
                    Category::Spans => {},
                }
            }
        }
        r
    }
}

proof fn lemma_merge_insert(
    a: Map<Version, VersionSpecView>,
    b: Map<Version, VersionSpecView>,
    k: Version,
    w: VersionSpecView,
)
    requires
        !b.contains_key(k),
    ensures
        merge_versions(a, b.insert(k, w)) == merge_versions(a, b).insert(
            k,
            if a.contains_key(k) {
                extend_spec(a[k], w)
            } else {
                w
            },
        ),
{
    assert(merge_versions(a, b.insert(k, w)) =~= merge_versions(a, b).insert(
        k,
        if a.contains_key(k) {
            extend_spec(a[k], w)
        } else {
            w
        },
    ));
}

proof fn lemma_sorted_prefix(s: Seq<(Version, VersionSpec)>, t: int)
    requires
        sorted_versions(s),
        0 <= t < s.len(),
    ensures
        sorted_versions(s.subrange(0, t)),
        sorted_versions(s.subrange(0, t + 1)),
        !versions_map(s.subrange(0, t)).contains_key(s[t].0),
        versions_map(s.subrange(0, t + 1)) == versions_map(s.subrange(0, t)).insert(s[t].0, s[t].1@),
{
    let p = s.subrange(0, t);
    assert(s.subrange(0, t + 1) == p.insert(t, s[t]));
    assert forall|j: int| 0 <= j < t implies version_lt(#[trigger] p[j].0, s[t].0) by {
        assert(version_lt(s[j].0, s[t].0));
    }
    lemma_versions_map_insert(p, t, s[t]);
    if has_version(p, s[t].0) {
        let j = choose|j: int| 0 <= j < p.len() && #[trigger] p[j].0 == s[t].0;
        assert(version_lt(s[j].0, s[t].0));
    }
}

impl Versions {
    /// Update the current `Versions` to include the transformations of the parent `Versions`.
    /// Transformations of the current `Versions` take precedence over the parent `Versions`.
    pub fn extend(&mut self, parent_versions: Versions)
        ensures
            final(self)@ == merge_versions(old(self)@, parent_versions@),
    {
        proof {
            use_type_invariant(&*self);
            use_type_invariant(&parent_versions);
        }
        let ghost smap = self@;
        let ghost pmap = parent_versions@;
        let Versions { versions: mut pv } = parent_versions;
        let ghost pitems = pv@;
        let ghost np = pitems.len();
        let mut items: Vec<(Version, VersionSpec)> = Vec::new();
        std::mem::swap(&mut items, &mut self.versions);
        let ghost mut t: int = 0;
        proof {
            assert(pv@ == pitems.subrange(0, np as int));
            assert(versions_map(pitems.subrange(0, 0)) =~= Map::<Version, VersionSpecView>::empty());
            assert(merge_versions(smap, Map::<Version, VersionSpecView>::empty()) =~= smap);
        }
        while pv.len() > 0
            invariant
                0 <= t <= np,
                np == pitems.len(),
                sorted_versions(pitems),
                pmap == versions_map(pitems),
                pv@ == pitems.subrange(t, np as int),
                sorted_versions(items@),
                versions_map(items@) == merge_versions(smap, versions_map(pitems.subrange(0, t))),
            decreases pv@.len(),
        {
            let ghost before = items@;
            proof {
                lemma_sorted_prefix(pitems, t);
                lemma_merge_insert(smap, versions_map(pitems.subrange(0, t)), pitems[t].0, pitems[t].1@);
            }
            let (ver, spec) = pv.remove(0);
            proof {
                assert(ver == pitems[t].0 && spec == pitems[t].1);
            }
            match locate(&items, &ver) {
                Ok(idx) => {
                    proof {
                        lemma_versions_map_at(items@, idx as int);
                    }
                    let (v0, mut s0) = items.remove(idx);
                    let ghost s0_old = s0@;
                    s0.extend(spec);
                    items.insert(idx, (v0, s0));
                    proof {
                        assert(items@ =~= before.update(idx as int, (v0, s0)));
                        lemma_versions_map_update(before, idx as int, (v0, s0));
                        assert(smap.contains_key(ver));
                    }
                },
                Err(p) => {
                    proof {
                        lemma_versions_map_insert(items@, p as int, (ver, spec));
                        if smap.contains_key(ver) {
                            assert(versions_map(before).contains_key(ver));
                            let j = choose|j: int| 0 <= j < before.len() && #[trigger] before[j].0 == ver;
                            if j < p {
                                assert(version_lt(before[j].0, ver));
                            } else {
                                assert(version_lt(ver, before[j].0));
                            }
                        }
                    }
                    items.insert(p, (ver, spec));
                },
            }
            proof {
                t = t + 1;
                assert(pv@ =~= pitems.subrange(t, np as int));
            }
        }
        proof {
            assert(pitems.subrange(0, np as int) == pitems);
        }
        self.versions = items;
    }
}

proof fn lemma_added_renames_dom(parent: Seq<RenameMap>, excluded: Set<Seq<char>>)
    ensures
        added_renames(parent, excluded).dom() == renamed_keys(parent).difference(excluded),
    decreases parent.len(),
{
    if parent.len() > 0 {
        lemma_added_renames_dom(parent.drop_last(), excluded);
        assert forall|k: Seq<char>| #[trigger] renamed_keys(parent).contains(k) <==> renamed_keys(parent.drop_last()).contains(k)
            || parent.last().contains_key(k) by {
            if renamed_keys(parent).contains(k) {
                let i = choose|i: int| 0 <= i < parent.len() && #[trigger] parent[i].contains_key(k);
                if i < parent.len() - 1 {
                    assert(parent.drop_last()[i].contains_key(k));
                }
            }
            if renamed_keys(parent.drop_last()).contains(k) {
                let i = choose|i: int| 0 <= i < parent.drop_last().len() && #[trigger] parent.drop_last()[i].contains_key(k);
                assert(parent[i].contains_key(k));
            }
            if parent.last().contains_key(k) {
                assert(parent[parent.len() - 1].contains_key(k));
            }
        }
        assert(added_renames(parent, excluded).dom() =~= renamed_keys(parent).difference(excluded));
    } else {
        assert(added_renames(parent, excluded).dom() =~= renamed_keys(parent).difference(excluded));
    }
}

/// Taking over a parent's changes keeps the local changes as they are, in
/// front, and what it adds renames no name that a local change renames:
/// the local changes take precedence over the parent's.
pub proof fn lemma_extend_keeps_local(local: Option<Seq<RenameMap>>, parent: Option<Seq<RenameMap>>)
    ensures
        base_maps(local).is_prefix_of(base_maps(extend_category(local, parent))),
        forall|i: int, k: Seq<char>|
            base_maps(local).len() <= i < base_maps(extend_category(local, parent)).len() && renamed_keys(
                base_maps(local),
            ).contains(k) ==> !(#[trigger] base_maps(extend_category(local, parent))[i].contains_key(k)),
{
    match parent {
        None => {},
        Some(p) => {
            let base = base_maps(local);
            lemma_added_renames_dom(p, renamed_keys(base));
            let added = added_renames(p, renamed_keys(base));
            if added.len() > 0 {
                assert(base_maps(extend_category(local, parent)) == base.push(added));
            }
        },
    }
}

/// Taking over a parent's changes takes over the parent's renaming of every
/// name that no local change renames.
pub proof fn lemma_extend_takes_parent(local: Option<Seq<RenameMap>>, parent: Option<Seq<RenameMap>>, k: Seq<char>)
    requires
        parent is Some,
        forall|i: int| 0 <= i < parent->0.len() ==> (#[trigger] parent->0[i]).dom().finite(),
        renamed_keys(parent->0).contains(k),
        !renamed_keys(base_maps(local)).contains(k),
    ensures
        renamed_keys(base_maps(extend_category(local, parent))).contains(k),
{
    let p = parent->0;
    let base = base_maps(local);
    lemma_added_renames_dom(p, renamed_keys(base));
    let added = added_renames(p, renamed_keys(base));
    assert(added.contains_key(k));
    assert(added.dom().contains(k));
    assert(added.dom().finite()) by {
        lemma_added_renames_finite(p, renamed_keys(base));
    }
    assert(added.len() > 0) by {
        vstd::set::axiom_set_contains_len(added.dom(), k);
    }
    let r = base.push(added);
    assert(r[r.len() - 1].contains_key(k));
}

proof fn lemma_added_renames_finite(parent: Seq<RenameMap>, excluded: Set<Seq<char>>)
    requires
        forall|i: int| 0 <= i < parent.len() ==> (#[trigger] parent[i]).dom().finite(),
    ensures
        added_renames(parent, excluded).dom().finite(),
    decreases parent.len(),
{
    if parent.len() > 0 {
        lemma_added_renames_finite(parent.drop_last(), excluded);
        assert(parent.last() == parent[parent.len() - 1]);
        let last = parent.last().remove_keys(excluded);
        assert(last.dom() =~= parent.last().dom().difference(excluded));
        assert(added_renames(parent, excluded).dom() =~= added_renames(parent.drop_last(), excluded).dom().union(
            last.dom(),
        ));
    }
}

proof fn lemma_renamed_keys_last(maps: Seq<RenameMap>, k: Seq<char>)
    requires
        maps.len() > 0,
    ensures
        renamed_keys(maps).contains(k) <==> renamed_keys(maps.drop_last()).contains(k) || maps.last().contains_key(k),
{
    if renamed_keys(maps).contains(k) {
        let i = choose|i: int| 0 <= i < maps.len() && #[trigger] maps[i].contains_key(k);
        if i < maps.len() - 1 {
            assert(maps.drop_last()[i].contains_key(k));
        }
    }
    if renamed_keys(maps.drop_last()).contains(k) {
        let i = choose|i: int| 0 <= i < maps.drop_last().len() && #[trigger] maps.drop_last()[i].contains_key(k);
        assert(maps[i].contains_key(k));
    }
    if maps.last().contains_key(k) {
        assert(maps[maps.len() - 1].contains_key(k));
    }
}

proof fn lemma_keep_first_dom(acc: RenameMap, maps: Seq<RenameMap>, k: Seq<char>)
    ensures
        keep_first(acc, maps).contains_key(k) <==> acc.contains_key(k) || renamed_keys(maps).contains(k),
    decreases maps.len(),
{
    if maps.len() > 0 {
        lemma_keep_first_dom(acc, maps.drop_last(), k);
        lemma_renamed_keys_last(maps, k);
    }
}

proof fn lemma_keep_first_keeps(acc: RenameMap, maps: Seq<RenameMap>, k: Seq<char>)
    requires
        acc.contains_key(k),
    ensures
        keep_first(acc, maps)[k] == acc[k],
    decreases maps.len(),
{
    if maps.len() > 0 {
        lemma_keep_first_keeps(acc, maps.drop_last(), k);
        lemma_keep_first_dom(acc, maps.drop_last(), k);
    }
}

proof fn lemma_keep_first_fresh(acc: RenameMap, maps: Seq<RenameMap>, k: Seq<char>)
    requires
        !acc.contains_key(k),
        renamed_keys(maps).contains(k),
    ensures
        keep_first(acc, maps)[k] == keep_first(Map::empty(), maps)[k],
    decreases maps.len(),
{
    lemma_renamed_keys_last(maps, k);
    lemma_keep_first_dom(acc, maps.drop_last(), k);
    lemma_keep_first_dom(Map::empty(), maps.drop_last(), k);
    if renamed_keys(maps.drop_last()).contains(k) {
        lemma_keep_first_fresh(acc, maps.drop_last(), k);
    }
}

/// The names that the versions up to `v` rename in a category.
pub open spec fn renamed_up_to(s: Seq<(Version, VersionSpec)>, v: Version, c: Category) -> Set<Seq<char>> {
    Set::new(
        |k: Seq<char>|
            exists|i: int|
                0 <= i < s.len() && !version_lt(v, s[i].0) && #[trigger] renamed_keys(s[i].1@.maps(c)).contains(k),
    )
}

/// The changes for a version rename exactly the names that the versions up
/// to it rename: those of the previous versions are included, and no later
/// version's.
pub proof fn lemma_version_changes_names(s: Seq<(Version, VersionSpec)>, v: Version, c: Category)
    ensures
        desc_renames(s, v, c).dom() == renamed_up_to(s, v, c),
    decreases s.len(),
{
    if s.len() > 0 {
        lemma_version_changes_names(s.drop_first(), v, c);
        let rest = desc_renames(s.drop_first(), v, c);
        assert forall|k: Seq<char>| #[trigger] desc_renames(s, v, c).contains_key(k) <==> renamed_up_to(s, v, c).contains(k) by {
            if !version_lt(v, s[0].0) {
                lemma_keep_first_dom(rest, s[0].1@.maps(c), k);
            }
            if renamed_up_to(s, v, c).contains(k) {
                let i = choose|i: int|
                    0 <= i < s.len() && !version_lt(v, s[i].0) && #[trigger] renamed_keys(s[i].1@.maps(c)).contains(k);
                if i > 0 {
                    assert(s.drop_first()[i - 1] == s[i]);
                    assert(renamed_up_to(s.drop_first(), v, c).contains(k));
                }
            }
            if renamed_up_to(s.drop_first(), v, c).contains(k) {
                let i = choose|i: int|
                    0 <= i < s.drop_first().len() && !version_lt(v, s.drop_first()[i].0)
                        && #[trigger] renamed_keys(s.drop_first()[i].1@.maps(c)).contains(k);
                assert(s[i + 1] == s.drop_first()[i]);
            }
        }
        assert(desc_renames(s, v, c).dom() =~= renamed_up_to(s, v, c));
    } else {
        assert(desc_renames(s, v, c).dom() =~= renamed_up_to(s, v, c));
    }
}

/// The renaming of a name in force at a version is the one of the newest
/// version up to it that renames the name (its first change that does).
pub proof fn lemma_version_changes_newest_wins(
    s: Seq<(Version, VersionSpec)>,
    v: Version,
    c: Category,
    i: int,
    k: Seq<char>,
)
    requires
        0 <= i < s.len(),
        !version_lt(v, s[i].0),
        renamed_keys(s[i].1@.maps(c)).contains(k),
        forall|j: int| i < j < s.len() && !version_lt(v, s[j].0) ==> !(#[trigger] renamed_keys(s[j].1@.maps(c)).contains(k)),
    ensures
        desc_renames(s, v, c).contains_key(k),
        desc_renames(s, v, c)[k] == keep_first(Map::empty(), s[i].1@.maps(c))[k],
    decreases i,
{
    let rest = desc_renames(s.drop_first(), v, c);
    lemma_version_changes_names(s.drop_first(), v, c);
    lemma_version_changes_names(s, v, c);
    assert(renamed_up_to(s, v, c).contains(k));
    if i == 0 {
        assert(!rest.contains_key(k)) by {
            if renamed_up_to(s.drop_first(), v, c).contains(k) {
                let j = choose|j: int|
                    0 <= j < s.drop_first().len() && !version_lt(v, s.drop_first()[j].0)
                        && #[trigger] renamed_keys(s.drop_first()[j].1@.maps(c)).contains(k);
                assert(s[j + 1] == s.drop_first()[j]);
            }
        }
        lemma_keep_first_fresh(rest, s[0].1@.maps(c), k);
    } else {
        assert(s.drop_first()[i - 1] == s[i]);
        assert forall|j: int| i - 1 < j < s.drop_first().len() && !version_lt(v, s.drop_first()[j].0) implies !(
        #[trigger] renamed_keys(s.drop_first()[j].1@.maps(c)).contains(k)) by {
            assert(s[j + 1] == s.drop_first()[j]);
        }
        lemma_version_changes_newest_wins(s.drop_first(), v, c, i - 1, k);
        if !version_lt(v, s[0].0) {
            lemma_keep_first_keeps(rest, s[0].1@.maps(c), k);
        }
    }
}

} // verus!
