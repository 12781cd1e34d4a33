//! Resolution of references: of semantic convention attributes into a
//! catalog of resolved attributes, of registries, and of telemetry schemas.
pub mod stability;
pub mod attribute;
pub mod registry;
pub mod schema_attribute;
pub mod resource;
pub mod resource_metrics;

use vstd::prelude::*;
use crate::schema::{ParsedUrl, parse_url, url_parse};
use crate::version::{Category, Version, VersionChanges, Versions, desc_renames, version_lt};
use crate::resolver::resource::resolve_resource;
use crate::resolver::resource_metrics::{resolve_metrics, resource_metrics_step, resource_metrics_warnings};
use crate::resolver::schema_attribute::resolved_map;
use crate::schema::TelemetrySchema;
use crate::schema::attribute::schema_attrs_view;
use crate::schema::spec::SchemaSpec;
use crate::semconv::catalog::SemConvCatalog;
use crate::sorted::sorted_values;
use crate::text::same_text;

verus! {

/// An error that can occur while resolving a telemetry schema or a registry.
pub enum Error {
    /// An invalid URL.
    InvalidUrl {
        /// The invalid URL.
        url: String,
        /// The error that occurred.
        error: String,
    },
    /// A semantic convention error.
    SemConvError {
        /// The error that occurred.
        message: String,
    },
    /// Failed to resolve an attribute.
    FailToResolveAttribute {
        /// The id of the attribute.
        id: String,
        /// The error that occurred.
        error: String,
    },
    /// Failed to resolve a set of attributes.
    FailToResolveAttributes {
        /// The ids of the attributes.
        ids: Vec<String>,
        /// The error that occurred.
        error: String,
    },
    /// Failed to resolve a metric.
    FailToResolveMetric {
        /// The reference to the metric.
        reference: String,
    },
    /// Metric attributes are incompatible within the metric group.
    IncompatibleMetricAttributes {
        /// The metric group reference.
        metric_group_ref: String,
        /// The reference to the metric.
        metric_ref: String,
        /// The error that occurred.
        error: String,
    },
}

/// The content of a resolver error.
pub enum ErrorView {
    /// An invalid URL.
    InvalidUrl { url: Seq<char>, error: Seq<char> },
    /// A semantic convention error.
    SemConvError { message: Seq<char> },
    /// Failed to resolve an attribute.
    FailToResolveAttribute { id: Seq<char>, error: Seq<char> },
    /// Failed to resolve a set of attributes.
    FailToResolveAttributes { ids: Seq<Seq<char>>, error: Seq<char> },
    /// Failed to resolve a metric.
    FailToResolveMetric { reference: Seq<char> },
    /// Metric attributes are incompatible within the metric group.
    IncompatibleMetricAttributes { metric_group_ref: Seq<char>, metric_ref: Seq<char>, error: Seq<char> },
}

impl View for Error {
    type V = ErrorView;

    open spec fn view(&self) -> ErrorView {
        match self {
            Error::InvalidUrl { url, error } => ErrorView::InvalidUrl { url: url@, error: error@ },
            Error::SemConvError { message } => ErrorView::SemConvError { message: message@ },
            Error::FailToResolveAttribute { id, error } => ErrorView::FailToResolveAttribute {
                id: id@,
                error: error@,
            },
            Error::FailToResolveAttributes { ids, error } => ErrorView::FailToResolveAttributes {
                ids: ids@.map_values(|s: String| s@),
                error: error@,
            },
            Error::FailToResolveMetric { reference } => ErrorView::FailToResolveMetric {
                reference: reference@,
            },
            Error::IncompatibleMetricAttributes { metric_group_ref, metric_ref, error } =>
                ErrorView::IncompatibleMetricAttributes {
                metric_group_ref: metric_group_ref@,
                metric_ref: metric_ref@,
                error: error@,
            },
        }
    }
}

/// A resolver that can be used to resolve telemetry schemas.
/// All references to semantic conventions will be resolved.
pub struct SchemaResolver {}

#[verifier::external_type_specification]
#[verifier::external_body]
pub struct ExRegex(regex::Regex);

/// Whether `regex::Regex::new` accepts a pattern.
pub uninterp spec fn regex_valid(pattern: Seq<char>) -> bool;

/// What `regex::Regex::is_match` gives for the regex of a pattern and a text.
pub uninterp spec fn regex_matches(pattern: Seq<char>, text: Seq<char>) -> bool;

/// A compiled regex, with the pattern it was compiled from.
pub struct Pattern {
    /// The compiled regex.
    regex: regex::Regex,
    /// The pattern.
    pattern: String,
}

impl Pattern {
    /// The pattern the regex was compiled from.
    pub closed spec fn text(&self) -> Seq<char> {
        self.pattern@
    }
}

/// Compiles a pattern with `regex::Regex::new`. The contract claims that a
/// compiled regex comes back exactly when the pattern is valid (as
/// `regex_valid` names it), with the pattern it was compiled from.
#[verifier::external_body]
fn compile_pattern(pattern: &str) -> (r: Option<Pattern>)
    ensures
        r is Some <==> regex_valid(pattern@),
        r matches Some(p) ==> p.text() == pattern@,
{
    match regex::Regex::new(pattern) {
        Ok(regex) => Some(Pattern { regex, pattern: pattern.to_string() }),
        Err(_) => None,
    }
}

/// Whether a text matches a compiled regex, with `regex::Regex::is_match`.
/// The contract claims only that the answer is a function of the pattern
/// and the text, as `regex_matches` names it.
#[verifier::external_body]
fn pattern_matches(p: &Pattern, text: &str) -> (r: bool)
    ensures
        r == regex_matches(p.text(), text@),
{
    p.regex.is_match(text)
}

/// Where a parent schema is loaded from.
pub enum ParentSource {
    /// From this URL.
    Url(ParsedUrl),
    /// From the file at this path.
    File(String),
}

/// The content of where a parent schema is loaded from.
pub enum ParentSourceView {
    /// From a URL.
    Url((Seq<char>, Seq<char>, Seq<char>)),
    /// From a file.
    File(Seq<char>),
}

impl View for ParentSource {
    type V = ParentSourceView;

    open spec fn view(&self) -> ParentSourceView {
        match self {
            ParentSource::Url(u) => ParentSourceView::Url(u@),
            ParentSource::File(p) => ParentSourceView::File(p@),
        }
    }
}

/// The pattern of a parent schema reference that is a URL.
pub open spec fn url_pattern() -> Seq<char> {
    "^(https|http|file):.*"@
}

/// The message when the URL pattern does not compile.
pub open spec fn invalid_pattern_message() -> Seq<char> {
    "invalid regex, please report this bug"@
}

/// Where a parent schema given as a URL is loaded from, by the outcome of
/// parsing it: the parsed URL, or an invalid URL error with the parse error.
pub open spec fn parsed_parent_source(
    parent: Seq<char>,
    parsed: Result<(Seq<char>, Seq<char>, Seq<char>), Seq<char>>,
) -> Result<ParentSourceView, ErrorView> {
    match parsed {
        Ok(u) => Ok(ParentSourceView::Url(u)),
        Err(e) => Err(ErrorView::InvalidUrl { url: parent, error: e }),
    }
}

/// Where a parent schema given as a URL is loaded from, by the outcome of
/// parsing it.
pub fn parent_source_from_url(parent_schema_url: &String, parsed: Result<ParsedUrl, String>) -> (r: Result<
    ParentSource,
    Error,
>)
    ensures
        match parsed_parent_source(
            parent_schema_url@,
            match parsed {
                Ok(u) => Ok(u@),
                Err(e) => Err(e@),
            },
        ) {
            Ok(s) => r matches Ok(x) && x@ == s,
            Err(e) => r matches Err(x) && x@ == e,
        },
{
    match parsed {
        Ok(url) => Ok(ParentSource::Url(url)),
        Err(error) => Err(Error::InvalidUrl { url: parent_schema_url.clone(), error }),
    }
}

impl SchemaResolver {
    /// Where the parent schema of a schema is loaded from: a reference that
    /// starts with `https:`, `http:` or `file:` (by the pattern
    /// `^(https|http|file):.*`) is parsed as a URL, any other is a file path.
    pub fn parent_schema_source(parent_schema_url: &String) -> (r: Result<ParentSource, Error>)
        ensures
            !regex_valid(url_pattern()) ==> (r matches Err(e) && e@ == (ErrorView::InvalidUrl {
                url: parent_schema_url@,
                error: invalid_pattern_message(),
            })),
            regex_valid(url_pattern()) && regex_matches(url_pattern(), parent_schema_url@) ==> match parsed_parent_source(
                parent_schema_url@,
                url_parse(parent_schema_url@),
            ) {
                Ok(s) => r matches Ok(x) && x@ == s,
                Err(e) => r matches Err(x) && x@ == e,
            },
            regex_valid(url_pattern()) && !regex_matches(url_pattern(), parent_schema_url@) ==> (r matches Ok(x)
                && x@ == ParentSourceView::File(parent_schema_url@)),
    {
        match compile_pattern("^(https|http|file):.*") {
            None => Err(
                Error::InvalidUrl {
                    url: parent_schema_url.clone(),
                    error: "invalid regex, please report this bug".to_owned(),
                },
            ),
            Some(url_pattern) => {
                if pattern_matches(&url_pattern, parent_schema_url.as_str()) {
                    let parsed = parse_url(parent_schema_url.as_str());
                    parent_source_from_url(parent_schema_url, parsed)
                } else {
                    Ok(ParentSource::File(parent_schema_url.clone()))
                }
            },
        }
    }

    /// The version changes for the latest version of a schema's versions, if
    /// there are versions.
    pub fn latest_version_changes(versions: &Option<Versions>) -> (r: Option<VersionChanges>)
        ensures
            match versions {
                Some(v) => if v@ == Map::<crate::version::Version, crate::version::VersionSpecView>::empty() {
                    r is None
                } else {
                    r matches Some(c) && v@.contains_key(c.version()) && (forall|k: crate::version::Version|
                        #[trigger] v@.contains_key(k) ==> !crate::version::version_lt(c.version(), k)) && (forall|
                        k: crate::version::Category,
                    | #[trigger] c.renames(k) == crate::version::desc_renames(v.items(), c.version(), k))
                },
                None => r is None,
            },
    {
        match versions {
            Some(v) => match v.latest_version() {
                Some(latest) => Some(v.version_changes_for(latest)),
                None => None,
            },
            None => None,
        }
    }
}

/// Whether `vc` holds the renamings a schema with these versions is resolved
/// with: those in force at the latest version, or none without versions.
pub open spec fn schema_changes(versions: Option<Versions>, vc: VersionChanges) -> bool {
    match versions {
        Some(v) => if v@ == Map::<Version, crate::version::VersionSpecView>::empty() {
            forall|c: Category| #[trigger] vc.renames(c) == Map::<Seq<char>, Seq<char>>::empty()
        } else {
            &&& v@.contains_key(vc.version())
            &&& forall|k: Version| #[trigger] v@.contains_key(k) ==> !version_lt(vc.version(), k)
            &&& forall|c: Category| #[trigger] vc.renames(c) == desc_renames(v.items(), vc.version(), c)
        },
        None => forall|c: Category| #[trigger] vc.renames(c) == Map::<Seq<char>, Seq<char>>::empty(),
    }
}

/// The error that resolving the resource of a schema specification stops
/// at, if any.
pub open spec fn resource_error(c: SemConvCatalog, vc: VersionChanges, sp: SchemaSpec) -> Option<ErrorView> {
    match sp.resource {
        None => None,
        Some(res) => match resolved_map(c, vc.renames(Category::Logs), schema_attrs_view(res.attributes@)) {
            Ok(_) => None,
            Err(e) => Some(e),
        },
    }
}

/// How resolving a schema specification against a catalog, with some version
/// changes, turns `sp` into `fs` with the outcome `r` and the warnings `w`:
/// its resource first, then (when that succeeds) its metrics; the rest is
/// kept.
pub open spec fn resolved_spec_outcome(
    c: SemConvCatalog,
    vc: VersionChanges,
    sp: SchemaSpec,
    fs: SchemaSpec,
    r: Result<(), Error>,
    w: Seq<Seq<char>>,
) -> bool {
    &&& w == match (resource_error(c, vc, sp), sp.resource_metrics) {
        (None, Some(rm)) => resource_metrics_warnings(c, vc, rm@),
        _ => Seq::<Seq<char>>::empty(),
    }
    &&& fs.tags == sp.tags
    &&& fs.instrumentation_library == sp.instrumentation_library
    &&& fs.resource_events == sp.resource_events
    &&& fs.resource_spans == sp.resource_spans
    &&& match sp.resource {
        None => fs.resource is None,
        Some(res) => match resolved_map(c, vc.renames(Category::Logs), schema_attrs_view(res.attributes@)) {
            Ok(m) => fs.resource matches Some(f) && schema_attrs_view(f.attributes@) == sorted_values(m)
                && f.tags == res.tags,
            Err(_) => fs.resource == sp.resource,
        },
    }
    &&& match resource_error(c, vc, sp) {
        Some(e) => r matches Err(x) && x@ == e && fs.resource_metrics == sp.resource_metrics,
        None => match sp.resource_metrics {
            None => r is Ok && fs.resource_metrics is None,
            Some(rm) => {
                let (v, e) = resource_metrics_step(c, vc, rm@);
                &&& fs.resource_metrics matches Some(f) && f@ == v
                &&& match e {
                    Some(x) => r matches Err(y) && y@ == x,
                    None => r is Ok,
                }
            },
        },
    }
}

impl SchemaResolver {
    /// The version changes a schema is resolved with: those in force at the
    /// latest of its versions, none when it has no versions.
    pub fn schema_version_changes(versions: &Option<Versions>) -> (r: VersionChanges)
        ensures
            schema_changes(*versions, r),
    {
        match Self::latest_version_changes(versions) {
            Some(changes) => changes,
            None => VersionChanges::default(),
        }
    }

    /// Resolves the references of a loaded telemetry schema to a resolved
    /// semantic convention catalog: its resource, then its metrics, named
    /// after the changes of its latest version. Once resolved, the schema no
    /// longer lists the semantic conventions it imports; on an error it
    /// still does. The warnings given on the way are added to `warnings`.
    pub fn resolve_references(
        schema: &mut TelemetrySchema,
        sem_conv_catalog: &SemConvCatalog,
        warnings: &mut Vec<String>,
    ) -> (r: Result<(), Error>)
        ensures
            final(schema).file_format == old(schema).file_format,
            final(schema).parent_schema_url == old(schema).parent_schema_url,
            final(schema).schema_url == old(schema).schema_url,
            final(schema).versions == old(schema).versions,
            exists|vc: VersionChanges|
                #[trigger] schema_changes(old(schema).versions, vc) && match old(schema).schema {
                    None => r is Ok && final(schema).schema is None && final(warnings)@ == old(warnings)@,
                    Some(sp) => final(schema).schema matches Some(fs) && exists|w: Seq<Seq<char>>|
                        #![trigger resolved_spec_outcome(*sem_conv_catalog, vc, sp, fs, r, w)]
                        final(warnings)@.map_values(|x: String| x@) == old(warnings)@.map_values(|x: String| x@) + w
                            && resolved_spec_outcome(*sem_conv_catalog, vc, sp, fs, r, w),
                },
            r is Ok ==> final(schema).semantic_conventions@.len() == 0,
            r is Err ==> final(schema).semantic_conventions == old(schema).semantic_conventions,
    {
        let version_changes = Self::schema_version_changes(&schema.versions);
        let mut taken: Option<SchemaSpec> = None;
        std::mem::swap(&mut taken, &mut schema.schema);
        match taken {
            None => {
                schema.semantic_conventions = Vec::new();
                proof {
                    assert(schema_changes(old(schema).versions, version_changes));
                }
                Ok(())
            },
            Some(mut sp) => {
                let ghost sp0 = sp;
                let res = resolve_resource(&mut sp, sem_conv_catalog, &version_changes);
                if res.is_err() {
                    schema.schema = Some(sp);
                    proof {
                        let e = Seq::<Seq<char>>::empty();
                        assert(warnings@.map_values(|x: String| x@) =~= warnings@.map_values(|x: String| x@) + e);
                        assert(resource_error(*sem_conv_catalog, version_changes, sp0) is Some);
                        assert(resolved_spec_outcome(*sem_conv_catalog, version_changes, sp0, sp, res, e));
                        assert(schema_changes(old(schema).versions, version_changes));
                    }
                    return res;
                }
                let ghost sp1 = sp;
                let ghost w0 = warnings@.map_values(|x: String| x@);
                let res = resolve_metrics(&mut sp, sem_conv_catalog, &version_changes, warnings);
                let is_ok = res.is_ok();
                schema.schema = Some(sp);
                if is_ok {
                    schema.semantic_conventions = Vec::new();
                }
                proof {
                    let w = match sp1.resource_metrics {
                        None => Seq::<Seq<char>>::empty(),
                        Some(rm) => resource_metrics_warnings(*sem_conv_catalog, version_changes, rm@),
                    };
                    assert(warnings@.map_values(|x: String| x@) == w0 + w);
                    assert(resource_error(*sem_conv_catalog, version_changes, sp0) is None);
                    assert(resolved_spec_outcome(*sem_conv_catalog, version_changes, sp0, sp, res, w));
                    assert(schema_changes(old(schema).versions, version_changes));
                }
                res
            },
        }
    }
}

/// Whether an entry of a semantic convention directory is hidden: its name
/// (when it has one in UTF-8) starts with a dot.
pub fn is_hidden(file_name: Option<&str>) -> (r: bool)
    ensures
        r == (file_name matches Some(n) && n@.len() > 0 && n@[0] == '.'),
{
    match file_name {
        Some(n) => {
            let len = n.unicode_len();
            len > 0 && n.get_char(0) == '.'
        },
        None => false,
    }
}

/// Whether an entry of a semantic convention directory is a semantic
/// convention file: a file with the extension `yaml` or `yml`, other than
/// `schema-next.yaml`.
pub fn is_semantic_convention_file(is_file: bool, extension: &str, file_name: &str) -> (r: bool)
    ensures
        r == (is_file && (extension@ == "yaml"@ || extension@ == "yml"@) && file_name@ != "schema-next.yaml"@),
{
    let ext = extension.to_owned();
    let name = file_name.to_owned();
    is_file && (same_text(&ext, "yaml") || same_text(&ext, "yml")) && !same_text(&name, "schema-next.yaml")
}

} // verus!
