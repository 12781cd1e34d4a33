//! Telemetry schemas: their attributes, signals and versions, and where a
//! schema is loaded from.
pub mod attribute;
pub mod metric;
pub mod spec;

use vstd::prelude::*;
use crate::text::{quoted, quoted_text, same_text};
use crate::schema::spec::SchemaSpec;
use crate::version::{Versions, merge_versions};

verus! {

/// An error that can occur while loading a telemetry schema.
pub enum Error {
    /// The telemetry schema was not found.
    SchemaNotFound {
        /// The path or URL of the telemetry schema.
        path_or_url: String,
        /// The error that occurred.
        error: String,
    },
    /// The telemetry schema is invalid.
    InvalidSchema {
        /// The path or URL of the telemetry schema.
        path_or_url: String,
        /// The line where the error occurred.
        line: Option<usize>,
        /// The column where the error occurred.
        column: Option<usize>,
        /// The error that occurred.
        error: String,
    },
    /// An invalid attribute.
    InvalidAttribute {
        /// The attribute id.
        id: String,
        /// The error that occurred.
        error: String,
    },
}

/// The content of a schema error.
pub enum ErrorView {
    /// The telemetry schema was not found.
    SchemaNotFound { path_or_url: Seq<char>, error: Seq<char> },
    /// The telemetry schema is invalid.
    InvalidSchema { path_or_url: Seq<char>, line: Option<usize>, column: Option<usize>, error: Seq<char> },
    /// An invalid attribute.
    InvalidAttribute { id: Seq<char>, error: Seq<char> },
}

impl View for Error {
    type V = ErrorView;

    open spec fn view(&self) -> ErrorView {
        match self {
            Error::SchemaNotFound { path_or_url, error } => ErrorView::SchemaNotFound {
                path_or_url: path_or_url@,
                error: error@,
            },
            Error::InvalidSchema { path_or_url, line, column, error } => ErrorView::InvalidSchema {
                path_or_url: path_or_url@,
                line: *line,
                column: *column,
                error: error@,
            },
            Error::InvalidAttribute { id, error } => ErrorView::InvalidAttribute { id: id@, error: error@ },
        }
    }
}

/// The text that reports a schema error.
pub open spec fn error_text(e: ErrorView) -> Seq<char> {
    match e {
        ErrorView::SchemaNotFound { path_or_url, error } => "Schema "@ + quoted(path_or_url) + " not found\n"@
            + quoted(error),
        ErrorView::InvalidSchema { path_or_url, error, .. } => "Invalid schema "@ + quoted(path_or_url) + "\n"@
            + quoted(error),
        ErrorView::InvalidAttribute { id, error } => "Invalid attribute `"@ + quoted(id) + "`\n"@ + quoted(error),
    }
}

impl Error {
    /// The text that reports the error.
    pub fn to_text(&self) -> (r: String)
        ensures
            r@ == error_text(self@),
    {
        let mut out = String::new();
        match self {
            Error::SchemaNotFound { path_or_url, error } => {
                out.append("Schema ");
                out.append(quoted_text(path_or_url.as_str()).as_str());
                out.append(" not found\n");
                out.append(quoted_text(error.as_str()).as_str());
            },
            Error::InvalidSchema { path_or_url, error, .. } => {
                out.append("Invalid schema ");
                out.append(quoted_text(path_or_url.as_str()).as_str());
                out.append("\n");
                out.append(quoted_text(error.as_str()).as_str());
            },
            Error::InvalidAttribute { id, error } => {
                out.append("Invalid attribute `");
                out.append(quoted_text(id.as_str()).as_str());
                out.append("`\n");
                out.append(quoted_text(error.as_str()).as_str());
            },
        }
        proof {
            assert(out@ =~= error_text(self@));
        }
        out
    }
}

/// A telemetry schema.
pub struct TelemetrySchema {
    /// Version of the file structure.
    pub file_format: String,
    /// Parent schema URL.
    pub parent_schema_url: Option<String>,
    /// The schema URL that this file is published at.
    pub schema_url: String,
    /// The semantic conventions that are imported by the current schema
    /// (optional).
    pub semantic_conventions: Vec<SemConvImport>,
    /// Definition of the telemetry schema for an application or a library.
    pub schema: Option<SchemaSpec>,
    /// Definitions for each schema version in this family.
    pub versions: Option<Versions>,
}

/// A semantic convention import.
pub struct SemConvImport {
    /// The URL of the semantic convention.
    pub url: String,
}

/// A URL as the `url` crate parses it.
pub struct ParsedUrl {
    /// The scheme of the URL.
    pub scheme: String,
    /// The path of the URL.
    pub path: String,
    /// The serialization of the URL.
    pub text: String,
}

impl View for ParsedUrl {
    type V = (Seq<char>, Seq<char>, Seq<char>);

    open spec fn view(&self) -> (Seq<char>, Seq<char>, Seq<char>) {
        (self.scheme@, self.path@, self.text@)
    }
}

/// What `url::Url::parse` gives for a text: the scheme, path and
/// serialization of the URL, or the text of the parse error.
pub uninterp spec fn url_parse(text: Seq<char>) -> Result<(Seq<char>, Seq<char>, Seq<char>), Seq<char>>;

/// Parses a URL with `url::Url::parse`. The contract claims only that the
/// outcome is a function of the text: the scheme, path and serialization of
/// the parsed URL (`Url::scheme`, `Url::path`, `Url::as_str`), or the text of
/// the parse error (its `Display`), as `url_parse` names them.
#[verifier::external_body]
pub fn parse_url(text: &str) -> (r: Result<ParsedUrl, String>)
    ensures
        match r {
            Ok(u) => url_parse(text@) == Ok::<(Seq<char>, Seq<char>, Seq<char>), Seq<char>>(u@),
            Err(e) => url_parse(text@) == Err::<(Seq<char>, Seq<char>, Seq<char>), Seq<char>>(e@),
        },
{
    match url::Url::parse(text) {
        Ok(u) => Ok(ParsedUrl { scheme: u.scheme().to_string(), path: u.path().to_string(), text: u.as_str().to_string() }),
        Err(e) => Err(e.to_string()),
    }
}

/// Where a telemetry schema given by URL is read from.
pub enum SchemaSource {
    /// Fetched over HTTP(S) from this URL.
    Http(String),
    /// Read from the file at this path.
    File(String),
}

/// The content of a schema source.
pub enum SchemaSourceView {
    /// Fetched over HTTP(S).
    Http(Seq<char>),
    /// Read from a file.
    File(Seq<char>),
}

impl View for SchemaSource {
    type V = SchemaSourceView;

    open spec fn view(&self) -> SchemaSourceView {
        match self {
            SchemaSource::Http(u) => SchemaSourceView::Http(u@),
            SchemaSource::File(p) => SchemaSourceView::File(p@),
        }
    }
}

/// Where a schema given by URL is read from: an `http` or `https` URL is
/// fetched, a `file` URL names a file by its path; another scheme is an
/// error.
pub open spec fn url_source(url: (Seq<char>, Seq<char>, Seq<char>)) -> Result<SchemaSourceView, ErrorView> {
    let (scheme, path, text) = url;
    if scheme == "http"@ || scheme == "https"@ {
        Ok(SchemaSourceView::Http(text))
    } else if scheme == "file"@ {
        Ok(SchemaSourceView::File(path))
    } else {
        Err(ErrorView::SchemaNotFound { path_or_url: text, error: "Unsupported URL scheme: "@ + scheme })
    }
}

/// The URLs of semantic convention imports.
pub open spec fn import_urls(s: Seq<SemConvImport>) -> Seq<Seq<char>> {
    s.map_values(|i: SemConvImport| i.url@)
}

/// The imports of a schema merged with those of its parent: the parent's,
/// then the schema's own whose URL the parent does not import.
pub open spec fn merged_imports(parent: Seq<Seq<char>>, own: Seq<Seq<char>>) -> Seq<Seq<char>> {
    parent + own.filter(|u: Seq<char>| !parent.contains(u))
}

/// Whether a URL is among those of some imports.
fn imports_url(imports: &Vec<SemConvImport>, url: &String) -> (r: bool)
    ensures
        r == import_urls(imports@).contains(url@),
{
    let mut i: usize = 0;
    while i < imports.len()
        invariant
            i <= imports@.len(),
            forall|j: int| 0 <= j < i ==> imports@[j].url@ != url@,
        decreases imports@.len() - i,
    {
        if crate::text::same_string(&imports[i].url, url) {
            proof {
                assert(import_urls(imports@)[i as int] == url@);
            }
            return true;
        }
        i = i + 1;
    }
    proof {
        if import_urls(imports@).contains(url@) {
            let j = choose|j: int| 0 <= j < import_urls(imports@).len() && import_urls(imports@)[j] == url@;
            assert(imports@[j].url@ == url@);
        }
    }
    false
}

impl TelemetrySchema {
    /// Takes in what a schema has from its parent schema: the parent's
    /// semantic convention imports come first, followed by those of the
    /// schema that the parent does not import; the parent's versions are
    /// merged into the schema's, whose changes take precedence.
    pub fn merge_parent(&mut self, parent: TelemetrySchema)
        ensures
            import_urls(final(self).semantic_conventions@) == merged_imports(
                import_urls(parent.semantic_conventions@),
                import_urls(old(self).semantic_conventions@),
            ),
            match (old(self).versions, parent.versions) {
                (Some(v), Some(p)) => final(self).versions matches Some(f) && f@ == merge_versions(v@, p@),
                (None, Some(p)) => final(self).versions == Some(p),
                (_, None) => final(self).versions == old(self).versions,
            },
            final(self).file_format == old(self).file_format,
            final(self).parent_schema_url == old(self).parent_schema_url,
            final(self).schema_url == old(self).schema_url,
            final(self).schema == old(self).schema,
    {
        let TelemetrySchema { semantic_conventions: parent_imports, versions: parent_versions, .. } = parent;
        let ghost pv = import_urls(parent_imports@);
        let ghost ov = import_urls(self.semantic_conventions@);
        let ghost pred = |u: Seq<char>| !pv.contains(u);
        let mut merged: Vec<SemConvImport> = Vec::new();
        let mut i: usize = 0;
        while i < parent_imports.len()
            invariant
                i <= parent_imports@.len(),
                import_urls(merged@) == pv.subrange(0, i as int),
                pv == import_urls(parent_imports@),
            decreases parent_imports@.len() - i,
        {
            let ghost before = import_urls(merged@);
            let u = parent_imports[i].url.clone();
            proof {
                assert(pv[i as int] == u@);
            }
            merged.push(SemConvImport { url: u });
            proof {
                assert(import_urls(merged@) =~= before.push(pv[i as int]));
                assert(pv.subrange(0, i + 1) =~= pv.subrange(0, i as int).push(pv[i as int]));
            }
            i = i + 1;
        }
        proof {
            assert(pv.subrange(0, i as int) == pv);
            reveal(Seq::filter);
            assert(ov.subrange(0, 0).filter(pred) =~= Seq::<Seq<char>>::empty());
            assert(import_urls(merged@) =~= pv + ov.subrange(0, 0).filter(pred));
        }
        let mut j: usize = 0;
        while j < self.semantic_conventions.len()
            invariant
                j <= self.semantic_conventions@.len(),
                ov == import_urls(self.semantic_conventions@),
                pv == import_urls(parent_imports@),
                pred == (|u: Seq<char>| !pv.contains(u)),
                import_urls(merged@) == pv + ov.subrange(0, j as int).filter(pred),
            decreases self.semantic_conventions@.len() - j,
        {
            let url = &self.semantic_conventions[j].url;
            proof {
                reveal(Seq::filter);
                assert(ov.subrange(0, j + 1).drop_last() =~= ov.subrange(0, j as int));
                assert(ov.subrange(0, j + 1).last() == url@);
            }
            if !imports_url(&parent_imports, url) {
                let ghost before = import_urls(merged@);
                merged.push(SemConvImport { url: url.clone() });
                proof {
                    assert(import_urls(merged@) =~= before.push(url@));
                }
            }
            j = j + 1;
        }
        proof {
            assert(ov.subrange(0, j as int) == ov);
        }
        self.semantic_conventions = merged;
        let mut own: Option<Versions> = None;
        std::mem::swap(&mut own, &mut self.versions);
        match (own, parent_versions) {
            (Some(mut v), Some(p)) => {
                v.extend(p);
                self.versions = Some(v);
            },
            (None, Some(p)) => {
                self.versions = Some(p);
            },
            (o, None) => {
                self.versions = o;
            },
        }
    }

    /// Where the telemetry schema at a URL is read from.
    pub fn load_source(schema_url: &ParsedUrl) -> (r: Result<SchemaSource, Error>)
        ensures
            match url_source(schema_url@) {
                Ok(s) => r matches Ok(x) && x@ == s,
                Err(e) => r matches Err(x) && x@ == e,
            },
    {
        if same_text(&schema_url.scheme, "http") || same_text(&schema_url.scheme, "https") {
            Ok(SchemaSource::Http(schema_url.text.clone()))
        } else if same_text(&schema_url.scheme, "file") {
            Ok(SchemaSource::File(schema_url.path.clone()))
        } else {
            let mut error = "Unsupported URL scheme: ".to_owned();
            error.append(schema_url.scheme.as_str());
            Err(Error::SchemaNotFound { path_or_url: schema_url.text.clone(), error })
        }
    }
}

} // verus!
