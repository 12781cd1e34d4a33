//! The decisions of the client SDK generator: which templates it renders,
//! how, and where their output goes.
use vstd::prelude::*;
use crate::template::Error;
use crate::template::config::DynamicGlobalConfig;
use crate::text::same_text;

verus! {

/// How a template file is processed.
#[derive(Clone, Copy, Debug, PartialEq, Eq, Structural)]
pub enum TemplateKind {
    /// A file of macros, included by other templates: not rendered itself.
    Macro,
    /// Rendered once for each univariate metric.
    UnivariateMetric,
    /// Rendered once for each metric group.
    MultivariateMetric,
    /// Rendered once for each event.
    Log,
    /// Rendered once for each span.
    Span,
    /// Rendered once, for the whole schema.
    Other,
}

/// Whether a text ends with another.
pub open spec fn ends_with(s: Seq<char>, suffix: Seq<char>) -> bool {
    s.len() >= suffix.len() && s.subrange(s.len() - suffix.len(), s.len() as int) == suffix
}

/// How a template file is processed, by its path and the stem of its name:
/// a `.macro.tera` file is a macro file; the stems `univariate_metric`,
/// `multivariate_metric`, `log` and `span` name the templates rendered for
/// each item of their kind.
pub open spec fn kind_of(tmpl_file: Seq<char>, file_stem: Option<Seq<char>>) -> TemplateKind {
    if ends_with(tmpl_file, ".macro.tera"@) {
        TemplateKind::Macro
    } else if file_stem == Some("univariate_metric"@) {
        TemplateKind::UnivariateMetric
    } else if file_stem == Some("multivariate_metric"@) {
        TemplateKind::MultivariateMetric
    } else if file_stem == Some("log"@) {
        TemplateKind::Log
    } else if file_stem == Some("span"@) {
        TemplateKind::Span
    } else {
        TemplateKind::Other
    }
}

/// Whether a text ends with another.
fn text_ends_with(s: &str, suffix: &str) -> (r: bool)
    ensures
        r == ends_with(s@, suffix@),
{
    let n = s.unicode_len();
    let k = suffix.unicode_len();
    if n < k {
        false
    } else {
        let tail = s.substring_char(n - k, n);
        let tail_text = tail.to_owned();
        same_text(&tail_text, suffix)
    }
}

/// How a template file is processed.
pub fn template_kind(tmpl_file: &str, file_stem: Option<&str>) -> (r: TemplateKind)
    ensures
        r == kind_of(
            tmpl_file@,
            match file_stem {
                Some(s) => Some(s@),
                None => None,
            },
        ),
{
    if text_ends_with(tmpl_file, ".macro.tera") {
        return TemplateKind::Macro;
    }
    match file_stem {
        Some(stem) => {
            let stem_text = stem.to_owned();
            if same_text(&stem_text, "univariate_metric") {
                TemplateKind::UnivariateMetric
            } else if same_text(&stem_text, "multivariate_metric") {
                TemplateKind::MultivariateMetric
            } else if same_text(&stem_text, "log") {
                TemplateKind::Log
            } else if same_text(&stem_text, "span") {
                TemplateKind::Span
            } else {
                TemplateKind::Other
            }
        },
        None => TemplateKind::Other,
    }
}

/// The glob pattern of the templates under a language directory.
pub fn lang_dir_tree(dir: &str) -> (r: String)
    ensures
        r@ == dir@ + "/**/*.tera"@,
{
    let mut pattern = dir.to_owned();
    pattern.append("/**/*.tera");
    pattern
}

/// The glob pattern of the templates to generate from: those under the
/// language directory, or under the working directory when it has no name.
pub fn templates_pattern(lang_path: &str) -> (r: String)
    ensures
        r@ == if lang_path@.len() == 0 {
            "**/*.tera"@
        } else {
            lang_path@ + "/**/*.tera"@
        },
{
    if lang_path.unicode_len() == 0 {
        "**/*.tera".to_owned()
    } else {
        lang_dir_tree(lang_path)
    }
}

/// The file that a template rendered for one item generates: the file name
/// that the template set in the configuration; an error when it set none.
pub fn generated_file_name(config: &DynamicGlobalConfig, tmpl_file: &str) -> (r: Result<String, Error>)
    ensures
        match config.file_name {
            Some(f) => r matches Ok(x) && x@ == f@,
            None => r matches Err(Error::TemplateFileNameUndefined { template }) && template@ == tmpl_file@,
        },
{
    match &config.file_name {
        None => Err(Error::TemplateFileNameUndefined { template: tmpl_file.to_owned() }),
        Some(file_name) => Ok(file_name.clone()),
    }
}

} // verus!
