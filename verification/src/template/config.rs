//! Configuration of the templates of a language.
use vstd::prelude::*;
use crate::text_map::TextMap;

verus! {

/// The configuration of the templates of a language.
pub struct LanguageConfig {
    /// The language type of each OpenTelemetry type.
    pub type_mapping: TextMap,
}

impl Default for LanguageConfig {
    fn default() -> (r: Self)
        ensures
            r.type_mapping@ == Map::<Seq<char>, Seq<char>>::empty(),
    {
        LanguageConfig { type_mapping: TextMap::new() }
    }
}

/// Configuration that templates set while they are rendered.
pub struct DynamicGlobalConfig {
    /// The name of the file that the template generates.
    pub file_name: Option<String>,
}

impl Default for DynamicGlobalConfig {
    fn default() -> (r: Self)
        ensures
            r.file_name is None,
    {
        DynamicGlobalConfig { file_name: None }
    }
}

impl DynamicGlobalConfig {
    /// Forgets the file name set by the last template rendered.
    pub fn reset(&mut self)
        ensures
            final(self).file_name is None,
    {
        self.file_name = None;
    }

    /// What the `config` function of templates does: a file name given as
    /// argument becomes the name of the file that the template generates;
    /// without one the configuration is left as it is.
    pub fn set_file_name(&mut self, file_name: Option<&str>)
        ensures
            match file_name {
                Some(n) => final(self).file_name matches Some(f) && f@ == n@,
                None => final(self).file_name == old(self).file_name,
            },
    {
        match file_name {
            Some(n) => {
                self.file_name = Some(n.to_owned());
            },
            None => {},
        }
    }
}

/// A convention for the case of names.
#[derive(Clone, Copy, Debug, PartialEq, Eq, Structural)]
pub enum CaseConvention {
    /// lowercase.
    LowerCase,
    /// UPPERCASE.
    UpperCase,
    /// Title Case.
    TitleCase,
    /// PascalCase.
    PascalCase,
    /// camelCase.
    CamelCase,
    /// snake_case.
    SnakeCase,
    /// SCREAMING_SNAKE_CASE.
    ScreamingSnakeCase,
    /// kebab-case.
    KebabCase,
    /// SCREAMING-KEBAB-CASE.
    ScreamingKebabCase,
}

} // verus!
