//! Client SDK generation from templates: the generator's configuration, the
//! filters, functions and testers that templates use, and the decisions of
//! the generator.
pub mod config;
pub mod filters;
pub mod functions;
pub mod testers;
pub mod sdkgen;

use vstd::prelude::*;

verus! {

/// An error that can occur while generating a client SDK.
pub enum Error {
    /// Language not found.
    LanguageNotSupported(String),
    /// Invalid template directory.
    InvalidTemplateDirectory(String),
    /// Invalid template file.
    InvalidTemplateFile(String),
    /// Invalid template.
    InvalidTemplate {
        /// Template directory.
        template: String,
        /// Error message.
        error: String,
    },
    /// Invalid telemetry schema.
    InvalidTelemetrySchema {
        /// Schema file.
        schema: String,
        /// Error message.
        error: String,
    },
    /// Invalid configuration file.
    InvalidConfigFile {
        /// Configuration file.
        config_file: String,
        /// Error message.
        error: String,
    },
    /// The template does not set the name of the file it generates.
    TemplateFileNameUndefined {
        /// Template file.
        template: String,
    },
    /// Writing the generated code failed.
    WriteGeneratedCodeFailed {
        /// Generated file.
        template: String,
        /// Error message.
        error: String,
    },
    /// An internal error.
    InternalError(String),
}

/// General configuration for the generator.
pub struct GeneratorConfig {
    /// The directory of the templates, one sub-directory per language.
    pub template_dir: String,
}

impl Default for GeneratorConfig {
    /// Create a new generator configuration with default values.
    fn default() -> (r: Self)
        ensures
            r.template_dir@ == "templates"@,
    {
        GeneratorConfig { template_dir: "templates".to_owned() }
    }
}

} // verus!
