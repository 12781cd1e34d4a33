use std::sync::{Arc, Mutex};

use weaver::cache::Error as CacheError;
use weaver::template::config::{CaseConvention, DynamicGlobalConfig, LanguageConfig};
use weaver::template::filters::{
    comment, convert_case, instrument, push_comment_lines, not_required, required, uppercase_first_letter, CaseConverter, CommentItem, CommentValue,
    TypeMapping,
};
use weaver::template::functions::FunctionConfig;
use weaver::template::sdkgen::{generated_file_name, lang_dir_tree, template_kind, templates_pattern, TemplateKind};
use weaver::template::testers::{is_not_required, is_required, LevelOf};
use weaver::template::{Error, GeneratorConfig};
use weaver::text_map::TextMap;

#[test]
fn instrument_filter_names() {
    assert_eq!(instrument(&"counter".to_string()), Ok("counter".to_string()));
    assert_eq!(instrument(&"gauge".to_string()), Ok("gauge".to_string()));
    assert_eq!(instrument(&"histogram".to_string()), Ok("histogram".to_string()));
    assert_eq!(instrument(&"updowncounter".to_string()), Ok("up_down_counter".to_string()));
    assert_eq!(
        instrument(&"summary".to_string()),
        Err("Filter instrument: unknown metric instrument summary".to_string())
    );
}

#[test]
fn requirement_filters_split_the_values() {
    let values = vec![
        LevelOf::Level("required".to_string()),
        LevelOf::Level("recommended".to_string()),
        LevelOf::NoLevel,
        LevelOf::NotAnObject,
        LevelOf::Missing,
        LevelOf::Level("required".to_string()),
    ];
    assert_eq!(required(&values), vec![0, 3, 4, 5]);
    assert_eq!(not_required(&values), vec![1, 2, 3, 4]);
    assert!(required(&[]).is_empty());
}

#[test]
fn requirement_testers() {
    assert!(is_required(&LevelOf::Level("required".to_string())));
    assert!(!is_required(&LevelOf::Level("opt_in".to_string())));
    assert!(!is_required(&LevelOf::NoLevel));
    assert!(!is_required(&LevelOf::Missing));
    assert!(is_not_required(&LevelOf::NotAnObject));
    assert!(!is_not_required(&LevelOf::Level("required".to_string())));
}

#[test]
fn type_mapping_filter() {
    let mut mapping = TextMap::new();
    mapping.insert("int".to_string(), "i64".to_string());
    let filter = TypeMapping { type_mapping: mapping };
    assert_eq!(filter.map_type(&"int".to_string()), Ok("i64".to_string()));
    assert_eq!(
        filter.map_type(&"double".to_string()),
        Err("Filter type_mapping: could not find a conversion for double. To resolve this, create or extend the type_mapping in the config.yaml file."
            .to_string())
    );
    assert_eq!(LanguageConfig::default().type_mapping.len(), 0);
}

#[test]
fn uppercase_first_letter_filter() {
    assert_eq!(uppercase_first_letter("hello world"), "Hello world");
    assert_eq!(uppercase_first_letter("Already"), "Already");
    assert_eq!(uppercase_first_letter(""), "");
    assert_eq!(uppercase_first_letter("ßtraße"), "SStraße");
    assert_eq!(uppercase_first_letter("émile"), "Émile");
}

#[test]
fn comment_filter_wraps_text() {
    assert_eq!(comment(&CommentValue::Text("A short comment.   ".to_string()), &None), "A short comment.");
    let long = "word ".repeat(30);
    let wrapped = comment(&CommentValue::Text(long.clone()), &Some("/// ".to_string()));
    let lines: Vec<&str> = wrapped.split('\n').collect();
    assert_eq!(lines.len(), 2);
    assert!(lines[0].len() <= 80);
    assert!(!lines[0].ends_with(' '));
    assert!(lines[1].starts_with("/// word"));
    assert_eq!(lines[0].split(' ').count() + lines[1].split(' ').count() - 1, 30);
    assert_eq!(comment(&CommentValue::Other, &Some("// ".to_string())), "");
}

#[test]
fn comment_filter_lists() {
    let value = CommentValue::List(vec![
        CommentItem::Text("First.".to_string()),
        CommentItem::Other,
        CommentItem::List(vec![Some("one".to_string()), None, Some("two".to_string())]),
    ]);
    assert_eq!(comment(&value, &Some("# ".to_string())), "First.\n# - one\n# - two");
    assert_eq!(comment(&value, &None), "First.\n- one\n- two");
}

#[test]
fn template_kinds() {
    assert_eq!(template_kind("lang/x.macro.tera", Some("x.macro")), TemplateKind::Macro);
    assert_eq!(template_kind("lang/univariate_metric.tera", Some("univariate_metric")), TemplateKind::UnivariateMetric);
    assert_eq!(template_kind("lang/multivariate_metric.tera", Some("multivariate_metric")), TemplateKind::MultivariateMetric);
    assert_eq!(template_kind("lang/log.tera", Some("log")), TemplateKind::Log);
    assert_eq!(template_kind("lang/span.tera", Some("span")), TemplateKind::Span);
    assert_eq!(template_kind("lang/otel.tera", Some("otel")), TemplateKind::Other);
    assert_eq!(template_kind("lang/none", None), TemplateKind::Other);
}

#[test]
fn template_patterns() {
    assert_eq!(lang_dir_tree("templates/rust"), "templates/rust/**/*.tera");
    assert_eq!(templates_pattern(""), "**/*.tera");
    assert_eq!(templates_pattern("templates/go"), "templates/go/**/*.tera");
    assert_eq!(GeneratorConfig::default().template_dir, "templates");
}

#[test]
fn generated_file_names() {
    let mut config = DynamicGlobalConfig::default();
    match generated_file_name(&config, "span.tera") {
        Err(Error::TemplateFileNameUndefined { template }) => assert_eq!(template, "span.tera"),
        _ => panic!("expected an undefined file name"),
    }
    config.file_name = Some("span.rs".to_string());
    match generated_file_name(&config, "span.tera") {
        Ok(name) => assert_eq!(name, "span.rs"),
        _ => panic!("expected a file name"),
    }
    config.reset();
    assert!(config.file_name.is_none());
    config.set_file_name(Some("log.rs"));
    assert_eq!(config.file_name.as_deref(), Some("log.rs"));
    config.set_file_name(None);
    assert_eq!(config.file_name.as_deref(), Some("log.rs"));
}

#[test]
fn filter_and_function_constructors() {
    let converter = CaseConverter::new(CaseConvention::SnakeCase, "snake_case");
    assert_eq!(converter.case, CaseConvention::SnakeCase);
    assert_eq!(converter.filter_name, "snake_case");
    let shared = Arc::new(Mutex::new(DynamicGlobalConfig::default()));
    let function = FunctionConfig::new(shared.clone());
    function.config.lock().unwrap().file_name = Some("out.rs".to_string());
    assert_eq!(shared.lock().unwrap().file_name.as_deref(), Some("out.rs"));
}

#[test]
fn cache_error_texts() {
    assert_eq!(CacheError::HomeDirNotFound.to_text(), "Home directory not found");
    assert_eq!(
        CacheError::CacheDirNotCreated { message: "denied".to_string() }.to_text(),
        "Cache directory not created: denied"
    );
    assert_eq!(
        CacheError::GitRepoNotCreated { repo_url: "u".to_string(), message: "m".to_string() }.to_text(),
        "Git repo `u` not created: m"
    );
    assert_eq!(
        CacheError::GitError { repo_url: "u".to_string(), message: "m".to_string() }.to_text(),
        "Git error occurred while cloning `u`: m"
    );
}

#[test]
fn case_conventions() {
    assert_eq!(convert_case(CaseConvention::SnakeCase, "http.request_method"), "http_request_method");
    assert_eq!(convert_case(CaseConvention::SnakeCase, "myVariableName"), "my_variable_name");
    assert_eq!(convert_case(CaseConvention::SnakeCase, "__a__b__"), "a_b");
    assert_eq!(convert_case(CaseConvention::PascalCase, "http_request method"), "HttpRequestMethod");
    assert_eq!(convert_case(CaseConvention::CamelCase, "http_request-method"), "httpRequestMethod");
    assert_eq!(convert_case(CaseConvention::CamelCase, "HTTPServer"), "httpserver");
    assert_eq!(convert_case(CaseConvention::KebabCase, "My Variable"), "my-variable");
    assert_eq!(convert_case(CaseConvention::TitleCase, "hello_world"), "Hello World");
    assert_eq!(convert_case(CaseConvention::ScreamingSnakeCase, "foo.barBaz"), "FOO_BAR_BAZ");
    assert_eq!(convert_case(CaseConvention::ScreamingKebabCase, "foo.bar2Baz"), "FOO-BAR2-BAZ");
    assert_eq!(convert_case(CaseConvention::UpperCase, "a-b"), "A B");
    assert_eq!(convert_case(CaseConvention::LowerCase, "Foo Bar"), "foo bar");
    assert_eq!(convert_case(CaseConvention::SnakeCase, ""), "");
    assert_eq!(convert_case(CaseConvention::PascalCase, "éclair_au_chocolat"), "ÉclairAuChocolat");
    let converter = CaseConverter::new(CaseConvention::KebabCase, "file_name");
    assert_eq!(converter.convert("SpanName"), "span-name");
}

#[test]
fn comment_lines_from_wrapped_lines() {
    let mut lines = vec!["first".to_string()];
    let wrapped = vec!["alpha  ".to_string(), "beta\u{3000}\t".to_string(), "".to_string()];
    push_comment_lines("// ", &wrapped, &mut lines);
    assert_eq!(lines, vec!["first", "// alpha", "// beta", "// "]);
    assert_eq!(comment(&CommentValue::Text("ideographic\u{3000}\u{2029}".to_string()), &None), "ideographic");
}
