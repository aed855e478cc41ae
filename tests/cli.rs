use std::path::PathBuf;

use route_match::cli::{output_format, Encoding, MergeArgs, OutputFormat, TemplateSource, TemplateVar};
use route_match::{HttpMethodProvider, UrlPathProvider};

fn args() -> MergeArgs {
    MergeArgs {
        file: None,
        json: None,
        yaml: None,
        encoding: None,
        template_vars: vec![],
        output: None,
        output_format: None,
        working_directory: None,
        verbose: false,
        use_version_2: false,
    }
}

fn var(key: &str, value: &str) -> TemplateVar {
    TemplateVar { key: key.to_string(), value: value.to_string() }
}

#[test]
fn template_var_splits_at_the_first_equals() {
    assert_eq!(
        TemplateVar::parse("addr=https://url-of.func.com"),
        Ok(var("addr", "https://url-of.func.com"))
    );
    assert_eq!(TemplateVar::parse("a=b=c"), Ok(var("a", "b=c")));
    assert_eq!(TemplateVar::parse("=x"), Ok(var("", "x")));
    assert_eq!(TemplateVar::parse("k="), Ok(var("k", "")));
    let parsed: TemplateVar = "k=v".parse().unwrap();
    assert_eq!(parsed, var("k", "v"));
}

#[test]
fn template_var_without_value_is_refused() {
    assert_eq!(
        TemplateVar::parse("novalue"),
        Err("Missing value in 'novalue'. Expected format: key=value".to_string())
    );
}

#[test]
fn encoding_follows_the_extension() {
    assert_eq!(Encoding::from_extension("json"), Some(Encoding::Json));
    assert_eq!(Encoding::from_extension("yaml"), Some(Encoding::Yaml));
    assert_eq!(Encoding::from_extension("yml"), Some(Encoding::Yaml));
    assert_eq!(Encoding::from_extension("txt"), None);
    assert_eq!(Encoding::from_extension("JSON"), None);
}

#[test]
fn output_format_for_each_encoding() {
    assert_eq!(output_format(Some(Encoding::Yaml)), OutputFormat::Yaml);
    assert_eq!(output_format(Some(Encoding::Yml)), OutputFormat::Json);
    assert_eq!(output_format(Some(Encoding::Json)), OutputFormat::PrettyJson);
    assert_eq!(output_format(None), OutputFormat::PrettyJson);
}

#[test]
fn template_encoding_prefers_the_explicit_one() {
    let mut a = args();
    a.file = Some(PathBuf::from("t.yaml"));
    assert_eq!(a.template_encoding(Some("yaml")), Some(Encoding::Yaml));
    assert_eq!(a.template_encoding(Some("txt")), None);
    assert_eq!(a.template_encoding(None), None);
    a.encoding = Some(Encoding::Json);
    assert_eq!(a.template_encoding(Some("yaml")), Some(Encoding::Json));
    let mut b = args();
    b.json = Some("{}".to_string());
    assert_eq!(b.template_encoding(None), Some(Encoding::Json));
    let mut c = args();
    c.yaml = Some("a: 1".to_string());
    assert_eq!(c.template_encoding(None), Some(Encoding::Yaml));
    assert_eq!(args().template_encoding(None), None);
}

#[test]
fn fill_template_replaces_every_placeholder() {
    let mut a = args();
    a.template_vars = vec![var("addr", "https://url-of.func.com"), var("v", "2")];
    assert_eq!(
        a.fill_template("url: ${addr}/api/v${v} and ${addr}"),
        "url: https://url-of.func.com/api/v2 and https://url-of.func.com"
    );
    assert_eq!(a.fill_template("$addr {addr} ${other}"), "$addr {addr} ${other}");
    assert_eq!(a.fill_template(""), "");
}

#[test]
fn fill_template_applies_variables_in_order() {
    let mut a = args();
    a.template_vars = vec![var("a", "${b}"), var("b", "x")];
    assert_eq!(a.fill_template("${a}"), "x");
    a.template_vars = vec![var("b", "x"), var("a", "${b}")];
    assert_eq!(a.fill_template("${a}"), "${b}");
}

#[test]
fn working_dir_defaults_to_the_current_one() {
    let mut a = args();
    assert_eq!(a.working_dir(PathBuf::from("/cwd")), PathBuf::from("/cwd"));
    a.working_directory = Some(PathBuf::from("/w"));
    assert_eq!(a.working_dir(PathBuf::from("/cwd")), PathBuf::from("/w"));
}

#[test]
fn relative_path_resolves_against_the_working_dir() {
    let mut a = args();
    a.working_directory = Some(PathBuf::from("/w"));
    assert_eq!(
        a.relative_path(&PathBuf::from("spec.yaml"), PathBuf::from("/cwd")),
        PathBuf::from("/w/spec.yaml")
    );
    assert_eq!(
        a.relative_path(&PathBuf::from("/abs/spec.yaml"), PathBuf::from("/cwd")),
        PathBuf::from("/abs/spec.yaml")
    );
    let b = args();
    assert_eq!(
        b.relative_path(&PathBuf::from("s.json"), PathBuf::from("/cwd")),
        PathBuf::from("/cwd/s.json")
    );
}

#[test]
fn providers_lend_their_text() {
    let p: &str = "/a/b";
    assert_eq!(p.path_str(), "/a/b");
    assert_eq!("/c".to_string().path_str(), "/c");
    let m: &str = "GET";
    assert_eq!(m.method_str(), "GET");
    assert_eq!("PUT".to_string().method_str(), "PUT");
}

#[test]
fn template_source_prefers_file_then_json_then_yaml() {
    let mut a = args();
    assert!(a.template_source().is_none());
    a.yaml = Some("y: 1".to_string());
    assert!(matches!(a.template_source(), Some(TemplateSource::Text(t)) if t == "y: 1"));
    a.json = Some("{}".to_string());
    assert!(matches!(a.template_source(), Some(TemplateSource::Text(t)) if t == "{}"));
    a.file = Some(PathBuf::from("t.json"));
    assert!(matches!(a.template_source(), Some(TemplateSource::File(f)) if f == &PathBuf::from("t.json")));
}
