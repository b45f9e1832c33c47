use template_input::args::{Print, Source, TemplateArgs};
use template_input::error::{CompileError, ErrorKind};
use template_input::media::{extension_to_mime_type, text_type};
use template_input::template::{Config, Escaper, TemplateInput};

fn config() -> Config {
    Config {
        syntaxes: vec!["default".to_string(), "custom".to_string()],
        default_syntax: "default".to_string(),
        escapers: vec![
            Escaper {
                extensions: vec!["html".to_string(), "htm".to_string(), "svg".to_string()],
                path: "filters::Html".to_string(),
            },
            Escaper {
                extensions: vec!["md".to_string(), "none".to_string(), "txt".to_string(), "".to_string()],
                path: "filters::Text".to_string(),
            },
            Escaper { extensions: vec!["html".to_string()], path: "never::Reached".to_string() },
        ],
        valid_escapers: "The available extensions are: \"\", \"htm\", \"html\"".to_string(),
    }
}

fn from_path(name: &str) -> TemplateArgs {
    TemplateArgs { source: Some(Source::Path(name.to_string())), ..TemplateArgs::default() }
}

fn inline(text: &str, ext: Option<&str>) -> TemplateArgs {
    TemplateArgs {
        source: Some(Source::Source(text.to_string())),
        ext: ext.map(|e| e.to_string()),
        ..TemplateArgs::default()
    }
}

#[test]
fn guessed_media_types_of_text_get_a_charset() {
    assert_eq!(extension_to_mime_type("html"), mime::TEXT_HTML_UTF_8.to_string());
    assert_eq!(extension_to_mime_type("html"), "text/html; charset=utf-8");
    assert_eq!(extension_to_mime_type("txt"), "text/plain; charset=utf-8");
    assert_eq!(extension_to_mime_type("css"), "text/css; charset=utf-8");
    assert_eq!(extension_to_mime_type("csv"), "text/csv; charset=utf-8");
    assert_eq!(extension_to_mime_type("tsv"), "text/tab-separated-values; charset=utf-8");
    assert_eq!(extension_to_mime_type("HTML"), "text/html; charset=utf-8");
}

#[test]
fn other_media_types_stay_as_guessed() {
    assert_eq!(extension_to_mime_type("svg"), "image/svg+xml");
    assert_eq!(extension_to_mime_type("png"), "image/png");
    assert_eq!(extension_to_mime_type("json"), "application/json");
    assert_eq!(extension_to_mime_type(""), "application/octet-stream");
    assert_eq!(extension_to_mime_type("no-such-extension"), "application/octet-stream");
}

#[test]
fn media_type_agrees_with_comparing_mime_values() {
    let text_types = [
        (mime::TEXT_PLAIN, mime::TEXT_PLAIN_UTF_8),
        (mime::TEXT_HTML, mime::TEXT_HTML_UTF_8),
        (mime::TEXT_CSS, mime::TEXT_CSS_UTF_8),
        (mime::TEXT_CSV, mime::TEXT_CSV_UTF_8),
        (mime::TEXT_TAB_SEPARATED_VALUES, mime::TEXT_TAB_SEPARATED_VALUES_UTF_8),
        (mime::APPLICATION_JAVASCRIPT, mime::APPLICATION_JAVASCRIPT_UTF_8),
        (mime::IMAGE_SVG, mime::IMAGE_SVG),
    ];
    for ext in [
        "txt", "html", "htm", "css", "csv", "tsv", "js", "mjs", "svg", "xml", "json", "md",
        "rs", "toml", "yaml", "pdf", "jpeg", "wasm", "TXT", "unknown", "",
    ] {
        let basic = mime_guess::from_ext(ext).first_or_octet_stream();
        let mut expected = basic.clone();
        for (simple, utf_8) in &text_types {
            if &basic == simple {
                expected = utf_8.clone();
                break;
            }
        }
        assert_eq!(extension_to_mime_type(ext), expected.to_string(), "{}", ext);
    }
}

#[test]
fn text_type_maps_exactly_the_textual_types() {
    assert_eq!(text_type("text/plain".to_string()), "text/plain; charset=utf-8");
    assert_eq!(
        text_type("application/javascript".to_string()),
        "application/javascript; charset=utf-8"
    );
    assert_eq!(text_type("text/plain; charset=utf-8".to_string()), "text/plain; charset=utf-8");
    assert_eq!(text_type("text/markdown".to_string()), "text/markdown");
    assert_eq!(text_type("image/svg+xml".to_string()), "image/svg+xml");
    assert_eq!(text_type("".to_string()), "");
}

#[test]
fn template_name_is_given_for_files_only() {
    assert_eq!(TemplateInput::template_name(&from_path("a.html")), Some(&"a.html".to_string()));
    assert_eq!(TemplateInput::template_name(&inline("x", Some("txt"))), None);
    assert_eq!(TemplateInput::template_name(&TemplateArgs::default()), None);
}

#[test]
fn input_of_a_template_file() {
    let args = from_path("hello.html");
    let input = TemplateInput::new(
        "Hello",
        &config(),
        &args,
        Some(Ok("/templates/hello.html".to_string())),
    )
    .unwrap();
    assert_eq!(
        input,
        TemplateInput {
            source: Source::Path("hello.html".to_string()),
            block: None,
            print: Print::Nothing,
            syntax: "default".to_string(),
            escaper: "filters::Html".to_string(),
            ext: None,
            mime_type: "text/html; charset=utf-8".to_string(),
            path: "/templates/hello.html".to_string(),
        }
    );
    assert_eq!(input.extension(), Some("html"));
}

#[test]
fn input_of_inline_source_gets_a_path_from_name_and_extension() {
    let args = inline("{{ x }}", Some("txt"));
    let input = TemplateInput::new("Hello", &config(), &args, None).unwrap();
    assert_eq!(input.path, "Hello.txt");
    assert_eq!(input.escaper, "filters::Text");
    assert_eq!(input.mime_type, "text/plain; charset=utf-8");
    assert_eq!(input.ext, Some("txt".to_string()));
    assert_eq!(input.extension(), Some("txt"));
    assert_eq!(input.source, Source::Source("{{ x }}".to_string()));
}

#[test]
fn input_of_inline_source_without_extension_is_rejected() {
    let args = inline("{{ x }}", None);
    let e = TemplateInput::new("Hello", &config(), &args, None).unwrap_err();
    assert_eq!(e.kind, ErrorKind::Attribute);
    assert_eq!(e.message, "must include 'ext' attribute when using 'source' attribute");
}

#[test]
fn input_hands_on_the_failure_to_locate_the_file() {
    let failure = CompileError::no_file_info(
        ErrorKind::Resolution,
        "template \"x.html\" not found".to_string(),
    );
    let e = TemplateInput::new("X", &config(), &from_path("x.html"), Some(Err(failure.clone())))
        .unwrap_err();
    assert_eq!(e, failure);
}

#[test]
fn input_with_unknown_syntax_is_rejected() {
    let mut args = from_path("a.html");
    args.syntax = Some("mine".to_string());
    let e = TemplateInput::new("A", &config(), &args, Some(Ok("a.html".to_string()))).unwrap_err();
    assert_eq!(e.message, "attribute syntax mine not exist");
    args.syntax = Some("custom".to_string());
    let input = TemplateInput::new("A", &config(), &args, Some(Ok("a.html".to_string()))).unwrap();
    assert_eq!(input.syntax, "custom");
}

#[test]
fn input_without_escaper_for_the_extension_is_rejected() {
    let e = TemplateInput::new(
        "A",
        &config(),
        &from_path("a.tex.j2"),
        Some(Ok("t/a.tex.j2".to_string())),
    )
    .unwrap_err();
    assert_eq!(e.kind, ErrorKind::Attribute);
    assert_eq!(
        e.message,
        "no escaper defined for extension 'j2'. The available extensions are: \"\", \"htm\", \"html\""
    );
}

#[test]
fn input_escaper_follows_escape_argument_then_path_then_nothing() {
    let mut args = from_path("a.html");
    args.escaping = Some("none".to_string());
    let input = TemplateInput::new("A", &config(), &args, Some(Ok("a.html".to_string()))).unwrap();
    assert_eq!(input.escaper, "filters::Text");

    let input =
        TemplateInput::new("A", &config(), &from_path("a"), Some(Ok("dir.d/a".to_string())))
            .unwrap();
    assert_eq!(input.escaper, "filters::Text");
    assert_eq!(input.mime_type, "text/plain; charset=utf-8");
    assert_eq!(input.extension(), None);
}

#[test]
fn input_media_type_skips_the_template_marker_but_the_escaper_does_not() {
    let mut cfg = config();
    cfg.escapers[1].extensions.push("jinja".to_string());
    let input = TemplateInput::new(
        "A",
        &cfg,
        &from_path("a.svg.jinja"),
        Some(Ok("a.svg.jinja".to_string())),
    )
    .unwrap();
    assert_eq!(input.escaper, "filters::Text");
    assert_eq!(input.mime_type, "image/svg+xml");
    assert_eq!(input.extension(), Some("svg"));
}

#[test]
fn input_keeps_block_print_and_ext() {
    let mut args = from_path("a.html");
    args.block = Some("body".to_string());
    args.print = Print::Ast;
    args.ext = Some("txt".to_string());
    let input = TemplateInput::new("A", &config(), &args, Some(Ok("a.html".to_string()))).unwrap();
    assert_eq!(input.block, Some("body".to_string()));
    assert_eq!(input.print, Print::Ast);
    assert_eq!(input.ext, Some("txt".to_string()));
    assert_eq!(input.escaper, "filters::Html");
    assert_eq!(input.mime_type, "text/plain; charset=utf-8");
    assert_eq!(input.extension(), Some("txt"));
}
