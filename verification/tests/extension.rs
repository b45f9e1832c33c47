use template_input::path::{ext_default_to_path, extension, file_extension, file_name};

#[test]
fn test_ext() {
    assert_eq!(extension("foo-bar.txt"), Some("txt"));
    assert_eq!(extension("foo-bar.html"), Some("html"));
    assert_eq!(extension("foo-bar.unknown"), Some("unknown"));
    assert_eq!(extension("foo-bar.svg"), Some("svg"));

    assert_eq!(extension("foo/bar/baz.txt"), Some("txt"));
    assert_eq!(extension("foo/bar/baz.html"), Some("html"));
    assert_eq!(extension("foo/bar/baz.unknown"), Some("unknown"));
    assert_eq!(extension("foo/bar/baz.svg"), Some("svg"));
}

#[test]
fn test_double_ext() {
    assert_eq!(extension("foo-bar.html.txt"), Some("txt"));
    assert_eq!(extension("foo-bar.txt.html"), Some("html"));
    assert_eq!(extension("foo-bar.txt.unknown"), Some("unknown"));

    assert_eq!(extension("foo/bar/baz.html.txt"), Some("txt"));
    assert_eq!(extension("foo/bar/baz.txt.html"), Some("html"));
    assert_eq!(extension("foo/bar/baz.txt.unknown"), Some("unknown"));
}

#[test]
fn test_skip_jinja_ext() {
    assert_eq!(extension("foo-bar.html.j2"), Some("html"));
    assert_eq!(extension("foo-bar.html.jinja"), Some("html"));
    assert_eq!(extension("foo-bar.html.jinja2"), Some("html"));

    assert_eq!(extension("foo/bar/baz.txt.j2"), Some("txt"));
    assert_eq!(extension("foo/bar/baz.txt.jinja"), Some("txt"));
    assert_eq!(extension("foo/bar/baz.txt.jinja2"), Some("txt"));
}

#[test]
fn test_only_jinja_ext() {
    assert_eq!(extension("foo-bar.j2"), Some("j2"));
    assert_eq!(extension("foo-bar.jinja"), Some("jinja"));
    assert_eq!(extension("foo-bar.jinja2"), Some("jinja2"));
}

#[test]
fn extension_is_none_without_a_dot_in_the_file_name() {
    assert_eq!(extension("foo"), None);
    assert_eq!(extension("foo.d/bar"), None);
    assert_eq!(extension(""), None);
    assert_eq!(extension("dir/"), None);
}

#[test]
fn extension_is_none_for_hidden_names_and_dot_dot() {
    assert_eq!(extension(".hidden"), None);
    assert_eq!(extension("a/.hidden"), None);
    assert_eq!(extension(".."), None);
    assert_eq!(extension("a/.."), None);
    assert_eq!(extension("."), None);
}

#[test]
fn extension_may_be_empty_or_follow_a_leading_dot() {
    assert_eq!(extension("foo."), Some(""));
    assert_eq!(extension("..foo"), Some("foo"));
    assert_eq!(extension(".hidden.txt"), Some("txt"));
}

#[test]
fn extension_keeps_jinja_marker_when_stem_is_hidden_or_dots() {
    assert_eq!(extension(".hidden.j2"), Some("j2"));
    assert_eq!(extension("...j2"), Some("j2"));
    assert_eq!(extension("a.b/c.jinja"), Some("jinja"));
}

const PATHS: [&str; 44] = [
    "foo-bar.txt",
    "foo/bar/baz.html",
    "a.b/c",
    ".hidden",
    "x.tar.gz",
    "foo.",
    "..foo",
    "dir.d/name.ext",
    "näme.tëxt",
    "foo.txt/",
    "foo.txt/.",
    "foo.txt//",
    "foo.txt/./",
    "foo.txt/././/",
    "a/./b.c",
    "a//b.c",
    "/",
    "//",
    "",
    ".",
    "./",
    "./.",
    "/.",
    "..",
    "../",
    "a/..",
    "a.b/..",
    "a.b/../",
    "a.b/.././",
    "./a.b",
    "/a.b",
    "a.html.j2",
    "a.html.j2/",
    "a.html.jinja/.",
    "a.html.j2.jinja",
    "a.j2.j2",
    ".j2",
    "..j2",
    "...j2",
    "x/.jinja2",
    "x/..jinja2/",
    "a.J2",
    "a.html.JINJA",
    "a.html.jinja2 ",
];

#[test]
fn file_name_agrees_with_std() {
    for p in PATHS {
        let std_name = std::path::Path::new(p).file_name().map(|e| e.to_str().unwrap());
        assert_eq!(file_name(p), std_name, "{:?}", p);
    }
}

#[test]
fn file_extension_agrees_with_std() {
    for p in PATHS {
        let std_ext = std::path::Path::new(p).extension().map(|e| e.to_str().unwrap());
        assert_eq!(file_extension(p), std_ext, "{:?}", p);
    }
}

#[test]
fn extension_agrees_with_std_where_one_marker_is_skipped() {
    for p in PATHS {
        let path = std::path::Path::new(p);
        let expected = match path.extension().map(|s| s.to_str().unwrap()) {
            None => None,
            Some(ext) => {
                if ["j2", "jinja", "jinja2"].contains(&ext) {
                    std::path::Path::new(path.file_stem().unwrap())
                        .extension()
                        .map(|s| s.to_str().unwrap())
                        .or(Some(ext))
                } else {
                    Some(ext)
                }
            }
        };
        assert_eq!(extension(p), expected, "{:?}", p);
    }
}

#[test]
fn extension_of_a_path_that_ends_in_a_separator() {
    assert_eq!(extension("foo.txt/"), Some("txt"));
    assert_eq!(extension("foo.txt/."), Some("txt"));
    assert_eq!(extension("dir/foo.html.j2//./"), Some("html"));
    assert_eq!(extension("foo.txt/.."), None);
    assert_eq!(file_name("foo.txt/"), Some("foo.txt"));
    assert_eq!(file_name("foo.txt/."), Some("foo.txt"));
    assert_eq!(file_name("a/b/"), Some("b"));
    assert_eq!(file_name("a/.."), None);
    assert_eq!(file_name("/"), None);
    assert_eq!(file_name(""), None);
}

#[test]
fn extension_skips_one_marker_only_and_holds_no_dot() {
    assert_eq!(extension("a.html.j2.jinja"), Some("j2"));
    assert_eq!(extension("a.j2.j2"), Some("j2"));
    assert_eq!(extension("a.html.J2"), Some("J2"));
    for p in PATHS {
        if let Some(e) = extension(p) {
            assert!(!e.contains('.'), "{:?}", p);
        }
    }
}

#[test]
fn extension_counts_characters_not_bytes() {
    assert_eq!(extension("päth/nämé.hťml"), Some("hťml"));
    assert_eq!(extension("ü.ö.j2"), Some("ö"));
}

#[test]
fn file_extension_does_not_skip_jinja_markers() {
    assert_eq!(file_extension("a.html.j2"), Some("j2"));
    assert_eq!(file_extension("a/b.html"), Some("html"));
    assert_eq!(file_extension("a/b"), None);
}

#[test]
fn ext_default_to_path_prefers_the_given_extension() {
    assert_eq!(ext_default_to_path(Some("txt"), "a.html"), Some("txt"));
    assert_eq!(ext_default_to_path(Some(""), "a.html"), Some(""));
    assert_eq!(ext_default_to_path(None, "a.html"), Some("html"));
    assert_eq!(ext_default_to_path(None, "a.html.jinja"), Some("html"));
    assert_eq!(ext_default_to_path(None, "a"), None);
}
