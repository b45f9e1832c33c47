use template_input::cache::{normalize, SourceCache};
use template_input::error::{Attribution, CompileError, ErrorKind, Span};

fn from(path: &str, source: &str, start: usize, end: usize) -> Option<Attribution> {
    Some(Attribution {
        path: path.to_string(),
        source: source.to_string(),
        span: Span { start, end },
    })
}

#[test]
fn get_source() {
    let mut cache = SourceCache::new();
    let path = "b.html".to_string();
    assert_eq!(cache.lookup(&path, None), None);
    assert_eq!(cache.record(&path, Ok("bar\n".to_string()), None).unwrap(), "bar".to_string());
    assert_eq!(cache.lookup(&path, None), Some(Ok("bar".to_string())));
}

#[test]
fn normalize_strips_exactly_one_trailing_newline() {
    assert_eq!(normalize("bar\n".to_string()), "bar");
    assert_eq!(normalize("bar\n\n".to_string()), "bar\n");
    assert_eq!(normalize("bar".to_string()), "bar");
    assert_eq!(normalize("\n".to_string()), "");
    assert_eq!(normalize("".to_string()), "");
    assert_eq!(normalize("a\nb".to_string()), "a\nb");
    assert_eq!(normalize("bar\r\n".to_string()), "bar\r");
    assert_eq!(normalize("ünï\n".to_string()), "ünï");
}

#[test]
fn new_cache_holds_nothing() {
    let cache = SourceCache::new();
    assert_eq!(cache.lookup(&"a.html".to_string(), None), None);
    assert_eq!(cache.lookup(&String::new(), None), None);
}

#[test]
fn second_load_is_answered_from_the_cache_and_ignores_a_second_read() {
    let mut cache = SourceCache::new();
    let path = "dir/a.html".to_string();
    let first = cache.record(&path, Ok("one\n".to_string()), None);
    assert_eq!(first, Ok("one".to_string()));
    let second = cache.record(&path, Ok("two\n".to_string()), None);
    assert_eq!(second, Ok("one".to_string()));
    let third = cache.record(&path, Err("gone".to_string()), None);
    assert_eq!(third, Ok("one".to_string()));
    assert_eq!(cache.lookup(&path, None), Some(Ok("one".to_string())));
}

#[test]
fn missing_file_fails_with_a_message_that_holds_the_path() {
    let mut cache = SourceCache::new();
    let path = "templates/missing.html".to_string();
    let reason = "No such file or directory (os error 2)".to_string();
    let err = cache.record(&path, Err(reason), None).unwrap_err();
    assert_eq!(err.kind, ErrorKind::Load);
    assert_eq!(
        err.message,
        "unable to open template file 'templates/missing.html': No such file or directory (os error 2)"
    );
    assert!(err.message.contains("templates/missing.html"));
    assert_eq!(err.attribution, None);
    assert_eq!(err.to_string(), err.message);
}

#[test]
fn failure_is_cached_with_its_message_and_attributed_to_each_caller() {
    let mut cache = SourceCache::new();
    let path = "missing.html".to_string();
    let first = cache
        .record(&path, Err("first reason".to_string()), from("a.html", "{% x %}", 0, 7))
        .unwrap_err();
    assert_eq!(first.message, "unable to open template file 'missing.html': first reason");
    assert_eq!(first.attribution, from("a.html", "{% x %}", 0, 7));

    let second = cache.lookup(&path, from("b.html", "..{% y %}", 2, 9)).unwrap().unwrap_err();
    assert_eq!(second.kind, ErrorKind::Load);
    assert_eq!(second.message, first.message);
    assert_eq!(second.attribution, from("b.html", "..{% y %}", 2, 9));

    let third = cache.record(&path, Ok("now it exists".to_string()), None).unwrap_err();
    assert_eq!(third.message, first.message);
    assert_eq!(third.attribution, None);
}

#[test]
fn entries_are_never_evicted() {
    let mut cache = SourceCache::new();
    for i in 0..500 {
        let path = format!("t{}.html", i);
        let got = cache.record(&path, Ok(format!("body {}\n", i)), None);
        assert_eq!(got, Ok(format!("body {}", i)));
    }
    for i in 0..500 {
        let path = format!("t{}.html", i);
        assert_eq!(cache.lookup(&path, None), Some(Ok(format!("body {}", i))));
    }
}

#[test]
fn paths_are_keys_by_their_text() {
    let mut cache = SourceCache::new();
    cache.record(&"a".to_string(), Ok("A".to_string()), None).unwrap();
    cache.record(&"b".to_string(), Err("nope".to_string()), None).unwrap_err();
    assert_eq!(cache.lookup(&"a".to_string(), None), Some(Ok("A".to_string())));
    assert_eq!(cache.lookup(&"c".to_string(), None), None);
    let e: CompileError = cache.lookup(&"b".to_string(), None).unwrap().unwrap_err();
    assert_eq!(e.message, "unable to open template file 'b': nope");
}
