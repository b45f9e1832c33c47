use std::collections::HashMap;
use std::path::Path;
use template_input::cache::SourceCache;
use template_input::error::{Attribution, CompileError, ErrorKind, Span};
use template_input::node::Node;
use template_input::walker::{resolve, ParseTree, ResultMap, Step};

fn failure(kind: ErrorKind, message: &str, attribution: Option<Attribution>) -> CompileError {
    CompileError::new(kind, message.to_string(), attribution)
}

fn quoted(word: Option<&str>) -> Result<String, CompileError> {
    match word {
        Some(w) if w.len() >= 2 && w.starts_with('"') && w.ends_with('"') => {
            Ok(w[1..w.len() - 1].to_string())
        }
        _ => Err(failure(ErrorKind::Syntax, "expected a quoted path", None)),
    }
}

// A parser for just enough of the template language to write the trees of
// these tests as text.
fn parse_until(src: &str, pos: &mut usize, end: Option<&str>) -> Result<Vec<Node>, CompileError> {
    let mut nodes = Vec::new();
    loop {
        let open = match src[*pos..].find("{%") {
            Some(off) => *pos + off,
            None => {
                if end.is_some() {
                    return Err(failure(ErrorKind::Syntax, "unclosed block", None));
                }
                if *pos < src.len() {
                    nodes.push(Node::Lit { span: Span { start: *pos, end: src.len() } });
                }
                *pos = src.len();
                return Ok(nodes);
            }
        };
        if open > *pos {
            nodes.push(Node::Lit { span: Span { start: *pos, end: open } });
        }
        let close = match src[open..].find("%}") {
            Some(off) => open + off + 2,
            None => return Err(failure(ErrorKind::Syntax, "unclosed tag", None)),
        };
        let span = Span { start: open, end: close };
        let mut words = src[open + 2..close - 2].split_whitespace();
        let word = words.next();
        *pos = close;
        match word {
            Some("extends") => nodes.push(Node::Extends { path: quoted(words.next())?, span }),
            Some("import") => nodes.push(Node::Import { path: quoted(words.next())?, span }),
            Some("include") => nodes.push(Node::Include { path: quoted(words.next())?, span }),
            Some("if") => {
                let body = parse_until(src, pos, Some("endif"))?;
                nodes.push(Node::If { branches: vec![body], span });
            }
            Some("for") => {
                let body = parse_until(src, pos, Some("endfor"))?;
                nodes.push(Node::Loop { body, else_nodes: vec![], span });
            }
            Some("block") => {
                let body = parse_until(src, pos, Some("endblock"))?;
                nodes.push(Node::BlockDef { nodes: body, span });
            }
            Some("macro") => {
                let body = parse_until(src, pos, Some("endmacro"))?;
                nodes.push(Node::Macro { nodes: body, span });
            }
            Some("let") => nodes.push(Node::Let { span }),
            Some(w) if Some(w) == end => return Ok(nodes),
            _ => return Err(failure(ErrorKind::Syntax, "unknown tag", None)),
        }
    }
}

fn parse(src: &str) -> Result<Vec<Node>, CompileError> {
    let mut pos = 0;
    parse_until(src, &mut pos, None)
}

struct World {
    files: HashMap<String, String>,
    cache: SourceCache,
    reads: Vec<String>,
    loads: Vec<(String, Option<Attribution>)>,
    finds: Vec<(String, String)>,
    parses: Vec<(String, Option<String>)>,
}

impl World {
    fn new(files: &[(&str, &str)]) -> World {
        World {
            files: files.iter().map(|(p, s)| (p.to_string(), s.to_string())).collect(),
            cache: SourceCache::new(),
            reads: Vec::new(),
            loads: Vec::new(),
            finds: Vec::new(),
            parses: Vec::new(),
        }
    }

    fn load(
        &mut self,
        path: &String,
        attribution: Option<Attribution>,
    ) -> Result<String, CompileError> {
        self.loads.push((path.clone(), attribution.clone()));
        if let Some(answer) = self.cache.lookup(path, attribution.clone()) {
            return answer;
        }
        self.reads.push(path.clone());
        let read = match self.files.get(path) {
            Some(content) if content != "<unreadable>" => Ok(content.clone()),
            Some(_) => Err("Permission denied (os error 13)".to_string()),
            None => Err("No such file or directory (os error 2)".to_string()),
        };
        self.cache.record(path, read, attribution)
    }

    fn find(
        &mut self,
        name: &String,
        relative_to: &String,
        at: Attribution,
    ) -> Result<String, CompileError> {
        self.finds.push((name.clone(), relative_to.clone()));
        if self.files.contains_key(name) {
            Ok(name.clone())
        } else {
            Err(failure(
                ErrorKind::Resolution,
                &format!("template {:?} not found in directories [\"templates\"]", name),
                Some(at),
            ))
        }
    }

    fn run(&mut self, entry: &str, inline: Option<&str>) -> Result<ResultMap, CompileError> {
        let mut step = resolve(entry.to_string(), inline.map(|s| s.to_string()));
        loop {
            step = match step {
                Step::Load(walk) => {
                    let path = walk.path().clone();
                    let reply = self.load(&path, walk.attribution());
                    walk.loaded(reply)?
                }
                Step::Parse(walk) => {
                    self.parses.push((walk.source().clone(), walk.path().clone()));
                    let reply = parse(walk.source());
                    walk.parsed(reply)?
                }
                Step::Find(walk) => {
                    let reply = self.find(walk.path(), walk.relative_to(), walk.attribution());
                    walk.found(reply)?
                }
                Step::Done(map) => return Ok(map),
            };
        }
    }
}

fn chain(edges: &[(&str, &str)]) -> String {
    format!(
        "cyclic dependency in graph {:#?}",
        edges
            .iter()
            .map(|e| format!("{:#?} --> {:#?}", Path::new(e.0), Path::new(e.1)))
            .collect::<Vec<String>>()
    )
}

fn keys(map: &ResultMap) -> Vec<String> {
    let mut keys = map.keys();
    keys.sort();
    keys
}

fn tree(source: &str) -> ParseTree {
    ParseTree { source: source.to_string(), nodes: parse(source).unwrap() }
}

#[test]
fn template_that_extends_itself_is_cyclic() {
    let mut world = World::new(&[("A", "{% extends \"A\" %}\n")]);
    let err = world.run("A", None).unwrap_err();
    assert_eq!(err.kind, ErrorKind::CyclicDependency);
    assert_eq!(err.message, chain(&[("A", "A")]));
    assert!(err.message.contains("\\\"A\\\" --> \\\"A\\\""));
    assert_eq!(err.attribution, None);
    assert_eq!(world.reads, vec!["A".to_string()]);
}

#[test]
fn two_templates_that_extend_each_other_are_both_reached() {
    // Neither edge is from a template to itself, and neither is found twice.
    let files = [("A", "{% extends \"B\" %}\n"), ("B", "{% extends \"A\" %}\n")];
    let map = World::new(&files).run("A", None).unwrap();
    assert_eq!(keys(&map), vec!["A".to_string(), "B".to_string()]);
    let map = World::new(&files).run("B", None).unwrap();
    assert_eq!(keys(&map), vec!["A".to_string(), "B".to_string()]);
}

#[test]
fn an_edge_that_is_found_again_is_cyclic() {
    // A is searched twice, because it includes itself before it is recorded.
    let files = [("A", "{% extends \"B\" %}{% include \"A\" %}"), ("B", "{% extends \"A\" %}")];
    let err = World::new(&files).run("A", None).unwrap_err();
    assert_eq!(err.kind, ErrorKind::CyclicDependency);
    assert_eq!(err.message, chain(&[("A", "B")]));
    assert!(err.message.contains("\\\"A\\\" --> \\\"B\\\""));
}

#[test]
fn mutual_inclusion_terminates_with_both_templates() {
    let files = [("A", "{% include \"B\" %}\n"), ("B", "{% include \"A\" %}\n")];
    let mut world = World::new(&files);
    let map = world.run("A", None).unwrap();
    assert_eq!(keys(&map), vec!["A".to_string(), "B".to_string()]);
    assert_eq!(map.len(), 2);
    assert_eq!(map.get(&"A".to_string()), Some(&tree("{% include \"B\" %}")));
    assert_eq!(map.get(&"B".to_string()), Some(&tree("{% include \"A\" %}")));
    assert_eq!(world.reads, vec!["A".to_string(), "B".to_string()]);
    assert_eq!(world.parses.len(), 2);
}

#[test]
fn mutual_import_terminates_with_both_templates() {
    let files = [("A", "{% import \"B\" %}"), ("B", "{% import \"A\" %}")];
    let map = World::new(&files).run("A", None).unwrap();
    assert_eq!(keys(&map), vec!["A".to_string(), "B".to_string()]);
}

#[test]
fn extends_inside_if_is_not_inheritance() {
    let files = [("A", "{% if %}{% extends \"A\" %}{% endif %}")];
    let mut world = World::new(&files);
    let map = world.run("A", None).unwrap();
    assert_eq!(keys(&map), vec!["A".to_string()]);
    assert!(world.finds.is_empty());
}

#[test]
fn nested_inheritance_is_passed_over_whatever_it_names_and_whatever_stands_around_it() {
    for target in ["A", "missing"] {
        let source = format!(
            "head {{% let %}}{{% if %}}x{{% extends \"{0}\" %}}y{{% endif %}} mid \
             {{% for %}}{{% block %}}{{% import \"{0}\" %}}{{% endblock %}}{{% endfor %}} tail",
            target
        );
        let files = [("A", source.as_str())];
        let mut world = World::new(&files);
        let map = world.run("A", None).unwrap();
        assert_eq!(keys(&map), vec!["A".to_string()]);
        assert_eq!(map.get(&"A".to_string()), Some(&tree(&source)));
        assert!(world.finds.is_empty());
        assert_eq!(world.reads, vec!["A".to_string()]);
    }
}

#[test]
fn the_result_holds_every_template_that_a_tree_in_it_refers_to() {
    let files = [
        ("A", "{% extends \"B\" %}{% block %}{% include \"C\" %}{% endblock %}"),
        ("B", "{% import \"D\" %}{% if %}{% include \"C\" %}{% endif %}"),
        ("C", "{% for %}{% include \"E\" %}{% endfor %}"),
        ("D", "{% macro %}{% include \"A\" %}{% endmacro %}"),
        ("E", "leaf"),
        ("F", "never referenced"),
    ];
    let map = World::new(&files).run("A", None).unwrap();
    assert_eq!(
        keys(&map),
        vec!["A".to_string(), "B".to_string(), "C".to_string(), "D".to_string(), "E".to_string()]
    );
    for key in map.keys() {
        let tree = map.get(&key).unwrap();
        for reference in template_input::node::scan(&tree.nodes) {
            assert!(map.contains_key(&reference.path), "{} -> {}", key, reference.path);
        }
    }
}

#[test]
fn import_and_macro_inside_a_block_are_not_read() {
    let files = [
        ("A", "{% block %}{% import \"B\" %}{% macro %}{% include \"B\" %}{% endmacro %}{% endblock %}"),
        ("B", ""),
    ];
    let mut world = World::new(&files);
    let map = world.run("A", None).unwrap();
    assert_eq!(keys(&map), vec!["A".to_string()]);
    assert!(world.finds.is_empty());
}

#[test]
fn include_inside_a_top_level_macro_is_followed() {
    let files = [("A", "{% macro %}{% if %}{% include \"B\" %}{% endif %}{% endmacro %}"), ("B", "b")];
    let map = World::new(&files).run("A", None).unwrap();
    assert_eq!(keys(&map), vec!["A".to_string(), "B".to_string()]);
}

#[test]
fn each_template_is_loaded_and_parsed_once_however_often_it_is_referenced() {
    let files = [
        ("A", "{% include \"C\" %}{% include \"B\" %}{% include \"C\" %}"),
        ("B", "{% include \"C\" %}"),
        ("C", "leaf\n"),
    ];
    let mut world = World::new(&files);
    let map = world.run("A", None).unwrap();
    assert_eq!(keys(&map), vec!["A".to_string(), "B".to_string(), "C".to_string()]);
    assert_eq!(world.reads, vec!["A".to_string(), "C".to_string(), "B".to_string()]);
    assert_eq!(world.loads.len(), 3);
    assert_eq!(world.parses.len(), 3);
    assert_eq!(map.get(&"C".to_string()), Some(&tree("leaf")));
}

#[test]
fn work_is_taken_last_in_first_out() {
    let files = [
        ("A", "{% include \"B\" %}{% include \"C\" %}"),
        ("B", "b"),
        ("C", "c"),
    ];
    let mut world = World::new(&files);
    world.run("A", None).unwrap();
    let parsed: Vec<Option<String>> = world.parses.iter().map(|p| p.1.clone()).collect();
    assert_eq!(
        parsed,
        vec![Some("A".to_string()), Some("C".to_string()), Some("B".to_string())]
    );
}

#[test]
fn inline_source_is_parsed_without_a_path_and_without_a_load() {
    let files = [("B", "b\n")];
    let mut world = World::new(&files);
    let map = world.run("Hello.html", Some("{% include \"B\" %}")).unwrap();
    assert_eq!(keys(&map), vec!["B".to_string(), "Hello.html".to_string()]);
    assert_eq!(world.parses[0], ("{% include \"B\" %}".to_string(), None));
    assert_eq!(world.parses[1], ("b".to_string(), Some("B".to_string())));
    assert_eq!(world.finds, vec![("B".to_string(), "Hello.html".to_string())]);
    assert_eq!(world.reads, vec!["B".to_string()]);
}

#[test]
fn a_template_that_includes_itself_is_parsed_twice_and_kept_once() {
    let files = [("A", "{% include \"A\" %}")];
    let mut world = World::new(&files);
    let map = world.run("A", None).unwrap();
    assert_eq!(keys(&map), vec!["A".to_string()]);
    assert_eq!(world.parses.len(), 2);
    assert_eq!(world.reads, vec!["A".to_string()]);
}

#[test]
fn missing_entry_fails_with_a_load_error_without_attribution() {
    let mut world = World::new(&[]);
    let err = world.run("nowhere.html", None).unwrap_err();
    assert_eq!(err.kind, ErrorKind::Load);
    assert_eq!(
        err.message,
        "unable to open template file 'nowhere.html': No such file or directory (os error 2)"
    );
    assert_eq!(err.attribution, None);
}

#[test]
fn load_failure_is_attributed_to_the_referencing_directive() {
    let source = "ab{% include \"B\" %}";
    let files = [("A", source), ("B", "<unreadable>")];
    let mut world = World::new(&files);
    let err = world.run("A", None).unwrap_err();
    assert_eq!(err.kind, ErrorKind::Load);
    assert_eq!(err.message, "unable to open template file 'B': Permission denied (os error 13)");
    assert_eq!(
        err.attribution,
        Some(Attribution {
            path: "A".to_string(),
            source: source.to_string(),
            span: Span { start: 2, end: source.len() },
        })
    );
}

#[test]
fn a_second_walk_reports_a_cached_failure_from_its_own_directive() {
    let first = "{% include \"B\" %}";
    let second = "....{% import \"B\" %}";
    let files = [("A", first), ("C", second), ("B", "<unreadable>")];
    let mut world = World::new(&files);
    let e1 = world.run("A", None).unwrap_err();
    let e2 = world.run("C", None).unwrap_err();
    assert_eq!(e1.message, e2.message);
    assert_eq!(e1.attribution.unwrap().path, "A");
    let at = e2.attribution.unwrap();
    assert_eq!(at.path, "C");
    assert_eq!(at.source, second);
    assert_eq!(at.span, Span { start: 4, end: second.len() });
    assert_eq!(world.reads, vec!["A".to_string(), "B".to_string(), "C".to_string()]);
}

#[test]
fn unresolved_reference_fails_with_the_resolver_error() {
    let source = "text {% include \"missing\" %}";
    let files = [("A", source)];
    let err = World::new(&files).run("A", None).unwrap_err();
    assert_eq!(
        err,
        failure(
            ErrorKind::Resolution,
            "template \"missing\" not found in directories [\"templates\"]",
            Some(Attribution {
                path: "A".to_string(),
                source: source.to_string(),
                span: Span { start: 5, end: source.len() },
            })
        )
    );
}

#[test]
fn syntax_error_is_handed_on_as_it_came() {
    let files = [("A", "{% include \"B\" %}"), ("B", "{% bogus %}")];
    let err = World::new(&files).run("A", None).unwrap_err();
    assert_eq!(err, failure(ErrorKind::Syntax, "unknown tag", None));
}

#[test]
fn the_first_failure_in_traversal_order_is_reported() {
    let files = [("A", "{% include \"missing\" %}{% extends \"A\" %}")];
    let err = World::new(&files).run("A", None).unwrap_err();
    assert_eq!(err.kind, ErrorKind::Resolution);

    let files = [("A", "{% if %}{% include \"missing\" %}{% endif %}{% extends \"A\" %}")];
    let err = World::new(&files).run("A", None).unwrap_err();
    assert_eq!(err.kind, ErrorKind::CyclicDependency);

    let files = [
        ("A", "{% if %}{% include \"missing\" %}{% endif %}{% include \"B\" %}"),
        ("B", "{% bogus %}"),
    ];
    let err = World::new(&files).run("A", None).unwrap_err();
    assert_eq!(err.kind, ErrorKind::Resolution);
}

#[test]
fn a_chain_of_inheritance_is_kept_in_the_order_of_discovery() {
    let files = [
        ("A", "{% extends \"B\" %}"),
        ("B", "{% extends \"C\" %}"),
        ("C", "{% extends \"C\" %}"),
    ];
    let err = World::new(&files).run("A", None).unwrap_err();
    assert_eq!(err.message, chain(&[("A", "B"), ("B", "C"), ("C", "C")]));
}

#[test]
fn inheritance_without_a_cycle_succeeds() {
    let files = [
        ("child", "{% extends \"base\" %}{% block %}{% include \"part\" %}{% endblock %}"),
        ("base", "{% block %}{% endblock %}"),
        ("part", "x"),
    ];
    let map = World::new(&files).run("child", None).unwrap();
    assert_eq!(
        keys(&map),
        vec!["base".to_string(), "child".to_string(), "part".to_string()]
    );
}

#[test]
fn extending_a_template_twice_in_one_file_is_reported_as_a_cycle() {
    let files = [("A", "{% extends \"B\" %}{% extends \"B\" %}"), ("B", "")];
    let err = World::new(&files).run("A", None).unwrap_err();
    assert_eq!(err.kind, ErrorKind::CyclicDependency);
    assert_eq!(err.message, chain(&[("A", "B")]));
}
