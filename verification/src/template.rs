//! What is known of a template before its source is compiled: where its
//! text comes from, and how its output is escaped and announced.

use crate::args::{attribute_error, fail_with, Print, Source, SourceView, TemplateArgs};
use crate::error::{CompileError, CompileErrorView};
use crate::media::{extension_to_mime_type, guessed_media_type, spec_text_type};
use crate::path::{ext_default_to_path, file_extension, spec_extension, spec_file_extension};
use crate::text::{opt_deref, opt_str_view, opt_view};
use vstd::prelude::*;
use vstd::string::StringExecFns;

verus! {

/// An escaper and the extensions that it is used for.
#[derive(Debug, PartialEq, Eq)]
pub struct Escaper {
    pub extensions: Vec<String>,
    pub path: String,
}

/// The part of the configuration that decides a template's syntax and
/// escaper.
#[derive(Debug, PartialEq, Eq)]
pub struct Config {
    /// The names of the syntaxes that are defined.
    pub syntaxes: Vec<String>,
    /// The name of the syntax of a template that names none.
    pub default_syntax: String,
    /// The escapers, in order of precedence.
    pub escapers: Vec<Escaper>,
    /// The sentence that tells, in an error message, for which extensions
    /// an escaper is defined.
    pub valid_escapers: String,
}

/// The values of a sequence of strings.
pub open spec fn names_view(names: Seq<String>) -> Seq<Seq<char>> {
    names.map_values(|n: String| n@)
}

impl Config {
    /// The default syntax is one of the defined syntaxes.
    pub open spec fn has_default_syntax(&self) -> bool {
        names_view(self.syntaxes@).contains(self.default_syntax@)
    }
}

/// Whether the escaper at `i` is used for the extension `escaping`.
pub open spec fn escapes(escapers: Seq<Escaper>, escaping: Seq<char>, i: int) -> bool {
    0 <= i < escapers.len() && names_view(escapers[i].extensions@).contains(escaping)
}

/// The place of the first escaper that is used for `escaping`, or the
/// number of escapers if there is none.
pub open spec fn first_escaper(escapers: Seq<Escaper>, escaping: Seq<char>) -> int
    decreases escapers.len(),
{
    if escapers.len() == 0 {
        0
    } else {
        let before = first_escaper(escapers.drop_last(), escaping);
        if before < escapers.len() - 1 {
            before
        } else if names_view(escapers.last().extensions@).contains(escaping) {
            escapers.len() - 1
        } else {
            escapers.len() as int
        }
    }
}

/// The first escaper is the least place that is used for the extension: it
/// is used for it, and no escaper before it is.
pub proof fn lemma_first_escaper_is_least(escapers: Seq<Escaper>, escaping: Seq<char>)
    ensures
        0 <= first_escaper(escapers, escaping) <= escapers.len(),
        first_escaper(escapers, escaping) < escapers.len() ==> escapes(
            escapers,
            escaping,
            first_escaper(escapers, escaping),
        ),
        forall|j: int|
            0 <= j < first_escaper(escapers, escaping) ==> !escapes(escapers, escaping, j),
    decreases escapers.len(),
{
    if escapers.len() > 0 {
        let front = escapers.drop_last();
        lemma_first_escaper_is_least(front, escaping);
        assert forall|j: int| 0 <= j < first_escaper(escapers, escaping) implies !escapes(
            escapers,
            escaping,
            j,
        ) by {
            if j < front.len() {
                assert(front[j] == escapers[j]);
                assert(!escapes(front, escaping, j));
            }
        }
        let i = first_escaper(escapers, escaping);
        if i < front.len() {
            assert(front[i] == escapers[i]);
            assert(escapes(front, escaping, i));
        }
    }
}

/// What is known of a template.
#[derive(Debug, PartialEq, Eq)]
pub struct TemplateInput {
    pub source: Source,
    pub block: Option<String>,
    pub print: Print,
    pub syntax: String,
    pub escaper: String,
    pub ext: Option<String>,
    pub mime_type: String,
    pub path: String,
}

/// The mathematical value of a [`TemplateInput`].
pub struct TemplateInputView {
    pub source: SourceView,
    pub block: Option<Seq<char>>,
    pub print: Print,
    pub syntax: Seq<char>,
    pub escaper: Seq<char>,
    pub ext: Option<Seq<char>>,
    pub mime_type: Seq<char>,
    pub path: Seq<char>,
}

impl View for TemplateInput {
    type V = TemplateInputView;

    open spec fn view(&self) -> TemplateInputView {
        TemplateInputView {
            source: self.source@,
            block: opt_view(self.block),
            print: self.print,
            syntax: self.syntax@,
            escaper: self.escaper@,
            ext: opt_view(self.ext),
            mime_type: self.mime_type@,
            path: self.path@,
        }
    }
}

/// The value of the outcome of locating a template file.
pub open spec fn located_view(located: Option<Result<String, CompileError>>) -> Option<
    Result<Seq<char>, CompileErrorView>,
> {
    match located {
        Some(Ok(path)) => Some(Ok(path@)),
        Some(Err(e)) => Some(Err(e@)),
        None => None,
    }
}

/// The path of a template: where its file was located, or, for inline
/// text, the item's name with the given extension.
pub open spec fn spec_path(
    ident: Seq<char>,
    source: SourceView,
    ext: Option<Seq<char>>,
    located: Option<Result<Seq<char>, CompileErrorView>>,
) -> Result<Seq<char>, CompileErrorView> {
    match source {
        SourceView::Path(_) => located->0,
        SourceView::Source(_) => match ext {
            Some(ext) => Ok(ident + seq!['.'] + ext),
            None => Err(
                attribute_error("must include 'ext' attribute when using 'source' attribute"@),
            ),
        },
    }
}

/// The name of the syntax of a template.
pub open spec fn spec_syntax(config: Config, syntax: Option<Seq<char>>) -> Result<
    Seq<char>,
    CompileErrorView,
> {
    match syntax {
        None => Ok(config.default_syntax@),
        Some(s) => if names_view(config.syntaxes@).contains(s) {
            Ok(s)
        } else {
            Err(attribute_error("attribute syntax "@ + s + " not exist"@))
        },
    }
}

/// The extension that selects a template's escaper: the one that is asked
/// for, else the extension of the path, else the empty one.
pub open spec fn spec_escaping(escaping: Option<Seq<char>>, path: Seq<char>) -> Seq<char> {
    match escaping {
        Some(e) => e,
        None => match spec_file_extension(path) {
            Some(e) => e,
            None => Seq::empty(),
        },
    }
}

/// The escaper of a template: the first that is used for the extension.
pub open spec fn spec_escaper(config: Config, escaping: Seq<char>) -> Result<
    Seq<char>,
    CompileErrorView,
> {
    let i = first_escaper(config.escapers@, escaping);
    if i < config.escapers.len() {
        Ok(config.escapers[i].path@)
    } else {
        Err(
            attribute_error(
                "no escaper defined for extension '"@ + escaping + "'. "@
                    + config.valid_escapers@,
            ),
        )
    }
}

/// The media type of a template's output: by the extension that is given,
/// else by the one of the path, else as for `txt`.
pub open spec fn spec_mime_type(ext: Option<Seq<char>>, path: Seq<char>) -> Seq<char> {
    let by = match ext {
        Some(e) => e,
        None => match spec_extension(path) {
            Some(e) => e,
            None => "txt"@,
        },
    };
    spec_text_type(guessed_media_type(by))
}

/// What is known of the template of the item `ident` with the arguments
/// `args`, under `config`. Of several faults the first counts: the path,
/// then the syntax, then the escaper.
pub open spec fn spec_template_input(
    ident: Seq<char>,
    config: Config,
    args: TemplateArgs,
    located: Option<Result<Seq<char>, CompileErrorView>>,
) -> Result<TemplateInputView, CompileErrorView> {
    let a = args@;
    let source = a.source->0;
    match spec_path(ident, source, a.ext, located) {
        Err(e) => Err(e),
        Ok(path) => match spec_syntax(config, a.syntax) {
            Err(e) => Err(e),
            Ok(syntax) => match spec_escaper(config, spec_escaping(a.escaping, path)) {
                Err(e) => Err(e),
                Ok(escaper) => Ok(
                    TemplateInputView {
                        source,
                        block: a.block,
                        print: a.print,
                        syntax,
                        escaper,
                        ext: a.ext,
                        mime_type: spec_mime_type(a.ext, path),
                        path,
                    },
                ),
            },
        },
    }
}

fn has_name(names: &Vec<String>, name: &String) -> (b: bool)
    ensures
        b == names_view(names@).contains(name@),
{
    let n: usize = names.len();
    let mut i: usize = 0;
    while i < n
        invariant
            i <= n,
            n == names.len(),
            forall|j: int| 0 <= j < i ==> names_view(names@)[j] != name@,
        decreases n - i,
    {
        if names[i] == *name {
            assert(names_view(names@)[i as int] == name@);
            return true;
        }
        i = i + 1;
    }
    false
}

fn find_escaper<'a>(escapers: &'a Vec<Escaper>, escaping: &String) -> (r: Option<&'a String>)
    ensures
        match r {
            Some(path) => first_escaper(escapers@, escaping@) < escapers.len() && *path
                == escapers[first_escaper(escapers@, escaping@)].path,
            None => first_escaper(escapers@, escaping@) == escapers.len(),
        },
{
    let n: usize = escapers.len();
    let mut i: usize = 0;
    while i < n
        invariant
            i <= n,
            n == escapers.len(),
            first_escaper(escapers@.take(i as int), escaping@) == i,
        decreases n - i,
    {
        proof {
            assert(escapers@.take(i + 1).drop_last() =~= escapers@.take(i as int));
            assert(escapers@.take(i + 1).last() == escapers[i as int]);
        }
        if has_name(&escapers[i].extensions, escaping) {
            proof {
                lemma_first_escaper_stays(escapers@, escaping@, i + 1);
            }
            return Some(&escapers[i].path);
        }
        i = i + 1;
    }
    proof {
        assert(escapers@.take(n as int) =~= escapers@);
    }
    None
}

/// Once an escaper is found among the first `n`, it is the first of all.
proof fn lemma_first_escaper_stays(escapers: Seq<Escaper>, escaping: Seq<char>, n: int)
    requires
        0 <= n <= escapers.len(),
        first_escaper(escapers.take(n), escaping) < n,
    ensures
        first_escaper(escapers, escaping) == first_escaper(escapers.take(n), escaping),
    decreases escapers.len() - n,
{
    if n < escapers.len() {
        assert(escapers.take(n + 1).drop_last() =~= escapers.take(n));
        lemma_first_escaper_stays(escapers, escaping, n + 1);
    } else {
        assert(escapers.take(n) =~= escapers);
    }
}

fn source_copy(source: &Source) -> (r: Source)
    ensures
        r@ == source@,
{
    match source {
        Source::Path(s) => Source::Path(s.clone()),
        Source::Source(s) => Source::Source(s.clone()),
    }
}

fn opt_copy(s: &Option<String>) -> (r: Option<String>)
    ensures
        opt_view(r) == opt_view(*s),
{
    match s {
        Some(s) => Some(s.clone()),
        None => None,
    }
}

impl TemplateInput {
    /// The name under which the template's file is to be located, if the
    /// template's text comes from a file.
    pub fn template_name(args: &TemplateArgs) -> (r: Option<&String>)
        ensures
            match r {
                Some(name) => args@.source == Some(SourceView::Path(name@)),
                None => !(args@.source matches Some(SourceView::Path(_))),
            },
    {
        match &args.source {
            Some(Source::Path(name)) => Some(name),
            _ => None,
        }
    }

    /// Gathers what is known of the template of the item `ident`.
    ///
    /// `located` is the outcome of locating the file that `args` names; it
    /// is needed if, and only if, the template's text comes from a file.
    /// The arguments must name a source, and a template that has a path
    /// and names no syntax needs the default syntax to be defined.
    pub fn new(
        ident: &str,
        config: &Config,
        args: &TemplateArgs,
        located: Option<Result<String, CompileError>>,
    ) -> (r: Result<TemplateInput, CompileError>)
        requires
            args@.source is Some,
            args@.source matches Some(SourceView::Path(_)) ==> located is Some,
            args@.syntax is None && spec_path(
                ident@,
                args@.source->0,
                args@.ext,
                located_view(located),
            ) is Ok ==> config.has_default_syntax(),
        ensures
            match spec_template_input(ident@, *config, *args, located_view(located)) {
                Ok(v) => r is Ok && r->Ok_0@ == v,
                Err(e) => r is Err && r->Err_0@ == e,
            },
    {
        let source: &Source = match &args.source {
            Some(source) => source,
            None => vstd::pervasive::unreached(),
        };
        let path: String = match source {
            Source::Path(_) => match located {
                Some(Ok(path)) => path,
                Some(Err(e)) => {
                    return Err(e);
                },
                None => vstd::pervasive::unreached(),
            },
            Source::Source(_) => match &args.ext {
                Some(ext) => {
                    let mut path = String::from_str(ident);
                    path.append(".");
                    path.append(ext.as_str());
                    proof {
                        reveal_strlit(".");
                        assert("."@ =~= seq!['.']);
                    }
                    path
                },
                None => {
                    proof {
                        reveal_strlit("");
                        assert("must include 'ext' attribute when using 'source' attribute"@
                            + ""@ + ""@
                            =~= "must include 'ext' attribute when using 'source' attribute"@);
                    }
                    return fail_with(
                        "must include 'ext' attribute when using 'source' attribute",
                        "",
                        "",
                    );
                },
            },
        };
        let syntax: String = match &args.syntax {
            None => config.default_syntax.clone(),
            Some(s) => {
                if has_name(&config.syntaxes, s) {
                    s.clone()
                } else {
                    return fail_with("attribute syntax ", s.as_str(), " not exist");
                }
            },
        };
        let escaping: String = match &args.escaping {
            Some(e) => e.clone(),
            None => match file_extension(path.as_str()) {
                Some(e) => String::from_str(e),
                None => String::new(),
            },
        };
        let escaper: String = match find_escaper(&config.escapers, &escaping) {
            Some(escaper) => escaper.clone(),
            None => {
                let mut text = escaping;
                text.append("'. ");
                text.append(config.valid_escapers.as_str());
                proof {
                    reveal_strlit("");
                    assert("no escaper defined for extension '"@ + text@ + ""@
                        =~= "no escaper defined for extension '"@ + spec_escaping(
                        args@.escaping,
                        path@,
                    ) + "'. "@ + config.valid_escapers@);
                }
                return fail_with("no escaper defined for extension '", text.as_str(), "");
            },
        };
        let mime_type = match ext_default_to_path(opt_deref(&args.ext), path.as_str()) {
            Some(ext) => extension_to_mime_type(ext),
            None => extension_to_mime_type("txt"),
        };
        Ok(
            TemplateInput {
                source: source_copy(source),
                block: opt_copy(&args.block),
                print: args.print,
                syntax,
                escaper,
                ext: opt_copy(&args.ext),
                mime_type,
                path,
            },
        )
    }

    /// The extension that tells what the template produces: the one that
    /// was given, else the one of the path.
    pub fn extension(&self) -> (r: Option<&str>)
        ensures
            opt_str_view(r) == match self@.ext {
                Some(e) => Some(e),
                None => spec_extension(self@.path),
            },
    {
        ext_default_to_path(opt_deref(&self.ext), self.path.as_str())
    }
}

} // verus!
