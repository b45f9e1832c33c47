//! The arguments of a `template` attribute.
//!
//! The attribute's syntax is parsed elsewhere; this module takes what the
//! parse found and decides what it means.

use crate::error::{CompileError, CompileErrorView, ErrorKind};
use crate::text::{opt_deref, opt_str_view, opt_view, str_eq};
use vstd::prelude::*;
use vstd::string::StringExecFns;

verus! {

/// Where a template's text comes from.
#[derive(Debug, Hash, PartialEq, Eq)]
pub enum Source {
    /// A template file, by name.
    Path(String),
    /// Inline text.
    Source(String),
}

/// The mathematical value of a [`Source`].
pub enum SourceView {
    Path(Seq<char>),
    Source(Seq<char>),
}

impl View for Source {
    type V = SourceView;

    open spec fn view(&self) -> SourceView {
        match self {
            Source::Path(s) => SourceView::Path(s@),
            Source::Source(s) => SourceView::Source(s@),
        }
    }
}

/// The value of an optional source.
pub open spec fn source_view(s: Option<Source>) -> Option<SourceView> {
    match s {
        Some(s) => Some(s@),
        None => None,
    }
}

/// What to print while a template is compiled.
#[derive(Clone, Copy, Debug, PartialEq, Eq, Hash, Structural)]
pub enum Print {
    All,
    Ast,
    Code,
    /// Print nothing; the option is written `none`.
    Nothing,
}

/// The error of this module: a message, attributed to no place.
pub open spec fn attribute_error(message: Seq<char>) -> CompileErrorView {
    CompileErrorView { kind: ErrorKind::Attribute, message, attribution: None }
}

fn fail<T>(message: String) -> (r: Result<T, CompileError>)
    ensures
        r is Err,
        r->Err_0@ == attribute_error(message@),
{
    Err(CompileError::no_file_info(ErrorKind::Attribute, message))
}

pub(crate) fn fail_with<T>(before: &str, text: &str, after: &str) -> (r: Result<T, CompileError>)
    ensures
        r is Err,
        r->Err_0@ == attribute_error(before@ + text@ + after@),
{
    let mut message = String::from_str(before);
    message.append(text);
    message.append(after);
    fail(message)
}

fn fail_about<T>(before: &str, text: &str) -> (r: Result<T, CompileError>)
    ensures
        r is Err,
        r->Err_0@ == attribute_error(before@ + text@),
{
    let mut message = String::from_str(before);
    message.append(text);
    fail(message)
}

impl Print {
    /// The print option that a word names, if it names one.
    pub open spec fn spec_from_str(s: Seq<char>) -> Option<Print> {
        if s == "all"@ {
            Some(Print::All)
        } else if s == "ast"@ {
            Some(Print::Ast)
        } else if s == "code"@ {
            Some(Print::Code)
        } else if s == "none"@ {
            Some(Print::Nothing)
        } else {
            None
        }
    }

    /// Reads a print option: `all`, `ast`, `code` or `none`. Any other word
    /// is rejected, and named in the error.
    pub fn from_str(s: &str) -> (r: Result<Print, CompileError>)
        ensures
            match Print::spec_from_str(s@) {
                Some(p) => r is Ok && r->Ok_0 == p,
                None => r is Err && r->Err_0@ == attribute_error(
                    "invalid value for print option: "@ + s@,
                ),
            },
    {
        if str_eq(s, "all") {
            Ok(Print::All)
        } else if str_eq(s, "ast") {
            Ok(Print::Ast)
        } else if str_eq(s, "code") {
            Ok(Print::Code)
        } else if str_eq(s, "none") {
            Ok(Print::Nothing)
        } else {
            fail_about("invalid value for print option: ", s)
        }
    }
}

impl Default for Print {
    fn default() -> (r: Print)
        ensures
            r == Print::Nothing,
    {
        Print::Nothing
    }
}

/// The arguments of a `template` attribute.
#[derive(Debug, PartialEq, Eq)]
pub struct TemplateArgs {
    pub source: Option<Source>,
    pub block: Option<String>,
    pub print: Print,
    pub escaping: Option<String>,
    pub ext: Option<String>,
    pub syntax: Option<String>,
    pub config: Option<String>,
    pub whitespace: Option<String>,
}

/// The mathematical value of [`TemplateArgs`].
pub struct TemplateArgsView {
    pub source: Option<SourceView>,
    pub block: Option<Seq<char>>,
    pub print: Print,
    pub escaping: Option<Seq<char>>,
    pub ext: Option<Seq<char>>,
    pub syntax: Option<Seq<char>>,
    pub config: Option<Seq<char>>,
    pub whitespace: Option<Seq<char>>,
}

impl View for TemplateArgs {
    type V = TemplateArgsView;

    open spec fn view(&self) -> TemplateArgsView {
        TemplateArgsView {
            source: source_view(self.source),
            block: opt_view(self.block),
            print: self.print,
            escaping: opt_view(self.escaping),
            ext: opt_view(self.ext),
            syntax: opt_view(self.syntax),
            config: opt_view(self.config),
            whitespace: opt_view(self.whitespace),
        }
    }
}

/// The arguments when nothing is given.
pub open spec fn no_args() -> TemplateArgsView {
    TemplateArgsView {
        source: None,
        block: None,
        print: Print::Nothing,
        escaping: None,
        ext: None,
        syntax: None,
        config: None,
        whitespace: None,
    }
}

impl Default for TemplateArgs {
    fn default() -> (r: TemplateArgs)
        ensures
            r@ == no_args(),
    {
        TemplateArgs {
            source: None,
            block: None,
            print: Print::Nothing,
            escaping: None,
            ext: None,
            syntax: None,
            config: None,
            whitespace: None,
        }
    }
}

/// The value of a `name = value` argument, as far as it matters here.
#[derive(Debug, PartialEq, Eq)]
pub enum MetaValue {
    /// A string literal, with the text that it denotes.
    Str(String),
    /// A literal of another kind.
    OtherLit,
    /// Not a literal.
    NotLit,
}

/// One argument of a `template` attribute.
#[derive(Debug, PartialEq, Eq)]
pub enum MetaItem {
    /// `name = value`. `label` is the name as an error message shows it.
    NameValue { name: String, label: String, value: MetaValue },
    /// An argument of another form. `tokens` is the argument as an error
    /// message shows it.
    Other { tokens: String },
}

/// One `template` attribute of an item: its arguments, or the reason why
/// they could not be parsed.
#[derive(Debug, PartialEq, Eq)]
pub enum TemplateAttr {
    List(Vec<MetaItem>),
    Malformed(String),
}

/// The text of an argument's value, which must be a string literal; `what`
/// names the argument in the error.
pub open spec fn literal_text(value: MetaValue, what: Seq<char>) -> Result<Seq<char>, Seq<char>> {
    match value {
        MetaValue::Str(s) => Ok(s@),
        _ => Err(what + " must be string literal"@),
    }
}

/// The source that `path = ..` or `source = ..` sets; only one of the two
/// may be given.
pub open spec fn with_source(args: TemplateArgsView, source: SourceView) -> Result<
    TemplateArgsView,
    Seq<char>,
> {
    if args.source is Some {
        Err("must specify 'source' or 'path', not both"@)
    } else {
        Ok(TemplateArgsView { source: Some(source), ..args })
    }
}

/// The arguments after one more `name = "text"` argument.
pub open spec fn with_text(args: TemplateArgsView, name: Seq<char>, value: MetaValue) -> Option<
    Result<TemplateArgsView, Seq<char>>,
> {
    if name == "path"@ {
        Some(
            match literal_text(value, "template path"@) {
                Ok(s) => with_source(args, SourceView::Path(s)),
                Err(m) => Err(m),
            },
        )
    } else if name == "source"@ {
        Some(
            match literal_text(value, "template source"@) {
                Ok(s) => with_source(args, SourceView::Source(s)),
                Err(m) => Err(m),
            },
        )
    } else if name == "block"@ {
        Some(
            match literal_text(value, "block value"@) {
                Ok(s) => Ok(TemplateArgsView { block: Some(s), ..args }),
                Err(m) => Err(m),
            },
        )
    } else if name == "print"@ {
        Some(
            match literal_text(value, "print value"@) {
                Ok(s) => match Print::spec_from_str(s) {
                    Some(print) => Ok(TemplateArgsView { print, ..args }),
                    None => Err("invalid value for print option: "@ + s),
                },
                Err(m) => Err(m),
            },
        )
    } else if name == "escape"@ {
        Some(
            match literal_text(value, "escape value"@) {
                Ok(s) => Ok(TemplateArgsView { escaping: Some(s), ..args }),
                Err(m) => Err(m),
            },
        )
    } else if name == "ext"@ {
        Some(
            match literal_text(value, "ext value"@) {
                Ok(s) => Ok(TemplateArgsView { ext: Some(s), ..args }),
                Err(m) => Err(m),
            },
        )
    } else if name == "syntax"@ {
        Some(
            match literal_text(value, "syntax value"@) {
                Ok(s) => Ok(TemplateArgsView { syntax: Some(s), ..args }),
                Err(m) => Err(m),
            },
        )
    } else if name == "config"@ {
        Some(
            match literal_text(value, "config value"@) {
                Ok(s) => Ok(TemplateArgsView { config: Some(s), ..args }),
                Err(m) => Err(m),
            },
        )
    } else if name == "whitespace"@ {
        Some(
            match literal_text(value, "whitespace value"@) {
                Ok(s) => Ok(TemplateArgsView { whitespace: Some(s), ..args }),
                Err(m) => Err(m),
            },
        )
    } else {
        None
    }
}

/// The arguments after one more item, or the message of the error that the
/// item causes.
pub open spec fn apply_item(args: TemplateArgsView, item: MetaItem) -> Result<
    TemplateArgsView,
    Seq<char>,
> {
    match item {
        MetaItem::Other { tokens } => Err("unsupported attribute argument "@ + tokens@),
        MetaItem::NameValue { name, label, value } => match value {
            MetaValue::NotLit => Err("unsupported argument value type for "@ + label@),
            _ => match with_text(args, name@, value) {
                Some(r) => r,
                None => Err("unsupported attribute key "@ + label@ + " found"@),
            },
        },
    }
}

/// The arguments after all of `items`, taken in order, or the message of
/// the first error.
pub open spec fn apply_items(args: TemplateArgsView, items: Seq<MetaItem>) -> Result<
    TemplateArgsView,
    Seq<char>,
>
    decreases items.len(),
{
    if items.len() == 0 {
        Ok(args)
    } else {
        match apply_items(args, items.drop_last()) {
            Ok(a) => apply_item(a, items.last()),
            Err(m) => Err(m),
        }
    }
}

/// The one argument list of an item's `template` attributes. There must be
/// exactly one attribute, and it must have parsed; of several faults the
/// first in order counts.
pub open spec fn select_list(attrs: Seq<TemplateAttr>) -> Result<Seq<MetaItem>, Seq<char>> {
    if attrs.len() == 0 {
        Err("no attribute 'template' found"@)
    } else {
        match attrs[0] {
            TemplateAttr::Malformed(e) => Err("unable to parse template arguments: "@ + e@),
            TemplateAttr::List(items) => if attrs.len() == 1 {
                Ok(items@)
            } else {
                match attrs[1] {
                    TemplateAttr::Malformed(e) => Err(
                        "unable to parse template arguments: "@ + e@,
                    ),
                    TemplateAttr::List(_) => Err("duplicated 'template' attribute"@),
                }
            },
        }
    }
}

/// What the `template` attributes of an item mean.
pub open spec fn spec_new(attrs: Seq<TemplateAttr>) -> Result<TemplateArgsView, Seq<char>> {
    match select_list(attrs) {
        Ok(items) => apply_items(no_args(), items),
        Err(m) => Err(m),
    }
}

/// The text of a value that must be a string literal.
fn literal(value: &MetaValue, what: &str) -> (r: Result<String, CompileError>)
    ensures
        match literal_text(*value, what@) {
            Ok(s) => r is Ok && r->Ok_0@ == s,
            Err(m) => r is Err && r->Err_0@ == attribute_error(m),
        },
{
    match value {
        MetaValue::Str(s) => Ok(s.clone()),
        _ => {
            fail_about(what, " must be string literal")
        },
    }
}

impl TemplateArgs {
    fn set_source(&mut self, source: Source) -> (r: Result<(), CompileError>)
        ensures
            match with_source(old(self)@, source@) {
                Ok(v) => r is Ok && final(self)@ == v,
                Err(m) => r is Err && r->Err_0@ == attribute_error(m),
            },
    {
        if self.source.is_some() {
            fail(String::from_str("must specify 'source' or 'path', not both"))
        } else {
            self.source = Some(source);
            Ok(())
        }
    }

    /// Takes one `name = value` argument whose value is a literal. Gives
    /// `None` if the name is not one of the known arguments.
    fn set_text(&mut self, name: &str, value: &MetaValue) -> (r: Option<Result<(), CompileError>>)
        ensures
            match with_text(old(self)@, name@, *value) {
                Some(Ok(v)) => r is Some && r->0 is Ok && final(self)@ == v,
                Some(Err(m)) => r is Some && r->0 is Err && r->0->Err_0@ == attribute_error(m),
                None => r is None && final(self)@ == old(self)@,
            },
    {
        if str_eq(name, "path") {
            Some(
                match literal(value, "template path") {
                    Ok(s) => self.set_source(Source::Path(s)),
                    Err(e) => Err(e),
                },
            )
        } else if str_eq(name, "source") {
            Some(
                match literal(value, "template source") {
                    Ok(s) => self.set_source(Source::Source(s)),
                    Err(e) => Err(e),
                },
            )
        } else if str_eq(name, "block") {
            Some(
                match literal(value, "block value") {
                    Ok(s) => {
                        self.block = Some(s);
                        Ok(())
                    },
                    Err(e) => Err(e),
                },
            )
        } else if str_eq(name, "print") {
            Some(
                match literal(value, "print value") {
                    Ok(s) => match Print::from_str(s.as_str()) {
                        Ok(print) => {
                            self.print = print;
                            Ok(())
                        },
                        Err(e) => Err(e),
                    },
                    Err(e) => Err(e),
                },
            )
        } else if str_eq(name, "escape") {
            Some(
                match literal(value, "escape value") {
                    Ok(s) => {
                        self.escaping = Some(s);
                        Ok(())
                    },
                    Err(e) => Err(e),
                },
            )
        } else if str_eq(name, "ext") {
            Some(
                match literal(value, "ext value") {
                    Ok(s) => {
                        self.ext = Some(s);
                        Ok(())
                    },
                    Err(e) => Err(e),
                },
            )
        } else if str_eq(name, "syntax") {
            Some(
                match literal(value, "syntax value") {
                    Ok(s) => {
                        self.syntax = Some(s);
                        Ok(())
                    },
                    Err(e) => Err(e),
                },
            )
        } else if str_eq(name, "config") {
            Some(
                match literal(value, "config value") {
                    Ok(s) => {
                        self.config = Some(s);
                        Ok(())
                    },
                    Err(e) => Err(e),
                },
            )
        } else if str_eq(name, "whitespace") {
            Some(
                match literal(value, "whitespace value") {
                    Ok(s) => {
                        self.whitespace = Some(s);
                        Ok(())
                    },
                    Err(e) => Err(e),
                },
            )
        } else {
            None
        }
    }

    /// Takes one argument.
    fn set_item(&mut self, item: &MetaItem) -> (r: Result<(), CompileError>)
        ensures
            match apply_item(old(self)@, *item) {
                Ok(v) => r is Ok && final(self)@ == v,
                Err(m) => r is Err && r->Err_0@ == attribute_error(m),
            },
    {
        match item {
            MetaItem::Other { tokens } => fail_about(
                "unsupported attribute argument ",
                tokens.as_str(),
            ),
            MetaItem::NameValue { name, label, value } => {
                match value {
                    MetaValue::NotLit => fail_about(
                        "unsupported argument value type for ",
                        label.as_str(),
                    ),
                    _ => match self.set_text(name.as_str(), value) {
                        Some(r) => r,
                        None => fail_with("unsupported attribute key ", label.as_str(), " found"),
                    },
                }
            },
        }
    }

    /// Reads the arguments of an item's `template` attributes.
    ///
    /// `attrs` holds the item's attributes that are named `template`, in
    /// order. Exactly one is expected. Each of its arguments must have the
    /// form `name = "text"`, with one of the names `path`, `source`,
    /// `block`, `print`, `escape`, `ext`, `syntax`, `config`, `whitespace`;
    /// `path` and `source` exclude each other. The first fault, in order,
    /// is reported.
    pub fn new(attrs: &Vec<TemplateAttr>) -> (r: Result<TemplateArgs, CompileError>)
        ensures
            match spec_new(attrs@) {
                Ok(v) => r is Ok && r->Ok_0@ == v,
                Err(m) => r is Err && r->Err_0@ == attribute_error(m),
            },
    {
        let mut template_args: Option<&Vec<MetaItem>> = None;
        let n: usize = attrs.len();
        let mut i: usize = 0;
        while i < n
            invariant
                i <= n,
                i <= 1,
                n == attrs.len(),
                i == 0 ==> template_args is None,
                i == 1 ==> attrs[0] is List && template_args == Some(&attrs[0]->List_0),
            decreases n - i,
        {
            match &attrs[i] {
                TemplateAttr::List(args) => {
                    if template_args.is_none() {
                        template_args = Some(args);
                    } else {
                        return fail(String::from_str("duplicated 'template' attribute"));
                    }
                },
                TemplateAttr::Malformed(e) => {
                    return fail_about("unable to parse template arguments: ", e.as_str());
                },
            }
            i = i + 1;
        }
        let items: &Vec<MetaItem> = match template_args {
            Some(items) => items,
            None => {
                return fail(String::from_str("no attribute 'template' found"));
            },
        };
        let mut args = TemplateArgs::default();
        let m: usize = items.len();
        let mut j: usize = 0;
        while j < m
            invariant
                j <= m,
                m == items.len(),
                select_list(attrs@) == Ok::<Seq<MetaItem>, Seq<char>>(items@),
                apply_items(no_args(), items@.take(j as int)) == Ok::<TemplateArgsView, Seq<char>>(
                    args@,
                ),
            decreases m - j,
        {
            proof {
                assert(items@.take(j + 1).drop_last() =~= items@.take(j as int));
                assert(items@.take(j + 1).last() == items[j as int]);
                assert(items@.take(m as int) =~= items@);
            }
            match args.set_item(&items[j]) {
                Ok(()) => {},
                Err(e) => {
                    proof {
                        lemma_first_error(no_args(), items@, j as int);
                    }
                    return Err(e);
                },
            }
            j = j + 1;
        }
        proof {
            assert(items@.take(m as int) =~= items@);
        }
        Ok(args)
    }

    /// The arguments of a template that stands in for one whose own
    /// arguments are unusable: empty inline text that produces plain text.
    pub fn fallback() -> (r: TemplateArgs)
        ensures
            r@ == (TemplateArgsView {
                source: Some(SourceView::Source(Seq::empty())),
                ext: Some("txt"@),
                ..no_args()
            }),
    {
        let r = TemplateArgs {
            source: Some(Source::Source(String::new())),
            block: None,
            print: Print::Nothing,
            escaping: None,
            ext: Some(String::from_str("txt")),
            syntax: None,
            config: None,
            whitespace: None,
        };
        r
    }

    /// The path of the configuration file, if one is given.
    pub fn config_path(&self) -> (r: Option<&str>)
        ensures
            opt_str_view(r) == self@.config,
    {
        opt_deref(&self.config)
    }
}

/// An error among the first items is the error of the whole list.
proof fn lemma_first_error(args: TemplateArgsView, items: Seq<MetaItem>, j: int)
    requires
        0 <= j < items.len(),
        apply_items(args, items.take(j + 1)) is Err,
    ensures
        apply_items(args, items) == apply_items(args, items.take(j + 1)),
    decreases items.len() - j,
{
    if j + 1 < items.len() {
        assert(items.take(j + 2).drop_last() =~= items.take(j + 1));
        lemma_first_error(args, items, j + 1);
    } else {
        assert(items.take(j + 1) =~= items);
    }
}

} // verus!
