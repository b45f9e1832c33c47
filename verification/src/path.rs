//! The file name and the extension of a template path.
//!
//! A template path is text whose segments are separated by `/`. Empty
//! segments and segments that are a single `.` name nothing: `a//b/./` is
//! the path of `b` in `a`.

use crate::text::{
    contains_text, find_last, last_index_of, lemma_last_index_of, occurs_at, opt_str_view, str_eq,
};
use vstd::prelude::*;
use vstd::string::StrSliceExecFns;

verus! {

/// The file name of a path: its last segment that names something. A path
/// without such a segment has no file name, and neither has a path whose
/// last such segment is `..`.
pub open spec fn spec_file_name(path: Seq<char>) -> Option<Seq<char>>
    decreases path.len(),
{
    let slash = last_index_of(path, '/');
    let last = path.skip(slash + 1);
    if last.len() == 0 || last == seq!['.'] {
        if slash < 0 {
            None
        } else {
            proof {
                lemma_last_index_of(path, '/');
            }
            spec_file_name(path.take(slash))
        }
    } else if last == seq!['.', '.'] {
        None
    } else {
        Some(last)
    }
}

/// The extension of a file name: what follows its last `.`. A name without
/// a `.` and a name whose only `.` is its first character have none.
pub open spec fn spec_name_extension(name: Seq<char>) -> Option<Seq<char>> {
    let dot = last_index_of(name, '.');
    if dot <= 0 {
        None
    } else {
        Some(name.skip(dot + 1))
    }
}

/// The stem of a file name: what precedes its last `.`, or the whole name
/// where it has no extension.
pub open spec fn spec_name_stem(name: Seq<char>) -> Seq<char> {
    let dot = last_index_of(name, '.');
    if dot <= 0 {
        name
    } else {
        name.take(dot)
    }
}

/// The extension of a path: the extension of its file name.
pub open spec fn spec_file_extension(path: Seq<char>) -> Option<Seq<char>> {
    match spec_file_name(path) {
        Some(name) => spec_name_extension(name),
        None => None,
    }
}

/// The stem of a path: the stem of its file name.
pub open spec fn spec_file_stem(path: Seq<char>) -> Option<Seq<char>> {
    match spec_file_name(path) {
        Some(name) => Some(spec_name_stem(name)),
        None => None,
    }
}

/// Whether an extension only marks a file as a template.
pub open spec fn is_jinja_extension(ext: Seq<char>) -> bool {
    ext == "j2"@ || ext == "jinja"@ || ext == "jinja2"@
}

/// The extension that tells what a template produces: the extension of the
/// path, or, where that only marks the file as a template (`j2`, `jinja`,
/// `jinja2`), the extension of the path's stem, if it has one. Only one
/// such marker is skipped.
pub open spec fn spec_extension(path: Seq<char>) -> Option<Seq<char>> {
    match spec_file_extension(path) {
        None => None,
        Some(ext) => if is_jinja_extension(ext) {
            match spec_file_extension(spec_file_stem(path)->0) {
                Some(inner) => Some(inner),
                None => Some(ext),
            }
        } else {
            Some(ext)
        },
    }
}

/// A file name is one segment of its path: it is not empty, holds no `/`,
/// and stands in the path.
pub proof fn lemma_file_name_is_segment(path: Seq<char>)
    ensures
        spec_file_name(path) matches Some(name) ==> name.len() > 0 && !name.contains('/')
            && contains_text(path, name),
    decreases path.len(),
{
    lemma_last_index_of(path, '/');
    let slash = last_index_of(path, '/');
    let last = path.skip(slash + 1);
    if last.len() == 0 || last == seq!['.'] {
        if slash >= 0 {
            let head = path.take(slash);
            lemma_file_name_is_segment(head);
            if let Some(name) = spec_file_name(head) {
                let at = choose|at: int| occurs_at(head, name, at);
                assert(path.subrange(at, at + name.len()) =~= head.subrange(at, at + name.len()));
                assert(occurs_at(path, name, at));
            }
        }
    } else if last != seq!['.', '.'] {
        assert forall|i: int| 0 <= i < last.len() implies last[i] != '/' by {
            assert(last[i] == path[slash + 1 + i]);
        }
        assert(path.subrange(slash + 1, slash + 1 + last.len()) =~= last);
        assert(occurs_at(path, last, slash + 1));
    }
}

/// The extension of a template is a piece of the path's file name.
pub proof fn lemma_extension_is_in_file_name(path: Seq<char>)
    ensures
        spec_extension(path) matches Some(ext) ==> spec_file_name(path) is Some && contains_text(
            spec_file_name(path)->0,
            ext,
        ),
{
    if let Some(name) = spec_file_name(path) {
        lemma_file_name_is_segment(path);
        lemma_last_index_of(name, '.');
        let dot = last_index_of(name, '.');
        if let Some(ext) = spec_name_extension(name) {
            assert(name.subrange(dot + 1, dot + 1 + ext.len()) =~= ext);
            assert(occurs_at(name, ext, dot + 1));
            let stem = spec_name_stem(name);
            lemma_last_index_of(stem, '/');
            if last_index_of(stem, '/') >= 0 {
                assert(stem[last_index_of(stem, '/')] == name[last_index_of(stem, '/')]);
                assert(name.contains('/'));
            }
            assert(stem.skip(0) =~= stem);
            if let Some(inner) = spec_file_extension(stem) {
                assert(spec_file_name(stem) == Some(stem));
                lemma_last_index_of(stem, '.');
                let d = last_index_of(stem, '.');
                assert(name.subrange(d + 1, d + 1 + inner.len()) =~= inner);
                assert(occurs_at(name, inner, d + 1));
            }
        }
    }
}

/// An extension holds no `.`.
pub proof fn lemma_extension_has_no_dot(path: Seq<char>)
    ensures
        spec_file_extension(path) matches Some(ext) ==> !ext.contains('.'),
        spec_extension(path) matches Some(ext) ==> !ext.contains('.'),
{
    if let Some(name) = spec_file_name(path) {
        lemma_last_index_of(name, '.');
        if let Some(ext) = spec_name_extension(name) {
            let dot = last_index_of(name, '.');
            assert forall|i: int| 0 <= i < ext.len() implies ext[i] != '.' by {
                assert(ext[i] == name[dot + 1 + i]);
            }
            if let Some(inner_name) = spec_file_name(spec_name_stem(name)) {
                lemma_last_index_of(inner_name, '.');
                if let Some(inner) = spec_name_extension(inner_name) {
                    let d = last_index_of(inner_name, '.');
                    assert forall|i: int| 0 <= i < inner.len() implies inner[i] != '.' by {
                        assert(inner[i] == inner_name[d + 1 + i]);
                    }
                }
            }
        }
    }
}

/// The file name of a path.
pub fn file_name(path: &str) -> (r: Option<&str>)
    ensures
        opt_str_view(r) == spec_file_name(path@),
{
    let mut end: usize = path.unicode_len();
    proof {
        assert(path@.take(end as int) =~= path@);
    }
    loop
        invariant
            end <= path@.len(),
            spec_file_name(path@) == spec_file_name(path@.take(end as int)),
        decreases end,
    {
        let head = path.substring_char(0, end);
        proof {
            assert(head@ =~= path@.take(end as int));
            lemma_last_index_of(head@, '/');
            reveal_strlit("");
            reveal_strlit(".");
            reveal_strlit("..");
            assert(""@ =~= Seq::<char>::empty());
            assert("."@ =~= seq!['.']);
            assert(".."@ =~= seq!['.', '.']);
        }
        let slash = find_last(head, '/');
        let start: usize = match slash {
            Some(s) => s + 1,
            None => 0,
        };
        let last = head.substring_char(start, end);
        proof {
            assert(last@ =~= head@.skip(start as int));
            if last@.len() == 0 {
                assert(last@ =~= Seq::<char>::empty());
            }
        }
        if str_eq(last, "") || str_eq(last, ".") {
            match slash {
                None => {
                    return None;
                },
                Some(s) => {
                    proof {
                        assert(head@.take(s as int) =~= path@.take(s as int));
                    }
                    end = s;
                },
            }
        } else if str_eq(last, "..") {
            return None;
        } else {
            return Some(last);
        }
    }
}

/// Splits a file name at its last `.` into stem and extension, if it has an
/// extension.
fn split_name(name: &str) -> (r: Option<(&str, &str)>)
    ensures
        match r {
            Some((stem, ext)) => spec_name_extension(name@) == Some(ext@) && stem@
                == spec_name_stem(name@),
            None => spec_name_extension(name@) is None,
        },
{
    proof {
        lemma_last_index_of(name@, '.');
    }
    match find_last(name, '.') {
        None => None,
        Some(dot) => {
            if dot == 0 {
                None
            } else {
                let n: usize = name.unicode_len();
                let stem = name.substring_char(0, dot);
                let ext = name.substring_char(dot + 1, n);
                Some((stem, ext))
            }
        },
    }
}

/// The extension of a path's file name, whatever it is.
pub fn file_extension(path: &str) -> (r: Option<&str>)
    ensures
        opt_str_view(r) == spec_file_extension(path@),
{
    match file_name(path) {
        None => None,
        Some(name) => match split_name(name) {
            None => None,
            Some((_, ext)) => Some(ext),
        },
    }
}

/// The extension that tells what the template at `path` produces.
pub fn extension(path: &str) -> (r: Option<&str>)
    ensures
        opt_str_view(r) == spec_extension(path@),
{
    match file_name(path) {
        None => None,
        Some(name) => match split_name(name) {
            None => None,
            Some((stem, ext)) => {
                if str_eq(ext, "j2") || str_eq(ext, "jinja") || str_eq(ext, "jinja2") {
                    match file_extension(stem) {
                        Some(inner) => Some(inner),
                        None => Some(ext),
                    }
                } else {
                    Some(ext)
                }
            },
        },
    }
}

/// The extension that was given, or else the one of the path.
pub fn ext_default_to_path<'a>(ext: Option<&'a str>, path: &'a str) -> (r: Option<&'a str>)
    ensures
        opt_str_view(r) == match ext {
            Some(e) => Some(e@),
            None => spec_extension(path@),
        },
{
    match ext {
        Some(e) => Some(e),
        None => extension(path),
    }
}

} // verus!
