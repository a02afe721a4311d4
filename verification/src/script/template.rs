//! Script template resolution and include expansion.
//!
//! Templates live in a directory; the application reads it into a
//! [`TemplateLibrary`] of relative paths and texts. A template may include
//! another with `{{include:relative/path.js}}`; includes are expanded
//! recursively, must stay inside the template directory and may not form a
//! cycle.

use vstd::prelude::*;
use vstd::string::*;
use crate::text::{
    ascii_alphanumeric, ascii_lower, ascii_lowercase, chars_of, is_ascii_alphanumeric, lowercase_ascii,
    has_prefix, string_from_chars, strings_equal, strip_prefix, to_ascii_lower, trim, trimmed,
};

verus! {

broadcast use {vstd::seq_lib::group_seq_properties, vstd::set_lib::group_set_properties};

/// The template files of a template directory, and the default template
/// compiled into the host.
pub struct TemplateLibrary {
    /// The built-in default template, used when no file applies.
    pub embedded_default: String,
    /// Each file as its `/`-separated path relative to the directory, and
    /// its text; the built-in core templates are held under `core/` and
    /// their path.
    pub files: Vec<(String, String)>,
}

/// The files of a library as paths and texts.
pub open spec fn library_entries(files: Seq<(String, String)>) -> Seq<(Seq<char>, Seq<char>)> {
    files.map_values(|entry: (String, String)| (entry.0@, entry.1@))
}

/// The text of the first file at `path`.
pub open spec fn lookup(entries: Seq<(Seq<char>, Seq<char>)>, path: Seq<char>) -> Option<Seq<char>>
    decreases entries.len(),
{
    if entries.len() == 0 {
        None
    } else if entries[0].0 == path {
        Some(entries[0].1)
    } else {
        lookup(entries.drop_first(), path)
    }
}

/// Why a template could not be expanded, over the text it names.
pub enum TemplateFault {
    EmptyIncludePath,
    AbsoluteIncludePath(Seq<char>),
    EscapingIncludePath(Seq<char>),
    EmptyResolvedPath(Seq<char>),
    MissingClose,
    IncludeCycle(Seq<Seq<char>>),
    UnreadableInclude(Seq<char>),
    UnreadableTemplate(Seq<char>),
}

/// Why a template could not be expanded.
#[derive(Clone, Debug, PartialEq, Eq)]
pub enum TemplateError {
    /// An include directive names an empty path.
    EmptyIncludePath,
    /// An include path (trimmed) is absolute.
    AbsoluteIncludePath(String),
    /// An include path (trimmed) leaves the template directory.
    EscapingIncludePath(String),
    /// An include path (trimmed) has no file name left.
    EmptyResolvedPath(String),
    /// An include directive has no closing `}}`.
    MissingClose,
    /// Expanding would include a file within itself; the chain of includes.
    IncludeCycle(Vec<String>),
    /// The library has no file at this relative path.
    UnreadableInclude(String),
    /// The library has no template at this relative path.
    UnreadableTemplate(String),
}

/// The views of a list of strings.
pub open spec fn string_views(strings: Seq<String>) -> Seq<Seq<char>> {
    strings.map_values(|s: String| s@)
}

impl View for TemplateError {
    type V = TemplateFault;

    open spec fn view(&self) -> TemplateFault {
        match self {
            TemplateError::EmptyIncludePath => TemplateFault::EmptyIncludePath,
            TemplateError::AbsoluteIncludePath(p) => TemplateFault::AbsoluteIncludePath(p@),
            TemplateError::EscapingIncludePath(p) => TemplateFault::EscapingIncludePath(p@),
            TemplateError::EmptyResolvedPath(p) => TemplateFault::EmptyResolvedPath(p@),
            TemplateError::MissingClose => TemplateFault::MissingClose,
            TemplateError::IncludeCycle(chain) => TemplateFault::IncludeCycle(string_views(chain@)),
            TemplateError::UnreadableInclude(p) => TemplateFault::UnreadableInclude(p@),
            TemplateError::UnreadableTemplate(p) => TemplateFault::UnreadableTemplate(p@),
        }
    }
}

/// The text that opens an include directive.
pub open spec fn include_prefix() -> Seq<char> {
    seq!['{', '{', 'i', 'n', 'c', 'l', 'u', 'd', 'e', ':']
}

/// The text that closes an include directive.
pub open spec fn include_suffix() -> Seq<char> {
    seq!['}', '}']
}

/// The first index at or after `from` where `needle` occurs in `hay`.
pub open spec fn find(hay: Seq<char>, needle: Seq<char>, from: int) -> Option<int>
    decreases hay.len() - from,
{
    if from < 0 || from + needle.len() > hay.len() {
        None
    } else if needle.len() == 0 || hay.subrange(from, from + needle.len()) == needle {
        Some(from)
    } else {
        find(hay, needle, from + 1)
    }
}

pub proof fn lemma_find_bounds(hay: Seq<char>, needle: Seq<char>, from: int)
    ensures
        find(hay, needle, from) is Some ==> from <= find(hay, needle, from).unwrap() && find(
            hay,
            needle,
            from,
        ).unwrap() + needle.len() <= hay.len() && hay.subrange(
            find(hay, needle, from).unwrap(),
            find(hay, needle, from).unwrap() + needle.len(),
        ) == needle,
    decreases hay.len() - from,
{
    if !(from < 0 || from + needle.len() > hay.len()) {
        if needle.len() == 0 {
            assert(hay.subrange(from, from) =~= needle);
        } else if hay.subrange(from, from + needle.len()) != needle {
            lemma_find_bounds(hay, needle, from + 1);
        }
    }
}

/// A path segment ends: `.` and empty segments vanish, `..` escapes, any
/// other segment is appended after a `/`.
pub open spec fn flush_segment(out: Seq<char>, segment: Seq<char>) -> (Seq<char>, bool) {
    if segment.len() == 0 || segment == seq!['.'] {
        (out, false)
    } else if segment == seq!['.', '.'] {
        (out, true)
    } else if out.len() == 0 {
        (segment, false)
    } else {
        (out.push('/') + segment, false)
    }
}

/// Scans a relative path: the normalized segments so far, the segment being
/// read, and whether a `..` segment was met.
pub open spec fn scan_path(path: Seq<char>) -> (Seq<char>, Seq<char>, bool)
    decreases path.len(),
{
    if path.len() == 0 {
        (Seq::empty(), Seq::empty(), false)
    } else {
        let (out, segment, escaped) = scan_path(path.drop_last());
        let c = path.last();
        if escaped {
            (out, segment, escaped)
        } else if c == '/' {
            let (flushed, escapes) = flush_segment(out, segment);
            (flushed, Seq::empty(), escapes)
        } else {
            (out, segment.push(c), false)
        }
    }
}

/// The relative path an include directive names: trimmed, `.` and empty
/// segments dropped, refused when empty, absolute or leaving the directory.
pub open spec fn normalize_include(raw: Seq<char>) -> Result<Seq<char>, TemplateFault> {
    let path = trimmed(raw);
    if path.len() == 0 {
        Err(TemplateFault::EmptyIncludePath)
    } else if path[0] == '/' {
        Err(TemplateFault::AbsoluteIncludePath(path))
    } else {
        let (out, segment, escaped) = scan_path(path);
        let (flushed, escapes) = flush_segment(out, segment);
        if escaped || escapes {
            Err(TemplateFault::EscapingIncludePath(path))
        } else if flushed.len() == 0 {
            Err(TemplateFault::EmptyResolvedPath(path))
        } else {
            Ok(flushed)
        }
    }
}

/// The key under which an include is tracked for cycles: backslashes become
/// `/` and ASCII letters are lowercased.
pub open spec fn include_key(path: Seq<char>) -> Seq<char> {
    path.map_values(|c: char| if c == '\\' { '/' } else { ascii_lower(c) })
}

/// The keys of a library's files.
pub open spec fn library_keys(entries: Seq<(Seq<char>, Seq<char>)>) -> Set<Seq<char>> {
    entries.map_values(|entry: (Seq<char>, Seq<char>)| include_key(entry.0)).to_set()
}

/// How many of the library's files may still be entered without a cycle.
pub open spec fn include_budget(entries: Seq<(Seq<char>, Seq<char>)>, stack: Seq<Seq<char>>) -> nat {
    library_keys(entries).difference(stack.to_set()).len()
}

pub proof fn lemma_lookup_found(entries: Seq<(Seq<char>, Seq<char>)>, path: Seq<char>)
    requires
        lookup(entries, path) is Some,
    ensures
        exists|i: int| 0 <= i < entries.len() && #[trigger] entries[i] == (path, lookup(entries, path).unwrap()),
    decreases entries.len(),
{
    if entries[0].0 != path {
        lemma_lookup_found(entries.drop_first(), path);
        let i = choose|i: int|
            0 <= i < entries.drop_first().len() && #[trigger] entries.drop_first()[i] == (
                path,
                lookup(entries.drop_first(), path).unwrap(),
            );
        assert(entries[i + 1] == entries.drop_first()[i]);
    } else {
        assert(entries[0] == (path, lookup(entries, path).unwrap()));
    }
}

pub proof fn lemma_budget_shrinks(entries: Seq<(Seq<char>, Seq<char>)>, stack: Seq<Seq<char>>, path: Seq<char>)
    requires
        lookup(entries, path) is Some,
        !stack.contains(include_key(path)),
    ensures
        include_budget(entries, stack.push(include_key(path))) < include_budget(entries, stack),
{
    let key = include_key(path);
    lemma_lookup_found(entries, path);
    let i = choose|i: int| 0 <= i < entries.len() && #[trigger] entries[i] == (path, lookup(entries, path).unwrap());
    let keys = entries.map_values(|entry: (Seq<char>, Seq<char>)| include_key(entry.0));
    assert(keys[i] == key);
    assert(library_keys(entries).contains(key));
    let remaining = library_keys(entries).difference(stack.to_set());
    assert(remaining.contains(key));
    assert(stack.push(key).to_set() =~= stack.to_set().insert(key));
    assert(library_keys(entries).difference(stack.push(key).to_set()) =~= remaining.remove(key));
}

/// Whether `path` names a built-in core template: it begins with `core/`.
pub open spec fn in_core(path: Seq<char>) -> bool {
    has_prefix(path, "core/"@)
}

/// The library path that an include of `path` names from a template that is
/// (`core`) or is not a core template. A path that begins with `core/` names
/// the built-in core template that the library holds under that path; the
/// other includes of a core template name core templates too, so `core/` is
/// put before them; the other includes of any other template name files of
/// the library's own directory.
pub open spec fn include_target(path: Seq<char>, core: bool) -> Seq<char> {
    if core && !in_core(path) {
        "core/"@ + path
    } else {
        path
    }
}

/// `source[from..]` with every include directive replaced by the expansion
/// of the file it names; `stack` holds the keys of the files being expanded
/// and `core` tells whether `source` is a core template.
pub open spec fn expand_from(
    source: Seq<char>,
    from: int,
    entries: Seq<(Seq<char>, Seq<char>)>,
    stack: Seq<Seq<char>>,
    core: bool,
) -> Result<Seq<char>, TemplateFault>
    decreases include_budget(entries, stack), source.len() - from,
{
    match find(source, include_prefix(), from) {
        None => Ok(source.subrange(from, source.len() as int)),
        Some(start) => {
            let after = start + include_prefix().len();
            match find(source, include_suffix(), after) {
                None => Err(TemplateFault::MissingClose),
                Some(end) => match normalize_include(source.subrange(after, end)) {
                    Err(fault) => Err(fault),
                    Ok(path) => {
                        let target = include_target(path, core);
                        let key = include_key(target);
                        if stack.contains(key) {
                            Err(TemplateFault::IncludeCycle(stack.push(key)))
                        } else {
                            match lookup(entries, target) {
                                None => Err(TemplateFault::UnreadableInclude(target)),
                                Some(text) => {
                                    proof {
                                        lemma_budget_shrinks(entries, stack, target);
                                        lemma_find_bounds(source, include_prefix(), from);
                                        lemma_find_bounds(source, include_suffix(), after);
                                    }
                                    match expand_from(text, 0, entries, stack.push(key), in_core(target)) {
                                        Err(fault) => Err(fault),
                                        Ok(inner) => match expand_from(
                                            source,
                                            end + include_suffix().len(),
                                            entries,
                                            stack,
                                            core,
                                        ) {
                                            Err(fault) => Err(fault),
                                            Ok(rest) => Ok(source.subrange(from, start) + inner + rest),
                                        },
                                    }
                                },
                            }
                        }
                    },
                },
            }
        },
    }
}

/// The first index at or after `from` where `needle` occurs in `hay`.
fn find_chars(hay: &Vec<char>, needle: &Vec<char>, from: usize) -> (found: Option<usize>)
    ensures
        match find(hay@, needle@, from as int) {
            None => found is None,
            Some(i) => found is Some && found.unwrap() == i,
        },
{
    let n = needle.len();
    let len = hay.len();
    if from > len || n > len - from {
        return None;
    }
    let mut i = from;
    while i <= len - n
        invariant
            from <= i,
            n == needle@.len(),
            len == hay@.len(),
            n <= len,
            find(hay@, needle@, from as int) == find(hay@, needle@, i as int),
        decreases len - i,
    {
        let mut j: usize = 0;
        while j < n && hay[i + j] == needle[j]
            invariant
                j <= n,
                i + n <= len,
                n == needle@.len(),
                len == hay@.len(),
                forall|k: int| 0 <= k < j ==> hay@[i + k] == needle@[k],
            decreases n - j,
        {
            j = j + 1;
        }
        if j == n {
            assert(hay@.subrange(i as int, i + n) =~= needle@);
            return Some(i);
        }
        assert(hay@.subrange(i as int, i + n)[j as int] != needle@[j as int]);
        i = i + 1;
    }
    None
}

/// Ends a path segment: `.` and empty segments vanish, `..` escapes, any
/// other segment is appended after a `/`.
fn flush_segment_into(out: &mut Vec<char>, segment: &Vec<char>) -> (escapes: bool)
    ensures
        (final(out)@, escapes) == flush_segment(old(out)@, segment@),
{
    let n = segment.len();
    if n == 0 || (n == 1 && segment[0] == '.') {
        proof {
            if n == 1 {
                assert(segment@ =~= seq!['.']);
            }
        }
        return false;
    }
    if n == 2 && segment[0] == '.' && segment[1] == '.' {
        assert(segment@ =~= seq!['.', '.']);
        return true;
    }
    proof {
        if segment@ == seq!['.'] {
            assert(segment@[0] == '.');
        }
        if segment@ == seq!['.', '.'] {
            assert(segment@[0] == '.' && segment@[1] == '.');
        }
    }
    let ghost before = out@;
    if out.len() > 0 {
        out.push('/');
    }
    let mut i: usize = 0;
    while i < n
        invariant
            i <= n,
            n == segment@.len(),
            before.len() == 0 ==> out@ == segment@.subrange(0, i as int),
            before.len() > 0 ==> out@ == before.push('/') + segment@.subrange(0, i as int),
        decreases n - i,
    {
        out.push(segment[i]);
        proof {
            if before.len() == 0 {
                assert(out@ =~= segment@.subrange(0, i + 1));
            } else {
                assert(out@ =~= before.push('/') + segment@.subrange(0, i + 1));
            }
        }
        i = i + 1;
    }
    assert(segment@.subrange(0, n as int) =~= segment@);
    false
}

/// The relative path an include directive names: trimmed, `.` and empty
/// segments dropped; refused when empty, absolute or leaving the template
/// directory.
pub fn normalize_include_path(raw: &str) -> (result: Result<String, TemplateError>)
    ensures
        match normalize_include(raw@) {
            Ok(path) => result is Ok && result.unwrap()@ == path,
            Err(fault) => result is Err && result.unwrap_err()@ == fault,
        },
{
    let path = trim(raw);
    let chars = chars_of(path.as_str());
    let n = chars.len();
    if n == 0 {
        return Err(TemplateError::EmptyIncludePath);
    }
    if chars[0] == '/' {
        return Err(TemplateError::AbsoluteIncludePath(path));
    }
    let mut out: Vec<char> = Vec::new();
    let mut segment: Vec<char> = Vec::new();
    let mut i: usize = 0;
    while i < n
        invariant
            i <= n,
            n == chars@.len(),
            chars@ == trimmed(raw@),
            path@ == chars@,
            chars@[0] != '/',
            scan_path(chars@.subrange(0, i as int)) == (out@, segment@, false),
        decreases n - i,
    {
        let c = chars[i];
        assert(chars@.subrange(0, i + 1).drop_last() =~= chars@.subrange(0, i as int));
        if c == '/' {
            let ghost pre_out = out@;
            let ghost pre_segment = segment@;
            let escapes = flush_segment_into(&mut out, &segment);
            if escapes {
                proof {
                    assert(flush_segment(pre_out, pre_segment).1);
                    assert(scan_path(chars@.subrange(0, i + 1)).2);
                    lemma_scan_stays_escaped(chars@, i + 1);
                }
                return Err(TemplateError::EscapingIncludePath(path));
            }
            segment = Vec::new();
            assert(segment@ =~= Seq::<char>::empty());
        } else {
            segment.push(c);
        }
        i = i + 1;
    }
    assert(chars@.subrange(0, n as int) =~= chars@);
    let escapes = flush_segment_into(&mut out, &segment);
    if escapes {
        return Err(TemplateError::EscapingIncludePath(path));
    }
    if out.len() == 0 {
        return Err(TemplateError::EmptyResolvedPath(path));
    }
    Ok(string_from_chars(&out, 0, out.len()))
}

/// Once a `..` segment is met, scanning the rest of the path keeps it so.
proof fn lemma_scan_stays_escaped(path: Seq<char>, i: int)
    requires
        0 <= i <= path.len(),
        scan_path(path.subrange(0, i)).2,
    ensures
        scan_path(path).2,
    decreases path.len() - i,
{
    if i < path.len() {
        assert(path.subrange(0, i + 1).drop_last() =~= path.subrange(0, i));
        lemma_scan_stays_escaped(path, i + 1);
    } else {
        assert(path.subrange(0, i) =~= path);
    }
}

/// The key under which an include is tracked for cycles.
fn include_key_of(path: &str) -> (key: String)
    ensures
        key@ == include_key(path@),
{
    let chars = chars_of(path);
    let n = chars.len();
    let mut key = String::new();
    let mut i: usize = 0;
    while i < n
        invariant
            i <= n,
            n == chars@.len(),
            chars@ == path@,
            key@ == include_key(path@.subrange(0, i as int)),
        decreases n - i,
    {
        let c = chars[i];
        let mapped = if c == '\\' {
            '/'
        } else {
            to_ascii_lower(c)
        };
        crate::text::push_char(&mut key, mapped);
        assert(include_key(path@.subrange(0, i + 1)) =~= include_key(path@.subrange(0, i as int)).push(mapped));
        i = i + 1;
    }
    assert(path@.subrange(0, n as int) =~= path@);
    key
}

/// Whether `key` is among the files being expanded.
pub fn include_stack_contains(stack: &[String], key: &str) -> (contains: bool)
    ensures
        contains == string_views(stack@).contains(key@),
{
    let mut i: usize = 0;
    while i < stack.len()
        invariant
            i <= stack@.len(),
            forall|j: int| 0 <= j < i ==> stack@[j]@ != key@,
        decreases stack@.len() - i,
    {
        if crate::text::strings_equal(stack[i].as_str(), key) {
            assert(string_views(stack@)[i as int] == key@);
            return true;
        }
        i = i + 1;
    }
    proof {
        if string_views(stack@).contains(key@) {
            let j = choose|j: int| 0 <= j < string_views(stack@).len() && string_views(stack@)[j] == key@;
            assert(stack@[j]@ == key@);
        }
    }
    false
}

/// The text of the first library file at `path`.
pub fn lookup_template<'a>(library: &'a TemplateLibrary, path: &str) -> (text: Option<&'a String>)
    ensures
        match lookup(library_entries(library.files@), path@) {
            None => text is None,
            Some(t) => text is Some && text.unwrap()@ == t,
        },
{
    let ghost entries = library_entries(library.files@);
    let mut i: usize = 0;
    assert(entries.subrange(0, entries.len() as int) =~= entries);
    while i < library.files.len()
        invariant
            i <= library.files@.len(),
            entries == library_entries(library.files@),
            lookup(entries, path@) == lookup(entries.subrange(i as int, entries.len() as int), path@),
        decreases library.files@.len() - i,
    {
        assert(entries.subrange(i as int, entries.len() as int).drop_first() =~= entries.subrange(
            i + 1,
            entries.len() as int,
        ));
        if crate::text::strings_equal(library.files[i].0.as_str(), path) {
            return Some(&library.files[i].1);
        }
        i = i + 1;
    }
    None
}

/// The views of `strings`, copied.
fn copy_strings(strings: &Vec<String>) -> (copy: Vec<String>)
    ensures
        string_views(copy@) == string_views(strings@),
{
    let mut copy: Vec<String> = Vec::new();
    let mut i: usize = 0;
    while i < strings.len()
        invariant
            i <= strings@.len(),
            copy@ == strings@.subrange(0, i as int),
        decreases strings@.len() - i,
    {
        copy.push(strings[i].clone());
        assert(copy@ =~= strings@.subrange(0, i + 1));
        i = i + 1;
    }
    assert(strings@.subrange(0, strings@.len() as int) =~= strings@);
    copy
}

/// `prefix` before the text of a successful expansion.
pub open spec fn prepend(prefix: Seq<char>, result: Result<Seq<char>, TemplateFault>) -> Result<
    Seq<char>,
    TemplateFault,
> {
    match result {
        Ok(text) => Ok(prefix + text),
        Err(fault) => Err(fault),
    }
}

proof fn lemma_prepend_twice(a: Seq<char>, b: Seq<char>, result: Result<Seq<char>, TemplateFault>)
    ensures
        prepend(a, prepend(b, result)) == prepend(a + b, result),
{
    if let Ok(text) = result {
        assert(a + (b + text) =~= (a + b) + text);
    }
}

/// Appends `chars[from..to]` to `out`.
fn append_range(out: &mut Vec<char>, chars: &Vec<char>, from: usize, to: usize)
    requires
        from <= to <= chars@.len(),
    ensures
        final(out)@ == old(out)@ + chars@.subrange(from as int, to as int),
{
    let ghost before = out@;
    let mut i = from;
    while i < to
        invariant
            from <= i <= to <= chars@.len(),
            out@ == before + chars@.subrange(from as int, i as int),
        decreases to - i,
    {
        out.push(chars[i]);
        assert(out@ =~= before + chars@.subrange(from as int, i + 1));
        i = i + 1;
    }
}

/// Expands every include directive of `source`; `stack` holds the keys of
/// the files being expanded and is left as it was.
fn expand_chars(source: &Vec<char>, library: &TemplateLibrary, stack: &mut Vec<String>, core: bool) -> (result:
    Result<Vec<char>, TemplateError>)
    ensures
        final(stack)@ == old(stack)@,
        match expand_from(source@, 0, library_entries(library.files@), string_views(old(stack)@), core) {
            Ok(text) => result is Ok && result.unwrap()@ == text,
            Err(fault) => result is Err && result.unwrap_err()@ == fault,
        },
    decreases include_budget(library_entries(library.files@), string_views(old(stack)@)),
{
    let ghost entries = library_entries(library.files@);
    let ghost initial = stack@;
    let ghost keys = string_views(stack@);
    let prefix = vec!['{', '{', 'i', 'n', 'c', 'l', 'u', 'd', 'e', ':'];
    let suffix = vec!['}', '}'];
    assert(prefix@ =~= include_prefix());
    assert(suffix@ =~= include_suffix());
    let mut out: Vec<char> = Vec::new();
    let mut pos: usize = 0;
    let length = source.len();
    assert(prepend(out@, expand_from(source@, 0, entries, keys, core)) == expand_from(source@, 0, entries, keys, core))
        by {
        if let Ok(text) = expand_from(source@, 0, entries, keys, core) {
            assert(Seq::<char>::empty() + text =~= text);
        }
    }
    loop
        invariant
            pos <= source@.len(),
            length == source@.len(),
            stack@ == initial,
            initial == old(stack)@,
            keys == string_views(initial),
            entries == library_entries(library.files@),
            prefix@ == include_prefix(),
            suffix@ == include_suffix(),
            prepend(out@, expand_from(source@, pos as int, entries, keys, core)) == expand_from(
                source@,
                0,
                entries,
                keys,
                core,
            ),
        decreases source@.len() - pos,
    {
        let start = match find_chars(source, &prefix, pos) {
            None => {
                append_range(&mut out, source, pos, source.len());
                return Ok(out);
            },
            Some(start) => start,
        };
        proof {
            lemma_find_bounds(source@, include_prefix(), pos as int);
            assert(include_prefix().len() == 10);
        }
        let after = start + 10;
        let end = match find_chars(source, &suffix, after) {
            None => {
                return Err(TemplateError::MissingClose);
            },
            Some(end) => end,
        };
        proof {
            lemma_find_bounds(source@, include_suffix(), after as int);
            assert(include_suffix().len() == 2);
        }
        let raw = string_from_chars(source, after, end);
        let path = match normalize_include_path(raw.as_str()) {
            Ok(path) => path,
            Err(error) => {
                return Err(error);
            },
        };
        let path = if core && strip_prefix(path.as_str(), "core/").is_none() {
            String::from_str("core/").concat(path.as_str())
        } else {
            path
        };
        let target_core = strip_prefix(path.as_str(), "core/").is_some();
        let key = include_key_of(path.as_str());
        if include_stack_contains(stack.as_slice(), key.as_str()) {
            let mut chain = copy_strings(stack);
            chain.push(key);
            assert(string_views(chain@) =~= keys.push(include_key(path@)));
            return Err(TemplateError::IncludeCycle(chain));
        }
        let text = match lookup_template(library, path.as_str()) {
            None => {
                return Err(TemplateError::UnreadableInclude(path));
            },
            Some(text) => text,
        };
        let text_chars = chars_of(text.as_str());
        proof {
            lemma_budget_shrinks(entries, keys, path@);
        }
        stack.push(key);
        assert(string_views(stack@) =~= keys.push(include_key(path@)));
        let inner = expand_chars(&text_chars, library, stack, target_core);
        let _ = stack.pop();
        assert(stack@ =~= initial);
        let inner = match inner {
            Err(error) => {
                return Err(error);
            },
            Ok(inner) => inner,
        };
        let ghost piece = source@.subrange(pos as int, start as int) + inner@;
        let ghost out_before = out@;
        proof {
            assert(raw@ == source@.subrange(after as int, end as int));
            assert(text_chars@ == lookup(entries, path@).unwrap());
            assert(expand_from(text_chars@, 0, entries, keys.push(include_key(path@)), target_core) == Ok::<
                Seq<char>,
                TemplateFault,
            >(inner@));
            assert(expand_from(source@, pos as int, entries, keys, core) == prepend(
                piece,
                expand_from(source@, end + 2, entries, keys, core),
            ));
            lemma_prepend_twice(out@, piece, expand_from(source@, end + 2, entries, keys, core));
        }
        append_range(&mut out, source, pos, start);
        let mut k: usize = 0;
        let ghost before_inner = out@;
        while k < inner.len()
            invariant
                k <= inner@.len(),
                out@ == before_inner + inner@.subrange(0, k as int),
            decreases inner@.len() - k,
        {
            out.push(inner[k]);
            assert(out@ =~= before_inner + inner@.subrange(0, k + 1));
            k = k + 1;
        }
        assert(inner@.subrange(0, inner@.len() as int) =~= inner@);
        assert(out@ =~= out_before + piece);
        pos = end + 2;
    }
}

/// Expands every include directive of `source`; `include_stack` holds the
/// keys of the files being expanded and is left as it was.
pub fn expand_template_source(source: &str, library: &TemplateLibrary, include_stack: &mut Vec<String>) -> (result:
    Result<String, TemplateError>)
    ensures
        final(include_stack)@ == old(include_stack)@,
        match expand_from(source@, 0, library_entries(library.files@), string_views(old(include_stack)@), false) {
            Ok(text) => result is Ok && result.unwrap()@ == text,
            Err(fault) => result is Err && result.unwrap_err()@ == fault,
        },
{
    expand_in(source, library, include_stack, false)
}

/// Expands every include directive of `source`, a core template or not.
fn expand_in(source: &str, library: &TemplateLibrary, include_stack: &mut Vec<String>, core: bool) -> (result:
    Result<String, TemplateError>)
    ensures
        final(include_stack)@ == old(include_stack)@,
        match expand_from(source@, 0, library_entries(library.files@), string_views(old(include_stack)@), core) {
            Ok(text) => result is Ok && result.unwrap()@ == text,
            Err(fault) => result is Err && result.unwrap_err()@ == fault,
        },
{
    let chars = chars_of(source);
    match expand_chars(&chars, library, include_stack, core) {
        Ok(expanded) => Ok(string_from_chars(&expanded, 0, expanded.len())),
        Err(error) => Err(error),
    }
}

/// A template file of the library, expanded; its own key starts the chain
/// of includes, and a core template's includes name core templates.
pub open spec fn read_template_text(entries: Seq<(Seq<char>, Seq<char>)>, path: Seq<char>) -> Result<
    Seq<char>,
    TemplateFault,
> {
    match lookup(entries, path) {
        None => Err(TemplateFault::UnreadableTemplate(path)),
        Some(text) => expand_from(text, 0, entries, seq![include_key(path)], in_core(path)),
    }
}

/// Reads the template at `path` from the library and expands it.
pub fn read_template(library: &TemplateLibrary, path: &str) -> (result: Result<String, TemplateError>)
    ensures
        match read_template_text(library_entries(library.files@), path@) {
            Ok(text) => result is Ok && result.unwrap()@ == text,
            Err(fault) => result is Err && result.unwrap_err()@ == fault,
        },
{
    let text = match lookup_template(library, path) {
        None => {
            return Err(TemplateError::UnreadableTemplate(String::from_str(path)));
        },
        Some(text) => text,
    };
    let mut stack: Vec<String> = Vec::new();
    stack.push(include_key_of(path));
    assert(string_views(stack@) =~= seq![include_key(path@)]);
    let core = strip_prefix(path, "core/").is_some();
    expand_in(text.as_str(), library, &mut stack, core)
}

/// The key of the built-in default template.
pub open spec fn default_template_key() -> Seq<char> {
    seq!['d', 'e', 'f', 'a', 'u', 'l', 't', '.', 'j', 's']
}

/// The built-in default template, expanded; as written when it cannot be.
pub open spec fn default_template_text(default: Seq<char>, entries: Seq<(Seq<char>, Seq<char>)>) -> Seq<char> {
    match expand_from(default, 0, entries, seq![default_template_key()], false) {
        Ok(text) => text,
        Err(_) => default,
    }
}

/// The built-in default template, with its includes expanded from the
/// library when they all resolve.
pub fn default_embedded_template(library: &TemplateLibrary) -> (text: String)
    ensures
        text@ == default_template_text(library.embedded_default@, library_entries(library.files@)),
{
    let mut stack: Vec<String> = Vec::new();
    let key = vec!['d', 'e', 'f', 'a', 'u', 'l', 't', '.', 'j', 's'];
    assert(key@.subrange(0, key@.len() as int) =~= key@);
    stack.push(string_from_chars(&key, 0, key.len()));
    assert(key@ =~= default_template_key());
    assert(string_views(stack@) =~= seq![default_template_key()]);
    match expand_template_source(library.embedded_default.as_str(), library, &mut stack) {
        Ok(text) => text,
        Err(_) => library.embedded_default.clone(),
    }
}

/// Lowercases ASCII letters and digits and turns each run of other
/// characters into one `_`; also whether the output ends in such a `_`.
pub open spec fn collapse_separators(value: Seq<char>) -> (Seq<char>, bool)
    decreases value.len(),
{
    if value.len() == 0 {
        (Seq::empty(), false)
    } else {
        let (out, separated) = collapse_separators(value.drop_last());
        let c = value.last();
        if ascii_alphanumeric(c) {
            (out.push(ascii_lower(c)), false)
        } else if !separated {
            (out.push('_'), true)
        } else {
            (out, true)
        }
    }
}

/// `value` without leading and trailing underscores.
pub open spec fn trim_underscores(value: Seq<char>) -> Seq<char>
    decreases value.len(),
{
    if value.len() > 0 && value[0] == '_' {
        trim_underscores(value.drop_first())
    } else if value.len() > 0 && value.last() == '_' {
        trim_underscores(value.drop_last())
    } else {
        value
    }
}

/// The file-name key of a host node type: letters and digits lowercased,
/// other runs collapsed to `_`, outer underscores removed; none when empty.
pub open spec fn template_key(value: Seq<char>) -> Option<Seq<char>> {
    let key = trim_underscores(collapse_separators(value).0);
    if key.len() == 0 {
        None
    } else {
        Some(key)
    }
}

/// The file-name key of a host node type.
pub fn normalized_template_key(value: &str) -> (key: Option<String>)
    ensures
        match template_key(value@) {
            None => key is None,
            Some(k) => key is Some && key.unwrap()@ == k,
        },
{
    let chars = chars_of(value);
    let n = chars.len();
    let mut out: Vec<char> = Vec::new();
    let mut separated = false;
    let mut i: usize = 0;
    while i < n
        invariant
            i <= n,
            n == chars@.len(),
            chars@ == value@,
            collapse_separators(value@.subrange(0, i as int)) == (out@, separated),
        decreases n - i,
    {
        let c = chars[i];
        assert(value@.subrange(0, i + 1).drop_last() =~= value@.subrange(0, i as int));
        if is_ascii_alphanumeric(c) {
            out.push(to_ascii_lower(c));
            separated = false;
        } else if !separated {
            out.push('_');
            separated = true;
        }
        i = i + 1;
    }
    assert(value@.subrange(0, n as int) =~= value@);
    let mut low: usize = 0;
    let mut high: usize = out.len();
    assert(out@.subrange(0, out@.len() as int) =~= out@);
    while low < high && (out[low] == '_' || out[high - 1] == '_')
        invariant
            low <= high <= out@.len(),
            trim_underscores(out@) == trim_underscores(out@.subrange(low as int, high as int)),
        decreases high - low,
    {
        if out[low] == '_' {
            assert(out@.subrange(low as int, high as int).drop_first() =~= out@.subrange(low + 1, high as int));
            low = low + 1;
        } else {
            assert(out@.subrange(low as int, high as int).drop_last() =~= out@.subrange(low as int, high - 1));
            high = high - 1;
        }
    }
    if low == high {
        return None;
    }
    Some(string_from_chars(&out, low, high))
}

/// The name of the fallback template file, without extension.
pub open spec fn default_basename() -> Seq<char> {
    seq!['d', 'e', 'f', 'a', 'u', 'l', 't']
}

/// The template names tried for a host node type, in order: the trimmed,
/// lowercased type, its key when different, then `default`.
pub open spec fn candidate_basenames(host_node_type: Seq<char>) -> Seq<Seq<char>> {
    let raw = ascii_lowercase(trimmed(host_node_type));
    let first: Seq<Seq<char>> = if raw.len() > 0 {
        seq![raw]
    } else {
        Seq::empty()
    };
    let second = match template_key(host_node_type) {
        Some(key) => if first.contains(key) {
            first
        } else {
            first.push(key)
        },
        None => first,
    };
    second.push(default_basename())
}

/// The template names tried for a host node type, in order.
pub fn template_candidate_basenames(host_node_type: &str) -> (basenames: Vec<String>)
    ensures
        string_views(basenames@) == candidate_basenames(host_node_type@),
{
    let mut basenames: Vec<String> = Vec::new();
    let trimmed_type = trim(host_node_type);
    let raw = lowercase_ascii(trimmed_type.as_str());
    let raw_len = raw.as_str().unicode_len();
    let ghost first: Seq<Seq<char>> = if raw@.len() > 0 {
        seq![raw@]
    } else {
        Seq::empty()
    };
    if raw_len > 0 {
        basenames.push(raw);
    }
    assert(string_views(basenames@) =~= first);
    match normalized_template_key(host_node_type) {
        Some(key) => {
            if !include_stack_contains(basenames.as_slice(), key.as_str()) {
                basenames.push(key);
                assert(string_views(basenames@) =~= first.push(template_key(host_node_type@).unwrap()));
            }
        },
        None => {},
    }
    let ghost second = string_views(basenames@);
    let fallback = vec!['d', 'e', 'f', 'a', 'u', 'l', 't'];
    assert(fallback@.subrange(0, 7) =~= default_basename());
    basenames.push(string_from_chars(&fallback, 0, 7));
    assert(string_views(basenames@) =~= second.push(default_basename()));
    basenames
}

/// The extensions a template file may have, in the order they are tried.
pub open spec fn template_extensions() -> Seq<Seq<char>> {
    seq![seq!['j', 's'], seq!['m', 'j', 's'], seq!['c', 'j', 's']]
}

/// The file names tried for `basenames`: each with each extension.
pub open spec fn candidate_files(basenames: Seq<Seq<char>>) -> Seq<Seq<char>>
    decreases basenames.len(),
{
    if basenames.len() == 0 {
        Seq::empty()
    } else {
        let name = basenames.last();
        candidate_files(basenames.drop_last()) + template_extensions().map_values(
            |extension: Seq<char>| name.push('.') + extension,
        )
    }
}

/// The first of `files` that the library holds and that expands.
pub open spec fn first_loaded(files: Seq<Seq<char>>, entries: Seq<(Seq<char>, Seq<char>)>) -> Option<Seq<char>>
    decreases files.len(),
{
    if files.len() == 0 {
        None
    } else {
        match read_template_text(entries, files[0]) {
            Ok(text) => Some(text),
            Err(_) => first_loaded(files.drop_first(), entries),
        }
    }
}

/// The template for a host node type: the first candidate file that the
/// library holds and that expands, else the built-in default.
pub open spec fn resolved_template(
    host_node_type: Seq<char>,
    default: Seq<char>,
    entries: Seq<(Seq<char>, Seq<char>)>,
) -> Seq<char> {
    match first_loaded(candidate_files(candidate_basenames(host_node_type)), entries) {
        Some(text) => text,
        None => default_template_text(default, entries),
    }
}

/// `name` followed by a dot and `extension`.
fn file_with_extension(name: &String, extension: &str) -> (file: String)
    ensures
        file@ == name@.push('.') + extension@,
{
    let mut file = name.clone();
    crate::text::push_char(&mut file, '.');
    file.append(extension);
    file
}

/// The file names tried for the given template names.
fn template_candidate_files(basenames: &Vec<String>) -> (files: Vec<String>)
    ensures
        string_views(files@) == candidate_files(string_views(basenames@)),
{
    let mut files: Vec<String> = Vec::new();
    let mut i: usize = 0;
    while i < basenames.len()
        invariant
            i <= basenames@.len(),
            string_views(files@) == candidate_files(string_views(basenames@.subrange(0, i as int))),
        decreases basenames@.len() - i,
    {
        let ghost before = string_views(files@);
        let name = &basenames[i];
        files.push(file_with_extension(name, "js"));
        files.push(file_with_extension(name, "mjs"));
        files.push(file_with_extension(name, "cjs"));
        proof {
            reveal_strlit("js");
            reveal_strlit("mjs");
            reveal_strlit("cjs");
            assert("js"@ =~= seq!['j', 's']);
            assert("mjs"@ =~= seq!['m', 'j', 's']);
            assert("cjs"@ =~= seq!['c', 'j', 's']);
            let names = string_views(basenames@.subrange(0, i + 1));
            assert(names.drop_last() =~= string_views(basenames@.subrange(0, i as int)));
            assert(names.last() == name@);
            assert(string_views(files@) =~= before + template_extensions().map_values(
                |extension: Seq<char>| name@.push('.') + extension,
            ));
        }
        i = i + 1;
    }
    assert(basenames@.subrange(0, basenames@.len() as int) =~= basenames@);
    files
}

/// The template text for a host node type: the first candidate file that
/// the library holds and that expands, else the built-in default.
pub fn resolve_template_for_host(host_node_type: &str, library: &TemplateLibrary) -> (text: String)
    ensures
        text@ == resolved_template(
            host_node_type@,
            library.embedded_default@,
            library_entries(library.files@),
        ),
{
    let basenames = template_candidate_basenames(host_node_type);
    let files = template_candidate_files(&basenames);
    let ghost entries = library_entries(library.files@);
    let ghost all = string_views(files@);
    let mut i: usize = 0;
    assert(all.subrange(0, all.len() as int) =~= all);
    while i < files.len()
        invariant
            i <= files@.len(),
            all == string_views(files@),
            all == candidate_files(candidate_basenames(host_node_type@)),
            entries == library_entries(library.files@),
            first_loaded(all, entries) == first_loaded(all.subrange(i as int, all.len() as int), entries),
        decreases files@.len() - i,
    {
        assert(all.subrange(i as int, all.len() as int).drop_first() =~= all.subrange(i + 1, all.len() as int));
        assert(all.subrange(i as int, all.len() as int)[0] == files@[i as int]@);
        match read_template(library, files[i].as_str()) {
            Ok(text) => {
                assert(first_loaded(all.subrange(i as int, all.len() as int), entries) == Some(text@));
                return text;
            },
            Err(_) => {},
        }
        i = i + 1;
    }
    default_embedded_template(library)
}

} // verus!
