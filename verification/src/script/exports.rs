//! Exported functions of script sources. The script engine evaluates a
//! source as a plain script, so each line that declares an `export function`
//! (or an `export async function`) loses its `export` keyword, and the names
//! so declared are registered on the engine's export table after the source.

use vstd::prelude::*;
use vstd::string::*;
use crate::text::{
    append_chars, chars_of, has_prefix, lemma_leading_bounds, leading_whitespace, skip_whitespace, starts_with_at,
    strings_equal,
};

verus! {

/// A character that may begin a script identifier: `_`, `$` or an ASCII letter.
pub open spec fn js_identifier_start(c: char) -> bool {
    c == '_' || c == '$' || ('a' <= c <= 'z') || ('A' <= c <= 'Z')
}

/// A character that may continue a script identifier: one that may begin it,
/// or an ASCII digit.
pub open spec fn js_identifier_continue(c: char) -> bool {
    js_identifier_start(c) || ('0' <= c <= '9')
}

pub fn is_js_identifier_start(c: char) -> (start: bool)
    ensures
        start == js_identifier_start(c),
{
    c == '_' || c == '$' || ('a' <= c && c <= 'z') || ('A' <= c && c <= 'Z')
}

pub fn is_js_identifier_continue(c: char) -> (more: bool)
    ensures
        more == js_identifier_continue(c),
{
    is_js_identifier_start(c) || ('0' <= c && c <= '9')
}

/// Number of identifier characters at the start of `s`.
pub open spec fn identifier_run(s: Seq<char>) -> nat
    decreases s.len(),
{
    if s.len() > 0 && js_identifier_continue(s[0]) {
        1 + identifier_run(s.drop_first())
    } else {
        0
    }
}

/// The name of the function that `declaration` declares: after leading
/// whitespace, the longest identifier, which must begin with an identifier's
/// first character.
pub open spec fn exported_function_name(declaration: Seq<char>) -> Option<Seq<char>> {
    let rest = declaration.skip(leading_whitespace(declaration));
    if rest.len() > 0 && js_identifier_start(rest[0]) {
        Some(rest.take(identifier_run(rest) as int))
    } else {
        None
    }
}

/// Length of the first segment of `s`: through its first line break, or all
/// of `s` where it has none.
pub open spec fn segment_length(s: Seq<char>) -> nat
    decreases s.len(),
{
    if s.len() == 0 {
        0
    } else if s[0] == '\n' {
        1
    } else {
        1 + segment_length(s.drop_first())
    }
}

/// A segment without its closing line break.
pub open spec fn segment_line(segment: Seq<char>) -> Seq<char> {
    if segment.len() > 0 && segment.last() == '\n' {
        segment.drop_last()
    } else {
        segment
    }
}

/// The closing line break of a segment, if it has one.
pub open spec fn segment_break(segment: Seq<char>) -> Seq<char> {
    if segment.len() > 0 && segment.last() == '\n' {
        seq!['\n']
    } else {
        Seq::empty()
    }
}

/// The declaration that an exporting `line` becomes, with the name it
/// declares: the line's indentation, the declaration keyword and the rest of
/// the line, without `export`. `None` where the line exports no function.
pub open spec fn exported_declaration(line: Seq<char>) -> Option<(Seq<char>, Seq<char>)> {
    let indent = line.take(leading_whitespace(line));
    let body = line.skip(leading_whitespace(line));
    let plain = "export function "@;
    let asynchronous = "export async function "@;
    if has_prefix(body, plain) && exported_function_name(body.skip(plain.len() as int)) is Some {
        Some(
            (
                indent + "function "@ + body.skip(plain.len() as int),
                exported_function_name(body.skip(plain.len() as int))->0,
            ),
        )
    } else if has_prefix(body, asynchronous) && exported_function_name(body.skip(asynchronous.len() as int)) is Some {
        Some(
            (
                indent + "async function "@ + body.skip(asynchronous.len() as int),
                exported_function_name(body.skip(asynchronous.len() as int))->0,
            ),
        )
    } else {
        None
    }
}

/// What a segment of the source becomes.
pub open spec fn rewritten_segment(segment: Seq<char>) -> Seq<char> {
    match exported_declaration(segment_line(segment)) {
        Some((declaration, _)) => declaration + segment_break(segment),
        None => segment,
    }
}

pub proof fn lemma_segment_length(s: Seq<char>)
    ensures
        s.len() > 0 ==> 1 <= segment_length(s),
        segment_length(s) <= s.len(),
        forall|i: int| 0 <= i < segment_length(s) - 1 ==> #[trigger] s[i] != '\n',
        segment_length(s) < s.len() ==> s[segment_length(s) - 1] == '\n',
        segment_length(s) == s.len() && s.len() > 0 && s.last() != '\n' ==> forall|i: int|
            0 <= i < s.len() ==> #[trigger] s[i] != '\n',
    decreases s.len(),
{
    if s.len() > 0 && s[0] != '\n' {
        let t = s.drop_first();
        lemma_segment_length(t);
        assert forall|i: int| 0 <= i < segment_length(s) - 1 implies #[trigger] s[i] != '\n' by {
            if i > 0 {
                assert(s[i] == t[i - 1]);
            }
        }
        if segment_length(s) < s.len() {
            assert(s[segment_length(s) - 1] == t[segment_length(t) - 1]);
        }
        if segment_length(s) == s.len() && s.last() != '\n' {
            assert forall|i: int| 0 <= i < s.len() implies #[trigger] s[i] != '\n' by {
                if i > 0 {
                    assert(s[i] == t[i - 1]);
                }
            }
        }
    }
}

/// The source with every exporting line rewritten, segment by segment.
pub open spec fn rewritten_source(s: Seq<char>) -> Seq<char>
    decreases s.len(),
{
    if s.len() == 0 {
        Seq::empty()
    } else {
        proof {
            lemma_segment_length(s);
        }
        rewritten_segment(s.take(segment_length(s) as int)) + rewritten_source(
            s.skip(segment_length(s) as int),
        )
    }
}

/// `seen` followed by the names that the segments of `s` export and `seen`
/// does not hold yet, each once, in the order of their first line.
pub open spec fn exported_names_after(s: Seq<char>, seen: Seq<Seq<char>>) -> Seq<Seq<char>>
    decreases s.len(),
{
    if s.len() == 0 {
        seen
    } else {
        proof {
            lemma_segment_length(s);
        }
        let next = match exported_declaration(segment_line(s.take(segment_length(s) as int))) {
            Some((_, name)) => if seen.contains(name) {
                seen
            } else {
                seen.push(name)
            },
            None => seen,
        };
        exported_names_after(s.skip(segment_length(s) as int), next)
    }
}

/// The names that `source` exports, each once, in the order of their first
/// declaration.
pub open spec fn exported_names(source: Seq<char>) -> Seq<Seq<char>> {
    exported_names_after(source, Seq::empty())
}

/// The statement that registers `name` on the export table.
pub open spec fn registration(name: Seq<char>) -> Seq<char> {
    "globalThis.__gc_script_exports[\""@ + name + "\"] = "@ + name + ";\n"@
}

/// The registrations of `names`, in order.
pub open spec fn registrations(names: Seq<Seq<char>>) -> Seq<char>
    decreases names.len(),
{
    if names.len() == 0 {
        Seq::empty()
    } else {
        registrations(names.drop_last()) + registration(names.last())
    }
}

/// The source that the engine evaluates: the rewritten source, then, where
/// anything is exported, a blank line, a comment and one registration per name.
pub open spec fn preprocessed_source(source: Seq<char>) -> Seq<char> {
    let names = exported_names(source);
    if names.len() == 0 {
        rewritten_source(source)
    } else {
        rewritten_source(source) + "\n"@ + "// Auto-registered exported functions.\n"@ + registrations(names)
    }
}

proof fn lemma_names_after_distinct(s: Seq<char>, seen: Seq<Seq<char>>)
    requires
        seen.no_duplicates(),
    ensures
        exported_names_after(s, seen).no_duplicates(),
    decreases s.len(),
{
    if s.len() > 0 {
        lemma_segment_length(s);
        match exported_declaration(segment_line(s.take(segment_length(s) as int))) {
            Some((_, name)) => {
                if !seen.contains(name) {
                    assert forall|i: int, j: int|
                        0 <= i < seen.push(name).len() && 0 <= j < seen.push(name).len() && i != j implies
                        seen.push(name)[i] != seen.push(name)[j] by {
                        if i == seen.len() {
                            assert(seen[j] != name);
                        } else if j == seen.len() {
                            assert(seen[i] != name);
                        }
                    }
                    lemma_names_after_distinct(s.skip(segment_length(s) as int), seen.push(name));
                } else {
                    lemma_names_after_distinct(s.skip(segment_length(s) as int), seen);
                }
            },
            None => lemma_names_after_distinct(s.skip(segment_length(s) as int), seen),
        }
    }
}

/// Each exported function of a source is registered once, however many lines
/// export it.
pub proof fn lemma_exports_registered_once(source: Seq<char>)
    ensures
        exported_names(source).no_duplicates(),
{
    lemma_names_after_distinct(source, Seq::empty());
}

pub open spec fn name_views(names: Seq<String>) -> Seq<Seq<char>> {
    names.map_values(|name: String| name@)
}

proof fn lemma_identifier_run(t: Seq<char>, k: int)
    requires
        0 <= k <= t.len(),
        forall|i: int| 0 <= i < k ==> js_identifier_continue(#[trigger] t[i]),
        k == t.len() || !js_identifier_continue(t[k]),
    ensures
        identifier_run(t) == k,
    decreases k,
{
    if k > 0 {
        let u = t.drop_first();
        assert forall|i: int| 0 <= i < k - 1 implies js_identifier_continue(#[trigger] u[i]) by {
            assert(u[i] == t[i + 1]);
        }
        if k < t.len() {
            assert(u[k - 1] == t[k]);
        }
        lemma_identifier_run(u, k - 1);
    }
}

/// Bounds of the name that `chars[from..to]` declares, if it declares one.
fn name_bounds(chars: &Vec<char>, from: usize, to: usize) -> (bounds: Option<(usize, usize)>)
    requires
        from <= to <= chars@.len(),
    ensures
        match bounds {
            Some((start, end)) => from <= start < end <= to && exported_function_name(
                chars@.subrange(from as int, to as int),
            ) == Some(chars@.subrange(start as int, end as int)),
            None => exported_function_name(chars@.subrange(from as int, to as int)) is None,
        },
{
    let ghost declaration = chars@.subrange(from as int, to as int);
    proof {
        lemma_leading_bounds(declaration);
    }
    let start = skip_whitespace(chars, from, to);
    let ghost rest = declaration.skip(leading_whitespace(declaration));
    assert(rest =~= chars@.subrange(start as int, to as int));
    if start < to && is_js_identifier_start(chars[start]) {
        let mut end = start + 1;
        while end < to && is_js_identifier_continue(chars[end])
            invariant
                start < end <= to,
                to <= chars@.len(),
                rest == chars@.subrange(start as int, to as int),
                js_identifier_start(chars@[start as int]),
                forall|i: int| start <= i < end ==> js_identifier_continue(#[trigger] chars@[i]),
            decreases to - end,
        {
            end = end + 1;
        }
        proof {
            assert forall|i: int| 0 <= i < end - start implies js_identifier_continue(#[trigger] rest[i]) by {
                assert(rest[i] == chars@[start + i]);
            }
            if end < to {
                assert(rest[end - start] == chars@[end as int]);
            }
            lemma_identifier_run(rest, end - start);
            assert(rest.take(end - start) =~= chars@.subrange(start as int, end as int));
        }
        Some((start, end))
    } else {
        proof {
            if start < to {
                assert(rest[0] == chars@[start as int]);
            }
        }
        None
    }
}

/// The name of the function that `declaration` declares, after leading
/// whitespace, if it begins with an identifier.
pub fn parse_exported_function_name(declaration: &str) -> (name: Option<String>)
    ensures
        match name {
            Some(name) => exported_function_name(declaration@) == Some(name@),
            None => exported_function_name(declaration@) is None,
        },
{
    let chars = chars_of(declaration);
    let n = chars.len();
    proof {
        assert(chars@.subrange(0, n as int) =~= declaration@);
    }
    match name_bounds(&chars, 0, n) {
        Some((start, end)) => {
            let mut name = String::new();
            append_chars(&mut name, &chars, start, end);
            assert(name@ =~= chars@.subrange(start as int, end as int));
            Some(name)
        },
        None => None,
    }
}

/// The rewritten declaration of the line `chars[from..to]` and the bounds of
/// the name it declares, where the line exports a function.
fn rewrite_line(chars: &Vec<char>, from: usize, to: usize) -> (rewritten: Option<(String, usize, usize)>)
    requires
        from <= to <= chars@.len(),
    ensures
        match rewritten {
            Some((declaration, start, end)) => start <= end <= chars@.len() && exported_declaration(
                chars@.subrange(from as int, to as int),
            ) == Some((declaration@, chars@.subrange(start as int, end as int))),
            None => exported_declaration(chars@.subrange(from as int, to as int)) is None,
        },
{
    let ghost line = chars@.subrange(from as int, to as int);
    proof {
        lemma_leading_bounds(line);
    }
    let at = skip_whitespace(chars, from, to);
    let ghost indent = line.take(leading_whitespace(line));
    let ghost body = line.skip(leading_whitespace(line));
    assert(body =~= chars@.subrange(at as int, to as int));
    assert(indent =~= chars@.subrange(from as int, at as int));
    let plain = "export function ";
    let asynchronous = "export async function ";
    if starts_with_at(chars, at, to, plain) {
        let rest = at + plain.unicode_len();
        assert(body.skip(plain@.len() as int) =~= chars@.subrange(rest as int, to as int));
        if let Some((start, end)) = name_bounds(chars, rest, to) {
            let mut declaration = String::new();
            append_chars(&mut declaration, chars, from, at);
            declaration.append("function ");
            append_chars(&mut declaration, chars, rest, to);
            return Some((declaration, start, end));
        }
    }
    if starts_with_at(chars, at, to, asynchronous) {
        let rest = at + asynchronous.unicode_len();
        assert(body.skip(asynchronous@.len() as int) =~= chars@.subrange(rest as int, to as int));
        if let Some((start, end)) = name_bounds(chars, rest, to) {
            let mut declaration = String::new();
            append_chars(&mut declaration, chars, from, at);
            declaration.append("async function ");
            append_chars(&mut declaration, chars, rest, to);
            return Some((declaration, start, end));
        }
    }
    None
}

/// Whether `names` holds `name`.
fn holds_name(names: &Vec<String>, name: &String) -> (holds: bool)
    ensures
        holds == name_views(names@).contains(name@),
{
    let mut i: usize = 0;
    while i < names.len()
        invariant
            i <= names@.len(),
            forall|j: int| 0 <= j < i ==> names@[j]@ != name@,
        decreases names@.len() - i,
    {
        if strings_equal(names[i].as_str(), name.as_str()) {
            assert(name_views(names@)[i as int] == name@);
            return true;
        }
        i = i + 1;
    }
    proof {
        if name_views(names@).contains(name@) {
            let j = choose|j: int| 0 <= j < name_views(names@).len() && name_views(names@)[j] == name@;
            assert(names@[j]@ == name@);
        }
    }
    false
}

/// End of the segment of `chars` that starts at `start`: just after its line
/// break, or the end of `chars`.
fn segment_end(chars: &Vec<char>, start: usize) -> (end: usize)
    requires
        start < chars@.len(),
    ensures
        end == start + segment_length(chars@.skip(start as int)),
{
    let ghost rest = chars@.skip(start as int);
    proof {
        lemma_segment_length(rest);
    }
    let mut end = start;
    while end < chars.len() && chars[end] != '\n'
        invariant
            start <= end <= chars@.len(),
            rest == chars@.skip(start as int),
            end - start < segment_length(rest) || (end - start == segment_length(rest) && end == chars@.len()),
            1 <= segment_length(rest) <= rest.len(),
            forall|i: int| 0 <= i < segment_length(rest) - 1 ==> #[trigger] rest[i] != '\n',
            segment_length(rest) < rest.len() ==> rest[segment_length(rest) - 1] == '\n',
            segment_length(rest) == rest.len() && rest.last() != '\n' ==> forall|i: int|
                0 <= i < rest.len() ==> #[trigger] rest[i] != '\n',
        decreases chars@.len() - end,
    {
        assert(rest[end - start] == chars@[end as int]);
        end = end + 1;
    }
    if end < chars.len() {
        assert(rest[end - start] == chars@[end as int]);
        end = end + 1;
    } else {
        proof {
            if end - start < segment_length(rest) {
                assert(rest.last() == chars@[chars@.len() - 1]);
            }
        }
    }
    end
}

/// Appends to `text` the statement that registers `name`.
fn push_registration(text: &mut String, name: &String)
    ensures
        final(text)@ == old(text)@ + registration(name@),
{
    text.append("globalThis.__gc_script_exports[\"");
    text.append(name.as_str());
    text.append("\"] = ");
    text.append(name.as_str());
    text.append(";\n");
    assert(final(text)@ =~= old(text)@ + registration(name@));
}

/// `source` with every exporting line rewritten into a plain declaration and
/// the exported names registered after it.
pub fn preprocess_source_for_exported_functions(source: &str) -> (transformed: String)
    ensures
        transformed@ == preprocessed_source(source@),
{
    let chars = chars_of(source);
    let n = chars.len();
    let mut transformed = String::new();
    let mut names: Vec<String> = Vec::new();
    let mut start: usize = 0;
    proof {
        assert(chars@.skip(0) =~= chars@);
        assert(transformed@ + rewritten_source(source@) =~= rewritten_source(source@));
        assert(name_views(names@) =~= Seq::<Seq<char>>::empty());
    }
    while start < n
        invariant
            start <= n,
            n == chars@.len(),
            chars@ == source@,
            transformed@ + rewritten_source(chars@.skip(start as int)) == rewritten_source(source@),
            exported_names_after(chars@.skip(start as int), name_views(names@)) == exported_names(source@),
        decreases n - start,
    {
        let end = segment_end(&chars, start);
        let ghost rest = chars@.skip(start as int);
        let ghost segment = rest.take(segment_length(rest) as int);
        proof {
            lemma_segment_length(rest);
            assert(segment =~= chars@.subrange(start as int, end as int));
            assert(rest.skip(segment_length(rest) as int) =~= chars@.skip(end as int));
        }
        let line_end = if chars[end - 1] == '\n' {
            end - 1
        } else {
            end
        };
        assert(segment.last() == chars@[end - 1]);
        assert(segment_line(segment) =~= chars@.subrange(start as int, line_end as int));
        let ghost before = transformed@;
        let ghost seen = name_views(names@);
        match rewrite_line(&chars, start, line_end) {
            Some((declaration, name_start, name_end)) => {
                transformed.append(declaration.as_str());
                append_chars(&mut transformed, &chars, line_end, end);
                assert(segment_break(segment) =~= chars@.subrange(line_end as int, end as int));
                let mut name = String::new();
                append_chars(&mut name, &chars, name_start, name_end);
                if !holds_name(&names, &name) {
                    names.push(name);
                    assert(name_views(names@) =~= seen.push(chars@.subrange(name_start as int, name_end as int)));
                }
            },
            None => {
                append_chars(&mut transformed, &chars, start, end);
            },
        }
        proof {
            assert(transformed@ =~= before + rewritten_segment(segment));
            assert(before + rewritten_source(rest) =~= transformed@ + rewritten_source(chars@.skip(end as int)));
        }
        start = end;
    }
    proof {
        assert(chars@.skip(n as int) =~= Seq::<char>::empty());
    }
    if names.len() > 0 {
        transformed.append("\n");
        transformed.append("// Auto-registered exported functions.\n");
        let ghost head = transformed@;
        let mut i: usize = 0;
        while i < names.len()
            invariant
                i <= names@.len(),
                transformed@ == head + registrations(name_views(names@).take(i as int)),
            decreases names@.len() - i,
        {
            push_registration(&mut transformed, &names[i]);
            assert(name_views(names@).take(i as int + 1).drop_last() =~= name_views(names@).take(i as int));
            i = i + 1;
        }
        assert(name_views(names@).take(names@.len() as int) =~= name_views(names@));
    }
    transformed
}

} // verus!
