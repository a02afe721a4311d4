//! Deterministic generated-artifact writing and drift verification.
//!
//! The application writes or reads each artifact's file; this module decides
//! which relative paths are acceptable, what text is written, and whether a
//! file on disk has drifted from its artifact.

use vstd::prelude::*;
use crate::text::{chars_of, string_from_chars, strings_equal};

verus! {

/// Whether artifacts are written, or compared with what is on disk.
#[derive(Clone, Copy, Debug, PartialEq, Eq, Structural)]
pub enum CodegenMode {
    Write,
    Check,
}

/// A generated file: its path relative to the output root, and its text.
#[derive(Clone, Debug, PartialEq, Eq)]
pub struct GeneratedArtifact {
    pub relative_path: String,
    pub contents: String,
}

#[derive(Clone, Debug, PartialEq, Eq)]
pub enum CodegenError {
    /// The artifact path is empty, absolute or leaves the output root.
    UnsafePath(String),
    /// The file on disk differs from the artifact.
    Drift(String),
    /// Reading or writing the file failed.
    Io { path: String, message: String },
}

/// Whether `path` has a `..` segment.
pub open spec fn has_parent_segment(path: Seq<char>) -> bool {
    exists|i: int|
        0 <= i && i + 2 <= path.len() && (i == 0 || path[i - 1] == '/') && #[trigger] path[i] == '.'
            && path[i + 1] == '.' && (i + 2 == path.len() || path[i + 2] == '/')
}

/// A path stays inside the output root when it is non-empty, not absolute
/// and has no `..` segment.
pub open spec fn workspace_relative(path: Seq<char>) -> bool {
    path.len() > 0 && path[0] != '/' && !has_parent_segment(path)
}

/// Refuses artifact paths that are empty, absolute or leave the output root.
pub fn validate_relative_path(path: &str) -> (result: Result<(), CodegenError>)
    ensures
        workspace_relative(path@) ==> result is Ok,
        !workspace_relative(path@) ==> (result matches Err(CodegenError::UnsafePath(p)) && p@ == path@),
{
    let chars = chars_of(path);
    let n = chars.len();
    if n == 0 || chars[0] == '/' {
        return Err(CodegenError::UnsafePath(string_from_chars(&chars, 0, n)));
    }
    let mut i: usize = 0;
    while i < n
        invariant
            i <= n,
            n == chars@.len(),
            chars@ == path@,
            forall|k: int|
                0 <= k < i && k + 2 <= n && (k == 0 || chars@[k - 1] == '/') && #[trigger] chars@[k] == '.'
                    ==> !(chars@[k + 1] == '.' && (k + 2 == n || chars@[k + 2] == '/')),
        decreases n - i,
    {
        if (i == 0 || chars[i - 1] == '/') && i + 1 < n && chars[i] == '.' && chars[i + 1] == '.' && (i + 2 == n
            || chars[i + 2] == '/') {
            assert(has_parent_segment(path@));
            assert(chars@.subrange(0, n as int) =~= chars@);
            return Err(CodegenError::UnsafePath(string_from_chars(&chars, 0, n)));
        }
        i = i + 1;
    }
    Ok(())
}

/// `text` with every `\r\n` replaced by `\n`, scanning left to right.
pub open spec fn unix_newlines(text: Seq<char>) -> Seq<char>
    decreases text.len(),
{
    if text.len() == 0 {
        text
    } else if text.len() >= 2 && text[0] == '\r' && text[1] == '\n' {
        seq!['\n'] + unix_newlines(text.subrange(2, text.len() as int))
    } else {
        seq![text[0]] + unix_newlines(text.drop_first())
    }
}

/// `contents` with every `\r\n` replaced by `\n`.
pub fn normalize_newlines(contents: &str) -> (normalized: String)
    ensures
        normalized@ == unix_newlines(contents@),
{
    let chars = chars_of(contents);
    let n = chars.len();
    let mut out: Vec<char> = Vec::new();
    let mut i: usize = 0;
    assert(chars@.subrange(0, n as int) =~= chars@);
    while i < n
        invariant
            i <= n,
            n == chars@.len(),
            chars@ == contents@,
            out@ + unix_newlines(chars@.subrange(i as int, n as int)) == unix_newlines(contents@),
        decreases n - i,
    {
        let ghost rest = chars@.subrange(i as int, n as int);
        if i + 1 < n && chars[i] == '\r' && chars[i + 1] == '\n' {
            assert(rest.subrange(2, rest.len() as int) =~= chars@.subrange(i + 2, n as int));
            assert(out@.push('\n') + unix_newlines(chars@.subrange(i + 2, n as int)) =~= out@ + (seq!['\n']
                + unix_newlines(chars@.subrange(i + 2, n as int))));
            out.push('\n');
            i = i + 2;
        } else {
            assert(rest.drop_first() =~= chars@.subrange(i + 1, n as int));
            assert(out@.push(chars@[i as int]) + unix_newlines(chars@.subrange(i + 1, n as int)) =~= out@ + (
            seq![rest[0]] + unix_newlines(rest.drop_first())));
            out.push(chars[i]);
            i = i + 1;
        }
    }
    assert(chars@.subrange(n as int, n as int) =~= Seq::<char>::empty());
    assert(out@ + Seq::<char>::empty() =~= out@);
    string_from_chars(&out, 0, out.len())
}

impl GeneratedArtifact {
    /// The text to write for this artifact, after checking its path: the
    /// contents with Unix newlines.
    pub fn expected_contents(&self) -> (result: Result<String, CodegenError>)
        ensures
            workspace_relative(self.relative_path@) ==> (result matches Ok(text) && text@ == unix_newlines(
                self.contents@,
            )),
            !workspace_relative(self.relative_path@) ==> (result matches Err(CodegenError::UnsafePath(p)) && p@
                == self.relative_path@),
    {
        match validate_relative_path(self.relative_path.as_str()) {
            Ok(()) => Ok(normalize_newlines(self.contents.as_str())),
            Err(error) => Err(error),
        }
    }
}

/// Compares a file read back from `destination` with the text its artifact
/// expects; newlines of the file are normalized first.
pub fn check_drift(destination: &str, actual: &str, expected: &str) -> (result: Result<(), CodegenError>)
    ensures
        unix_newlines(actual@) == expected@ ==> result is Ok,
        unix_newlines(actual@) != expected@ ==> (result matches Err(CodegenError::Drift(p)) && p@ == destination@),
{
    let normalized = normalize_newlines(actual);
    if strings_equal(normalized.as_str(), expected) {
        Ok(())
    } else {
        let chars = chars_of(destination);
        assert(chars@.subrange(0, chars@.len() as int) =~= chars@);
        Err(CodegenError::Drift(string_from_chars(&chars, 0, chars.len())))
    }
}

/// Whether `text` has `\r\n` at index `i`.
pub open spec fn crlf_at(text: Seq<char>, i: int) -> bool {
    0 <= i && i + 1 < text.len() && text[i] == '\r' && text[i + 1] == '\n'
}

/// Whether `text` has `\r\r\n` at index `i`.
pub open spec fn cr_crlf_at(text: Seq<char>, i: int) -> bool {
    0 <= i && i + 2 < text.len() && text[i] == '\r' && text[i + 1] == '\r' && text[i + 2] == '\n'
}

proof fn lemma_unix_newlines_fixes_crlf_free_text(text: Seq<char>)
    requires
        forall|i: int| !#[trigger] crlf_at(text, i),
    ensures
        unix_newlines(text) == text,
    decreases text.len(),
{
    if text.len() > 0 {
        assert(!crlf_at(text, 0));
        let rest = text.drop_first();
        assert forall|i: int| !#[trigger] crlf_at(rest, i) by {
            if crlf_at(rest, i) {
                assert(crlf_at(text, i + 1));
            }
        }
        lemma_unix_newlines_fixes_crlf_free_text(rest);
        assert(seq![text[0]] + rest =~= text);
    }
}

proof fn lemma_unix_newlines_leave_no_crlf(text: Seq<char>)
    requires
        forall|i: int| !#[trigger] cr_crlf_at(text, i),
    ensures
        forall|i: int| !#[trigger] crlf_at(unix_newlines(text), i),
    decreases text.len(),
{
    if text.len() == 0 {
        return;
    }
    let out = unix_newlines(text);
    if text.len() >= 2 && text[0] == '\r' && text[1] == '\n' {
        let rest = text.subrange(2, text.len() as int);
        assert forall|i: int| !#[trigger] cr_crlf_at(rest, i) by {
            if cr_crlf_at(rest, i) {
                assert(cr_crlf_at(text, i + 2));
            }
        }
        lemma_unix_newlines_leave_no_crlf(rest);
        let tail = unix_newlines(rest);
        assert(out == seq!['\n'] + tail);
        assert forall|i: int| !#[trigger] crlf_at(out, i) by {
            if crlf_at(out, i) && i > 0 {
                assert(crlf_at(tail, i - 1));
            }
        }
    } else {
        let rest = text.drop_first();
        assert forall|i: int| !#[trigger] cr_crlf_at(rest, i) by {
            if cr_crlf_at(rest, i) {
                assert(cr_crlf_at(text, i + 1));
            }
        }
        lemma_unix_newlines_leave_no_crlf(rest);
        let tail = unix_newlines(rest);
        assert(out == seq![text[0]] + tail);
        assert forall|i: int| !#[trigger] crlf_at(out, i) by {
            if crlf_at(out, i) {
                if i > 0 {
                    assert(crlf_at(tail, i - 1));
                } else {
                    // the first output character is `\r`, the second `\n`
                    assert(text[0] == '\r');
                    assert(tail.len() > 0 && tail[0] == '\n');
                    if rest.len() >= 2 && rest[0] == '\r' && rest[1] == '\n' {
                        assert(cr_crlf_at(text, 0));
                    } else {
                        assert(rest.len() > 0);
                        assert(tail == seq![rest[0]] + unix_newlines(rest.drop_first()));
                        assert(text[1] == '\n');
                    }
                }
            }
        }
    }
}

/// Writing an artifact and then checking it finds no drift: the text that
/// is written already has Unix newlines, so normalizing it again changes
/// nothing. This holds for every text without `\r\r\n`; on such a text the
/// second normalization turns the `\r\n` that the first one left into `\n`.
pub proof fn lemma_written_artifacts_pass_the_check(contents: Seq<char>)
    requires
        forall|i: int| !#[trigger] cr_crlf_at(contents, i),
    ensures
        unix_newlines(unix_newlines(contents)) == unix_newlines(contents),
{
    lemma_unix_newlines_leave_no_crlf(contents);
    lemma_unix_newlines_fixes_crlf_free_text(unix_newlines(contents));
}

} // verus!
