//! Text and path services of the standard library that the viewer's logic relies on.
//! Each item below calls one standard-library function; its contract is what that
//! function's documentation promises.

use vstd::prelude::*;

verus! {

/// What `str::to_lowercase` makes of a text: the Unicode lowercase mapping of every
/// character (with the context-dependent final sigma rule).
pub uninterp spec fn spec_to_lowercase(text: Seq<char>) -> Seq<char>;

/// Calls `str::to_lowercase`. Claims only that the result is the named lowercase mapping
/// of the input, which depends on nothing but the input.
#[verifier::external_body]
pub fn to_lowercase(text: &str) -> (r: String)
    ensures
        r@ == spec_to_lowercase(text@),
{
    text.to_lowercase()
}

/// The position of the last `/` in `text`, or -1 when there is none.
pub open spec fn last_slash(text: Seq<char>) -> int
    decreases text.len(),
{
    if text.len() == 0 {
        -1
    } else if text.last() == '/' {
        text.len() - 1
    } else {
        last_slash(text.drop_last())
    }
}

/// The text after the last `/` of `path` (all of it when it has none).
pub open spec fn final_part(path: Seq<char>) -> Seq<char> {
    path.skip(last_slash(path) + 1)
}

/// Whether the file name of `path` is the same on every platform: `path` holds no `\\`
/// and no `:` and does not start with `//` (so `/` is its only separator and it has no
/// drive or network prefix), and the text after its last `/` is a name: nonempty, not `.`
/// and not `..`. That text is then the path's final component.
pub open spec fn has_portable_name(path: Seq<char>) -> bool {
    &&& !path.contains('\\')
    &&& !path.contains(':')
    &&& !(path.len() >= 2 && path[0] == '/' && path[1] == '/')
    &&& final_part(path).len() > 0
    &&& final_part(path) != seq!['.']
    &&& final_part(path) != seq!['.', '.']
}

/// Calls `std::path::Path::file_name` on `path` and converts the component to text.
/// The documentation promises the final component of the path, `None` when the path ends
/// in `..`; components are separated by `/` on every platform (and by `\\` on Windows),
/// repeated separators and a trailing one are ignored, and `.` components are dropped
/// except at the start. The contract claims that the name is a nonempty part of the path
/// text, is not `..` and holds no `/`, and, for a path whose name is the same on every
/// platform (`has_portable_name`), that it is the text after the last `/`. How other
/// paths split into components depends on the target platform and is left unsaid.
#[verifier::external_body]
pub fn path_file_name(path: &str) -> (r: Option<String>)
    ensures
        r matches Some(name) ==> {
            &&& name@.len() > 0
            &&& name@ != seq!['.', '.']
            &&& !name@.contains('/')
            &&& exists|i: int|
                0 <= i && i + name@.len() <= path@.len() && #[trigger] path@.subrange(
                    i,
                    i + name@.len(),
                ) == name@
            &&& has_portable_name(path@) ==> name@ == final_part(path@)
        },
        has_portable_name(path@) ==> r is Some,
{
    std::path::Path::new(path).file_name().map(|name| name.to_string_lossy().into_owned())
}

/// Whether `path` is a bare file name on every platform: it holds no `/`, `\\` or `:`
/// (so no separator and no drive prefix) and is not `..`. Such a path is one component,
/// and that component is its file name unless it is `.`.
pub open spec fn is_bare_name(path: Seq<char>) -> bool {
    &&& !path.contains('/')
    &&& !path.contains('\\')
    &&& !path.contains(':')
    &&& path != seq!['.', '.']
}

/// The position of the last `.` in `text`, or -1 when there is none.
pub open spec fn last_dot(text: Seq<char>) -> int
    decreases text.len(),
{
    if text.len() == 0 {
        -1
    } else if text.last() == '.' {
        text.len() - 1
    } else {
        last_dot(text.drop_last())
    }
}

/// Whether `c` separates path components on some platform (`/` everywhere, `\\` on
/// Windows).
pub open spec fn is_path_separator(c: char) -> bool {
    c == '/' || c == '\\'
}

/// The position of the last separator or `:` in `text`, or -1 when there is none: the
/// last place where a file name could begin on any platform (after a separator, or after
/// a Windows drive prefix such as `C:`).
pub open spec fn last_boundary(text: Seq<char>) -> int
    decreases text.len(),
{
    if text.len() == 0 {
        -1
    } else if is_path_separator(text.last()) || text.last() == ':' {
        text.len() - 1
    } else {
        last_boundary(text.drop_last())
    }
}

/// Whether the extension of `path` is the same on every platform: `path` does not start
/// with two separators (a Windows network or device prefix), its last `.` comes after its
/// last separator and `:` and does not directly follow one of them, and the text after the
/// last separator or `:` is not `..`. The file name, on every platform, is then a final
/// part of the path that holds that `.` with text before it, so its extension is the text
/// after the path's last `.`.
pub open spec fn has_portable_extension(path: Seq<char>) -> bool {
    &&& !(path.len() >= 2 && is_path_separator(path[0]) && is_path_separator(path[1]))
    &&& last_dot(path) > last_boundary(path) + 1
    &&& path.skip(last_boundary(path) + 1) != seq!['.', '.']
}

/// Calls `std::path::Path::extension` on `path` and converts it to text. The documentation
/// defines the extension as the part of the file name after its last `.`: none when there
/// is no file name, none when the name has no `.`, none when its only `.` is the leading
/// one. The contract claims that the extension holds no `.` and no `/` and follows a `.`
/// somewhere in the path, and exactly which text it is for a bare file name
/// (`is_bare_name`), for a path whose file name is the same on every platform
/// (`has_portable_name`, the name being the text after the last `/`) and for a path whose
/// extension is the same on every platform (`has_portable_extension`, the text after the
/// last `.`). For other paths, such as `a\\.png` (an extension on Unix, none on Windows),
/// the result depends on the target platform and is left unsaid.
#[verifier::external_body]
pub fn path_extension(path: &str) -> (r: Option<String>)
    ensures
        r matches Some(extension) ==> {
            &&& !extension@.contains('.')
            &&& !extension@.contains('/')
            &&& exists|i: int|
                0 <= i && i + 1 + extension@.len() <= path@.len() && path@[i] == '.'
                    && #[trigger] path@.subrange(i + 1, i + 1 + extension@.len()) == extension@
            &&& has_portable_extension(path@) ==> extension@ == path@.skip(last_dot(path@) + 1)
        },
        has_portable_extension(path@) ==> r is Some,
        is_bare_name(path@) ==> (r is Some <==> last_dot(path@) > 0),
        is_bare_name(path@) ==> (r matches Some(extension) ==> extension@ == path@.skip(
            last_dot(path@) + 1,
        )),
        has_portable_name(path@) ==> (r is Some <==> last_dot(final_part(path@)) > 0),
        has_portable_name(path@) ==> (r matches Some(extension) ==> extension@ == final_part(
            path@,
        ).skip(last_dot(final_part(path@)) + 1)),
{
    std::path::Path::new(path).extension().map(|extension| extension.to_string_lossy().into_owned())
}

/// Calls `String::push`, which appends one character.
#[verifier::external_body]
pub fn push_char(text: &mut String, c: char)
    ensures
        final(text)@ == old(text)@.push(c),
{
    text.push(c)
}

} // verus!
