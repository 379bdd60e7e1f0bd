use vstd::prelude::*;
use camino::Utf8Path;

verus! {

/// What camino's `Utf8Path::extension` returns for a path: the part of its
/// file name after the last `.`, or `None`.
pub uninterp spec fn extension_of(path: Seq<char>) -> Option<Seq<char>>;

/// What camino's `Utf8Path::with_extension` returns for a path and a new
/// extension.
pub uninterp spec fn with_extension_of(path: Seq<char>, extension: Seq<char>) -> Seq<char>;

/// What camino's `Utf8Path::parent` returns for a path: the path without its
/// final component, or `None` where it ends in a root or prefix.
pub uninterp spec fn parent_of(path: Seq<char>) -> Option<Seq<char>>;

/// The text of an optional string.
pub open spec fn opt_view(o: Option<String>) -> Option<Seq<char>> {
    match o {
        Some(s) => Some(s@),
        None => None,
    }
}

/// The extension that a staging name gets: the old extension, a dot and the
/// suffix, or the suffix alone where there was no extension.
pub open spec fn suffixed_extension(extension: Option<Seq<char>>, suffix: Seq<char>) -> Seq<char> {
    match extension {
        Some(e) => e + seq!['.'] + suffix,
        None => suffix,
    }
}

/// Relies on camino's `Utf8Path::extension`, which reads the extension of the
/// path's file name; being part of a file name, it holds no `/`.
#[verifier::external_body]
fn extension(path: &str) -> (r: Option<String>)
    ensures
        opt_view(r) == extension_of(path@),
        r is Some ==> !r->0@.contains('/'),
{
    Utf8Path::new(path).extension().map(|e| e.to_owned())
}

/// Relies on camino's `Utf8Path::parent`, which drops the path's final
/// component, so that the parent is shorter than the path.
#[verifier::external_body]
pub(crate) fn parent(path: &str) -> (r: Option<String>)
    ensures
        opt_view(r) == parent_of(path@),
        r is Some ==> r->0@.len() < path@.len(),
{
    Utf8Path::new(path).parent().map(|p| p.as_str().to_owned())
}

/// Relies on camino's `Utf8Path::with_extension`, which replaces (or adds) the
/// extension of the path's file name. It panics on an extension that holds
/// a path separator.
#[verifier::external_body]
fn with_extension(path: &str, extension: &str) -> (r: String)
    requires
        !extension@.contains('/'),
    ensures
        r@ == with_extension_of(path@, extension@),
{
    Utf8Path::new(path).with_extension(extension).into_string()
}

/// The extension that `path_with_suffix_extension` installs, given the path's
/// current extension.
pub fn extension_with_suffix(extension: Option<&str>, suffix: &str) -> (r: String)
    ensures
        r@ == suffixed_extension(
            match extension {
                Some(e) => Some(e@),
                None => None,
            },
            suffix@,
        ),
{
    match extension {
        Some(e) => {
            let mut s = e.to_owned();
            proof {
                reveal_strlit(".");
            }
            s.append(".");
            s.append(suffix);
            s
        },
        None => suffix.to_owned(),
    }
}

/// Adds a suffix to the file (or directory) name: appended to its extension
/// after a dot, or installed as the extension where there is none. The
/// suffix holds no `/`: an extension cannot.
pub fn path_with_suffix_extension(path: &str, suffix: &str) -> (r: String)
    requires
        !suffix@.contains('/'),
    ensures
        r@ == with_extension_of(
            path@,
            suffixed_extension(extension_of(path@), suffix@),
        ),
{
    let ext = extension(path);
    let new_extension = match &ext {
        Some(e) => extension_with_suffix(Some(e.as_str()), suffix),
        None => extension_with_suffix(None, suffix),
    };
    assert(!new_extension@.contains('/')) by {
        if new_extension@.contains('/') {
            let i = choose|i: int| 0 <= i < new_extension@.len() && new_extension@[i] == '/';
            match &ext {
                Some(e) => {
                    let n = e@.len() as int;
                    if i < n {
                        assert(e@[i] == '/');
                    } else if i > n {
                        assert(suffix@[i - n - 1] == '/');
                    }
                },
                None => {
                    assert(suffix@[i] == '/');
                },
            }
        }
    }
    with_extension(path, new_extension.as_str())
}

} // verus!
