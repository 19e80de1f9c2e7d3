//! File paths, held as text. The component handling of `std::path::Path`
//! is used through small wrappers whose results are named here; the file
//! extension is derived from the file name as the standard library
//! documents it.
use vstd::prelude::*;

verus! {

/// The final component of `path` as `Path::file_name` computes it (`None`
/// for a path that ends in `..` or is a root).
pub uninterp spec fn path_file_name(path: Seq<char>) -> Option<Seq<char>>;

/// The path that `Path::with_file_name` builds from `path` and `name`.
pub uninterp spec fn path_with_file_name(path: Seq<char>, name: Seq<char>) -> Seq<char>;

/// The components that `Path::components` yields for `path`, each given as
/// a text, two components as the same text exactly when they compare equal.
pub uninterp spec fn path_components(path: Seq<char>) -> Seq<Seq<char>>;

/// Whether `Path` equality holds between two paths: their components are
/// the same.
pub open spec fn path_eq(a: Seq<char>, b: Seq<char>) -> bool {
    path_components(a) == path_components(b)
}

/// `Path::file_name`: the final component of `path`.
///
/// Trusted: the result is what `Path::file_name` returns, as text (a path
/// given as text has a file name that is text too).
#[verifier::external_body]
pub(crate) fn file_name(path: &str) -> (r: Option<String>)
    ensures
        match path_file_name(path@) {
            None => r is None,
            Some(n) => r matches Some(s) && s@ == n,
        },
{
    std::path::Path::new(path).file_name().map(|name| name.to_string_lossy().into_owned())
}

/// `Path::with_file_name`: `path` with its final component replaced by
/// `name`.
///
/// Trusted: the result is what `Path::with_file_name` returns, as text. As
/// std documents, the last component is popped and `name` pushed, so giving
/// a path its own file name leaves its components as they were.
#[verifier::external_body]
pub(crate) fn with_file_name(path: &str, name: &str) -> (r: String)
    ensures
        r@ == path_with_file_name(path@, name@),
        path_file_name(path@) == Some(name@) ==> path_components(r@) == path_components(path@),
{
    std::path::Path::new(path).with_file_name(name).to_string_lossy().into_owned()
}

/// `Path` equality of two paths.
///
/// Trusted: the result is what `==` on `Path` returns, which compares the
/// paths component by component (an equivalence, as `Path: Eq` promises).
#[verifier::external_body]
pub(crate) fn same_path(a: &str, b: &str) -> (r: bool)
    ensures
        r == (path_components(a@) == path_components(b@)),
{
    std::path::Path::new(a) == std::path::Path::new(b)
}

/// The position of the last `.` in `name`.
pub open spec fn last_dot(name: Seq<char>) -> Option<int>
    decreases name.len(),
{
    if name.len() == 0 {
        None
    } else if name.last() == '.' {
        Some(name.len() - 1)
    } else {
        last_dot(name.drop_last())
    }
}

/// The extension of a file name, as `Path::extension` documents it: none
/// without a `.`, none when the only `.` is the first character, and
/// otherwise what follows the last `.`.
pub open spec fn extension_of_name(name: Seq<char>) -> Option<Seq<char>> {
    match last_dot(name) {
        Some(k) => if k > 0 {
            Some(name.skip(k + 1))
        } else {
            None
        },
        None => None,
    }
}

/// The extension of the final component of `path`.
pub open spec fn path_extension(path: Seq<char>) -> Option<Seq<char>> {
    match path_file_name(path) {
        Some(name) => extension_of_name(name),
        None => None,
    }
}

/// The extension of a file name.
pub fn extension_of(name: &str) -> (r: Option<String>)
    ensures
        match extension_of_name(name@) {
            None => r is None,
            Some(e) => r matches Some(s) && s@ == e,
        },
{
    let len = name.unicode_len();
    let mut k: usize = len;
    assert(name@.subrange(0, len as int) == name@);
    while k > 0
        invariant
            k <= len,
            len == name@.len(),
            last_dot(name@) == last_dot(name@.subrange(0, k as int)),
        decreases k,
    {
        let ghost pre = name@.subrange(0, k as int);
        if name.get_char(k - 1) == '.' {
            assert(pre.last() == '.');
            if k - 1 == 0 {
                return None;
            }
            let ext = name.substring_char(k, len);
            assert(ext@ == name@.skip(k as int));
            return Some(String::from_str(ext));
        }
        assert(pre.drop_last() == name@.subrange(0, k - 1));
        k = k - 1;
    }
    assert(name@.subrange(0, 0).len() == 0);
    None
}

/// The extension of the final component of `path`, if it has one.
pub fn extension(path: &str) -> (r: Option<String>)
    ensures
        match path_extension(path@) {
            None => r is None,
            Some(e) => r matches Some(s) && s@ == e,
        },
{
    match file_name(path) {
        Some(name) => extension_of(name.as_str()),
        None => None,
    }
}

} // verus!
