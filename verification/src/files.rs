//! Image files of a directory: which files count as images, and which of
//! them a filter selects, in the order they are listed.
use vstd::prelude::*;
use crate::filter::{regex_compile, regex_matches, Filter};
use crate::paths::{extension, file_name, path_extension, path_file_name};
use crate::text::{
    ascii_lower_seq, concat2, concat3, lemma_lex_lt_irreflexive, lemma_lex_lt_transitive, lex_less,
    lex_lt, lowercase_equals,
};

verus! {

/// The default regular expression for parsing image file names.
pub const DEFAULT_PARSER: &'static str = r"^img_(?P<date>\d{4}-\d{2}-\d{2}_\d{2}-\d{2}-\d{2}(?:-\d+)?)_(?P<author>[\w\d-]*)_(?P<camera>[\w\d-]*)\.(?P<ext>ORF)$";

/// The default replacement expression.
pub const DEFAULT_REPLACEMENT: &'static str = "img_${date}_${author}_${camera}_$name.${ext}";

/// An image file in the directory.
#[derive(Debug, PartialEq, Eq)]
pub struct ImageFile {
    /// The path to the file.
    pub path: String,
    /// Whether the file is selected for renaming.
    pub selected: bool,
}

impl Clone for ImageFile {
    fn clone(&self) -> (r: Self)
        ensures
            r == *self,
    {
        ImageFile { path: self.path.clone(), selected: self.selected }
    }
}

/// The supported image extensions, in lower case.
pub open spec fn is_image_extension(e: Seq<char>) -> bool {
    ||| e == "3fr"@
    ||| e == "arw"@
    ||| e == "cr2"@
    ||| e == "cr3"@
    ||| e == "dng"@
    ||| e == "jpeg"@
    ||| e == "jpg"@
    ||| e == "nef"@
    ||| e == "nrw"@
    ||| e == "orf"@
    ||| e == "pef"@
    ||| e == "png"@
    ||| e == "raf"@
    ||| e == "raw"@
    ||| e == "rw2"@
    ||| e == "sr2"@
    ||| e == "tif"@
    ||| e == "tiff"@
    ||| e == "webp"@
}

/// A path is a supported image when the ASCII lower-case form of its
/// extension is one of the supported image extensions.
pub open spec fn is_supported_path(path: Seq<char>) -> bool {
    match path_extension(path) {
        Some(e) => is_image_extension(ascii_lower_seq(e)),
        None => false,
    }
}

/// Whether the extension `e` is, ignoring ASCII case, a supported one.
fn is_image_extension_exec(e: &str) -> (r: bool)
    ensures
        r == is_image_extension(ascii_lower_seq(e@)),
{
    lowercase_equals(e, "3fr") || lowercase_equals(e, "arw") || lowercase_equals(e, "cr2")
        || lowercase_equals(e, "cr3") || lowercase_equals(e, "dng") || lowercase_equals(e, "jpeg")
        || lowercase_equals(e, "jpg") || lowercase_equals(e, "nef") || lowercase_equals(e, "nrw")
        || lowercase_equals(e, "orf") || lowercase_equals(e, "pef") || lowercase_equals(e, "png")
        || lowercase_equals(e, "raf") || lowercase_equals(e, "raw") || lowercase_equals(e, "rw2")
        || lowercase_equals(e, "sr2") || lowercase_equals(e, "tif") || lowercase_equals(e, "tiff")
        || lowercase_equals(e, "webp")
}

impl ImageFile {
    /// Checks whether the file at `path` is an image supported by the
    /// previewer, judged by its extension, ignoring ASCII case.
    pub fn is_supported(path: &str) -> (r: bool)
        ensures
            r == is_supported_path(path@),
    {
        match extension(path) {
            Some(e) => is_image_extension_exec(e.as_str()),
            None => false,
        }
    }
}

/// The name shown for a file: its file name, or `?` when it has none.
pub fn display_name(path: &str) -> (r: String)
    ensures
        r@ == match path_file_name(path@) {
            Some(n) => n,
            None => "?"@,
        },
{
    match file_name(path) {
        Some(name) => name,
        None => String::from_str("?"),
    }
}

/// The text of the file paths.
pub open spec fn texts(v: Seq<String>) -> Seq<Seq<char>> {
    v.map_values(|s: String| s@)
}

/// The paths of image files.
pub open spec fn paths_of(files: Seq<ImageFile>) -> Seq<Seq<char>> {
    files.map_values(|f: ImageFile| f.path@)
}

/// The key files are sorted by: the file name.
pub open spec fn name_key(path: Seq<char>) -> Seq<char> {
    match path_file_name(path) {
        Some(n) => n,
        None => Seq::empty(),
    }
}

/// A directory entry is listed when it is a supported image and its file
/// name matches the filter `pattern`.
pub open spec fn accepts(pattern: Seq<char>, path: Seq<char>) -> bool {
    &&& is_supported_path(path)
    &&& match path_file_name(path) {
        Some(n) => regex_matches(pattern, n),
        None => false,
    }
}

/// The entries that are listed, in their original order.
pub open spec fn accepted(pattern: Seq<char>, entries: Seq<Seq<char>>) -> Seq<Seq<char>>
    decreases entries.len(),
{
    if entries.len() == 0 {
        Seq::empty()
    } else {
        let init = accepted(pattern, entries.drop_last());
        if accepts(pattern, entries.last()) {
            init.push(entries.last())
        } else {
            init
        }
    }
}

/// Where `x` goes into `s`: before the first path whose name is greater, so
/// that paths with equal names keep their order.
pub open spec fn insertion_point(s: Seq<Seq<char>>, x: Seq<char>) -> int
    decreases s.len(),
{
    if s.len() == 0 {
        0
    } else if lex_lt(name_key(x), name_key(s[0])) {
        0
    } else {
        1 + insertion_point(s.drop_first(), x)
    }
}

/// `s` stably sorted by file name.
pub open spec fn sort_by_name(s: Seq<Seq<char>>) -> Seq<Seq<char>>
    decreases s.len(),
{
    if s.len() == 0 {
        s
    } else {
        let t = sort_by_name(s.drop_last());
        t.insert(insertion_point(t, s.last()), s.last())
    }
}

/// The paths that scanning lists for the filter `pattern`: the accepted
/// entries, sorted by file name.
pub open spec fn listed(pattern: Seq<char>, entries: Seq<Seq<char>>) -> Seq<Seq<char>> {
    sort_by_name(accepted(pattern, entries))
}

/// `s` is in file-name order: no path's name comes before that of a path
/// ahead of it.
pub open spec fn sorted_by_name(s: Seq<Seq<char>>) -> bool {
    forall|i: int, j: int|
        0 <= i < j < s.len() ==> !lex_lt(name_key(#[trigger] s[j]), name_key(#[trigger] s[i]))
}

proof fn lemma_insertion_point(t: Seq<Seq<char>>, x: Seq<char>)
    ensures
        0 <= insertion_point(t, x) <= t.len(),
        forall|k: int|
            0 <= k < insertion_point(t, x) ==> !lex_lt(name_key(x), name_key(#[trigger] t[k])),
        insertion_point(t, x) < t.len() ==> lex_lt(name_key(x), name_key(t[insertion_point(t, x)])),
    decreases t.len(),
{
    if t.len() > 0 && !lex_lt(name_key(x), name_key(t[0])) {
        let rest = t.drop_first();
        lemma_insertion_point(rest, x);
        assert forall|k: int| 0 <= k < insertion_point(t, x) implies !lex_lt(
            name_key(x),
            name_key(#[trigger] t[k]),
        ) by {
            if k > 0 {
                assert(t[k] == rest[k - 1]);
            }
        }
        if insertion_point(t, x) < t.len() {
            assert(t[insertion_point(t, x)] == rest[insertion_point(rest, x)]);
        }
    }
}

/// Sorting by file name gives a sequence in file-name order that holds the
/// same paths, as often as the input does.
pub proof fn lemma_sort_by_name(s: Seq<Seq<char>>)
    ensures
        sorted_by_name(sort_by_name(s)),
        sort_by_name(s).to_multiset() == s.to_multiset(),
    decreases s.len(),
{
    broadcast use vstd::seq_lib::to_multiset_insert, vstd::seq_lib::to_multiset_build;

    if s.len() > 0 {
        let init = s.drop_last();
        let x = s.last();
        lemma_sort_by_name(init);
        let t = sort_by_name(init);
        lemma_insertion_point(t, x);
        let p = insertion_point(t, x);
        let r = t.insert(p, x);
        assert(s == init.push(x));
        assert forall|i: int, j: int| 0 <= i < j < r.len() implies !lex_lt(
            name_key(#[trigger] r[j]),
            name_key(#[trigger] r[i]),
        ) by {
            if j < p {
                assert(r[i] == t[i] && r[j] == t[j]);
            } else if j == p {
                assert(r[j] == x && r[i] == t[i]);
            } else if i > p {
                assert(r[i] == t[i - 1] && r[j] == t[j - 1]);
            } else if i == p {
                assert(r[i] == x && r[j] == t[j - 1]);
                if lex_lt(name_key(t[j - 1]), name_key(x)) {
                    lemma_lex_lt_transitive(name_key(t[j - 1]), name_key(x), name_key(t[p]));
                    if j - 1 == p {
                        lemma_lex_lt_irreflexive(name_key(t[p]));
                    }
                }
            } else {
                assert(r[i] == t[i] && r[j] == t[j - 1]);
            }
        }
    }
}

/// An entry is accepted exactly when it is among the entries and is a
/// supported image whose name matches.
pub proof fn lemma_accepted(pattern: Seq<char>, entries: Seq<Seq<char>>)
    ensures
        forall|x: Seq<char>|
            #[trigger] accepted(pattern, entries).contains(x) <==> (entries.contains(x) && accepts(
                pattern,
                x,
            )),
    decreases entries.len(),
{
    if entries.len() > 0 {
        let init = entries.drop_last();
        lemma_accepted(pattern, init);
        let a0 = accepted(pattern, init);
        assert forall|x: Seq<char>|
            #[trigger] accepted(pattern, entries).contains(x) <==> (entries.contains(x) && accepts(
                pattern,
                x,
            )) by {
            if entries.contains(x) && accepts(pattern, x) {
                let k = choose|k: int| 0 <= k < entries.len() && entries[k] == x;
                if k < entries.len() - 1 {
                    assert(init[k] == x);
                    assert(a0.contains(x));
                    let m = choose|m: int| 0 <= m < a0.len() && a0[m] == x;
                    if accepts(pattern, entries.last()) {
                        assert(a0.push(entries.last())[m] == x);
                    }
                } else {
                    assert(a0.push(entries.last())[a0.len() as int] == x);
                }
            }
            if accepted(pattern, entries).contains(x) {
                let acc = accepted(pattern, entries);
                let k = choose|k: int| 0 <= k < acc.len() && acc[k] == x;
                if k < a0.len() {
                    assert(a0[k] == x);
                    assert(a0.contains(x));
                    let m = choose|m: int| 0 <= m < init.len() && init[m] == x;
                    assert(entries[m] == x);
                } else {
                    assert(entries[entries.len() - 1] == x);
                }
            }
        }
    }
}

/// Scanning lists, in file-name order, exactly the entries that are
/// supported images whose names match the filter, each as often as it is
/// among the entries.
pub proof fn lemma_scan_lists_matching_images_in_order(pattern: Seq<char>, entries: Seq<Seq<char>>)
    ensures
        sorted_by_name(listed(pattern, entries)),
        listed(pattern, entries).to_multiset() == accepted(pattern, entries).to_multiset(),
        forall|x: Seq<char>|
            #[trigger] listed(pattern, entries).contains(x) <==> (entries.contains(x) && accepts(
                pattern,
                x,
            )),
{
    broadcast use vstd::seq_lib::to_multiset_contains;

    lemma_sort_by_name(accepted(pattern, entries));
    lemma_accepted(pattern, entries);
    assert forall|x: Seq<char>|
        #[trigger] listed(pattern, entries).contains(x) <==> accepted(pattern, entries).contains(x) by {
        assert(listed(pattern, entries).to_multiset().count(x) == accepted(
            pattern,
            entries,
        ).to_multiset().count(x));
    }
}

/// Whether a file counts as an image does not depend on the case of the
/// letters of its extension.
pub proof fn lemma_supported_ignores_case(p: Seq<char>, q: Seq<char>)
    requires
        path_extension(p) is Some,
        path_extension(q) is Some,
        ascii_lower_seq(path_extension(p)->0) == ascii_lower_seq(path_extension(q)->0),
    ensures
        is_supported_path(p) == is_supported_path(q),
{
}

/// Every one of the supported image extensions makes a path a supported
/// image, whatever the case of its letters: 3fr, arw, cr2, cr3, dng, jpeg,
/// jpg, nef, nrw, orf, pef, png, raf, raw, rw2, sr2, tif, tiff and webp.
/// Any other extension, and none, does not.
pub proof fn lemma_supported_extensions(path: Seq<char>)
    ensures
        is_supported_path(path) <==> (path_extension(path) matches Some(e) && {
            let lower = ascii_lower_seq(e);
            ||| lower == "3fr"@
            ||| lower == "arw"@
            ||| lower == "cr2"@
            ||| lower == "cr3"@
            ||| lower == "dng"@
            ||| lower == "jpeg"@
            ||| lower == "jpg"@
            ||| lower == "nef"@
            ||| lower == "nrw"@
            ||| lower == "orf"@
            ||| lower == "pef"@
            ||| lower == "png"@
            ||| lower == "raf"@
            ||| lower == "raw"@
            ||| lower == "rw2"@
            ||| lower == "sr2"@
            ||| lower == "tif"@
            ||| lower == "tiff"@
            ||| lower == "webp"@
        }),
{
}

/// Errors when listing a directory.
#[derive(Debug, Clone)]
pub enum FileError {
    /// The filter is not a valid regular expression; the text of the error.
    InvalidRegex(String),
    /// The directory could not be read.
    ReadDirectory { dir: String, err: String },
}

/// The message shown for a listing error.
pub open spec fn file_error_text(e: FileError) -> Seq<char> {
    match e {
        FileError::InvalidRegex(err) => "Invalid regular expression: "@ + err@,
        FileError::ReadDirectory { dir, err } => "Could not read directory "@ + dir@ + ": "@
            + err@,
    }
}

impl FileError {
    /// The message shown to the user.
    pub fn message(&self) -> (r: String)
        ensures
            r@ == file_error_text(*self),
    {
        match self {
            FileError::InvalidRegex(err) => concat2("Invalid regular expression: ", err.as_str()),
            FileError::ReadDirectory { dir, err } => {
                let head = concat3("Could not read directory ", dir.as_str(), ": ");
                concat2(head.as_str(), err.as_str())
            },
        }
    }
}

/// The directory whose images are shown.
pub struct ImageDirectory {
    path: String,
}

impl View for ImageDirectory {
    type V = Seq<char>;

    closed spec fn view(&self) -> Seq<char> {
        self.path@
    }
}

impl ImageDirectory {
    pub fn new(path: String) -> (r: Self)
        ensures
            r@ == path@,
    {
        Self { path }
    }

    /// The directory's path.
    pub fn path(&self) -> (r: &String)
        ensures
            r@ == self@,
    {
        &self.path
    }

    /// Lists the supported images whose file names match the regular
    /// expression `filter`, sorted by file name, none selected. `listing` is
    /// the result of reading the directory: the paths of its regular files,
    /// or the text of the error.
    pub fn scan(&self, filter: &str, listing: Result<Vec<String>, String>) -> (r: Result<
        Vec<ImageFile>,
        FileError,
    >)
        ensures
            match regex_compile(filter@) {
                Err(m) => r matches Err(FileError::InvalidRegex(e)) && e@ == m,
                Ok(()) => match listing {
                    Err(err) => r matches Err(FileError::ReadDirectory { dir, err: e }) && dir@
                        == self@ && e@ == err@,
                    Ok(entries) => r matches Ok(files) && paths_of(files@) == listed(
                        filter@,
                        texts(entries@),
                    ) && forall|i: int| 0 <= i < files@.len() ==> !(#[trigger] files@[i]).selected,
                },
            },
    {
        let filter = match Filter::compile(filter) {
            Ok(f) => f,
            Err(e) => {
                return Err(FileError::InvalidRegex(e));
            },
        };
        let entries = match listing {
            Ok(entries) => entries,
            Err(err) => {
                return Err(FileError::ReadDirectory { dir: self.path.clone(), err });
            },
        };
        let mut files: Vec<ImageFile> = Vec::new();
        let mut names: Vec<String> = Vec::new();
        let mut idx: usize = 0;
        while idx < entries.len()
            invariant
                idx <= entries@.len(),
                files@.len() == names@.len(),
                paths_of(files@) == sort_by_name(
                    accepted(filter@, texts(entries@).subrange(0, idx as int)),
                ),
                forall|i: int| 0 <= i < files@.len() ==> !(#[trigger] files@[i]).selected,
                forall|i: int|
                    0 <= i < files@.len() ==> (#[trigger] names@[i])@ == name_key(files@[i].path@),
            decreases entries@.len() - idx,
        {
            let entry = &entries[idx];
            let ghost prefix = texts(entries@).subrange(0, idx as int);
            let ghost next = texts(entries@).subrange(0, idx + 1);
            assert(next.drop_last() == prefix);
            assert(next.last() == entry@);
            let ghost init = accepted(filter@, prefix);
            assert(accepted(filter@, next) == if accepts(filter@, entry@) {
                init.push(entry@)
            } else {
                init
            });
            assert(init.push(entry@).drop_last() == init);
            if ImageFile::is_supported(entry.as_str()) {
                if let Some(name) = file_name(entry.as_str()) {
                    if filter.is_match(name.as_str()) {
                        let ghost t = paths_of(files@);
                        let mut k: usize = 0;
                        assert(t.skip(0) == t);
                        while k < files.len() && !lex_less(name.as_str(), names[k].as_str())
                            invariant
                                k <= files@.len(),
                                files@.len() == names@.len(),
                                t == paths_of(files@),
                                name@ == name_key(entry@),
                                forall|i: int|
                                    0 <= i < files@.len() ==> (#[trigger] names@[i])@ == name_key(
                                        files@[i].path@,
                                    ),
                                insertion_point(t, entry@) == k + insertion_point(
                                    t.skip(k as int),
                                    entry@,
                                ),
                            decreases files@.len() - k,
                        {
                            assert(t.skip(k as int)[0] == files@[k as int].path@);
                            assert(t.skip(k as int).drop_first() == t.skip(k + 1));
                            k = k + 1;
                        }
                        proof {
                            if k < files@.len() {
                                assert(t.skip(k as int)[0] == files@[k as int].path@);
                            }
                        }
                        let ghost names0 = names@;
                        let ghost files0 = files@;
                        let file = ImageFile { path: entry.clone(), selected: false };
                        files.insert(k, file);
                        names.insert(k, name);
                        proof {
                            assert(paths_of(files@) =~= t.insert(k as int, entry@));
                            assert forall|i: int|
                                0 <= i < files@.len() implies (#[trigger] names@[i])@ == name_key(
                                files@[i].path@,
                            ) by {
                                if i > k {
                                    assert(names@[i] == names0[i - 1]);
                                    assert(files@[i] == files0[i - 1]);
                                } else if i < k {
                                    assert(names@[i] == names0[i]);
                                    assert(files@[i] == files0[i]);
                                }
                            }
                        }
                    }
                }
            }
            idx = idx + 1;
        }
        assert(texts(entries@).subrange(0, entries@.len() as int) == texts(entries@));
        Ok(files)
    }
}

} // verus!
