//! Planning a batch rename: the new name of every selected file, and the
//! checks that no rename clobbers another file of the batch.
use vstd::prelude::*;
use crate::files::ImageFile;
use crate::filter::{regex_compile, regex_matches, regex_replace_first, Filter};
use crate::paths::{file_name, path_eq, path_file_name, path_with_file_name, same_path, with_file_name};
use crate::text::{concat2, concat3, lemma_replace_all_without_pattern, replace_all, replace_all_exec};

verus! {

/// The variable of the replacement expression that stands for the set name.
pub open spec fn name_variable() -> Seq<char> {
    "$name"@
}

/// A replacement expression without `$name` is used as it is written,
/// whatever the set name.
pub proof fn lemma_replacement_without_name_variable(replacement: Seq<char>, set_name: Seq<char>)
    requires
        forall|i: int|
            0 <= i && i + name_variable().len() <= replacement.len() ==> #[trigger] replacement.subrange(
                i,
                i + name_variable().len(),
            ) != name_variable(),
    ensures
        expanded_replacement(replacement, set_name) == replacement,
{
    lemma_replace_all_without_pattern(replacement, name_variable(), literal_set_name(set_name));
}

/// The paths of the selected files, in order.
pub open spec fn selected_paths(files: Seq<ImageFile>) -> Seq<Seq<char>>
    decreases files.len(),
{
    if files.len() == 0 {
        Seq::empty()
    } else {
        let init = selected_paths(files.drop_last());
        if files.last().selected {
            init.push(files.last().path@)
        } else {
            init
        }
    }
}

/// The position of the first path without a file name.
pub open spec fn first_nameless(paths: Seq<Seq<char>>) -> Option<int>
    decreases paths.len(),
{
    if paths.len() == 0 {
        None
    } else {
        match first_nameless(paths.drop_last()) {
            Some(i) => Some(i),
            None => if path_file_name(paths.last()) is None {
                Some(paths.len() - 1)
            } else {
                None
            },
        }
    }
}

/// The set name as it is written into a replacement expression so that it
/// is taken literally: each `$` doubled, which the replacement syntax reads
/// as one `$`.
pub open spec fn literal_set_name(set_name: Seq<char>) -> Seq<char> {
    replace_all(set_name, "$"@, "$$"@)
}

/// The replacement expression with `$name` replaced by the set name, taken
/// literally.
pub open spec fn expanded_replacement(replacement: Seq<char>, set_name: Seq<char>) -> Seq<char> {
    replace_all(replacement, name_variable(), literal_set_name(set_name))
}

/// The new path of `path`: its file name rewritten by the regular
/// expression `pattern` with the expanded replacement, in the same
/// directory.
pub open spec fn rename_target(
    pattern: Seq<char>,
    replacement: Seq<char>,
    set_name: Seq<char>,
    path: Seq<char>,
) -> Seq<char> {
    let name = match path_file_name(path) {
        Some(n) => n,
        None => Seq::empty(),
    };
    path_with_file_name(
        path,
        regex_replace_first(pattern, name, expanded_replacement(replacement, set_name)),
    )
}

/// Each path paired with its new path.
pub open spec fn planned_renames(
    pattern: Seq<char>,
    replacement: Seq<char>,
    set_name: Seq<char>,
    paths: Seq<Seq<char>>,
) -> Seq<(Seq<char>, Seq<char>)> {
    paths.map_values(|p: Seq<char>| (p, rename_target(pattern, replacement, set_name, p)))
}

/// The rename leaves the file name of `path` as it is: the filter does not
/// match it, or replacing the match gives the same name.
pub open spec fn keeps_name(
    pattern: Seq<char>,
    replacement: Seq<char>,
    set_name: Seq<char>,
    path: Seq<char>,
) -> bool {
    match path_file_name(path) {
        Some(n) => !regex_matches(pattern, n) || regex_replace_first(
            pattern,
            n,
            expanded_replacement(replacement, set_name),
        ) == n,
        None => false,
    }
}

/// Some path of `sources` keeps its file name.
pub open spec fn some_name_kept(
    pattern: Seq<char>,
    replacement: Seq<char>,
    set_name: Seq<char>,
    sources: Seq<Seq<char>>,
) -> bool {
    exists|k: int| 0 <= k < sources.len() && keeps_name(pattern, replacement, set_name, #[trigger] sources[k])
}

/// Some new path is the old path of a file being renamed.
pub open spec fn targets_hit_sources(plan: Seq<(Seq<char>, Seq<char>)>) -> bool {
    exists|i: int, j: int|
        0 <= i < plan.len() && 0 <= j < plan.len() && path_eq(#[trigger] plan[i].1, #[trigger] plan[j].0)
}

/// Two files would get the same new path.
pub open spec fn targets_repeat(plan: Seq<(Seq<char>, Seq<char>)>) -> bool {
    exists|i: int, j: int|
        0 <= i < j < plan.len() && path_eq(#[trigger] plan[i].1, #[trigger] plan[j].1)
}

/// A plan in which the new path of any file, earlier or later, is the old
/// path of some file being renamed counts as hitting a source; one in which
/// two different files get the same new path counts as repeating a target.
pub proof fn lemma_plan_conflicts(plan: Seq<(Seq<char>, Seq<char>)>, i: int, j: int)
    requires
        0 <= i < plan.len(),
        0 <= j < plan.len(),
    ensures
        path_eq(plan[i].1, plan[j].0) ==> targets_hit_sources(plan),
        i != j && path_eq(plan[i].1, plan[j].1) ==> targets_repeat(plan),
{
    if i > j && path_eq(plan[i].1, plan[j].1) {
        assert(path_eq(plan[j].1, plan[i].1));
    }
}

/// Errors of a rename.
#[derive(Debug, Clone)]
pub enum RenameError {
    /// The filter is not a valid regular expression; the text of the error.
    InvalidRegex(String),
    /// The path of a selected file has no file name.
    FilenameNotAccessible(String),
    /// The file name of a selected file is not Unicode.
    NonUnicodeFileName(String),
    /// A file would be renamed to the name of a file being renamed.
    TargetToSource,
    /// Two files would be renamed to the same name.
    DuplicateFileNames,
    /// The new path of a file is taken already.
    TargetExists(String),
    /// Renaming a file failed.
    OnRename { from: String, to: String, err: String },
}

/// The message shown for a rename error.
pub open spec fn rename_error_text(e: RenameError) -> Seq<char> {
    match e {
        RenameError::InvalidRegex(err) => "Invalid regular expression: "@ + err@,
        RenameError::FilenameNotAccessible(path) => "Filename of path "@ + path@
            + " could not be obtained"@,
        RenameError::NonUnicodeFileName(name) => "File "@ + name@ + " has a non-unicode filename"@,
        RenameError::TargetToSource => "Some files would be renamed to the original name of another file"@,
        RenameError::DuplicateFileNames => "Some files would be renamed to identical names"@,
        RenameError::TargetExists(path) => "Target file "@ + path@ + " already exists"@,
        RenameError::OnRename { from, to, err } => "Error when renaming file "@ + from@ + " into "@
            + to@ + ": "@ + err@,
    }
}

impl RenameError {
    /// The message shown to the user.
    pub fn message(&self) -> (r: String)
        ensures
            r@ == rename_error_text(*self),
    {
        match self {
            RenameError::InvalidRegex(err) => concat2("Invalid regular expression: ", err.as_str()),
            RenameError::FilenameNotAccessible(path) => concat3(
                "Filename of path ",
                path.as_str(),
                " could not be obtained",
            ),
            RenameError::NonUnicodeFileName(name) => concat3(
                "File ",
                name.as_str(),
                " has a non-unicode filename",
            ),
            RenameError::TargetToSource => String::from_str(
                "Some files would be renamed to the original name of another file",
            ),
            RenameError::DuplicateFileNames => String::from_str(
                "Some files would be renamed to identical names",
            ),
            RenameError::TargetExists(path) => concat3(
                "Target file ",
                path.as_str(),
                " already exists",
            ),
            RenameError::OnRename { from, to, err } => {
                let head = concat3("Error when renaming file ", from.as_str(), " into ");
                let mid = concat3(head.as_str(), to.as_str(), ": ");
                concat2(mid.as_str(), err.as_str())
            },
        }
    }
}

/// The message for a failed rename of `from` to `to`.
pub fn rename_error(from: &str, to: &str, err: &str) -> (r: String)
    ensures
        r@ == "Could not rename "@ + from@ + " to "@ + to@ + ": "@ + err@,
{
    let head = concat3("Could not rename ", from, " to ");
    let mid = concat3(head.as_str(), to, ": ");
    concat2(mid.as_str(), err)
}

/// The text of each pair of a list of renames.
pub open spec fn pair_texts(v: Seq<(String, String)>) -> Seq<(Seq<char>, Seq<char>)> {
    v.map_values(|p: (String, String)| (p.0@, p.1@))
}

/// A batch rename: the selected `files` are renamed by matching `filter`
/// against their file names and replacing the match by `replacement`, in
/// which `$name` stands for `set_name`, taken literally.
pub struct RenameOperation<'a> {
    pub files: &'a [ImageFile],
    pub filter: &'a str,
    pub replacement: &'a str,
    pub set_name: &'a str,
}

impl<'a> RenameOperation<'a> {
    pub fn new(files: &'a [ImageFile], filter: &'a str, replacement: &'a str, set_name: &'a str) -> (r: Self)
        ensures
            r.files@ == files@,
            r.filter@ == filter@,
            r.replacement@ == replacement@,
            r.set_name@ == set_name@,
    {
        Self { files, filter, replacement, set_name }
    }

    /// Computes the renames, `(old path, new path)` for each selected file in
    /// order, and checks them: no new path may be the path of a file being
    /// renamed, and no two new paths may be equal.
    pub fn plan(&self) -> (r: Result<Vec<(String, String)>, RenameError>)
        ensures
            match regex_compile(self.filter@) {
                Err(m) => r matches Err(RenameError::InvalidRegex(e)) && e@ == m,
                Ok(()) => {
                    let sources = selected_paths(self.files@);
                    match first_nameless(sources) {
                        Some(i) => r matches Err(RenameError::FilenameNotAccessible(p)) && p@
                            == sources[i],
                        None => {
                            let plan = planned_renames(
                                self.filter@,
                                self.replacement@,
                                self.set_name@,
                                sources,
                            );
                            if targets_hit_sources(plan) {
                                r == Err::<Vec<(String, String)>, RenameError>(
                                    RenameError::TargetToSource,
                                )
                            } else if targets_repeat(plan) {
                                r == Err::<Vec<(String, String)>, RenameError>(
                                    RenameError::DuplicateFileNames,
                                )
                            } else {
                                r matches Ok(v) && pair_texts(v@) == plan
                            }
                        },
                    }
                },
            },
            regex_compile(self.filter@) is Ok && first_nameless(selected_paths(self.files@)) is None
                && some_name_kept(
                self.filter@,
                self.replacement@,
                self.set_name@,
                selected_paths(self.files@),
            ) ==> r == Err::<Vec<(String, String)>, RenameError>(RenameError::TargetToSource),
            r matches Ok(v) ==> forall|i: int, j: int|
                0 <= i < v@.len() && 0 <= j < v@.len() ==> !path_eq(
                    #[trigger] v@[i].1@,
                    #[trigger] v@[j].0@,
                ),
            r matches Ok(v) ==> forall|i: int, j: int|
                0 <= i < j < v@.len() ==> !path_eq(#[trigger] v@[i].1@, #[trigger] v@[j].1@),
    {
        let filter = match Filter::compile(self.filter) {
            Ok(f) => f,
            Err(e) => {
                return Err(RenameError::InvalidRegex(e));
            },
        };
        proof {
            reveal_strlit("$name");
            reveal_strlit("$");
        }
        let set_name = replace_all_exec(self.set_name, "$", "$$");
        let replacement = replace_all_exec(self.replacement, "$name", set_name.as_str());
        let mut renames: Vec<(String, String)> = Vec::new();
        let mut idx: usize = 0;
        while idx < self.files.len()
            invariant
                idx <= self.files@.len(),
                filter@ == self.filter@,
                regex_compile(self.filter@) is Ok,
                replacement@ == expanded_replacement(self.replacement@, self.set_name@),
                first_nameless(selected_paths(self.files@.subrange(0, idx as int))) is None,
                pair_texts(renames@) == planned_renames(
                    self.filter@,
                    self.replacement@,
                    self.set_name@,
                    selected_paths(self.files@.subrange(0, idx as int)),
                ),
                forall|k: int|
                    0 <= k < renames@.len() && keeps_name(
                        self.filter@,
                        self.replacement@,
                        self.set_name@,
                        #[trigger] pair_texts(renames@)[k].0,
                    ) ==> path_eq(pair_texts(renames@)[k].1, pair_texts(renames@)[k].0),
            decreases self.files@.len() - idx,
        {
            let file = &self.files[idx];
            let ghost prefix = self.files@.subrange(0, idx as int);
            let ghost next = self.files@.subrange(0, idx + 1);
            assert(next.drop_last() == prefix);
            assert(next.last() == *file);
            if file.selected {
                let name = match file_name(file.path.as_str()) {
                    Some(n) => n,
                    None => {
                        proof {
                            let s0 = selected_paths(prefix);
                            let s1 = selected_paths(next);
                            assert(s1 == s0.push(file.path@));
                            assert(s1.drop_last() == s0);
                            assert(first_nameless(s1) == Some(s0.len() as int));
                            lemma_selected_prefix(self.files@, idx + 1);
                            let all = selected_paths(self.files@);
                            assert(all.subrange(0, s1.len() as int) == s1);
                            assert(all == s1 + all.skip(s1.len() as int));
                            lemma_first_nameless_prefix(s1, all.skip(s1.len() as int));
                            assert(all[s0.len() as int] == s1[s0.len() as int]);
                        }
                        return Err(RenameError::FilenameNotAccessible(file.path.clone()));
                    },
                };
                let new_name = filter.replace_first(name.as_str(), replacement.as_str());
                let target = with_file_name(file.path.as_str(), new_name.as_str());
                let ghost before = renames@;
                let ghost target_text = target@;
                renames.push((file.path.clone(), target));
                proof {
                    let s0 = selected_paths(prefix);
                    let s1 = selected_paths(next);
                    assert(s1 == s0.push(file.path@));
                    assert(s1.drop_last() == s0);
                    let t0 = planned_renames(self.filter@, self.replacement@, self.set_name@, s0);
                    let t1 = planned_renames(self.filter@, self.replacement@, self.set_name@, s1);
                    assert(t1 =~= t0.push(
                        (file.path@, rename_target(self.filter@, self.replacement@, self.set_name@, file.path@)),
                    ));
                    assert(pair_texts(renames@) =~= t1);
                    let last = renames@.len() - 1;
                    assert(pair_texts(renames@)[last] == (file.path@, target_text));
                    if keeps_name(self.filter@, self.replacement@, self.set_name@, file.path@) {
                        assert(new_name@ == name@);
                        assert(path_eq(target_text, file.path@));
                    }
                    assert forall|k: int|
                        0 <= k < renames@.len() && keeps_name(
                            self.filter@,
                            self.replacement@,
                            self.set_name@,
                            #[trigger] pair_texts(renames@)[k].0,
                        ) implies path_eq(pair_texts(renames@)[k].1, pair_texts(renames@)[k].0) by {
                        if k < last {
                            assert(pair_texts(renames@)[k] == pair_texts(before)[k]);
                        }
                    }
                }
            } else {
                proof {
                    assert(selected_paths(next) == selected_paths(prefix));
                }
            }
            idx = idx + 1;
        }
        assert(self.files@.subrange(0, self.files@.len() as int) == self.files@);
        let ghost plan = planned_renames(
            self.filter@,
            self.replacement@,
            self.set_name@,
            selected_paths(self.files@),
        );
        proof {
            let sources = selected_paths(self.files@);
            if some_name_kept(self.filter@, self.replacement@, self.set_name@, sources) {
                let k = choose|k: int|
                    0 <= k < sources.len() && keeps_name(
                        self.filter@,
                        self.replacement@,
                        self.set_name@,
                        #[trigger] sources[k],
                    );
                assert(plan[k].0 == sources[k]);
                assert(pair_texts(renames@)[k] == plan[k]);
                assert(path_eq(plan[k].1, plan[k].0));
                assert(targets_hit_sources(plan));
            }
        }
        let n = renames.len();
        let mut i: usize = 0;
        while i < n
            invariant
                i <= n,
                n == renames@.len(),
                pair_texts(renames@) == plan,
                some_name_kept(self.filter@, self.replacement@, self.set_name@, selected_paths(self.files@))
                    ==> targets_hit_sources(plan),
                regex_compile(self.filter@) is Ok,
                first_nameless(selected_paths(self.files@)) is None,
                plan == planned_renames(
                    self.filter@,
                    self.replacement@,
                    self.set_name@,
                    selected_paths(self.files@),
                ),
                forall|a: int, b: int|
                    0 <= a < i && 0 <= b < n ==> !path_eq(#[trigger] plan[a].1, #[trigger] plan[b].0),
            decreases n - i,
        {
            let mut j: usize = 0;
            while j < n
                invariant
                    i < n,
                    j <= n,
                    n == renames@.len(),
                    pair_texts(renames@) == plan,
                    regex_compile(self.filter@) is Ok,
                    first_nameless(selected_paths(self.files@)) is None,
                    plan == planned_renames(
                        self.filter@,
                        self.replacement@,
                        self.set_name@,
                        selected_paths(self.files@),
                    ),
                    forall|a: int, b: int|
                        0 <= a < i && 0 <= b < n ==> !path_eq(#[trigger] plan[a].1, #[trigger] plan[b].0),
                    forall|b: int| 0 <= b < j ==> !path_eq(plan[i as int].1, #[trigger] plan[b].0),
                decreases n - j,
            {
                assert(pair_texts(renames@)[i as int] == plan[i as int]);
                assert(pair_texts(renames@)[j as int] == plan[j as int]);
                if same_path(renames[i].1.as_str(), renames[j].0.as_str()) {
                    assert(path_eq(plan[i as int].1, plan[j as int].0));
                    assert(targets_hit_sources(plan));
                    return Err(RenameError::TargetToSource);
                }
                j = j + 1;
            }
            i = i + 1;
        }
        let mut i: usize = 0;
        while i < n
            invariant
                i <= n,
                n == renames@.len(),
                pair_texts(renames@) == plan,
                regex_compile(self.filter@) is Ok,
                first_nameless(selected_paths(self.files@)) is None,
                plan == planned_renames(
                    self.filter@,
                    self.replacement@,
                    self.set_name@,
                    selected_paths(self.files@),
                ),
                !targets_hit_sources(plan),
                forall|a: int, b: int|
                    0 <= a < b < n && a < i ==> !path_eq(#[trigger] plan[a].1, #[trigger] plan[b].1),
                !some_name_kept(self.filter@, self.replacement@, self.set_name@, selected_paths(self.files@)),
            decreases n - i,
        {
            let mut j: usize = i + 1;
            while j < n
                invariant
                    i < n,
                    i < j <= n,
                    !targets_hit_sources(plan),
                    !some_name_kept(
                        self.filter@,
                        self.replacement@,
                        self.set_name@,
                        selected_paths(self.files@),
                    ),
                    n == renames@.len(),
                    pair_texts(renames@) == plan,
                    regex_compile(self.filter@) is Ok,
                    first_nameless(selected_paths(self.files@)) is None,
                    plan == planned_renames(
                        self.filter@,
                        self.replacement@,
                        self.set_name@,
                        selected_paths(self.files@),
                    ),
                    forall|a: int, b: int|
                        0 <= a < b < n && a < i ==> !path_eq(#[trigger] plan[a].1, #[trigger] plan[b].1),
                    forall|b: int| i < b < j ==> !path_eq(plan[i as int].1, #[trigger] plan[b].1),
                decreases n - j,
            {
                assert(pair_texts(renames@)[i as int] == plan[i as int]);
                assert(pair_texts(renames@)[j as int] == plan[j as int]);
                if same_path(renames[i].1.as_str(), renames[j].1.as_str()) {
                    assert(path_eq(plan[i as int].1, plan[j as int].1));
                    assert(targets_repeat(plan));
                    return Err(RenameError::DuplicateFileNames);
                }
                j = j + 1;
            }
            i = i + 1;
        }
        assert forall|a: int, b: int| 0 <= a < renames@.len() && 0 <= b < renames@.len() implies !path_eq(
            #[trigger] renames@[a].1@,
            #[trigger] renames@[b].0@,
        ) by {
            assert(pair_texts(renames@)[a] == plan[a] && pair_texts(renames@)[b] == plan[b]);
            if path_eq(renames@[a].1@, renames@[b].0@) {
                assert(path_eq(plan[a].1, plan[b].0));
            }
        }
        assert forall|a: int, b: int| 0 <= a < b < renames@.len() implies !path_eq(
            #[trigger] renames@[a].1@,
            #[trigger] renames@[b].1@,
        ) by {
            assert(pair_texts(renames@)[a] == plan[a] && pair_texts(renames@)[b] == plan[b]);
            assert(!path_eq(plan[a].1, plan[b].1));
        }
        Ok(renames)
    }
}

/// The selected paths of a prefix of the files are a prefix of the
/// selected paths of all files.
proof fn lemma_selected_prefix(files: Seq<ImageFile>, k: int)
    requires
        0 <= k <= files.len(),
    ensures
        selected_paths(files.subrange(0, k)).len() <= selected_paths(files).len(),
        selected_paths(files).subrange(0, selected_paths(files.subrange(0, k)).len() as int)
            == selected_paths(files.subrange(0, k)),
    decreases files.len(),
{
    if k == files.len() {
        assert(files.subrange(0, k) == files);
    } else {
        let init = files.drop_last();
        lemma_selected_prefix(init, k);
        assert(init.subrange(0, k) == files.subrange(0, k));
        let si = selected_paths(init);
        let sa = selected_paths(files);
        let sk = selected_paths(files.subrange(0, k));
        if files.last().selected {
            assert(sa == si.push(files.last().path@));
            assert(sa.subrange(0, sk.len() as int) == si.subrange(0, sk.len() as int));
        }
    }
}

/// A path without a name in `s` stays the first one when more paths follow.
proof fn lemma_first_nameless_prefix(s: Seq<Seq<char>>, t: Seq<Seq<char>>)
    requires
        first_nameless(s) is Some,
    ensures
        first_nameless(s + t) == first_nameless(s),
    decreases t.len(),
{
    if t.len() > 0 {
        lemma_first_nameless_prefix(s, t.drop_last());
        assert((s + t).drop_last() == s + t.drop_last());
    } else {
        assert(s + t == s);
    }
}

/// Checks that no new path is taken already: `exists[i]` tells whether the
/// new path of `renames[i]` exists. The first one that does is reported.
pub fn check_targets_absent(renames: &Vec<(String, String)>, exists: &Vec<bool>) -> (r: Result<
    (),
    RenameError,
>)
    requires
        exists@.len() == renames@.len(),
    ensures
        match r {
            Ok(()) => forall|i: int| 0 <= i < exists@.len() ==> !#[trigger] exists@[i],
            Err(e) => exists|i: int|
                {
                    &&& 0 <= i < exists@.len()
                    &&& #[trigger] exists@[i]
                    &&& forall|j: int| 0 <= j < i ==> !exists@[j]
                    &&& e matches RenameError::TargetExists(p) && p@ == renames@[i].1@
                },
        },
{
    let mut i: usize = 0;
    while i < exists.len()
        invariant
            i <= exists@.len(),
            exists@.len() == renames@.len(),
            forall|j: int| 0 <= j < i ==> !exists@[j],
        decreases exists@.len() - i,
    {
        if exists[i] {
            return Err(RenameError::TargetExists(renames[i].1.clone()));
        }
        i = i + 1;
    }
    Ok(())
}

} // verus!
