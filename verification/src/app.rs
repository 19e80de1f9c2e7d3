//! The decisions of the interactive renamer: how each event (a message from
//! the user interface or a finished background job) changes the state, and
//! which jobs to start. Running the jobs and drawing the interface is left
//! to the frontend, which hands their results back as messages.
use vstd::prelude::*;
use crate::files::{file_error_text, texts, FileError, ImageFile, DEFAULT_PARSER, DEFAULT_REPLACEMENT};
use crate::pathlist::{
    contains_path, holds_path, insert_absent, insert_path, kept_positions, lemma_kept_contains,
    lemma_insert_absent_holds, lemma_kept_positions, lemma_without, lemma_without_absent,
    lemma_without_keeps, remove_path, without,
};
use crate::paths::{path_eq, same_path};
use crate::rename::{rename_error_text, RenameError};

verus! {

/// The state of the keyboard modifiers.
#[derive(Debug, Clone, Copy, Default)]
pub struct ModifierState {
    pub ctrl: bool,
    pub shift: bool,
}

/// The listed files.
pub struct FileState {
    pub directory: String,
    pub files: Vec<ImageFile>,
    pub filter: String,
    /// The position of the file shown in the preview area.
    pub displayed: Option<usize>,
    pub status: Option<FileError>,
}

/// The preview area. The preview image itself is held by the frontend.
pub struct PreviewState {
    /// The file that was shown when a rename started.
    pub old_displayed_file: Option<String>,
    /// A note to show instead of a preview, or an error.
    pub status: Result<Option<String>, String>,
}

/// Thumbnails that have been decoded, are waiting to be decoded, or are in
/// flight. The decoded images themselves are held by the frontend.
pub struct ThumbnailState {
    /// Paths whose thumbnail is decoded.
    pub cached: Vec<String>,
    /// Paths waiting for a thumbnail job, first to start first.
    pub queued: Vec<String>,
    /// Paths whose thumbnail job runs.
    pub loading: Vec<String>,
    /// Paths whose running job's result is to be thrown away.
    pub discarded: Vec<String>,
    /// How many thumbnail jobs may run at once.
    pub max_loading: usize,
}

/// The abstract thumbnail state.
pub struct ThumbView {
    pub cached: Seq<Seq<char>>,
    pub queued: Seq<Seq<char>>,
    pub loading: Seq<Seq<char>>,
    pub discarded: Seq<Seq<char>>,
    pub max_loading: int,
}

impl View for ThumbnailState {
    type V = ThumbView;

    open spec fn view(&self) -> ThumbView {
        ThumbView {
            cached: texts(self.cached@),
            queued: texts(self.queued@),
            loading: texts(self.loading@),
            discarded: texts(self.discarded@),
            max_loading: self.max_loading as int,
        }
    }
}

/// Errors of the application itself.
#[derive(Debug, Clone)]
pub enum AppError {
    OnRename(RenameError),
}

/// The state of the application.
pub struct App {
    pub file: FileState,
    pub preview: PreviewState,
    pub thumbnails: ThumbnailState,
    pub replacement: String,
    pub set_name: String,
    pub busy: bool,
    pub modifiers: ModifierState,
    pub error_status: Option<AppError>,
}

/// The events the application reacts to.
pub enum Message {
    FilesLoaded(Result<Vec<ImageFile>, FileError>),
    FilesRefreshed(Result<Vec<ImageFile>, FileError>, Option<String>),
    FilterChanged(String),
    ReplacementChanged(String),
    SetNameChanged(String),
    Toggle(usize),
    PreviewLoaded(Result<Vec<u8>, String>),
    ThumbnailLoaded(String, Result<Vec<u8>, String>),
    /// The file list was scrolled: the first visible row and how many rows
    /// (with some margin) are visible.
    Scrolled { first: usize, visible: usize },
    Rename,
    Renamed(Result<Vec<(String, String)>, RenameError>),
    FileClicked(usize),
    ModifiersChanged { ctrl: bool, shift: bool },
}

/// The jobs and display changes the frontend is asked to carry out.
pub enum Command {
    /// List the images of `directory` matching `filter`; answer with
    /// `FilesLoaded`.
    LoadFiles { directory: String, filter: String },
    /// List the images again after a rename; answer with `FilesRefreshed`
    /// carrying `displayed`.
    RefreshFiles { directory: String, filter: String, displayed: Option<String> },
    /// Rename the selected `files`; answer with `Renamed`.
    RenameFiles { files: Vec<ImageFile>, filter: String, replacement: String, set_name: String },
    /// Load the preview of a file; answer with `PreviewLoaded`.
    LoadPreview(String),
    /// Load the thumbnail of a file; answer with `ThumbnailLoaded`.
    LoadThumbnail(String),
    /// Show this PNG as the preview.
    ShowPreview(Vec<u8>),
    /// Remove the preview image.
    ClearPreview,
    /// Keep this PNG as the thumbnail of the path.
    CacheThumbnail(String, Vec<u8>),
    /// The thumbnail kept for `from` now belongs to `to`.
    MoveThumbnail { from: String, to: String },
}

/// The number of thumbnail jobs allowed at once, from the number of threads
/// the machine offers (if known): a third of them, at least one.
pub fn max_loading_for(threads: Option<usize>) -> (r: usize)
    ensures
        r == match threads {
            Some(t) => if t / 3 >= 1 {
                t / 3
            } else {
                1
            },
            None => 1,
        },
{
    match threads {
        Some(t) => if t / 3 >= 1 {
            t / 3
        } else {
            1
        },
        None => 1,
    }
}

/// The paths of the files at positions `first ..` (at most `visible` of
/// them).
pub open spec fn window(files: Seq<ImageFile>, first: int, visible: int) -> Seq<Seq<char>> {
    let start = if first < files.len() {
        first
    } else {
        files.len() as int
    };
    let end = if visible < files.len() - start {
        start + visible
    } else {
        files.len() as int
    };
    files.subrange(start, end).map_values(|f: ImageFile| f.path@)
}

/// The queue after scheduling the paths of `w`: each path that has no
/// thumbnail and no job is put in front (taken out of its place further
/// back if it was queued already), the paths of `w` keeping their order.
pub open spec fn schedule_queue(
    queued: Seq<Seq<char>>,
    w: Seq<Seq<char>>,
    cached: Seq<Seq<char>>,
    loading: Seq<Seq<char>>,
) -> Seq<Seq<char>>
    decreases w.len(),
{
    if w.len() == 0 {
        queued
    } else {
        let x = w.last();
        let q1 = if !holds_path(cached, x) && !holds_path(loading, x) {
            seq![x] + without(queued, x)
        } else {
            queued
        };
        schedule_queue(q1, w.drop_last(), cached, loading)
    }
}

/// Starting thumbnail jobs from the front of the queue while fewer than
/// `max_loading` run: the new thumbnail state and the paths started.
pub open spec fn start_loads(t: ThumbView) -> (ThumbView, Seq<Seq<char>>)
    decreases t.queued.len(),
{
    if t.loading.len() >= t.max_loading || t.queued.len() == 0 {
        (t, Seq::empty())
    } else {
        let x = t.queued[0];
        let next = ThumbView {
            queued: t.queued.drop_first(),
            loading: insert_absent(t.loading, x),
            ..t
        };
        let (after, started) = start_loads(next);
        (after, seq![x] + started)
    }
}

/// `cmds` are the thumbnail jobs for `started`, in order.
pub open spec fn loads_of(cmds: Seq<Command>, started: Seq<Seq<char>>) -> bool {
    &&& cmds.len() == started.len()
    &&& forall|i: int|
        0 <= i < cmds.len() ==> (#[trigger] cmds[i] matches Command::LoadThumbnail(p) && p@
            == started[i])
}

/// The thumbnail state after scheduling the files at positions `first ..`
/// (at most `visible`), and the jobs started.
pub open spec fn scheduled(
    t: ThumbView,
    files: Seq<ImageFile>,
    first: int,
    visible: int,
) -> (ThumbView, Seq<Seq<char>>) {
    start_loads(
        ThumbView {
            queued: schedule_queue(t.queued, window(files, first, visible), t.cached, t.loading),
            ..t
        },
    )
}

/// The position of the first file whose path equals `path`.
pub open spec fn position_of(files: Seq<ImageFile>, path: Seq<char>) -> Option<int>
    decreases files.len(),
{
    if files.len() == 0 {
        None
    } else if path_eq(files[0].path@, path) {
        Some(0)
    } else {
        match position_of(files.drop_first(), path) {
            Some(i) => Some(i + 1),
            None => None,
        }
    }
}

/// Where the first rename whose old path equals `path` moves it.
pub open spec fn renamed_to(renames: Seq<(String, String)>, path: Seq<char>) -> Option<Seq<char>>
    decreases renames.len(),
{
    if renames.len() == 0 {
        None
    } else if path_eq(renames[0].0@, path) {
        Some(renames[0].1@)
    } else {
        renamed_to(renames.drop_first(), path)
    }
}

/// Where `path` is after the renames: its new path, or the same path.
pub open spec fn after_renames(renames: Seq<(String, String)>, path: Seq<char>) -> Seq<char> {
    match renamed_to(renames, path) {
        Some(p) => p,
        None => path,
    }
}

/// The cached thumbnails after moving the one of each renamed file to its
/// new path, in the order of the renames.
pub open spec fn move_cached(cached: Seq<Seq<char>>, renames: Seq<(String, String)>) -> Seq<
    Seq<char>,
>
    decreases renames.len(),
{
    if renames.len() == 0 {
        cached
    } else {
        let init = move_cached(cached, renames.drop_last());
        let (from, to) = renames.last();
        if holds_path(init, from@) {
            insert_absent(without(init, from@), to@)
        } else {
            init
        }
    }
}

/// The files with the selection of position `i` flipped (no change for a
/// position past the end).
pub open spec fn toggled(files: Seq<ImageFile>, i: int) -> Seq<ImageFile> {
    if 0 <= i < files.len() {
        files.update(i, ImageFile { selected: !files[i].selected, ..files[i] })
    } else {
        files
    }
}

/// The files with every position from `lower` to `upper` selected.
pub open spec fn selected_range(files: Seq<ImageFile>, lower: int, upper: int) -> Seq<ImageFile> {
    Seq::new(
        files.len(),
        |i: int|
            if lower <= i <= upper {
                ImageFile { selected: true, ..files[i] }
            } else {
                files[i]
            },
    )
}

impl App {
    /// The application for `directory`, with the default filter and
    /// replacement, and the job that lists the directory.
    pub fn new(directory: String, max_loading: usize) -> (r: (App, Vec<Command>))
        ensures
            r.0.file.directory@ == directory@,
            r.0.file.filter@ == DEFAULT_PARSER@,
            r.0.file.files@.len() == 0,
            r.0.file.displayed is None,
            r.0.file.status is None,
            r.0.replacement@ == DEFAULT_REPLACEMENT@,
            r.0.set_name@.len() == 0,
            !r.0.busy,
            r.0.thumbnails@.max_loading == max_loading,
            r.0.thumbnails@.cached.len() == 0,
            r.0.thumbnails@.queued.len() == 0,
            r.0.thumbnails@.loading.len() == 0,
            r.0.thumbnails@.discarded.len() == 0,
            r.0.preview.old_displayed_file is None,
            r.0.preview.status == Ok::<Option<String>, String>(None),
            r.0.error_status is None,
            !r.0.modifiers.ctrl && !r.0.modifiers.shift,
            r.1@.len() == 1,
            r.1@[0] matches Command::LoadFiles { directory: d, filter: f } && d@ == directory@ && f@
                == DEFAULT_PARSER@,
    {
        let app = App {
            file: FileState {
                directory: directory.clone(),
                files: Vec::new(),
                filter: String::from_str(DEFAULT_PARSER),
                displayed: None,
                status: None,
            },
            preview: PreviewState { old_displayed_file: None, status: Ok(None) },
            thumbnails: ThumbnailState {
                cached: Vec::new(),
                queued: Vec::new(),
                loading: Vec::new(),
                discarded: Vec::new(),
                max_loading,
            },
            replacement: String::from_str(DEFAULT_REPLACEMENT),
            set_name: String::new(),
            busy: false,
            modifiers: ModifierState { ctrl: false, shift: false },
            error_status: None,
        };
        let mut cmds = Vec::new();
        cmds.push(Command::LoadFiles { directory, filter: String::from_str(DEFAULT_PARSER) });
        (app, cmds)
    }

    /// Starts only the bounded number of thumbnail jobs allowed: while fewer
    /// than `max_loading` run, the front of the queue is started. Nothing
    /// starts while the application is busy.
    pub fn start_thumbnail_loads(&mut self) -> (cmds: Vec<Command>)
        ensures
            old(self).busy ==> cmds@.len() == 0 && final(self).thumbnails@ == old(
                self,
            ).thumbnails@,
            !old(self).busy ==> final(self).thumbnails@ == start_loads(old(self).thumbnails@).0
                && loads_of(cmds@, start_loads(old(self).thumbnails@).1),
            final(self).file == old(self).file,
            final(self).preview == old(self).preview,
            final(self).replacement == old(self).replacement,
            final(self).set_name == old(self).set_name,
            final(self).busy == old(self).busy,
            final(self).modifiers == old(self).modifiers,
            final(self).error_status == old(self).error_status,
    {
        let mut cmds: Vec<Command> = Vec::new();
        if self.busy {
            return cmds;
        }
        let ghost t0 = self.thumbnails@;
        while self.thumbnails.loading.len() < self.thumbnails.max_loading
            invariant_except_break
                start_loads(self.thumbnails@) == (
                    start_loads(t0).0,
                    start_loads(t0).1.skip(cmds@.len() as int),
                ),
                cmds@.len() <= start_loads(t0).1.len(),
                loads_of(cmds@, start_loads(t0).1.take(cmds@.len() as int)),
                self.thumbnails@.max_loading == t0.max_loading,
                self.thumbnails@.cached == t0.cached,
                self.thumbnails@.discarded == t0.discarded,
            invariant
                self.file == old(self).file,
                self.preview == old(self).preview,
                self.replacement == old(self).replacement,
                self.set_name == old(self).set_name,
                self.busy == old(self).busy,
                self.modifiers == old(self).modifiers,
                self.error_status == old(self).error_status,
            ensures
                self.thumbnails@ == start_loads(t0).0,
                loads_of(cmds@, start_loads(t0).1),
            decreases self.thumbnails.queued@.len(),
        {
            if self.thumbnails.queued.len() == 0 {
                assert(start_loads(t0).1.skip(cmds@.len() as int).len() == 0);
                assert(start_loads(t0).1.take(cmds@.len() as int) == start_loads(t0).1);
                break ;
            }
            let ghost tv = self.thumbnails@;
            let path = self.thumbnails.queued.remove(0);
            assert(texts(self.thumbnails.queued@) == tv.queued.drop_first());
            insert_path(&mut self.thumbnails.loading, path.clone());
            let ghost k = cmds@.len() as int;
            cmds.push(Command::LoadThumbnail(path));
            proof {
                let next = ThumbView {
                    queued: tv.queued.drop_first(),
                    loading: insert_absent(tv.loading, tv.queued[0]),
                    ..tv
                };
                assert(self.thumbnails@ == next);
                let all = start_loads(t0).1;
                assert(all.skip(k) == seq![tv.queued[0]] + start_loads(next).1);
                assert(all.skip(k)[0] == all[k]);
                assert(all.skip(k + 1) =~= all.skip(k).drop_first());
                assert(all.take(k + 1) =~= all.take(k).push(all[k]));
            }
        }
        proof {
            let all = start_loads(t0).1;
            assert(all.skip(cmds@.len() as int).len() == 0);
            assert(all.take(cmds@.len() as int) =~= all);
        }
        cmds
    }
}


/// All parts of the state but the thumbnails are the same.
pub open spec fn same_except_thumbnails(a: App, b: App) -> bool {
    &&& a.file == b.file
    &&& a.preview == b.preview
    &&& a.replacement == b.replacement
    &&& a.set_name == b.set_name
    &&& a.busy == b.busy
    &&& a.modifiers == b.modifiers
    &&& a.error_status == b.error_status
}

impl App {
    /// Queues the thumbnails of the files at positions `first ..` (at most
    /// `visible` of them) that are neither shown nor loading in front of the
    /// queue, so that visible files come first, then starts jobs. Nothing
    /// happens while busy.
    pub fn schedule_thumbnails(&mut self, first: usize, visible: usize) -> (cmds: Vec<Command>)
        ensures
            same_except_thumbnails(*final(self), *old(self)),
            old(self).busy ==> cmds@.len() == 0 && final(self).thumbnails@ == old(
                self,
            ).thumbnails@,
            !old(self).busy ==> final(self).thumbnails@ == scheduled(
                old(self).thumbnails@,
                old(self).file.files@,
                first as int,
                visible as int,
            ).0 && loads_of(
                cmds@,
                scheduled(
                    old(self).thumbnails@,
                    old(self).file.files@,
                    first as int,
                    visible as int,
                ).1,
            ),
    {
        if self.busy {
            return Vec::new();
        }
        let len = self.file.files.len();
        let start = if first < len {
            first
        } else {
            len
        };
        let end = if visible < len - start {
            start + visible
        } else {
            len
        };
        let ghost w = window(self.file.files@, first as int, visible as int);
        let ghost t0 = self.thumbnails@;
        let mut idx = end;
        assert(w.subrange(0, (end - start) as int) == w);
        while idx > start
            invariant
                start <= idx <= end <= len,
                len == self.file.files@.len(),
                w == self.file.files@.subrange(start as int, end as int).map_values(
                    |f: ImageFile| f.path@,
                ),
                schedule_queue(t0.queued, w, t0.cached, t0.loading) == schedule_queue(
                    self.thumbnails@.queued,
                    w.subrange(0, (idx - start) as int),
                    t0.cached,
                    t0.loading,
                ),
                self.thumbnails@ == (ThumbView { queued: self.thumbnails@.queued, ..t0 }),
                same_except_thumbnails(*self, *old(self)),
            decreases idx,
        {
            idx = idx - 1;
            let ghost q = self.thumbnails@.queued;
            let ghost wk = w.subrange(0, (idx + 1 - start) as int);
            assert(wk.last() == self.file.files@[idx as int].path@);
            assert(wk.drop_last() == w.subrange(0, (idx - start) as int));
            let path = &self.file.files[idx].path;
            if !contains_path(&self.thumbnails.cached, path.as_str()) && !contains_path(
                &self.thumbnails.loading,
                path.as_str(),
            ) {
                let p = path.clone();
                remove_path(&mut self.thumbnails.queued, p.as_str());
                let ghost q1 = texts(self.thumbnails.queued@);
                self.thumbnails.queued.insert(0, p);
                assert(texts(self.thumbnails.queued@) =~= seq![wk.last()] + q1);
            }
        }
        assert(w.subrange(0, 0) == Seq::<Seq<char>>::empty());
        self.start_thumbnail_loads()
    }
}

/// Starting thumbnail jobs never lets more than `max_loading` run, and
/// changes neither the thumbnails shown nor the discarded jobs.
pub proof fn lemma_start_loads_bounded(t: ThumbView)
    ensures
        start_loads(t).0.max_loading == t.max_loading,
        start_loads(t).0.cached == t.cached,
        start_loads(t).0.discarded == t.discarded,
        t.loading.len() <= t.max_loading ==> start_loads(t).0.loading.len() <= t.max_loading,
    decreases t.queued.len(),
{
    if t.loading.len() >= t.max_loading || t.queued.len() == 0 {
    } else {
        let x = t.queued[0];
        let next = ThumbView { queued: t.queued.drop_first(), loading: insert_absent(t.loading, x), ..t };
        lemma_start_loads_bounded(next);
    }
}


/// No path is in `s` twice.
pub open spec fn no_repeats(s: Seq<Seq<char>>) -> bool {
    forall|i: int, j: int| 0 <= i < j < s.len() ==> !path_eq(#[trigger] s[i], #[trigger] s[j])
}

/// No path of `s` is held by `other`.
pub open spec fn apart(s: Seq<Seq<char>>, other: Seq<Seq<char>>) -> bool {
    forall|i: int| 0 <= i < s.len() ==> !holds_path(other, #[trigger] s[i])
}

/// The thumbnail state is consistent: no path is queued twice, no queued
/// path is loading or has a thumbnail, and at most `max_loading` jobs run.
pub open spec fn thumbnails_consistent(t: ThumbView) -> bool {
    &&& no_repeats(t.queued)
    &&& apart(t.queued, t.loading)
    &&& apart(t.queued, t.cached)
    &&& t.loading.len() <= t.max_loading
}

/// The paths of `q` that `w` holds all come before those it does not.
pub open spec fn comes_first(q: Seq<Seq<char>>, w: Seq<Seq<char>>) -> bool {
    forall|i: int, j: int|
        0 <= i < j < q.len() && holds_path(w, #[trigger] q[j]) ==> holds_path(w, #[trigger] q[i])
}

/// The paths of `q` held by `whole` but not by the still pending `w` come
/// before all others.
spec fn settled_first(q: Seq<Seq<char>>, w: Seq<Seq<char>>, whole: Seq<Seq<char>>) -> bool {
    forall|i: int, j: int|
        0 <= i < j < q.len() && holds_path(whole, #[trigger] q[j]) && !holds_path(w, q[j])
            ==> holds_path(whole, #[trigger] q[i])
}

proof fn lemma_holds_push(s: Seq<Seq<char>>, y: Seq<char>)
    requires
        s.len() > 0,
    ensures
        holds_path(s, y) <==> (holds_path(s.drop_last(), y) || path_eq(s.last(), y)),
{
    if holds_path(s, y) {
        let m = choose|m: int| 0 <= m < s.len() && path_eq(#[trigger] s[m], y);
        if m < s.len() - 1 {
            assert(s.drop_last()[m] == s[m]);
        }
    }
    if holds_path(s.drop_last(), y) {
        let m = choose|m: int| 0 <= m < s.drop_last().len() && path_eq(#[trigger] s.drop_last()[m], y);
        assert(s[m] == s.drop_last()[m]);
    }
    if path_eq(s.last(), y) {
        assert(path_eq(s[s.len() - 1], y));
    }
}

proof fn lemma_schedule_queue(
    q: Seq<Seq<char>>,
    w: Seq<Seq<char>>,
    whole: Seq<Seq<char>>,
    cached: Seq<Seq<char>>,
    loading: Seq<Seq<char>>,
)
    requires
        no_repeats(q),
        apart(q, loading),
        apart(q, cached),
        forall|k: int| 0 <= k < w.len() ==> holds_path(whole, #[trigger] w[k]),
        settled_first(q, w, whole),
    ensures
        no_repeats(schedule_queue(q, w, cached, loading)),
        apart(schedule_queue(q, w, cached, loading), loading),
        apart(schedule_queue(q, w, cached, loading), cached),
        comes_first(schedule_queue(q, w, cached, loading), whole),
        forall|y: Seq<char>| holds_path(q, y) ==> holds_path(schedule_queue(q, w, cached, loading), y),
        forall|k: int|
            0 <= k < w.len() ==> holds_path(cached, #[trigger] w[k]) || holds_path(loading, w[k])
                || holds_path(schedule_queue(q, w, cached, loading), w[k]),
    decreases w.len(),
{
    if w.len() == 0 {
        assert forall|i: int, j: int|
            0 <= i < j < q.len() && holds_path(whole, #[trigger] q[j]) implies holds_path(
            whole,
            #[trigger] q[i],
        ) by {
            assert(!holds_path(w, q[j]));
        }
        return;
    }
    let x = w.last();
    let w1 = w.drop_last();
    assert forall|k: int| 0 <= k < w1.len() implies holds_path(whole, #[trigger] w1[k]) by {
        assert(w1[k] == w[k]);
    }
    if !holds_path(cached, x) && !holds_path(loading, x) {
        let wo = without(q, x);
        let q1 = seq![x] + wo;
        lemma_without(q, x);
        lemma_kept_positions(q, x);
        let kp = kept_positions(q, x);
        assert forall|k: int| 0 <= k < wo.len() implies !path_eq(#[trigger] wo[k], x) by {}
        assert forall|i: int| 0 <= i < q1.len() implies !holds_path(loading, #[trigger] q1[i])
            && !holds_path(cached, q1[i]) by {
            if i > 0 {
                assert(q1[i] == wo[i - 1]);
                assert(wo[i - 1] == q[kp[i - 1]]);
            }
        }
        assert forall|i: int, j: int| 0 <= i < j < q1.len() implies !path_eq(
            #[trigger] q1[i],
            #[trigger] q1[j],
        ) by {
            assert(q1[j] == wo[j - 1]);
            if i > 0 {
                assert(q1[i] == wo[i - 1]);
                assert(kp[i - 1] < kp[j - 1]);
                assert(wo[i - 1] == q[kp[i - 1]]);
                assert(wo[j - 1] == q[kp[j - 1]]);
            } else {
                assert(!path_eq(wo[j - 1], x));
            }
        }
        assert(holds_path(whole, w[w.len() - 1]));
        assert forall|i: int, j: int|
            0 <= i < j < q1.len() && holds_path(whole, #[trigger] q1[j]) && !holds_path(w1, q1[j])
                implies holds_path(whole, #[trigger] q1[i]) by {
            if i > 0 {
                assert(q1[i] == wo[i - 1]);
                assert(q1[j] == wo[j - 1]);
                assert(kp[i - 1] < kp[j - 1]);
                assert(wo[i - 1] == q[kp[i - 1]]);
                assert(wo[j - 1] == q[kp[j - 1]]);
                assert(!path_eq(wo[j - 1], x));
                lemma_holds_push(w, q1[j]);
                assert(!holds_path(w, q[kp[j - 1]]));
            }
        }
        assert forall|y: Seq<char>| holds_path(q, y) implies holds_path(q1, y) by {
            if path_eq(x, y) {
                assert(path_eq(q1[0], y));
            } else {
                let m = choose|m: int| 0 <= m < q.len() && path_eq(#[trigger] q[m], y);
                assert(!path_eq(q[m], x));
                // the kept position of m
                lemma_kept_contains(q, x, m);
                let k = choose|k: int| 0 <= k < wo.len() && kp[k] == m;
                assert(q1[k + 1] == wo[k]);
                assert(path_eq(q1[k + 1], y));
            }
        }
        lemma_schedule_queue(q1, w1, whole, cached, loading);
        assert(schedule_queue(q, w, cached, loading) == schedule_queue(q1, w1, cached, loading));
        assert(path_eq(q1[0], x));
        assert(holds_path(q1, x));
        assert forall|k: int| 0 <= k < w.len() implies holds_path(cached, #[trigger] w[k])
            || holds_path(loading, w[k]) || holds_path(schedule_queue(q, w, cached, loading), w[k]) by {
            if k < w1.len() {
                assert(w1[k] == w[k]);
            }
        }
    } else {
        assert forall|i: int, j: int|
            0 <= i < j < q.len() && holds_path(whole, #[trigger] q[j]) && !holds_path(w1, q[j])
                implies holds_path(whole, #[trigger] q[i]) by {
            lemma_holds_push(w, q[j]);
            if path_eq(x, q[j]) {
                if holds_path(cached, x) {
                    let n = choose|n: int| 0 <= n < cached.len() && path_eq(#[trigger] cached[n], x);
                    assert(path_eq(cached[n], q[j]));
                    assert(holds_path(cached, q[j]));
                } else {
                    let n = choose|n: int| 0 <= n < loading.len() && path_eq(#[trigger] loading[n], x);
                    assert(path_eq(loading[n], q[j]));
                    assert(holds_path(loading, q[j]));
                }
            }
        }
        lemma_schedule_queue(q, w1, whole, cached, loading);
        assert forall|k: int| 0 <= k < w.len() implies holds_path(cached, #[trigger] w[k])
            || holds_path(loading, w[k]) || holds_path(schedule_queue(q, w, cached, loading), w[k]) by {
            if k < w1.len() {
                assert(w1[k] == w[k]);
            }
        }
    }
}


proof fn lemma_start_loads_consistent(t: ThumbView, whole: Seq<Seq<char>>)
    requires
        thumbnails_consistent(t),
        comes_first(t.queued, whole),
    ensures
        thumbnails_consistent(start_loads(t).0),
        comes_first(start_loads(t).0.queued, whole),
        start_loads(t).0.cached == t.cached,
        forall|y: Seq<char>|
            holds_path(t.queued, y) || holds_path(t.loading, y) ==> holds_path(
                start_loads(t).0.queued,
                y,
            ) || holds_path(start_loads(t).0.loading, y),
    decreases t.queued.len(),
{
    if t.loading.len() >= t.max_loading || t.queued.len() == 0 {
    } else {
        let x = t.queued[0];
        let q1 = t.queued.drop_first();
        let l1 = insert_absent(t.loading, x);
        let next = ThumbView { queued: q1, loading: l1, ..t };
        assert forall|y: Seq<char>| holds_path(t.loading, y) implies holds_path(l1, y) by {
            let n = choose|n: int| 0 <= n < t.loading.len() && path_eq(#[trigger] t.loading[n], y);
            if !holds_path(t.loading, x) {
                assert(l1[n] == t.loading[n]);
            }
        }
        assert forall|y: Seq<char>| path_eq(x, y) implies holds_path(l1, y) by {
            if holds_path(t.loading, x) {
                let n = choose|n: int| 0 <= n < t.loading.len() && path_eq(#[trigger] t.loading[n], x);
                assert(path_eq(t.loading[n], y));
            } else {
                assert(path_eq(l1[l1.len() - 1], y));
            }
        }
        assert forall|i: int| 0 <= i < q1.len() implies !holds_path(l1, #[trigger] q1[i]) by {
            assert(q1[i] == t.queued[i + 1]);
            assert(!path_eq(t.queued[0], t.queued[i + 1]));
            if holds_path(l1, q1[i]) && !holds_path(t.loading, x) {
                let n = choose|n: int| 0 <= n < l1.len() && path_eq(#[trigger] l1[n], q1[i]);
                if n < t.loading.len() {
                    assert(l1[n] == t.loading[n]);
                }
            }
        }
        assert forall|i: int| 0 <= i < q1.len() implies !holds_path(t.cached, #[trigger] q1[i]) by {
            assert(q1[i] == t.queued[i + 1]);
        }
        assert forall|i: int, j: int| 0 <= i < j < q1.len() implies !path_eq(
            #[trigger] q1[i],
            #[trigger] q1[j],
        ) by {
            assert(q1[i] == t.queued[i + 1] && q1[j] == t.queued[j + 1]);
        }
        assert forall|i: int, j: int|
            0 <= i < j < q1.len() && holds_path(whole, #[trigger] q1[j]) implies holds_path(
            whole,
            #[trigger] q1[i],
        ) by {
            assert(q1[i] == t.queued[i + 1] && q1[j] == t.queued[j + 1]);
        }
        lemma_start_loads_consistent(next, whole);
        assert forall|y: Seq<char>| holds_path(t.queued, y) || holds_path(t.loading, y) implies holds_path(
            start_loads(t).0.queued,
            y,
        ) || holds_path(start_loads(t).0.loading, y) by {
            assert(start_loads(t).0 == start_loads(next).0);
            if holds_path(t.loading, y) {
                assert(holds_path(l1, y));
            } else {
                let m = choose|m: int| 0 <= m < t.queued.len() && path_eq(#[trigger] t.queued[m], y);
                if m > 0 {
                    assert(q1[m - 1] == t.queued[m]);
                    assert(path_eq(q1[m - 1], y));
                    assert(holds_path(q1, y));
                } else {
                    assert(path_eq(x, y));
                    assert(holds_path(l1, y));
                }
            }
            assert(holds_path(next.queued, y) || holds_path(next.loading, y));
        }
    }
}

/// Scheduling the thumbnails of the visible files keeps the thumbnail state
/// consistent (no path queued twice, none queued that is loading or shown,
/// no more jobs than allowed); afterwards every visible file is shown,
/// loading or queued, and the queued visible files come before all others.
pub proof fn lemma_schedule_thumbnails(t: ThumbView, files: Seq<ImageFile>, first: int, visible: int)
    requires
        thumbnails_consistent(t),
    ensures
        thumbnails_consistent(scheduled(t, files, first, visible).0),
        comes_first(scheduled(t, files, first, visible).0.queued, window(files, first, visible)),
        forall|k: int|
            0 <= k < window(files, first, visible).len() ==> {
                let after = scheduled(t, files, first, visible).0;
                let p = #[trigger] window(files, first, visible)[k];
                holds_path(after.cached, p) || holds_path(after.loading, p) || holds_path(
                    after.queued,
                    p,
                )
            },
{
    let w = window(files, first, visible);
    assert forall|k: int| 0 <= k < w.len() implies holds_path(w, #[trigger] w[k]) by {
        assert(path_eq(w[k], w[k]));
    }
    assert forall|i: int, j: int|
        0 <= i < j < t.queued.len() && holds_path(w, #[trigger] t.queued[j]) && !holds_path(
            w,
            t.queued[j],
        ) implies holds_path(w, #[trigger] t.queued[i]) by {}
    lemma_schedule_queue(t.queued, w, w, t.cached, t.loading);
    let q = schedule_queue(t.queued, w, t.cached, t.loading);
    let t1 = ThumbView { queued: q, ..t };
    lemma_start_loads_consistent(t1, w);
    assert forall|k: int| 0 <= k < w.len() implies {
        let after = scheduled(t, files, first, visible).0;
        holds_path(after.cached, #[trigger] w[k]) || holds_path(after.loading, w[k]) || holds_path(
            after.queued,
            w[k],
        )
    } by {
        assert(holds_path(t.cached, w[k]) || holds_path(t.loading, w[k]) || holds_path(q, w[k]));
    }
}


/// After renames whose new paths are none of the old ones and whose old
/// paths differ, the thumbnail of each renamed file that had one is kept
/// under its new path, and the thumbnails of files not renamed stay.
pub proof fn lemma_renamed_thumbnails_follow(cached: Seq<Seq<char>>, renames: Seq<(String, String)>)
    requires
        forall|a: int, b: int|
            0 <= a < renames.len() && 0 <= b < renames.len() ==> !path_eq(
                #[trigger] renames[a].1@,
                #[trigger] renames[b].0@,
            ),
        forall|a: int, b: int|
            0 <= a < b < renames.len() ==> !path_eq(#[trigger] renames[a].0@, #[trigger] renames[b].0@),
    ensures
        forall|k: int|
            0 <= k < renames.len() && holds_path(cached, #[trigger] renames[k].0@) ==> holds_path(
                move_cached(cached, renames),
                renames[k].1@,
            ),
        forall|y: Seq<char>|
            holds_path(cached, y) && (forall|k: int|
                0 <= k < renames.len() ==> !path_eq(#[trigger] renames[k].0@, y)) ==> holds_path(
                move_cached(cached, renames),
                y,
            ),
    decreases renames.len(),
{
    if renames.len() > 0 {
        let r1 = renames.drop_last();
        let (from, to) = renames.last();
        assert forall|a: int, b: int| 0 <= a < r1.len() && 0 <= b < r1.len() implies !path_eq(
            #[trigger] r1[a].1@,
            #[trigger] r1[b].0@,
        ) by {
            assert(r1[a] == renames[a] && r1[b] == renames[b]);
        }
        assert forall|a: int, b: int| 0 <= a < b < r1.len() implies !path_eq(
            #[trigger] r1[a].0@,
            #[trigger] r1[b].0@,
        ) by {
            assert(r1[a] == renames[a] && r1[b] == renames[b]);
        }
        lemma_renamed_thumbnails_follow(cached, r1);
        let init = move_cached(cached, r1);
        let last = renames.len() - 1;
        assert(renames[last] == (from, to));
        if holds_path(init, from@) {
            lemma_insert_absent_holds(without(init, from@), to@);
        }
        assert forall|y: Seq<char>|
            holds_path(cached, y) && (forall|k: int|
                0 <= k < renames.len() ==> !path_eq(#[trigger] renames[k].0@, y)) implies holds_path(
            move_cached(cached, renames),
            y,
        ) by {
            assert forall|k: int| 0 <= k < r1.len() implies !path_eq(#[trigger] r1[k].0@, y) by {
                assert(r1[k] == renames[k]);
            }
            assert(holds_path(init, y));
            assert(!path_eq(renames[last].0@, y));
            if holds_path(init, from@) {
                lemma_without_keeps(init, from@, y);
            }
        }
        assert forall|k: int|
            0 <= k < renames.len() && holds_path(cached, #[trigger] renames[k].0@) implies holds_path(
            move_cached(cached, renames),
            renames[k].1@,
        ) by {
            if k < last {
                assert(r1[k] == renames[k]);
                assert(holds_path(init, renames[k].1@));
                assert(!path_eq(renames[k].1@, renames[last].0@));
                if holds_path(init, from@) {
                    lemma_without_keeps(init, from@, renames[k].1@);
                }
            } else {
                assert forall|j: int| 0 <= j < r1.len() implies !path_eq(#[trigger] r1[j].0@, from@) by {
                    assert(r1[j] == renames[j]);
                    assert(!path_eq(renames[j].0@, renames[last].0@));
                }
                assert(holds_path(init, from@));
            }
        }
    }
}


/// The discarded jobs after a rename starts are exactly those discarded
/// before and those that were running: each path held by either is held,
/// and no other.
pub proof fn lemma_extend_absent(d: Seq<Seq<char>>, l: Seq<Seq<char>>)
    ensures
        forall|y: Seq<char>|
            #[trigger] holds_path(extend_absent(d, l), y) <==> (holds_path(d, y) || holds_path(l, y)),
    decreases l.len(),
{
    if l.len() > 0 {
        let l1 = l.drop_last();
        lemma_extend_absent(d, l1);
        let e1 = extend_absent(d, l1);
        lemma_insert_absent_holds(e1, l.last());
        assert forall|y: Seq<char>|
            #[trigger] holds_path(extend_absent(d, l), y) <==> (holds_path(d, y) || holds_path(l, y)) by {
            lemma_holds_push(l, y);
            if holds_path(extend_absent(d, l), y) && !holds_path(e1, y) {
                let n = choose|n: int|
                    0 <= n < extend_absent(d, l).len() && path_eq(#[trigger] extend_absent(d, l)[n], y);
                if !holds_path(e1, l.last()) {
                    if n < e1.len() {
                        assert(extend_absent(d, l)[n] == e1[n]);
                    }
                }
            }
            if path_eq(l.last(), y) {
                assert(holds_path(extend_absent(d, l), l.last()));
                let n = choose|n: int|
                    0 <= n < extend_absent(d, l).len() && path_eq(
                        #[trigger] extend_absent(d, l)[n],
                        l.last(),
                    );
                assert(path_eq(extend_absent(d, l)[n], y));
            }
        }
    }
}

/// The thumbnail moves made while following the renames: `(from, to)` for
/// each rename whose old path had a thumbnail at that point.
pub open spec fn thumbnail_moves(cached: Seq<Seq<char>>, renames: Seq<(String, String)>) -> Seq<
    (Seq<char>, Seq<char>),
>
    decreases renames.len(),
{
    if renames.len() == 0 {
        Seq::empty()
    } else {
        let init = thumbnail_moves(cached, renames.drop_last());
        let (from, to) = renames.last();
        if holds_path(move_cached(cached, renames.drop_last()), from@) {
            init.push((from@, to@))
        } else {
            init
        }
    }
}

/// `cmds` are the thumbnail moves `moves`, in order.
pub open spec fn moves_of(cmds: Seq<Command>, moves: Seq<(Seq<char>, Seq<char>)>) -> bool {
    &&& cmds.len() == moves.len()
    &&& forall|i: int|
        0 <= i < cmds.len() ==> (#[trigger] cmds[i] matches Command::MoveThumbnail { from, to }
            && from@ == moves[i].0 && to@ == moves[i].1)
}

/// `d` with each entry of `l` added that it does not hold yet.
pub open spec fn extend_absent(d: Seq<Seq<char>>, l: Seq<Seq<char>>) -> Seq<Seq<char>>
    decreases l.len(),
{
    if l.len() == 0 {
        d
    } else {
        insert_absent(extend_absent(d, l.drop_last()), l.last())
    }
}

/// The file to show after a refresh: the position of the path that was
/// shown, if it is still listed.
pub open spec fn refreshed_display(files: Seq<ImageFile>, shown: Option<String>) -> Option<usize> {
    match shown {
        Some(p) => match position_of(files, p@) {
            Some(i) => Some(i as usize),
            None => None,
        },
        None => None,
    }
}

/// The path shown before a rename, where it is after the renames.
pub open spec fn shown_after_renames(old: App, renames: Seq<(String, String)>) -> Option<Seq<char>> {
    match old.file.displayed {
        Some(i) => if i < old.file.files@.len() {
            Some(after_renames(renames, old.file.files@[i as int].path@))
        } else {
            None
        },
        None => None,
    }
}

/// What a message may not be given: a rename while the shown position is
/// past the list, or a plain click past the list (both index the list at
/// that position).
pub open spec fn update_allowed(old: App, msg: Message) -> bool {
    match msg {
        Message::Rename => !old.busy ==> (old.file.displayed matches Some(d) ==> d
            < old.file.files@.len()),
        Message::FileClicked(i) => !old.modifiers.ctrl ==> i < old.file.files@.len(),
        _ => true,
    }
}

/// How the application reacts to `msg`: the state after it, and the jobs
/// and display changes asked for.
pub open spec fn update_spec(old: App, msg: Message, new: App, cmds: Seq<Command>) -> bool {
    match msg {
        Message::FilesLoaded(Ok(files)) => {
            let (t, started) = scheduled(old.thumbnails@, files@, 0, 16);
            &&& new == (App {
                file: FileState { files: files, status: None, ..old.file },
                busy: false,
                thumbnails: new.thumbnails,
                ..old
            })
            &&& new.thumbnails@ == t
            &&& loads_of(cmds, started)
        },
        Message::FilesLoaded(Err(e)) => {
            &&& new == (App {
                file: FileState { status: Some(e), ..old.file },
                busy: false,
                ..old
            })
            &&& cmds.len() == 0
        },
        Message::FilesRefreshed(Ok(files), shown) => {
            let (t, started) = scheduled(old.thumbnails@, files@, 0, 16);
            let displayed = refreshed_display(files@, shown);
            &&& new == (App {
                file: FileState { files: files, displayed: displayed, status: None, ..old.file },
                busy: false,
                thumbnails: new.thumbnails,
                ..old
            })
            &&& new.thumbnails@ == t
            &&& loads_of(cmds.take(started.len() as int), started)
            &&& match displayed {
                Some(i) => cmds.len() == started.len() + 1 && (cmds.last() matches Command::LoadPreview(
                    p,
                ) && p@ == files@[i as int].path@),
                None => cmds.len() == started.len(),
            }
        },
        Message::FilesRefreshed(Err(e), _) => {
            &&& new == (App {
                file: FileState { status: Some(e), ..old.file },
                busy: false,
                ..old
            })
            &&& cmds.len() == 0
        },
        Message::FilterChanged(filter) => {
            &&& new == (App { file: FileState { filter: filter, ..old.file }, busy: true, ..old })
            &&& cmds.len() == 1
            &&& cmds[0] matches Command::LoadFiles { directory, filter: f } && directory@
                == old.file.directory@ && f@ == filter@
        },
        Message::ReplacementChanged(r) => new == (App { replacement: r, ..old }) && cmds.len()
            == 0,
        Message::SetNameChanged(n) => new == (App { set_name: n, ..old }) && cmds.len() == 0,
        Message::Toggle(i) => {
            &&& new == (App {
                file: FileState { files: new.file.files, ..old.file },
                ..old
            })
            &&& new.file.files@ == toggled(old.file.files@, i as int)
            &&& cmds.len() == 0
        },
        Message::PreviewLoaded(Ok(bytes)) => {
            &&& new == (App { preview: new.preview, ..old })
            &&& new.preview.old_displayed_file is None
            &&& new.preview.status == Ok::<Option<String>, String>(None)
            &&& cmds.len() == 1
            &&& cmds[0] matches Command::ShowPreview(b) && b@ == bytes@
        },
        Message::PreviewLoaded(Err(e)) => {
            &&& new == (App { preview: PreviewState { status: Err(e), ..old.preview }, ..old })
            &&& cmds.len() == 0
        },
        Message::ThumbnailLoaded(path, result) => {
            let t0 = old.thumbnails@;
            let keep = !holds_path(t0.discarded, path@) && result is Ok;
            let t1 = ThumbView {
                loading: without(t0.loading, path@),
                discarded: without(t0.discarded, path@),
                cached: if keep {
                    insert_absent(t0.cached, path@)
                } else {
                    t0.cached
                },
                ..t0
            };
            let n = if keep {
                1int
            } else {
                0int
            };
            &&& new == (App { thumbnails: new.thumbnails, ..old })
            &&& keep ==> cmds.len() >= 1 && (cmds[0] matches Command::CacheThumbnail(p, b) && p@
                == path@ && (result matches Ok(bytes) && b@ == bytes@))
            &&& if old.busy {
                new.thumbnails@ == t1 && cmds.len() == n
            } else {
                new.thumbnails@ == start_loads(t1).0 && loads_of(cmds.skip(n), start_loads(t1).1)
            }
        },
        Message::Scrolled { first, visible } => {
            let (t, started) = scheduled(old.thumbnails@, old.file.files@, first as int, visible as int);
            &&& new == (App { thumbnails: new.thumbnails, ..old })
            &&& old.busy ==> new.thumbnails@ == old.thumbnails@ && cmds.len() == 0
            &&& !old.busy ==> new.thumbnails@ == t && loads_of(cmds, started)
        },
        Message::Rename => if old.busy {
            new == old && cmds.len() == 0
        } else {
            &&& new == (App {
                preview: PreviewState {
                    old_displayed_file: match old.file.displayed {
                        Some(d) => Some(old.file.files@[d as int].path),
                        None => old.preview.old_displayed_file,
                    },
                    ..old.preview
                },
                thumbnails: new.thumbnails,
                busy: true,
                ..old
            })
            &&& new.thumbnails@ == (ThumbView {
                queued: Seq::empty(),
                discarded: extend_absent(old.thumbnails@.discarded, old.thumbnails@.loading),
                ..old.thumbnails@
            })
            &&& cmds.len() == 1
            &&& cmds[0] matches Command::RenameFiles { files, filter, replacement, set_name }
                && files@ == old.file.files@ && filter@ == old.file.filter@ && replacement@
                == old.replacement@ && set_name@ == old.set_name@
        },
        Message::Renamed(Ok(renames)) => {
            let moves = thumbnail_moves(old.thumbnails@.cached, renames@);
            let m = moves.len() as int;
            &&& new == (App {
                file: FileState { status: None, ..old.file },
                preview: PreviewState { old_displayed_file: None, ..old.preview },
                thumbnails: new.thumbnails,
                busy: true,
                error_status: None,
                ..old
            })
            &&& new.thumbnails@ == (ThumbView {
                cached: move_cached(old.thumbnails@.cached, renames@),
                ..old.thumbnails@
            })
            &&& moves_of(cmds.take(m), moves)
            &&& match old.preview.old_displayed_file {
                Some(o) => cmds.len() == m + 2 && (cmds[m] matches Command::LoadPreview(p) && p@
                    == after_renames(renames@, o@)),
                None => cmds.len() == m + 1,
            }
            &&& cmds.last() matches Command::RefreshFiles { directory, filter, displayed }
                && directory@ == old.file.directory@ && filter@ == old.file.filter@ && match displayed {
                Some(d) => shown_after_renames(old, renames@) == Some(d@),
                None => shown_after_renames(old, renames@) is None,
            }
        },
        Message::Renamed(Err(err)) => {
            let (t, started) = scheduled(old.thumbnails@, old.file.files@, 0, 16);
            &&& new == (App {
                busy: false,
                error_status: Some(AppError::OnRename(err)),
                thumbnails: new.thumbnails,
                ..old
            })
            &&& new.thumbnails@ == t
            &&& loads_of(cmds, started)
        },
        Message::FileClicked(i) => if old.modifiers.ctrl {
            &&& new == (App {
                file: FileState { files: new.file.files, ..old.file },
                ..old
            })
            &&& new.file.files@ == if old.modifiers.shift {
                match old.file.displayed {
                    Some(d) => selected_range(
                        old.file.files@,
                        if d < i {
                            d as int
                        } else {
                            i as int
                        },
                        if d < i {
                            i as int
                        } else {
                            d as int
                        },
                    ),
                    None => old.file.files@,
                }
            } else {
                toggled(old.file.files@, i as int)
            }
            &&& cmds.len() == 0
        } else {
            &&& new == (App {
                file: FileState { displayed: Some(i), ..old.file },
                preview: new.preview,
                ..old
            })
            &&& new.preview.old_displayed_file == old.preview.old_displayed_file
            &&& new.preview.status matches Ok(Some(s)) && s@ == "Loading preview\u{2026}"@
            &&& cmds.len() == 2
            &&& cmds[0] is ClearPreview
            &&& cmds[1] matches Command::LoadPreview(p) && p@ == old.file.files@[i as int].path@
        },
        Message::ModifiersChanged { ctrl, shift } => new == (App {
            modifiers: ModifierState { ctrl: ctrl, shift: shift },
            ..old
        }) && cmds.len() == 0,
    }
}

proof fn lemma_position_of_bounds(files: Seq<ImageFile>, path: Seq<char>)
    ensures
        position_of(files, path) matches Some(i) ==> 0 <= i < files.len() && path_eq(
            files[i].path@,
            path,
        ),
    decreases files.len(),
{
    if files.len() > 0 && !path_eq(files[0].path@, path) {
        lemma_position_of_bounds(files.drop_first(), path);
    }
}

/// The position of the first file whose path equals `path`.
fn position_of_exec(files: &Vec<ImageFile>, path: &str) -> (r: Option<usize>)
    ensures
        match position_of(files@, path@) {
            Some(i) => r matches Some(k) && k as int == i && i < files@.len(),
            None => r is None,
        },
{
    let mut i: usize = 0;
    assert(files@.skip(0) == files@);
    while i < files.len()
        invariant
            i <= files@.len(),
            position_of(files@, path@) == match position_of(files@.skip(i as int), path@) {
                Some(j) => Some(j + i),
                None => None,
            },
        decreases files@.len() - i,
    {
        let ghost rest = files@.skip(i as int);
        assert(rest[0] == files@[i as int]);
        assert(rest.drop_first() == files@.skip(i + 1));
        if same_path(files[i].path.as_str(), path) {
            return Some(i);
        }
        i = i + 1;
    }
    None
}

/// Where `path` is after the renames.
fn after_renames_exec(renames: &Vec<(String, String)>, path: &String) -> (r: String)
    ensures
        r@ == after_renames(renames@, path@),
{
    let mut i: usize = 0;
    assert(renames@.skip(0) == renames@);
    while i < renames.len()
        invariant
            i <= renames@.len(),
            renamed_to(renames@, path@) == renamed_to(renames@.skip(i as int), path@),
        decreases renames@.len() - i,
    {
        let ghost rest = renames@.skip(i as int);
        assert(rest[0] == renames@[i as int]);
        assert(rest.drop_first() == renames@.skip(i + 1));
        if same_path(renames[i].0.as_str(), path.as_str()) {
            return renames[i].1.clone();
        }
        i = i + 1;
    }
    path.clone()
}

impl App {
    fn thumbnail_loaded(&mut self, path: String, result: Result<Vec<u8>, String>) -> (cmds: Vec<
        Command,
    >)
        ensures
            update_spec(*old(self), Message::ThumbnailLoaded(path, result), *final(self), cmds@),
    {
        let ghost t0 = self.thumbnails@;
        let ghost keep = !holds_path(t0.discarded, path@) && result is Ok;
        remove_path(&mut self.thumbnails.loading, path.as_str());
        let was_discarded = remove_path(&mut self.thumbnails.discarded, path.as_str());
        let mut cmds: Vec<Command> = Vec::new();
        if !was_discarded {
            match result {
                Ok(bytes) => {
                    insert_path(&mut self.thumbnails.cached, path.clone());
                    cmds.push(Command::CacheThumbnail(path, bytes));
                },
                Err(_) => {},
            }
        }
        let ghost t1 = self.thumbnails@;
        let ghost n: int = cmds@.len() as int;
        assert(n == if keep { 1int } else { 0int });
        if !self.busy {
            let mut loads = self.start_thumbnail_loads();
            let ghost started = loads@;
            let ghost before = cmds@;
            cmds.append(&mut loads);
            assert(cmds@.skip(n) =~= started);
            assert(before.len() == n);
            proof {
                if keep {
                    assert(cmds@[0] == before[0]);
                }
            }
        }
        cmds
    }
}

impl App {
    fn rename(&mut self) -> (cmds: Vec<Command>)
        requires
            update_allowed(*old(self), Message::Rename),
        ensures
            update_spec(*old(self), Message::Rename, *final(self), cmds@),
    {
        let mut cmds: Vec<Command> = Vec::new();
        if self.busy {
            return cmds;
        }
        self.busy = true;
        self.thumbnails.queued.clear();
        let ghost d0 = self.thumbnails@.discarded;
        let ghost l0 = self.thumbnails@.loading;
        let mut i: usize = 0;
        assert(l0.take(0) == Seq::<Seq<char>>::empty());
        while i < self.thumbnails.loading.len()
            invariant
                i <= self.thumbnails.loading@.len(),
                self.thumbnails@.loading == l0,
                self.thumbnails@.discarded == extend_absent(d0, l0.take(i as int)),
                self.thumbnails@.queued.len() == 0,
                self.thumbnails@.cached == old(self).thumbnails@.cached,
                self.thumbnails@.max_loading == old(self).thumbnails@.max_loading,
                self.busy,
                self.file == old(self).file,
                self.preview == old(self).preview,
                self.replacement == old(self).replacement,
                self.set_name == old(self).set_name,
                self.modifiers == old(self).modifiers,
                self.error_status == old(self).error_status,
            decreases self.thumbnails.loading@.len() - i,
        {
            let p = self.thumbnails.loading[i].clone();
            insert_path(&mut self.thumbnails.discarded, p);
            assert(l0.take(i + 1).drop_last() == l0.take(i as int));
            i = i + 1;
        }
        assert(l0.take(l0.len() as int) == l0);
        assert(self.thumbnails@.queued =~= Seq::<Seq<char>>::empty());
        if let Some(displayed_file) = self.file.displayed {
            self.preview.old_displayed_file = Some(self.file.files[displayed_file].path.clone());
        }
        let files = self.file.files.clone();
        assert(files@ =~= self.file.files@);
        cmds.push(
            Command::RenameFiles {
                files,
                filter: self.file.filter.clone(),
                replacement: self.replacement.clone(),
                set_name: self.set_name.clone(),
            },
        );
        cmds
    }
}

impl App {
    fn renamed_ok(&mut self, renamed: Vec<(String, String)>) -> (cmds: Vec<Command>)
        ensures
            update_spec(*old(self), Message::Renamed(Ok(renamed)), *final(self), cmds@),
    {
        let mut cmds: Vec<Command> = Vec::new();
        let ghost c0 = self.thumbnails@.cached;
        let mut i: usize = 0;
        assert(renamed@.take(0) == Seq::<(String, String)>::empty());
        while i < renamed.len()
            invariant
                i <= renamed@.len(),
                self.thumbnails@.cached == move_cached(c0, renamed@.take(i as int)),
                moves_of(cmds@, thumbnail_moves(c0, renamed@.take(i as int))),
                self.thumbnails@.queued == old(self).thumbnails@.queued,
                self.thumbnails@.loading == old(self).thumbnails@.loading,
                self.thumbnails@.discarded == old(self).thumbnails@.discarded,
                self.thumbnails@.max_loading == old(self).thumbnails@.max_loading,
                c0 == old(self).thumbnails@.cached,
                same_except_thumbnails(*self, *old(self)),
            decreases renamed@.len() - i,
        {
            let ghost pre = renamed@.take(i as int);
            let ghost nxt = renamed@.take(i + 1);
            assert(nxt.drop_last() == pre);
            assert(nxt.last() == renamed@[i as int]);
            let ghost cached_before = self.thumbnails@.cached;
            let from = &renamed[i].0;
            let to = &renamed[i].1;
            let removed = remove_path(&mut self.thumbnails.cached, from.as_str());
            if removed {
                insert_path(&mut self.thumbnails.cached, to.clone());
                let ghost before = cmds@;
                cmds.push(Command::MoveThumbnail { from: from.clone(), to: to.clone() });
                assert(thumbnail_moves(c0, nxt) == thumbnail_moves(c0, pre).push((from@, to@)));
                assert forall|k: int| 0 <= k < cmds@.len() implies (#[trigger] cmds@[k] matches Command::MoveThumbnail { from, to }
                    && from@ == thumbnail_moves(c0, nxt)[k].0 && to@ == thumbnail_moves(c0, nxt)[k].1) by {
                    if k < before.len() {
                        assert(cmds@[k] == before[k]);
                    }
                }
            } else {
                proof {
                    lemma_without_absent(cached_before, from@);
                }
            }
            i = i + 1;
        }
        assert(renamed@.take(renamed@.len() as int) == renamed@);
        let ghost m = cmds@.len();
        let displayed_path = match self.file.displayed {
            Some(index) => if index < self.file.files.len() {
                Some(after_renames_exec(&renamed, &self.file.files[index].path))
            } else {
                None
            },
            None => None,
        };
        let ghost moves = cmds@;
        match self.preview.old_displayed_file.take() {
            Some(old_file) => {
                cmds.push(Command::LoadPreview(after_renames_exec(&renamed, &old_file)));
            },
            None => {},
        }
        self.error_status = None;
        self.busy = true;
        self.file.status = None;
        cmds.push(
            Command::RefreshFiles {
                directory: self.file.directory.clone(),
                filter: self.file.filter.clone(),
                displayed: displayed_path,
            },
        );
        assert(cmds@.take(m as int) =~= moves);
        cmds
    }
}

impl App {
    fn toggle(&mut self, index: usize) -> (cmds: Vec<Command>)
        ensures
            update_spec(*old(self), Message::Toggle(index), *final(self), cmds@),
    {
        if index < self.file.files.len() {
            let mut file = self.file.files[index].clone();
            file.selected = !file.selected;
            self.file.files.set(index, file);
        }
        Vec::new()
    }

    fn file_clicked(&mut self, index: usize) -> (cmds: Vec<Command>)
        requires
            update_allowed(*old(self), Message::FileClicked(index)),
        ensures
            update_spec(*old(self), Message::FileClicked(index), *final(self), cmds@),
    {
        let mut cmds: Vec<Command> = Vec::new();
        if self.modifiers.ctrl {
            if self.modifiers.shift {
                if let Some(displayed) = self.file.displayed {
                    let lower = if displayed < index {
                        displayed
                    } else {
                        index
                    };
                    let upper = if displayed < index {
                        index
                    } else {
                        displayed
                    };
                    let ghost f0 = self.file.files@;
                    let mut ix = lower;
                    assert(f0 =~= Seq::new(
                        f0.len(),
                        |k: int|
                            if lower <= k < lower {
                                ImageFile { selected: true, ..f0[k] }
                            } else {
                                f0[k]
                            },
                    ));
                    while ix < self.file.files.len() && ix <= upper
                        invariant
                            lower <= ix,
                            ix == lower || (ix <= f0.len() && ix <= upper + 1),
                            lower <= upper,
                            self.file.files@ == Seq::new(
                                f0.len(),
                                |k: int|
                                    if lower <= k < ix {
                                        ImageFile { selected: true, ..f0[k] }
                                    } else {
                                        f0[k]
                                    },
                            ),
                            self.file.directory == old(self).file.directory,
                            self.file.filter == old(self).file.filter,
                            self.file.displayed == old(self).file.displayed,
                            self.file.status == old(self).file.status,
                            self.preview == old(self).preview,
                            self.thumbnails == old(self).thumbnails,
                            self.replacement == old(self).replacement,
                            self.set_name == old(self).set_name,
                            self.busy == old(self).busy,
                            self.modifiers == old(self).modifiers,
                            self.error_status == old(self).error_status,
                        decreases f0.len() - ix,
                    {
                        let mut file = self.file.files[ix].clone();
                        file.selected = true;
                        self.file.files.set(ix, file);
                        ix = ix + 1;
                        assert(self.file.files@ =~= Seq::new(
                            f0.len(),
                            |k: int|
                                if lower <= k < ix {
                                    ImageFile { selected: true, ..f0[k] }
                                } else {
                                    f0[k]
                                },
                        ));
                    }
                    assert(self.file.files@ =~= selected_range(f0, lower as int, upper as int));
                }
            } else {
                return self.toggle(index);
            }
        } else {
            self.file.displayed = Some(index);
            self.preview.status = Ok(Some(String::from_str("Loading preview\u{2026}")));
            cmds.push(Command::ClearPreview);
            cmds.push(Command::LoadPreview(self.file.files[index].path.clone()));
        }
        cmds
    }

    fn files_refreshed_ok(&mut self, files: Vec<ImageFile>, shown: Option<String>) -> (cmds: Vec<
        Command,
    >)
        ensures
            update_spec(*old(self), Message::FilesRefreshed(Ok(files), shown), *final(self), cmds@),
    {
        self.busy = false;
        let displayed = match &shown {
            Some(path) => position_of_exec(&files, path.as_str()),
            None => None,
        };
        self.file.files = files;
        self.file.displayed = displayed;
        self.file.status = None;
        let mut cmds = self.schedule_thumbnails(0, 16);
        let ghost loads = cmds@;
        if let Some(index) = self.file.displayed {
            cmds.push(Command::LoadPreview(self.file.files[index].path.clone()));
        }
        assert(cmds@.take(loads.len() as int) =~= loads);
        cmds
    }

    /// Reacts to `message`: updates the state and returns the jobs and
    /// display changes to carry out (see `update_spec`).
    pub fn update(&mut self, message: Message) -> (cmds: Vec<Command>)
        requires
            update_allowed(*old(self), message),
        ensures
            update_spec(*old(self), message, *final(self), cmds@),
    {
        match message {
            Message::FilesLoaded(result) => {
                self.busy = false;
                match result {
                    Ok(files) => {
                        self.file.status = None;
                        self.file.files = files;
                        self.schedule_thumbnails(0, 16)
                    },
                    Err(error) => {
                        self.file.status = Some(error);
                        Vec::new()
                    },
                }
            },
            Message::FilesRefreshed(result, shown) => match result {
                Ok(files) => self.files_refreshed_ok(files, shown),
                Err(error) => {
                    self.busy = false;
                    self.file.status = Some(error);
                    Vec::new()
                },
            },
            Message::FilterChanged(filter) => {
                self.file.filter = filter;
                self.busy = true;
                let mut cmds = Vec::new();
                cmds.push(
                    Command::LoadFiles {
                        directory: self.file.directory.clone(),
                        filter: self.file.filter.clone(),
                    },
                );
                cmds
            },
            Message::ReplacementChanged(replacement) => {
                self.replacement = replacement;
                Vec::new()
            },
            Message::SetNameChanged(set_name) => {
                self.set_name = set_name;
                Vec::new()
            },
            Message::Toggle(index) => self.toggle(index),
            Message::PreviewLoaded(result) => match result {
                Ok(bytes) => {
                    self.preview.old_displayed_file = None;
                    self.preview.status = Ok(None);
                    let mut cmds = Vec::new();
                    cmds.push(Command::ShowPreview(bytes));
                    cmds
                },
                Err(error) => {
                    self.preview.status = Err(error);
                    Vec::new()
                },
            },
            Message::ThumbnailLoaded(path, result) => self.thumbnail_loaded(path, result),
            Message::Scrolled { first, visible } => self.schedule_thumbnails(first, visible),
            Message::Rename => self.rename(),
            Message::Renamed(result) => match result {
                Ok(renamed) => {
                    self.busy = false;
                    self.renamed_ok(renamed)
                },
                Err(err) => {
                    self.busy = false;
                    self.error_status = Some(AppError::OnRename(err));
                    self.schedule_thumbnails(0, 16)
                },
            },
            Message::FileClicked(index) => self.file_clicked(index),
            Message::ModifiersChanged { ctrl, shift } => {
                self.modifiers.ctrl = ctrl;
                self.modifiers.shift = shift;
                Vec::new()
            },
        }
    }
}

/// No reaction lets more than `max_loading` thumbnail jobs run: when at
/// most that many ran before a message, at most that many run after it, and
/// the limit itself never changes.
pub proof fn lemma_update_keeps_jobs_bounded(old: App, msg: Message, new: App, cmds: Seq<Command>)
    requires
        update_spec(old, msg, new, cmds),
        old.thumbnails@.loading.len() <= old.thumbnails@.max_loading,
    ensures
        new.thumbnails@.max_loading == old.thumbnails@.max_loading,
        new.thumbnails@.loading.len() <= new.thumbnails@.max_loading,
{
    let t0 = old.thumbnails@;
    match msg {
        Message::FilesLoaded(Ok(files)) => {
            lemma_start_loads_bounded(
                ThumbView { queued: schedule_queue(t0.queued, window(files@, 0, 16), t0.cached, t0.loading), ..t0 },
            );
        },
        Message::FilesRefreshed(Ok(files), _) => {
            lemma_start_loads_bounded(
                ThumbView { queued: schedule_queue(t0.queued, window(files@, 0, 16), t0.cached, t0.loading), ..t0 },
            );
        },
        Message::Renamed(Err(_)) => {
            lemma_start_loads_bounded(
                ThumbView {
                    queued: schedule_queue(t0.queued, window(old.file.files@, 0, 16), t0.cached, t0.loading),
                    ..t0
                },
            );
        },
        Message::Scrolled { first, visible } => {
            lemma_start_loads_bounded(
                ThumbView {
                    queued: schedule_queue(
                        t0.queued,
                        window(old.file.files@, first as int, visible as int),
                        t0.cached,
                        t0.loading,
                    ),
                    ..t0
                },
            );
        },
        Message::ThumbnailLoaded(path, result) => {
            lemma_without(t0.loading, path@);
            let keep = !holds_path(t0.discarded, path@) && result is Ok;
            let t1 = ThumbView {
                loading: without(t0.loading, path@),
                discarded: without(t0.discarded, path@),
                cached: if keep {
                    insert_absent(t0.cached, path@)
                } else {
                    t0.cached
                },
                ..t0
            };
            lemma_start_loads_bounded(t1);
        },
        _ => {},
    }
}

/// A ctrl+shift click on position `i` while file `d` is shown selects every
/// file from the lower to the higher of the two, both included, whichever
/// comes first, and leaves every other file as it was; the list keeps its
/// length and paths.
pub proof fn lemma_range_click_selects_between(old: App, i: usize, new: App, cmds: Seq<Command>)
    requires
        update_spec(old, Message::FileClicked(i), new, cmds),
        old.modifiers.ctrl,
        old.modifiers.shift,
        old.file.displayed is Some,
    ensures
        new.file.files@.len() == old.file.files@.len(),
        forall|k: int|
            0 <= k < old.file.files@.len() ==> (#[trigger] new.file.files@[k]).path
                == old.file.files@[k].path,
        forall|k: int|
            0 <= k < old.file.files@.len() && (old.file.displayed->0 <= k <= i || i <= k
                <= old.file.displayed->0) ==> (#[trigger] new.file.files@[k]).selected,
        forall|k: int|
            0 <= k < old.file.files@.len() && !(old.file.displayed->0 <= k <= i || i <= k
                <= old.file.displayed->0) ==> #[trigger] new.file.files@[k] == old.file.files@[k],
        cmds.len() == 0,
{
}

/// Toggling position `i`, by its button or by a ctrl click, flips the
/// selection of that file only: the list keeps its length, the file at `i`
/// keeps its path and has the opposite selection, and every other file is
/// as it was. A plain click shows the clicked file and asks for its preview.
pub proof fn lemma_toggle_flips_one(old: App, msg: Message, new: App, cmds: Seq<Command>)
    requires
        update_spec(old, msg, new, cmds),
        msg is Toggle || (msg is FileClicked && old.modifiers.ctrl && !old.modifiers.shift),
    ensures
        ({
            let i: int = match msg {
                Message::Toggle(i) => i as int,
                Message::FileClicked(i) => i as int,
                _ => 0,
            };
            &&& new.file.files@.len() == old.file.files@.len()
            &&& 0 <= i < old.file.files@.len() ==> new.file.files@[i].path == old.file.files@[i].path
                && new.file.files@[i].selected == !old.file.files@[i].selected
            &&& forall|k: int|
                0 <= k < old.file.files@.len() && k != i ==> #[trigger] new.file.files@[k]
                    == old.file.files@[k]
        }),
{
}

/// A plain click on position `i` shows that file: it becomes the displayed
/// one, the old preview is cleared and the preview of its path is loaded,
/// and the selection is left alone.
pub proof fn lemma_plain_click_shows_file(old: App, i: usize, new: App, cmds: Seq<Command>)
    requires
        update_spec(old, Message::FileClicked(i), new, cmds),
        !old.modifiers.ctrl,
    ensures
        new.file.displayed == Some(i),
        new.file.files == old.file.files,
        cmds.len() == 2,
        cmds[0] is ClearPreview,
        cmds[1] matches Command::LoadPreview(p) && p@ == old.file.files@[i as int].path@,
{
}

/// Flipping the selection of the same file twice restores the list.
pub proof fn lemma_toggle_twice(files: Seq<ImageFile>, i: int)
    ensures
        toggled(toggled(files, i), i) == files,
{
    if 0 <= i < files.len() {
        assert(toggled(toggled(files, i), i) =~= files);
    }
}

/// Which kind of error a message reports.
#[derive(Debug, Clone, Copy, PartialEq, Eq)]
pub enum ErrorKind {
    /// A rename failed.
    Rename,
    /// The directory could not be listed.
    Files,
}

impl App {
    /// The error to show below the file list: a failed rename before a
    /// listing error; `None` when there is neither.
    pub fn error_message(&self) -> (r: Option<(ErrorKind, String)>)
        ensures
            match self.error_status {
                Some(AppError::OnRename(e)) => r matches Some((k, m)) && k == ErrorKind::Rename
                    && m@ == rename_error_text(e),
                None => match self.file.status {
                    Some(e) => r matches Some((k, m)) && k == ErrorKind::Files && m@
                        == file_error_text(e),
                    None => r is None,
                },
            },
    {
        match &self.error_status {
            Some(AppError::OnRename(err)) => Some((ErrorKind::Rename, err.message())),
            None => match &self.file.status {
                Some(err) => Some((ErrorKind::Files, err.message())),
                None => None,
            },
        }
    }
}

/// The interaction state of a button.
#[derive(Debug, Clone, Copy, PartialEq, Eq)]
pub enum ButtonStatus {
    Active,
    Hovered,
    Pressed,
    Disabled,
}

/// A color pair of the theme's extended palette.
#[derive(Debug, Clone, Copy, PartialEq, Eq)]
pub enum PaletteSlot {
    BackgroundBase,
    BackgroundWeak,
    BackgroundStrong,
    PrimaryWeak,
    PrimaryBase,
    PrimaryStrong,
}

/// The look of a file button: where its background color and its text
/// color come from.
#[derive(Debug, Clone, Copy, PartialEq, Eq)]
pub struct ButtonLook {
    pub background: PaletteSlot,
    pub text: PaletteSlot,
}

/// The look of the button of a file: shown files in primary colors,
/// selected ones stronger, pressed buttons in primary colors by selection
/// only, disabled ones weak.
pub open spec fn button_look(selected: bool, displayed: bool, status: ButtonStatus) -> ButtonLook {
    match status {
        ButtonStatus::Active | ButtonStatus::Hovered => match (displayed, selected) {
            (false, false) => ButtonLook {
                background: PaletteSlot::BackgroundBase,
                text: PaletteSlot::BackgroundBase,
            },
            (false, true) => ButtonLook {
                background: PaletteSlot::BackgroundStrong,
                text: PaletteSlot::BackgroundStrong,
            },
            (true, false) => ButtonLook {
                background: PaletteSlot::PrimaryWeak,
                text: PaletteSlot::PrimaryBase,
            },
            (true, true) => ButtonLook {
                background: PaletteSlot::PrimaryBase,
                text: PaletteSlot::PrimaryStrong,
            },
        },
        ButtonStatus::Disabled => ButtonLook {
            background: PaletteSlot::BackgroundWeak,
            text: PaletteSlot::BackgroundWeak,
        },
        ButtonStatus::Pressed => if selected {
            ButtonLook { background: PaletteSlot::PrimaryStrong, text: PaletteSlot::PrimaryStrong }
        } else {
            ButtonLook { background: PaletteSlot::PrimaryBase, text: PaletteSlot::PrimaryBase }
        },
    }
}

/// On an active or hovered button, being selected and being displayed each
/// show: the four combinations look different, a selected file that is not
/// displayed has the strong background colors, and one neither selected nor
/// displayed the base ones. A pressed button shows the selection too.
pub proof fn lemma_button_looks_show_state(
    selected: bool,
    displayed: bool,
    selected2: bool,
    displayed2: bool,
    status: ButtonStatus,
)
    requires
        status == ButtonStatus::Active || status == ButtonStatus::Hovered,
    ensures
        (selected, displayed) != (selected2, displayed2) ==> button_look(selected, displayed, status)
            != button_look(selected2, displayed2, status),
        button_look(true, false, status) == (ButtonLook {
            background: PaletteSlot::BackgroundStrong,
            text: PaletteSlot::BackgroundStrong,
        }),
        button_look(false, false, status) == (ButtonLook {
            background: PaletteSlot::BackgroundBase,
            text: PaletteSlot::BackgroundBase,
        }),
        button_look(true, displayed, ButtonStatus::Pressed) != button_look(
            false,
            displayed,
            ButtonStatus::Pressed,
        ),
{
}

/// The look of the button of a file that is `selected` and/or `displayed`.
pub fn button_highlighting(selected: bool, displayed: bool, status: ButtonStatus) -> (r: ButtonLook)
    ensures
        r == button_look(selected, displayed, status),
{
    match status {
        ButtonStatus::Active | ButtonStatus::Hovered => match (displayed, selected) {
            (false, false) => ButtonLook {
                background: PaletteSlot::BackgroundBase,
                text: PaletteSlot::BackgroundBase,
            },
            (false, true) => ButtonLook {
                background: PaletteSlot::BackgroundStrong,
                text: PaletteSlot::BackgroundStrong,
            },
            (true, false) => ButtonLook {
                background: PaletteSlot::PrimaryWeak,
                text: PaletteSlot::PrimaryBase,
            },
            (true, true) => ButtonLook {
                background: PaletteSlot::PrimaryBase,
                text: PaletteSlot::PrimaryStrong,
            },
        },
        ButtonStatus::Disabled => ButtonLook {
            background: PaletteSlot::BackgroundWeak,
            text: PaletteSlot::BackgroundWeak,
        },
        ButtonStatus::Pressed => match (displayed, selected) {
            (false, false) => ButtonLook {
                background: PaletteSlot::PrimaryBase,
                text: PaletteSlot::PrimaryBase,
            },
            (false, true) => ButtonLook {
                background: PaletteSlot::PrimaryStrong,
                text: PaletteSlot::PrimaryStrong,
            },
            (true, false) => ButtonLook {
                background: PaletteSlot::PrimaryBase,
                text: PaletteSlot::PrimaryBase,
            },
            (true, true) => ButtonLook {
                background: PaletteSlot::PrimaryStrong,
                text: PaletteSlot::PrimaryStrong,
            },
        },
    }
}

impl PreviewState {
    /// The text shown in the preview area when there is no preview image.
    pub fn status_text(&self) -> (r: String)
        ensures
            r@ == match self.status {
                Ok(None) => "Select an image"@,
                Ok(Some(s)) => s@,
                Err(e) => "Error: "@ + e@,
            },
    {
        match &self.status {
            Ok(None) => String::from_str("Select an image"),
            Ok(Some(status)) => status.clone(),
            Err(err) => crate::text::concat2("Error: ", err.as_str()),
        }
    }
}
} // verus!
