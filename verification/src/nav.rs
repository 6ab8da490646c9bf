//! The navigation engine: the cache of snapshots, the chain of directories
//! from the root to the current one, the selection, the clipboard, and the
//! search.

use crate::config::Settings;
use crate::dir::spec_reload_due;
use crate::dir::reload_due;
use crate::dir::{at_bottom, clamp_viewport, found, gone_to, least, most, moved_down, moved_up, Dir, Loaded};
use crate::file::File;
use crate::paths::{ancestors, base_name, sibling, spec_ancestors, spec_base_name, spec_sibling, PathSet};
use crate::reg::Reg;
use crate::transfer::{added, Kind, Notice, Phase, Transfer};
use crate::text::str_eq;
use vstd::prelude::*;
use vstd::string::*;

verus! {

/// Why an operation of the engine was turned down.
#[derive(Debug, Copy, Clone, PartialEq, Eq, Structural)]
pub enum NavError {
    /// A transfer is under way; only one can be at a time.
    TransferBusy,
    /// There is nothing on the clipboard to paste.
    EmptyClipboard,
    /// Nothing is selected.
    EmptySelection,
    /// The directory to paste into cannot be written to.
    DestinationReadOnly,
    /// There is no pattern to search for.
    EmptyPattern,
    /// No entry matches the pattern.
    NotFound,
    /// The path to go to is no directory.
    NotADirectory,
    /// The cursor is on no entry.
    NoFile,
}

/// What the preview pane is to show, as a place in one of the two caches.
#[derive(Debug, Copy, Clone, PartialEq, Eq, Structural)]
pub enum Preview {
    /// The listing of a directory.
    Dir(usize),
    /// The text of a file.
    Reg(usize),
}

/// The state of the engine.
#[derive(Debug)]
pub struct Nav {
    /// The rows of the panes: the rows of the terminal less four.
    pub useful_rows: u16,
    pub settings: Settings,
    /// Every snapshot that was ever asked for. A snapshot is known by its
    /// place in here, which it keeps.
    pub dir_cache: Vec<Dir>,
    /// The chain from the root to the current directory, as places in the cache.
    pub dirs: Vec<usize>,
    pub dir_preview: Option<usize>,
    pub reg_cache: Vec<Reg>,
    pub reg_preview: Option<usize>,
    pub cmd_prefix: char,
    pub cmd_string: String,
    pub cmd_string_ind: usize,
    pub search_string: String,
    pub search_direction: bool,
    pub selections: PathSet,
    pub cut_or_copy: PathSet,
    pub is_cut: bool,
    /// The bytes of the transfer under way; zero when there is none.
    pub mv_cp_total_size: u64,
    /// The bytes of it that are done.
    pub mv_cp_size: u64,
    pub error_message: String,
}

/// The place of the snapshot of `p` in a cache, or the length of the cache
/// where it holds none.
pub open spec fn place_of(cache: Seq<Dir>, p: Seq<char>, from: int) -> int
    decreases cache.len() - from,
{
    if from >= cache.len() {
        cache.len() as int
    } else if cache[from].dir_path@ == p {
        from
    } else {
        place_of(cache, p, from + 1)
    }
}

/// The cache after the snapshot of `p` was asked for: as it was where it
/// held one, else with `fresh` behind the others.
pub open spec fn cache_with(cache: Seq<Dir>, p: Seq<char>, fresh: Dir) -> Seq<Dir> {
    if place_of(cache, p, 0) < cache.len() {
        cache
    } else {
        cache.push(fresh)
    }
}

pub proof fn lemma_place_of(cache: Seq<Dir>, p: Seq<char>, from: int)
    requires
        0 <= from <= cache.len(),
    ensures
        from <= place_of(cache, p, from) <= cache.len(),
        place_of(cache, p, from) < cache.len() ==> cache[place_of(cache, p, from)].dir_path@ == p,
        forall|i: int| from <= i < place_of(cache, p, from) ==> (#[trigger] cache[i]).dir_path@ != p,
    decreases cache.len() - from,
{
    if from < cache.len() && cache[from].dir_path@ != p {
        lemma_place_of(cache, p, from + 1);
    }
}

/// To ask for a snapshot twice is to ask once: the second time the cache
/// stays as it is, and the place is the one that the first gave.
pub proof fn lemma_same_snapshot(cache: Seq<Dir>, p: Seq<char>, fresh: Dir, other: Dir)
    requires
        fresh.dir_path@ == p,
    ensures
        place_of(cache_with(cache, p, fresh), p, 0) < cache_with(cache, p, fresh).len(),
        place_of(cache_with(cache, p, fresh), p, 0) == place_of(cache, p, 0),
        cache_with(cache_with(cache, p, fresh), p, other) == cache_with(cache, p, fresh),
{
    lemma_place_of(cache, p, 0);
    let c = cache_with(cache, p, fresh);
    lemma_place_of(c, p, 0);
    if place_of(cache, p, 0) >= cache.len() {
        assert(c[cache.len() as int].dir_path@ == p);
        assert(forall|i: int| 0 <= i < cache.len() ==> c[i] == cache[i]);
    }
}

/// `sel` with `p` taken out where it is in it, and taken in where it is not.
pub open spec fn toggled(sel: Set<Seq<char>>, p: Seq<char>) -> Set<Seq<char>> {
    if sel.contains(p) {
        sel.remove(p)
    } else {
        sel.insert(p)
    }
}

/// `sel` after the first `n` entries of `files` were toggled in turn, each
/// one for which `exists` holds a `true`.
pub open spec fn toggled_all(sel: Set<Seq<char>>, files: Seq<File>, exists: Seq<bool>, n: int) -> Set<
    Seq<char>,
>
    decreases n,
{
    if n <= 0 {
        sel
    } else {
        let before = toggled_all(sel, files, exists, n - 1);
        if n - 1 < exists.len() && exists[n - 1] {
            toggled(before, files[n - 1].file_path@)
        } else {
            before
        }
    }
}

/// A snapshot keeps its place when the cache grows behind it.
pub proof fn lemma_place_grown(a: Seq<Dir>, b: Seq<Dir>, p: Seq<char>, from: int)
    requires
        0 <= from <= a.len() <= b.len(),
        forall|i: int| 0 <= i < a.len() ==> #[trigger] b[i] == a[i],
        place_of(a, p, from) < a.len(),
    ensures
        place_of(b, p, from) == place_of(a, p, from),
    decreases a.len() - from,
{
    if from < a.len() {
        assert(b[from] == a[from]);
        if a[from].dir_path@ != p {
            lemma_place_grown(a, b, p, from + 1);
        }
    }
}

/// The place of the snapshot of `p` in a cache of previews, or the length
/// of the cache where it holds none.
pub open spec fn reg_place_of(cache: Seq<Reg>, p: Seq<char>, from: int) -> int
    decreases cache.len() - from,
{
    if from >= cache.len() {
        cache.len() as int
    } else if cache[from].path@ == p {
        from
    } else {
        reg_place_of(cache, p, from + 1)
    }
}

pub proof fn lemma_reg_place_of(cache: Seq<Reg>, p: Seq<char>, from: int)
    requires
        0 <= from <= cache.len(),
    ensures
        from <= reg_place_of(cache, p, from) <= cache.len(),
        reg_place_of(cache, p, from) < cache.len() ==> cache[reg_place_of(cache, p, from)].path@ == p,
        forall|i: int| from <= i < reg_place_of(cache, p, from) ==> (#[trigger] cache[i]).path@ != p,
    decreases cache.len() - from,
{
    if from < cache.len() && cache[from].path@ != p {
        lemma_reg_place_of(cache, p, from + 1);
    }
}

/// The first place in the chain that leads through the snapshot `h`, or
/// the length of the chain where it leads through it nowhere.
pub open spec fn first_place(dirs: Seq<usize>, h: int, from: int) -> int
    decreases dirs.len() - from,
{
    if from >= dirs.len() {
        dirs.len() as int
    } else if dirs[from] == h {
        from
    } else {
        first_place(dirs, h, from + 1)
    }
}

pub proof fn lemma_first_place(dirs: Seq<usize>, h: int, from: int)
    requires
        0 <= from <= dirs.len(),
    ensures
        from <= first_place(dirs, h, from) <= dirs.len(),
        first_place(dirs, h, from) < dirs.len() ==> dirs[first_place(dirs, h, from)] == h,
        forall|j: int| from <= j < first_place(dirs, h, from) ==> dirs[j] != h,
    decreases dirs.len() - from,
{
    if from < dirs.len() && dirs[from] != h {
        lemma_first_place(dirs, h, from + 1);
    }
}

/// The first `n` of `paths`, each on a line of its own.
pub open spec fn lines_of(paths: Seq<Seq<char>>, n: int) -> Seq<char>
    decreases n,
{
    if n <= 0 {
        Seq::empty()
    } else if n == 1 {
        paths[0]
    } else {
        lines_of(paths, n - 1) + seq!['\n'] + paths[n - 1]
    }
}

impl Nav {
    /// No two snapshots of the cache are of the same path.
    pub open spec fn one_each(cache: Seq<Dir>) -> bool {
        forall|i: int, j: int|
            0 <= i < j < cache.len() ==> (#[trigger] cache[i]).dir_path@ != (#[trigger] cache[j]).dir_path@
    }

    /// No two previews of the cache are of the same path.
    pub open spec fn one_preview_each(cache: Seq<Reg>) -> bool {
        forall|i: int, j: int| 0 <= i < j < cache.len() ==> (#[trigger] cache[i]).path@ != (#[trigger] cache[j]).path@
    }

    /// The rows are at least one, every snapshot is well-formed, neither
    /// cache holds a path twice, the chain and the previews point into the
    /// caches, and neither the selection nor the clipboard holds a path
    /// twice.
    pub open spec fn wf(&self) -> bool {
        &&& self.useful_rows >= 1
        &&& Self::one_each(self.dir_cache@)
        &&& Self::one_preview_each(self.reg_cache@)
        &&& forall|i: int| 0 <= i < self.dir_cache@.len() ==> (#[trigger] self.dir_cache@[i]).wf()
        &&& forall|i: int| 0 <= i < self.dirs@.len() ==> (#[trigger] self.dirs@[i]) < self.dir_cache@.len()
        &&& match self.dir_preview {
            Some(h) => h < self.dir_cache@.len(),
            None => true,
        }
        &&& match self.reg_preview {
            Some(h) => h < self.reg_cache@.len(),
            None => true,
        }
        &&& self.selections.wf()
        &&& self.cut_or_copy.wf()
    }

    /// The place of the current directory in the cache.
    pub open spec fn current(&self) -> int
        recommends
            self.dirs@.len() > 0,
    {
        self.dirs@.last() as int
    }

    /// The snapshot of the current directory.
    pub open spec fn spec_cdir(&self) -> Dir
        recommends
            self.dirs@.len() > 0,
    {
        self.dir_cache@[self.current()]
    }

    /// The command line and the search are in `self` as in `other`.
    pub open spec fn same_lines(&self, other: &Nav) -> bool {
        &&& self.cmd_prefix == other.cmd_prefix
        &&& self.cmd_string == other.cmd_string
        &&& self.cmd_string_ind == other.cmd_string_ind
        &&& self.search_string == other.search_string
        &&& self.search_direction == other.search_direction
    }

    /// The rows, the settings, the kind of the clipboard and the counts
    /// of the transfer are in `self` as in `other`.
    pub open spec fn same_counts(&self, other: &Nav) -> bool {
        &&& self.useful_rows == other.useful_rows
        &&& self.settings == other.settings
        &&& self.is_cut == other.is_cut
        &&& self.mv_cp_total_size == other.mv_cp_total_size
        &&& self.mv_cp_size == other.mv_cp_size
    }

    /// No transfer is under way.
    pub open spec fn idle(&self) -> bool {
        self.mv_cp_total_size == 0 && self.mv_cp_size == 0
    }

    /// Nothing differs between `self` and `other` but the snapshots in the cache.
    pub open spec fn same_but_dirs(&self, other: &Nav) -> bool {
        &&& self.useful_rows == other.useful_rows
        &&& self.settings == other.settings
        &&& self.dir_cache@.len() == other.dir_cache@.len()
        &&& self.dirs == other.dirs
        &&& self.dir_preview == other.dir_preview
        &&& self.reg_cache == other.reg_cache
        &&& self.reg_preview == other.reg_preview
        &&& self.cmd_prefix == other.cmd_prefix
        &&& self.cmd_string == other.cmd_string
        &&& self.cmd_string_ind == other.cmd_string_ind
        &&& self.search_string == other.search_string
        &&& self.search_direction == other.search_direction
        &&& self.selections == other.selections
        &&& self.cut_or_copy == other.cut_or_copy
        &&& self.is_cut == other.is_cut
        &&& self.mv_cp_total_size == other.mv_cp_total_size
        &&& self.mv_cp_size == other.mv_cp_size
        &&& self.error_message == other.error_message
    }

    /// Nothing differs between `self` and `other` but the snapshot at `h`,
    /// and of that nothing but the viewport.
    pub open spec fn same_but_viewport(&self, other: &Nav, h: int) -> bool {
        &&& self.same_but_dirs(other)
        &&& forall|i: int|
            0 <= i < self.dir_cache@.len() && i != h ==> #[trigger] self.dir_cache@[i] == other.dir_cache@[i]
        &&& 0 <= h < self.dir_cache@.len() ==> self.dir_cache@[h].same_listing(&other.dir_cache@[h])
    }

    /// Nothing differs between `self` and `other` but the selection and the clipboard.
    pub open spec fn same_but_sets(&self, other: &Nav) -> bool {
        &&& self.useful_rows == other.useful_rows
        &&& self.settings == other.settings
        &&& self.dir_cache == other.dir_cache
        &&& self.dirs == other.dirs
        &&& self.dir_preview == other.dir_preview
        &&& self.reg_cache == other.reg_cache
        &&& self.reg_preview == other.reg_preview
        &&& self.cmd_prefix == other.cmd_prefix
        &&& self.cmd_string == other.cmd_string
        &&& self.cmd_string_ind == other.cmd_string_ind
        &&& self.search_string == other.search_string
        &&& self.search_direction == other.search_direction
        &&& self.mv_cp_total_size == other.mv_cp_total_size
        &&& self.mv_cp_size == other.mv_cp_size
        &&& self.error_message == other.error_message
    }

    /// The viewport of the current directory is in `self` as a move of
    /// `step` entries down from where it was in `before` leaves it.
    pub open spec fn went_down(&self, before: &Nav, step: int) -> bool {
        (self.spec_cdir().sp as int, self.spec_cdir().bp as int) == clamp_viewport(
            before.spec_cdir().files_len as int,
            least(before.useful_rows as int, before.spec_cdir().files_len as int),
            moved_down(
                before.spec_cdir().files_len as int,
                least(before.useful_rows as int, before.spec_cdir().files_len as int),
                before.spec_cdir().sp as int,
                before.spec_cdir().bp as int,
                step,
            ).0,
            moved_down(
                before.spec_cdir().files_len as int,
                least(before.useful_rows as int, before.spec_cdir().files_len as int),
                before.spec_cdir().sp as int,
                before.spec_cdir().bp as int,
                step,
            ).1,
        )
    }

    /// The path of the entry under the cursor of the current directory.
    pub open spec fn spec_cfile(&self) -> Option<Seq<char>> {
        if self.spec_cdir().cursor() < self.spec_cdir().visible().len() {
            Some(self.spec_cdir().visible()[self.spec_cdir().cursor()].file_path@)
        } else {
            None
        }
    }

    /// Nothing differs between `self` and `other` but the snapshot of the
    /// current directory, the pattern and direction of the search, and the
    /// message.
    pub open spec fn same_but_search(&self, other: &Nav) -> bool {
        &&& self.useful_rows == other.useful_rows
        &&& self.settings == other.settings
        &&& self.dir_cache@.len() == other.dir_cache@.len()
        &&& forall|i: int|
            0 <= i < self.dir_cache@.len() && i != other.current() ==> #[trigger] self.dir_cache@[i]
                == other.dir_cache@[i]
        &&& self.dirs == other.dirs
        &&& self.dir_preview == other.dir_preview
        &&& self.reg_cache == other.reg_cache
        &&& self.reg_preview == other.reg_preview
        &&& self.cmd_prefix == other.cmd_prefix
        &&& self.cmd_string == other.cmd_string
        &&& self.cmd_string_ind == other.cmd_string_ind
        &&& self.selections == other.selections
        &&& self.cut_or_copy == other.cut_or_copy
        &&& self.is_cut == other.is_cut
        &&& self.mv_cp_total_size == other.mv_cp_total_size
        &&& self.mv_cp_size == other.mv_cp_size
    }

    /// The pattern that a search looks for: what stands on the command
    /// line, or the pattern of the search before where nothing stands there.
    pub open spec fn pattern(&self) -> Seq<char> {
        if self.cmd_string@.len() > 0 {
            self.cmd_string@
        } else {
            self.search_string@
        }
    }

    /// Whether a search goes forward by itself: a command line that began
    /// with a slash says yes, one that began with a question mark no, and
    /// else it is as in the search before.
    pub open spec fn forward(&self) -> bool {
        if self.cmd_prefix == '/' {
            true
        } else if self.cmd_prefix == '?' {
            false
        } else {
            self.search_direction
        }
    }

    /// Nothing differs between `self` and `other` but the cache of directories.
    pub open spec fn same_but_cache(&self, other: &Nav) -> bool {
        &&& self.dirs == other.dirs
        &&& self.dir_preview == other.dir_preview
        &&& self.same_but_tree(other)
    }

    /// Nothing differs between `self` and `other` but the cache of
    /// directories, the chain, and the preview of a directory.
    pub open spec fn same_but_tree(&self, other: &Nav) -> bool {
        &&& self.useful_rows == other.useful_rows
        &&& self.settings == other.settings
        &&& self.reg_cache == other.reg_cache
        &&& self.reg_preview == other.reg_preview
        &&& self.cmd_prefix == other.cmd_prefix
        &&& self.cmd_string == other.cmd_string
        &&& self.cmd_string_ind == other.cmd_string_ind
        &&& self.search_string == other.search_string
        &&& self.search_direction == other.search_direction
        &&& self.selections == other.selections
        &&& self.cut_or_copy == other.cut_or_copy
        &&& self.is_cut == other.is_cut
        &&& self.mv_cp_total_size == other.mv_cp_total_size
        &&& self.mv_cp_size == other.mv_cp_size
        &&& self.error_message == other.error_message
    }

    /// The cache holds every snapshot that it held in `before`, in its
    /// place and as it was, and behind them only snapshots that are not yet
    /// loaded.
    pub open spec fn grown_from(&self, before: &Nav) -> bool {
        &&& before.dir_cache@.len() <= self.dir_cache@.len()
        &&& forall|i: int| 0 <= i < before.dir_cache@.len() ==> #[trigger] self.dir_cache@[i] == before.dir_cache@[i]
        &&& forall|i: int|
            before.dir_cache@.len() <= i < self.dir_cache@.len() ==> (#[trigger] self.dir_cache@[i]).unloaded(
                &before.settings,
            )
    }

    /// The chain leads through the directories `chain`, each by the
    /// snapshot that the cache holds for it.
    pub open spec fn chained(&self, chain: Seq<Seq<char>>) -> bool {
        &&& self.dirs@.len() == chain.len()
        &&& forall|k: int|
            0 <= k < chain.len() ==> (#[trigger] self.dirs@[k]) == place_of(self.dir_cache@, chain[k], 0)
                && self.dirs@[k] < self.dir_cache@.len() && self.dir_cache@[self.dirs@[k] as int].dir_path@
                == chain[k]
    }

    /// An engine for a terminal of `rows` rows, with nothing loaded, nothing
    /// selected, and no transfer under way.
    pub fn new(rows: u16) -> (r: Nav)
        requires
            rows > 4,
        ensures
            r.wf(),
            r.useful_rows == rows - 4,
            r.dir_cache@.len() == 0,
            r.dirs@.len() == 0,
            r.dir_preview is None,
            r.reg_cache@.len() == 0,
            r.reg_preview is None,
            r.cmd_prefix == '\0',
            r.cmd_string@.len() == 0,
            r.cmd_string_ind == 0,
            r.search_string@.len() == 0,
            r.search_direction,
            r.selections@ == Set::<Seq<char>>::empty(),
            r.cut_or_copy@ == Set::<Seq<char>>::empty(),
            !r.is_cut,
            r.idle(),
            r.error_message@.len() == 0,
            r.settings.hidden,
            r.settings.sort_type == crate::dir::SortType::Natural,
    {
        Nav {
            useful_rows: rows - 4,
            settings: Settings::new(),
            dir_cache: Vec::new(),
            dirs: Vec::new(),
            dir_preview: None,
            reg_cache: Vec::new(),
            reg_preview: None,
            cmd_prefix: '\0',
            cmd_string: String::new(),
            cmd_string_ind: 0,
            search_string: String::new(),
            search_direction: true,
            selections: PathSet::new(),
            cut_or_copy: PathSet::new(),
            is_cut: false,
            mv_cp_total_size: 0,
            mv_cp_size: 0,
            error_message: String::new(),
        }
    }

    fn find_dir(&self, p: &str) -> (r: usize)
        ensures
            r == place_of(self.dir_cache@, p@, 0),
            r <= self.dir_cache@.len(),
    {
        let mut i: usize = 0;
        while i < self.dir_cache.len()
            invariant
                i <= self.dir_cache@.len(),
                place_of(self.dir_cache@, p@, 0) == place_of(self.dir_cache@, p@, i as int),
            decreases self.dir_cache.len() - i,
        {
            if str_eq(self.dir_cache[i].dir_path.as_str(), p) {
                return i;
            }
            i += 1;
        }
        i
    }

    /// The place of the snapshot of `p` in the cache. The first time a path
    /// is asked for, a snapshot that is not yet loaded is made for it; from
    /// then on the same snapshot is given, and nothing changes.
    pub fn load_dir(&mut self, p: &str) -> (h: usize)
        requires
            old(self).wf(),
        ensures
            final(self).wf(),
            final(self).same_but_cache(old(self)),
            final(self).grown_from(old(self)),
            h == place_of(old(self).dir_cache@, p@, 0),
            h == place_of(final(self).dir_cache@, p@, 0),
            h < final(self).dir_cache@.len(),
            final(self).dir_cache@[h as int].dir_path@ == p@,
            h < old(self).dir_cache@.len() ==> final(self).dir_cache@ == old(self).dir_cache@,
            h == old(self).dir_cache@.len() ==> final(self).dir_cache@ == old(self).dir_cache@.push(
                final(self).dir_cache@[h as int],
            ),
    {
        let h = self.find_dir(p);
        proof {
            lemma_place_of(self.dir_cache@, p@, 0);
        }
        if h == self.dir_cache.len() {
            let fresh = Dir::new(p, &self.settings);
            let ghost before = self.dir_cache@;
            self.dir_cache.push(fresh);
            proof {
                lemma_same_snapshot(before, p@, fresh, fresh);
            }
        }
        h
    }

    /// The snapshot of the current directory.
    pub fn cdir(&self) -> (r: &Dir)
        requires
            self.wf(),
            self.dirs@.len() > 0,
        ensures
            *r == self.spec_cdir(),
            r.wf(),
    {
        let h = self.dirs[self.dirs.len() - 1];
        &self.dir_cache[h]
    }

    /// The path of the entry under the cursor of the current directory,
    /// where the cursor is on one.
    pub fn cfile(&self) -> (r: Option<String>)
        requires
            self.wf(),
            self.dirs@.len() > 0,
        ensures
            match r {
                Some(p) => self.spec_cdir().cursor() < self.spec_cdir().visible().len() && p
                    == self.spec_cdir().visible()[self.spec_cdir().cursor()].file_path,
                None => self.spec_cdir().cursor() >= self.spec_cdir().visible().len(),
            },
    {
        match self.cdir().current() {
            Some(f) => Some(f.file_path.clone()),
            None => None,
        }
    }

    /// Moves the cursor of the current directory up: see `Dir::up`.
    pub fn up(&mut self, step: usize)
        requires
            old(self).wf(),
            old(self).dirs@.len() > 0,
        ensures
            final(self).wf(),
            final(self).same_but_viewport(old(self), old(self).current()),
            (final(self).spec_cdir().sp as int, final(self).spec_cdir().bp as int) == clamp_viewport(
                old(self).spec_cdir().files_len as int,
                old(self).useful_rows as int,
                moved_up(
                    old(self).spec_cdir().sp as int,
                    old(self).spec_cdir().bp as int,
                    step as int,
                ).0,
                moved_up(
                    old(self).spec_cdir().sp as int,
                    old(self).spec_cdir().bp as int,
                    step as int,
                ).1,
            ),
            old(self).spec_cdir().cursor() < old(self).spec_cdir().files_len ==> final(self).spec_cdir().cursor()
                == most(old(self).spec_cdir().cursor() - step, 0),
    {
        let h = self.dirs[self.dirs.len() - 1];
        let rows = self.useful_rows as usize;
        self.dir_cache[h].up(step, rows);
    }

    /// Moves the cursor of the current directory down: see `Dir::down`.
    pub fn down(&mut self, step: usize)
        requires
            old(self).wf(),
            old(self).dirs@.len() > 0,
        ensures
            final(self).wf(),
            final(self).same_but_viewport(old(self), old(self).current()),
            final(self).selections == old(self).selections,
            final(self).went_down(old(self), step as int),
            old(self).spec_cdir().cursor() + step < old(self).spec_cdir().files_len && old(self).spec_cdir().bp
                + step < old(self).useful_rows ==> final(self).spec_cdir().cursor()
                == old(self).spec_cdir().cursor() + step,
    {
        let h = self.dirs[self.dirs.len() - 1];
        let rows = self.useful_rows as usize;
        self.dir_cache[h].down(step, rows);
    }

    /// Puts the cursor of the current directory on its first entry.
    pub fn top(&mut self)
        requires
            old(self).wf(),
            old(self).dirs@.len() > 0,
        ensures
            final(self).wf(),
            final(self).same_but_viewport(old(self), old(self).current()),
            final(self).spec_cdir().sp == 0,
            final(self).spec_cdir().bp == 0,
    {
        let h = self.dirs[self.dirs.len() - 1];
        self.dir_cache[h].top();
    }

    /// Puts the cursor of the current directory on its last entry, at the
    /// bottom of the window.
    pub fn bottom(&mut self)
        requires
            old(self).wf(),
            old(self).dirs@.len() > 0,
        ensures
            final(self).wf(),
            final(self).same_but_viewport(old(self), old(self).current()),
            (final(self).spec_cdir().sp as int, final(self).spec_cdir().bp as int) == at_bottom(
                old(self).spec_cdir().files_len as int,
                old(self).useful_rows as int,
            ),
            old(self).spec_cdir().files_len > 0 ==> final(self).spec_cdir().cursor()
                == old(self).spec_cdir().files_len - 1,
    {
        let h = self.dirs[self.dirs.len() - 1];
        let rows = self.useful_rows as usize;
        self.dir_cache[h].bottom(rows);
    }

    fn toggle_selection(&mut self, path: &str)
        requires
            old(self).wf(),
        ensures
            final(self).wf(),
            final(self).same_but_sets(old(self)),
            final(self).cut_or_copy == old(self).cut_or_copy,
            final(self).is_cut == old(self).is_cut,
            final(self).selections@ == toggled(old(self).selections@, path@),
    {
        self.selections.toggle(path);
    }

    /// Toggles the entry under the cursor in the selection, where the
    /// cursor is on one and `exists` says that it is still there, then moves
    /// the cursor one entry down.
    pub fn toggle(&mut self, exists: bool)
        requires
            old(self).wf(),
            old(self).dirs@.len() > 0,
        ensures
            final(self).wf(),
            final(self).dirs == old(self).dirs,
            final(self).cut_or_copy == old(self).cut_or_copy,
            final(self).same_lines(old(self)),
            final(self).same_counts(old(self)),
            final(self).error_message == old(self).error_message,
            final(self).dir_preview == old(self).dir_preview,
            final(self).reg_cache == old(self).reg_cache,
            final(self).reg_preview == old(self).reg_preview,
            final(self).dir_cache@.len() == old(self).dir_cache@.len(),
            forall|i: int|
                0 <= i < final(self).dir_cache@.len() && i != old(self).current() ==> #[trigger] final(self).dir_cache@[i] == old(self).dir_cache@[i],
            final(self).spec_cdir().same_listing(&old(self).spec_cdir()),
            final(self).went_down(old(self), 1),
            final(self).selections@ == match old(self).spec_cfile() {
                Some(p) => if exists {
                    toggled(old(self).selections@, p)
                } else {
                    old(self).selections@
                },
                None => old(self).selections@,
            },
    {
        match self.cfile() {
            Some(path) => {
                if exists {
                    self.toggle_selection(path.as_str());
                }
            },
            None => {},
        }
        self.down(1);
    }

    /// Empties the selection.
    pub fn unselect(&mut self)
        requires
            old(self).wf(),
        ensures
            final(self).wf(),
            final(self).same_but_sets(old(self)),
            final(self).cut_or_copy == old(self).cut_or_copy,
            final(self).is_cut == old(self).is_cut,
            final(self).selections@ == Set::<Seq<char>>::empty(),
    {
        self.selections.clear();
    }

    /// Toggles every entry shown of the current directory in the selection,
    /// from the first to the last: the `i`-th where `exists` holds a `true`
    /// at `i`.
    pub fn toggle_all(&mut self, exists: &Vec<bool>)
        requires
            old(self).wf(),
            old(self).dirs@.len() > 0,
        ensures
            final(self).wf(),
            final(self).same_but_sets(old(self)),
            final(self).cut_or_copy == old(self).cut_or_copy,
            final(self).is_cut == old(self).is_cut,
            final(self).selections@ == toggled_all(
                old(self).selections@,
                old(self).spec_cdir().visible(),
                exists@,
                old(self).spec_cdir().visible().len() as int,
            ),
    {
        let h = self.dirs[self.dirs.len() - 1];
        match self.dir_cache[h].files() {
            Some(files) => {
                let mut i: usize = 0;
                while i < files.len()
                    invariant
                        i <= files@.len(),
                        files@ == old(self).spec_cdir().visible(),
                        self.selections.wf(),
                        self.same_but_sets(old(self)),
                        self.cut_or_copy == old(self).cut_or_copy,
                        self.is_cut == old(self).is_cut,
                        self.selections@ == toggled_all(old(self).selections@, files@, exists@, i as int),
                    decreases files.len() - i,
                {
                    if i < exists.len() && exists[i] {
                        self.selections.toggle(files[i].file_path.as_str());
                    }
                    i += 1;
                }
            },
            None => {},
        }
    }

    fn cut_or_copy(&mut self, exists: bool)
        requires
            old(self).wf(),
            old(self).dirs@.len() > 0,
        ensures
            final(self).wf(),
            final(self).same_but_sets(old(self)),
            final(self).is_cut == old(self).is_cut,
            old(self).selections.items@.len() > 0 ==> final(self).cut_or_copy == old(self).selections
                && final(self).selections@ == Set::<Seq<char>>::empty() && final(self).selections.items@.len()
                == 0,
            old(self).selections.items@.len() == 0 ==> final(self).selections == old(self).selections
                && final(self).cut_or_copy@ == match old(self).spec_cfile() {
                Some(p) => if exists {
                    Set::<Seq<char>>::empty().insert(p)
                } else {
                    Set::<Seq<char>>::empty()
                },
                None => Set::<Seq<char>>::empty(),
            },
    {
        self.cut_or_copy.clear();
        if self.selections.is_empty() {
            match self.cfile() {
                Some(path) => {
                    if exists {
                        self.cut_or_copy.insert(path);
                    }
                },
                None => {},
            }
        } else {
            std::mem::swap(&mut self.cut_or_copy, &mut self.selections);
        }
    }

    /// Puts the selection on the clipboard, to be moved, and empties it.
    /// Where nothing is selected the entry under the cursor goes there, if
    /// the cursor is on one and `exists` says that it is still there.
    pub fn cut(&mut self, exists: bool)
        requires
            old(self).wf(),
            old(self).dirs@.len() > 0,
        ensures
            final(self).wf(),
            final(self).same_but_sets(old(self)),
            final(self).is_cut,
            old(self).selections.items@.len() > 0 ==> final(self).cut_or_copy == old(self).selections
                && final(self).selections@ == Set::<Seq<char>>::empty(),
            old(self).selections.items@.len() == 0 ==> final(self).selections == old(self).selections
                && final(self).cut_or_copy@ == match old(self).spec_cfile() {
                Some(p) => if exists {
                    Set::<Seq<char>>::empty().insert(p)
                } else {
                    Set::<Seq<char>>::empty()
                },
                None => Set::<Seq<char>>::empty(),
            },
    {
        self.is_cut = true;
        self.cut_or_copy(exists);
    }

    /// As `cut`, but what is on the clipboard is to be copied.
    pub fn copy(&mut self, exists: bool)
        requires
            old(self).wf(),
            old(self).dirs@.len() > 0,
        ensures
            final(self).wf(),
            final(self).same_but_sets(old(self)),
            !final(self).is_cut,
            old(self).selections.items@.len() > 0 ==> final(self).cut_or_copy == old(self).selections
                && final(self).selections@ == Set::<Seq<char>>::empty(),
            old(self).selections.items@.len() == 0 ==> final(self).selections == old(self).selections
                && final(self).cut_or_copy@ == match old(self).spec_cfile() {
                Some(p) => if exists {
                    Set::<Seq<char>>::empty().insert(p)
                } else {
                    Set::<Seq<char>>::empty()
                },
                None => Set::<Seq<char>>::empty(),
            },
    {
        self.is_cut = false;
        self.cut_or_copy(exists);
    }

    /// Empties the clipboard.
    pub fn clear(&mut self)
        requires
            old(self).wf(),
        ensures
            final(self).wf(),
            final(self).same_but_sets(old(self)),
            final(self).selections == old(self).selections,
            final(self).is_cut == old(self).is_cut,
            final(self).cut_or_copy@ == Set::<Seq<char>>::empty(),
    {
        self.cut_or_copy.clear();
    }

    fn search_next(&mut self) -> (r: bool)
        requires
            old(self).wf(),
            old(self).dirs@.len() > 0,
        ensures
            final(self).wf(),
            final(self).same_but_viewport(old(self), old(self).current()),
            r == (found(old(self).spec_cdir().visible(), old(self).search_string@, old(self).spec_cdir().cursor(), true)
                >= 0),
            r ==> final(self).spec_cdir().cursor() == found(
                old(self).spec_cdir().visible(),
                old(self).search_string@,
                old(self).spec_cdir().cursor(),
                true,
            ) && final(self).spec_cdir().bp < old(self).useful_rows,
            r ==> final(self).spec_cdir().sp <= most(old(self).spec_cdir().files_len - old(self).useful_rows, 0),
            r ==> (final(self).spec_cdir().sp as int, final(self).spec_cdir().bp as int) == gone_to(
                old(self).spec_cdir().files_len as int,
                old(self).useful_rows as int,
                old(self).spec_cdir().sp as int,
                found(old(self).spec_cdir().visible(), old(self).search_string@, old(self).spec_cdir().cursor(), true),
            ),
            !r ==> final(self).dir_cache@ == old(self).dir_cache@,
    {
        self.search_to(true)
    }

    fn search_prev(&mut self) -> (r: bool)
        requires
            old(self).wf(),
            old(self).dirs@.len() > 0,
        ensures
            final(self).wf(),
            final(self).same_but_viewport(old(self), old(self).current()),
            r == (found(old(self).spec_cdir().visible(), old(self).search_string@, old(self).spec_cdir().cursor(), false)
                >= 0),
            r ==> final(self).spec_cdir().cursor() == found(
                old(self).spec_cdir().visible(),
                old(self).search_string@,
                old(self).spec_cdir().cursor(),
                false,
            ) && final(self).spec_cdir().bp < old(self).useful_rows,
            r ==> final(self).spec_cdir().sp <= most(old(self).spec_cdir().files_len - old(self).useful_rows, 0),
            r ==> (final(self).spec_cdir().sp as int, final(self).spec_cdir().bp as int) == gone_to(
                old(self).spec_cdir().files_len as int,
                old(self).useful_rows as int,
                old(self).spec_cdir().sp as int,
                found(old(self).spec_cdir().visible(), old(self).search_string@, old(self).spec_cdir().cursor(), false),
            ),
            !r ==> final(self).dir_cache@ == old(self).dir_cache@,
    {
        self.search_to(false)
    }

    fn search_to(&mut self, forward: bool) -> (r: bool)
        requires
            old(self).wf(),
            old(self).dirs@.len() > 0,
        ensures
            final(self).wf(),
            final(self).same_but_viewport(old(self), old(self).current()),
            r == (found(
                old(self).spec_cdir().visible(),
                old(self).search_string@,
                old(self).spec_cdir().cursor(),
                forward,
            ) >= 0),
            r ==> final(self).spec_cdir().cursor() == found(
                old(self).spec_cdir().visible(),
                old(self).search_string@,
                old(self).spec_cdir().cursor(),
                forward,
            ) && final(self).spec_cdir().bp < old(self).useful_rows,
            r ==> final(self).spec_cdir().sp <= most(old(self).spec_cdir().files_len - old(self).useful_rows, 0),
            r ==> (final(self).spec_cdir().sp as int, final(self).spec_cdir().bp as int) == gone_to(
                old(self).spec_cdir().files_len as int,
                old(self).useful_rows as int,
                old(self).spec_cdir().sp as int,
                found(old(self).spec_cdir().visible(), old(self).search_string@, old(self).spec_cdir().cursor(), forward),
            ),
            !r ==> final(self).dir_cache@ == old(self).dir_cache@,
    {
        let h = self.dirs[self.dirs.len() - 1];
        let rows = self.useful_rows as usize;
        match self.dir_cache[h].find(self.search_string.as_str(), forward) {
            Some(pos) => {
                self.dir_cache[h].go_to(pos, rows);
                true
            },
            None => false,
        }
    }

    /// Looks for the next entry of the current directory whose name holds
    /// the pattern, in the direction of the search, or against it (`rev`),
    /// and puts the cursor on it. The pattern is what stands on the command
    /// line; with an empty command line the search before is made again.
    /// Without any pattern the search fails with `EmptyPattern`; where no
    /// other entry matches it fails with `NotFound` and the cursor stays.
    /// A failure leaves a message.
    pub fn search(&mut self, rev: bool) -> (r: Result<(), NavError>)
        requires
            old(self).wf(),
            old(self).dirs@.len() > 0,
        ensures
            final(self).wf(),
            final(self).same_but_search(old(self)),
            final(self).spec_cdir().same_listing(&old(self).spec_cdir()),
            final(self).search_string@ == old(self).pattern(),
            old(self).pattern().len() == 0 ==> {
                &&& r == Err::<(), NavError>(NavError::EmptyPattern)
                &&& final(self).dir_cache@ == old(self).dir_cache@
                &&& final(self).search_direction == old(self).search_direction
                &&& final(self).error_message@ == "ERROR: Search pattern is empty."@
            },
            old(self).pattern().len() > 0 ==> {
                let target = found(
                    old(self).spec_cdir().visible(),
                    old(self).pattern(),
                    old(self).spec_cdir().cursor(),
                    old(self).forward() != rev,
                );
                &&& final(self).search_direction == old(self).forward()
                &&& target >= 0 ==> {
                    &&& r == Ok::<(), NavError>(())
                    &&& final(self).spec_cdir().cursor() == target
                    &&& final(self).spec_cdir().bp < old(self).useful_rows
                    &&& final(self).spec_cdir().sp <= most(
                        old(self).spec_cdir().files_len - old(self).useful_rows,
                        0,
                    )
                    &&& (final(self).spec_cdir().sp as int, final(self).spec_cdir().bp as int) == gone_to(
                        old(self).spec_cdir().files_len as int,
                        old(self).useful_rows as int,
                        old(self).spec_cdir().sp as int,
                        target,
                    )
                    &&& final(self).error_message == old(self).error_message
                }
                &&& target < 0 ==> {
                    &&& r == Err::<(), NavError>(NavError::NotFound)
                    &&& final(self).dir_cache@ == old(self).dir_cache@
                    &&& final(self).error_message@ == "No file found for pattern `"@ + old(self).pattern() + "`"@
                }
            },
    {
        if !self.cmd_string.as_str().is_empty() {
            self.search_string = self.cmd_string.clone();
        }
        if self.search_string.as_str().is_empty() {
            self.error_message = String::from_str("ERROR: Search pattern is empty.");
            return Err(NavError::EmptyPattern);
        }
        if self.cmd_prefix == '/' {
            self.search_direction = true;
        } else if self.cmd_prefix == '?' {
            self.search_direction = false;
        }
        let hit = if self.search_direction != rev {
            self.search_next()
        } else {
            self.search_prev()
        };
        if hit {
            Ok(())
        } else {
            let mut message = String::from_str("No file found for pattern `");
            message.append(self.search_string.as_str());
            message.append("`");
            self.error_message = message;
            Err(NavError::NotFound)
        }
    }

    /// Makes the chain lead to `p`: from the root through every directory
    /// on the way, each by its snapshot in the cache. Snapshots that the
    /// cache did not hold are made, not yet loaded.
    pub fn load_dirs(&mut self, p: &str)
        requires
            old(self).wf(),
        ensures
            final(self).wf(),
            final(self).same_but_tree(old(self)),
            final(self).dir_preview == old(self).dir_preview,
            final(self).grown_from(old(self)),
            final(self).chained(spec_ancestors(p@)),
    {
        let chain = ancestors(p);
        self.dirs = Vec::new();
        let mut k: usize = 0;
        while k < chain.len()
            invariant
                k <= chain@.len(),
                chain@.len() == spec_ancestors(p@).len(),
                forall|j: int| 0 <= j < chain@.len() ==> (#[trigger] chain@[j])@ == spec_ancestors(p@)[j],
                self.wf(),
                self.same_but_tree(old(self)),
                self.dir_preview == old(self).dir_preview,
                self.grown_from(old(self)),
                self.dirs@.len() == k,
                forall|j: int|
                    0 <= j < k ==> (#[trigger] self.dirs@[j]) == place_of(self.dir_cache@, spec_ancestors(p@)[j], 0)
                        && self.dirs@[j] < self.dir_cache@.len() && self.dir_cache@[self.dirs@[j] as int].dir_path@
                        == spec_ancestors(p@)[j],
            decreases chain.len() - k,
        {
            let ghost before = *self;
            let h = self.load_dir(chain[k].as_str());
            proof {
                assert forall|j: int| 0 <= j < k implies (#[trigger] self.dirs@[j]) == place_of(
                    self.dir_cache@,
                    spec_ancestors(p@)[j],
                    0,
                ) && self.dir_cache@[self.dirs@[j] as int].dir_path@ == spec_ancestors(p@)[j] by {
                    lemma_place_grown(before.dir_cache@, self.dir_cache@, spec_ancestors(p@)[j], 0);
                }
            }
            self.dirs.push(h);
            k += 1;
        }
    }

    /// The name of the directory that follows the `k`-th in the chain: the
    /// entry on which the cursor of the `k`-th belongs. Nothing for the last.
    pub fn chain_name(&self, k: usize) -> (r: Option<String>)
        requires
            self.wf(),
        ensures
            match r {
                Some(n) => k + 1 < self.dirs@.len() && n@ == spec_base_name(
                    self.dir_cache@[self.dirs@[k + 1] as int].dir_path@,
                ),
                None => k + 1 >= self.dirs@.len(),
            },
    {
        if k < self.dirs.len() && k + 1 < self.dirs.len() {
            let h = self.dirs[k + 1];
            Some(base_name(self.dir_cache[h].dir_path.as_str()))
        } else {
            None
        }
    }

    /// Goes into the directory `p`: its snapshot becomes the last of the chain.
    pub fn open_dir(&mut self, p: &str) -> (h: usize)
        requires
            old(self).wf(),
        ensures
            final(self).wf(),
            final(self).same_but_tree(old(self)),
            final(self).dir_preview == old(self).dir_preview,
            final(self).grown_from(old(self)),
            final(self).dirs@ == old(self).dirs@.push(h),
            h == place_of(old(self).dir_cache@, p@, 0),
            h == place_of(final(self).dir_cache@, p@, 0),
            final(self).spec_cdir().dir_path@ == p@,
    {
        let h = self.load_dir(p);
        self.dirs.push(h);
        h
    }

    /// Goes up to the parent directory: the chain loses its last
    /// directory, unless it is the only one.
    pub fn up_dir(&mut self)
        requires
            old(self).wf(),
        ensures
            final(self).wf(),
            final(self).same_but_tree(old(self)),
            final(self).dir_preview == old(self).dir_preview,
            final(self).dir_cache == old(self).dir_cache,
            final(self).dirs@ == if old(self).dirs@.len() > 1 {
                old(self).dirs@.drop_last()
            } else {
                old(self).dirs@
            },
    {
        if self.dirs.len() > 1 {
            self.dirs.pop();
        }
    }

    fn find_reg(&self, p: &str) -> (r: usize)
        ensures
            r == reg_place_of(self.reg_cache@, p@, 0),
            r <= self.reg_cache@.len(),
    {
        let mut i: usize = 0;
        while i < self.reg_cache.len()
            invariant
                i <= self.reg_cache@.len(),
                reg_place_of(self.reg_cache@, p@, 0) == reg_place_of(self.reg_cache@, p@, i as int),
            decreases self.reg_cache.len() - i,
        {
            if str_eq(self.reg_cache[i].path.as_str(), p) {
                return i;
            }
            i += 1;
        }
        i
    }

    /// The place of the preview of the file `p` in its cache. The first
    /// time a path is asked for, a preview that is not yet loaded is made;
    /// from then on the same one is given.
    pub fn load_reg(&mut self, p: &str) -> (h: usize)
        requires
            old(self).wf(),
        ensures
            final(self).wf(),
            final(self).dir_cache == old(self).dir_cache,
            final(self).dirs == old(self).dirs,
            final(self).dir_preview == old(self).dir_preview,
            final(self).reg_preview == old(self).reg_preview,
            final(self).selections == old(self).selections,
            final(self).cut_or_copy == old(self).cut_or_copy,
            final(self).same_lines(old(self)),
            final(self).same_counts(old(self)),
            final(self).error_message == old(self).error_message,
            h == reg_place_of(old(self).reg_cache@, p@, 0),
            h < final(self).reg_cache@.len(),
            final(self).reg_cache@[h as int].path@ == p@,
            h < old(self).reg_cache@.len() ==> final(self).reg_cache@ == old(self).reg_cache@,
            h == old(self).reg_cache@.len() ==> final(self).reg_cache@ == old(self).reg_cache@.push(
                final(self).reg_cache@[h as int],
            ) && final(self).reg_cache@[h as int].loadtime == 0 && final(self).reg_cache@[h as int].lines@.len()
                == 0,
    {
        let h = self.find_reg(p);
        proof {
            lemma_reg_place_of(self.reg_cache@, p@, 0);
        }
        if h == self.reg_cache.len() {
            self.reg_cache.push(Reg::new(p));
        }
        h
    }

    /// Chooses what the preview pane shows: for a directory under the
    /// cursor its listing, for any other entry the text of the file. What was
    /// chosen is given back, to be loaded. With the cursor on no entry
    /// nothing changes.
    pub fn update_preview(&mut self) -> (r: Option<Preview>)
        requires
            old(self).wf(),
            old(self).dirs@.len() > 0,
        ensures
            final(self).wf(),
            final(self).dirs == old(self).dirs,
            final(self).selections == old(self).selections,
            final(self).cut_or_copy == old(self).cut_or_copy,
            final(self).same_lines(old(self)),
            final(self).same_counts(old(self)),
            final(self).error_message == old(self).error_message,
            final(self).grown_from(old(self)),
            match r {
                None => old(self).spec_cfile() is None && final(self).dir_cache == old(self).dir_cache
                    && final(self).reg_cache == old(self).reg_cache && final(self).dir_preview == old(self).dir_preview && final(self).reg_preview == old(self).reg_preview,
                Some(Preview::Dir(h)) => {
                    &&& old(self).spec_cfile() is Some
                    &&& old(self).spec_cdir().visible()[old(self).spec_cdir().cursor()].spec_is_dir()
                    &&& h == place_of(old(self).dir_cache@, old(self).spec_cfile()->0, 0)
                    &&& final(self).dir_preview == Some(h)
                    &&& final(self).reg_preview == old(self).reg_preview
                    &&& final(self).reg_cache == old(self).reg_cache
                    &&& final(self).dir_cache@[h as int].dir_path@ == old(self).spec_cfile()->0
                },
                Some(Preview::Reg(h)) => {
                    &&& old(self).spec_cfile() is Some
                    &&& !old(self).spec_cdir().visible()[old(self).spec_cdir().cursor()].spec_is_dir()
                    &&& h == reg_place_of(old(self).reg_cache@, old(self).spec_cfile()->0, 0)
                    &&& final(self).reg_preview == Some(h)
                    &&& final(self).dir_preview == old(self).dir_preview
                    &&& final(self).dir_cache == old(self).dir_cache
                    &&& final(self).reg_cache@[h as int].path@ == old(self).spec_cfile()->0
                },
            },
    {
        let (path, is_dir) = match self.cdir().current() {
            Some(f) => (f.file_path.clone(), f.is_dir()),
            None => {
                return None;
            },
        };
        if is_dir {
            let h = self.load_dir(path.as_str());
            self.dir_preview = Some(h);
            Some(Preview::Dir(h))
        } else {
            let h = self.load_reg(path.as_str());
            self.reg_preview = Some(h);
            Some(Preview::Reg(h))
        }
    }

    /// Brings the snapshot at `h` in step with its directory and the
    /// settings: see `Dir::refresh`.
    pub fn refresh_dir(&mut self, h: usize, mtime: u64, loaded: Option<Loaded>, name: Option<&str>)
        requires
            old(self).wf(),
            h < old(self).dir_cache@.len(),
        ensures
            final(self).wf(),
            final(self).same_but_dirs(old(self)),
            forall|i: int|
                0 <= i < final(self).dir_cache@.len() && i != h ==> #[trigger] final(self).dir_cache@[i] == old(self).dir_cache@[i],
            final(self).dir_cache@[h as int].worked(
                &old(self).dir_cache@[h as int],
                old(self).dir_cache@[h as int].spec_stale(mtime, &old(self).settings),
                loaded,
                &old(self).settings,
            ),
            name is None ==> (final(self).dir_cache@[h as int].sp as int, final(self).dir_cache@[h as int].bp as int)
                == clamp_viewport(
                final(self).dir_cache@[h as int].files_len as int,
                old(self).useful_rows as int,
                old(self).dir_cache@[h as int].sp as int,
                old(self).dir_cache@[h as int].bp as int,
            ),
            match name {
                Some(n) => final(self).dir_cache@[h as int].files_len > 0 ==> final(self).dir_cache@[h as int].cursor()
                    == crate::dir::sel_target(
                    final(self).dir_cache@[h as int].visible(),
                    n@,
                    clamp_viewport(
                        final(self).dir_cache@[h as int].files_len as int,
                        old(self).useful_rows as int,
                        old(self).dir_cache@[h as int].sp as int,
                        old(self).dir_cache@[h as int].bp as int,
                    ).0 + clamp_viewport(
                        final(self).dir_cache@[h as int].files_len as int,
                        old(self).useful_rows as int,
                        old(self).dir_cache@[h as int].sp as int,
                        old(self).dir_cache@[h as int].bp as int,
                    ).1,
                ),
                None => true,
            },
    {
        let rows = self.useful_rows as usize;
        let settings = self.settings;
        self.dir_cache[h].refresh(mtime, loaded, &settings, rows, name);
    }

    /// Takes in the lines that the previewer wrote for the preview at `h`:
    /// see `Reg::update`.
    pub fn refresh_reg(&mut self, h: usize, lines: Vec<String>, now: u64)
        requires
            old(self).wf(),
            h < old(self).reg_cache@.len(),
        ensures
            final(self).wf(),
            final(self).dir_cache == old(self).dir_cache,
            final(self).dirs == old(self).dirs,
            final(self).dir_preview == old(self).dir_preview,
            final(self).reg_preview == old(self).reg_preview,
            final(self).selections == old(self).selections,
            final(self).cut_or_copy == old(self).cut_or_copy,
            final(self).same_lines(old(self)),
            final(self).same_counts(old(self)),
            final(self).error_message == old(self).error_message,
            final(self).reg_cache@.len() == old(self).reg_cache@.len(),
            forall|i: int|
                0 <= i < final(self).reg_cache@.len() && i != h ==> #[trigger] final(self).reg_cache@[i] == old(self).reg_cache@[i],
            final(self).reg_cache@[h as int].path == old(self).reg_cache@[h as int].path,
            final(self).reg_cache@[h as int].loadtime == now,
            lines@.len() > 0 ==> final(self).reg_cache@[h as int].lines == lines,
            lines@.len() == 0 ==> final(self).reg_cache@[h as int].lines@.len() == 1 && final(self).reg_cache@[h as int].lines@[0]@ == "\x1b[7mbinary\x1b[0m"@,
    {
        self.reg_cache[h].update(lines, now);
    }

    fn first_in_chain(&self, h: usize) -> (r: usize)
        ensures
            r == first_place(self.dirs@, h as int, 0),
            r <= self.dirs@.len(),
    {
        let mut k: usize = 0;
        while k < self.dirs.len()
            invariant
                k <= self.dirs@.len(),
                first_place(self.dirs@, h as int, 0) == first_place(self.dirs@, h as int, k as int),
            decreases self.dirs.len() - k,
        {
            if self.dirs[k] == h {
                return k;
            }
            k += 1;
        }
        k
    }

    /// Makes every directory of the chain follow the settings: each is
    /// ordered anew as `Dir::resort` does. The other snapshots stay as they
    /// are, until they are next brought in step.
    pub fn sort(&mut self)
        requires
            old(self).wf(),
        ensures
            final(self).wf(),
            final(self).same_but_dirs(old(self)),
            forall|i: int|
                0 <= i < final(self).dir_cache@.len() ==> if first_place(old(self).dirs@, i, 0) < old(self).dirs@.len() {
                    (#[trigger] final(self).dir_cache@[i]).resorted(
                        &old(self).dir_cache@[i],
                        &old(self).settings,
                        old(self).useful_rows as int,
                    )
                } else {
                    final(self).dir_cache@[i] == old(self).dir_cache@[i]
                },
    {
        let rows = self.useful_rows as usize;
        let settings = self.settings;
        let mut k: usize = 0;
        proof {
            assert forall|i: int| 0 <= i < self.dir_cache@.len() implies #[trigger] first_place(
                old(self).dirs@,
                i,
                0,
            ) >= 0 by {
                lemma_first_place(old(self).dirs@, i, 0);
            }
        }
        while k < self.dirs.len()
            invariant
                k <= self.dirs@.len(),
                rows == old(self).useful_rows,
                settings == old(self).settings,
                self.wf(),
                self.same_but_dirs(old(self)),
                forall|i: int|
                    0 <= i < self.dir_cache@.len() ==> if first_place(old(self).dirs@, i, 0) < k {
                        (#[trigger] self.dir_cache@[i]).resorted(&old(self).dir_cache@[i], &settings, rows as int)
                    } else {
                        self.dir_cache@[i] == old(self).dir_cache@[i]
                    },
            decreases self.dirs.len() - k,
        {
            let h = self.dirs[k];
            let first = self.first_in_chain(h);
            let ghost before = self.dir_cache@;
            if first == k {
                self.dir_cache[h].resort(&settings, rows);
            }
            proof {
                assert forall|i: int| 0 <= i < self.dir_cache@.len() implies if first_place(old(self).dirs@, i, 0) < k
                    + 1 {
                    (#[trigger] self.dir_cache@[i]).resorted(&old(self).dir_cache@[i], &settings, rows as int)
                } else {
                    self.dir_cache@[i] == old(self).dir_cache@[i]
                } by {
                    lemma_first_place(old(self).dirs@, i, 0);
                    if i != h {
                        assert(self.dir_cache@[i] == before[i]);
                    }
                }
            }
            k += 1;
        }
    }

    /// For each directory of the chain, whether it is to be read again:
    /// `mtimes` holds, in the order of the chain, the second at which each
    /// was last modified, or nothing where that could not be learnt.
    pub fn stale_dirs(&self, mtimes: &Vec<Option<u64>>) -> (r: Vec<bool>)
        requires
            self.wf(),
        ensures
            r@.len() == self.dirs@.len(),
            forall|k: int|
                0 <= k < r@.len() ==> #[trigger] r@[k] == (k < mtimes@.len() && mtimes@[k] is Some
                    && spec_reload_due(self.dir_cache@[self.dirs@[k] as int].loadtime, mtimes@[k]->0)),
    {
        let mut r: Vec<bool> = Vec::new();
        let mut k: usize = 0;
        while k < self.dirs.len()
            invariant
                k <= self.dirs@.len(),
                self.wf(),
                r@.len() == k,
                forall|j: int|
                    0 <= j < k ==> #[trigger] r@[j] == (j < mtimes@.len() && mtimes@[j] is Some && spec_reload_due(
                        self.dir_cache@[self.dirs@[j] as int].loadtime,
                        mtimes@[j]->0,
                    )),
            decreases self.dirs.len() - k,
        {
            let due = if k < mtimes.len() {
                match mtimes[k] {
                    Some(m) => reload_due(self.dir_cache[self.dirs[k]].loadtime, m),
                    None => false,
                }
            } else {
                false
            };
            r.push(due);
            k += 1;
        }
        r
    }

    /// Takes in what was read of the directories of the chain: `loads`
    /// holds, in the order of the chain, what was read of each, or nothing
    /// where it was not read. Each snapshot that was read takes it in as
    /// `Dir::reload` does; the others stay as they are.
    pub fn check_dirs(&mut self, loads: Vec<Option<Loaded>>)
        requires
            old(self).wf(),
        ensures
            final(self).wf(),
            final(self).same_but_dirs(old(self)),
            forall|i: int|
                0 <= i < final(self).dir_cache@.len() ==> {
                    let k = first_place(old(self).dirs@, i, 0);
                    if k < old(self).dirs@.len() && k < loads@.len() && loads@[k] is Some {
                        (#[trigger] final(self).dir_cache@[i]).reloaded(
                            &old(self).dir_cache@[i],
                            loads@[k]->0,
                            old(self).useful_rows as int,
                        )
                    } else {
                        final(self).dir_cache@[i] == old(self).dir_cache@[i]
                    }
                },
    {
        let rows = self.useful_rows as usize;
        let mut loads = loads;
        let ghost all = loads@;
        proof {
            assert(all.take(all.len() as int) =~= all);
            assert forall|i: int| 0 <= i < self.dir_cache@.len() implies 0 <= #[trigger] first_place(
                old(self).dirs@,
                i,
                0,
            ) by {
                lemma_first_place(old(self).dirs@, i, 0);
            }
        }
        while loads.len() > 0
            invariant
                rows == old(self).useful_rows,
                loads@.len() <= all.len(),
                loads@ == all.take(loads@.len() as int),
                self.wf(),
                self.same_but_dirs(old(self)),
                forall|i: int|
                    0 <= i < self.dir_cache@.len() ==> 0 <= #[trigger] first_place(old(self).dirs@, i, 0),
                forall|i: int|
                    0 <= i < self.dir_cache@.len() ==> {
                        let k = first_place(old(self).dirs@, i, 0);
                        if loads@.len() <= k && k < old(self).dirs@.len() && k < all.len() && all[k] is Some {
                            (#[trigger] self.dir_cache@[i]).reloaded(&old(self).dir_cache@[i], all[k]->0, rows as int)
                        } else {
                            self.dir_cache@[i] == old(self).dir_cache@[i]
                        }
                    },
            decreases loads@.len(),
        {
            let ghost before = self.dir_cache@;
            let load = loads.pop().unwrap();
            let k = loads.len();
            assert(load == all[k as int]);
            let ghost h: int = -1;
            if k < self.dirs.len() {
                let handle = self.dirs[k];
                let first = self.first_in_chain(handle);
                if first == k {
                    match load {
                        Some(l) => {
                            proof {
                                h = handle as int;
                                lemma_first_place(old(self).dirs@, h, 0);
                            }
                            self.dir_cache[handle].reload(l, rows);
                        },
                        None => {},
                    }
                }
            }
            proof {
                assert forall|i: int| 0 <= i < self.dir_cache@.len() implies {
                    let j = first_place(old(self).dirs@, i, 0);
                    if k <= j && j < old(self).dirs@.len() && j < all.len() && all[j] is Some {
                        (#[trigger] self.dir_cache@[i]).reloaded(&old(self).dir_cache@[i], all[j]->0, rows as int)
                    } else {
                        self.dir_cache@[i] == old(self).dir_cache@[i]
                    }
                } by {
                    lemma_first_place(old(self).dirs@, i, 0);
                    if i != h {
                        assert(self.dir_cache@[i] == before[i]);
                    }
                }
            }
        }
    }

    /// Goes to the directory `path`, where `is_dir` says that it is one:
    /// the chain then leads to it as `load_dirs` makes it. Else the engine
    /// stays where it is and leaves a message.
    pub fn cd(&mut self, path: &str, is_dir: bool) -> (r: Result<(), NavError>)
        requires
            old(self).wf(),
        ensures
            final(self).wf(),
            final(self).dir_preview == old(self).dir_preview,
            final(self).grown_from(old(self)),
            final(self).selections == old(self).selections,
            final(self).cut_or_copy == old(self).cut_or_copy,
            is_dir ==> r == Ok::<(), NavError>(()) && final(self).chained(spec_ancestors(path@))
                && final(self).same_but_tree(old(self)),
            !is_dir ==> r == Err::<(), NavError>(NavError::NotADirectory) && final(self).same_but_sets_and_message(
                old(self),
            ) && final(self).error_message@ == "No dir found for `"@ + path@ + "`"@,
    {
        if is_dir {
            self.load_dirs(path);
            Ok(())
        } else {
            let mut message = String::from_str("No dir found for `");
            message.append(path);
            message.append("`");
            self.error_message = message;
            Err(NavError::NotADirectory)
        }
    }

    /// The path of the entry under the cursor, and the path that it is to
    /// have when its name is `new_name`. With the cursor on no entry this
    /// fails and leaves a message.
    pub fn rename(&mut self, new_name: &str) -> (r: Result<(String, String), NavError>)
        requires
            old(self).wf(),
            old(self).dirs@.len() > 0,
        ensures
            final(self).wf(),
            final(self).same_but_sets_and_message(old(self)),
            final(self).selections == old(self).selections,
            final(self).cut_or_copy == old(self).cut_or_copy,
            match r {
                Ok(pair) => old(self).spec_cfile() == Some(pair.0@) && pair.1@ == spec_sibling(pair.0@, new_name@)
                    && final(self).error_message == old(self).error_message,
                Err(e) => e == NavError::NoFile && old(self).spec_cfile() is None && final(self).error_message@
                    == "No file to rename"@,
            },
    {
        match self.cfile() {
            Some(path) => {
                let to = sibling(path.as_str(), new_name);
                Ok((path, to))
            },
            None => {
                self.error_message = String::from_str("No file to rename");
                Err(NavError::NoFile)
            },
        }
    }

    /// After an entry of the current directory was renamed: takes in what
    /// was read of the directory since, and puts the cursor on the entry
    /// called `new_name`.
    pub fn renamed(&mut self, loaded: Loaded, new_name: &str)
        requires
            old(self).wf(),
            old(self).dirs@.len() > 0,
        ensures
            final(self).wf(),
            final(self).same_but_dirs(old(self)),
            forall|i: int|
                0 <= i < final(self).dir_cache@.len() && i != old(self).current() ==> #[trigger] final(self).dir_cache@[i] == old(self).dir_cache@[i],
            final(self).spec_cdir().worked(
                &old(self).spec_cdir(),
                crate::dir::Refresh::Reload,
                Some(loaded),
                &old(self).settings,
            ),
            final(self).spec_cdir().files_len > 0 ==> final(self).spec_cdir().cursor() == crate::dir::sel_target(
                final(self).spec_cdir().visible(),
                new_name@,
                old(self).spec_cdir().cursor(),
            ),
            final(self).spec_cdir().files_len == 0 ==> final(self).spec_cdir().sp == old(self).spec_cdir().sp
                && final(self).spec_cdir().bp == old(self).spec_cdir().bp,
    {
        let h = self.dirs[self.dirs.len() - 1];
        let rows = self.useful_rows as usize;
        self.dir_cache[h].update(loaded.readonly, loaded.listing, loaded.now);
        self.dir_cache[h].sel(new_name, rows);
    }

    fn selection_lines(&self) -> (r: String)
        ensures
            r@ == lines_of(self.selections.paths(), self.selections.items@.len() as int),
    {
        proof {
            reveal_strlit("\n");
        }
        let mut r = String::new();
        let mut i: usize = 0;
        while i < self.selections.items.len()
            invariant
                i <= self.selections.items@.len(),
                r@ == lines_of(self.selections.paths(), i as int),
                "\n"@ == seq!['\n'],
            decreases self.selections.items.len() - i,
        {
            if i > 0 {
                r.append("\n");
            }
            r.append(self.selections.items[i].as_str());
            i += 1;
            assert(r@ =~= lines_of(self.selections.paths(), i as int));
        }
        r
    }

    /// What a command that is run from the engine is told: the path of the
    /// entry under the cursor, or nothing; the paths selected, each on a line
    /// of its own; and the paths that the command is to work on, which are
    /// those selected, or the entry under the cursor where none is.
    pub fn export_files(&self) -> (r: (String, String, String))
        requires
            self.wf(),
            self.dirs@.len() > 0,
        ensures
            r.0@ == match self.spec_cfile() {
                Some(p) => p,
                None => Seq::<char>::empty(),
            },
            r.1@ == lines_of(self.selections.paths(), self.selections.items@.len() as int),
            r.2@ == if self.selections.items@.len() == 0 {
                r.0@
            } else {
                r.1@
            },
    {
        let current = match self.cfile() {
            Some(p) => p,
            None => String::new(),
        };
        let selected = self.selection_lines();
        let both = if self.selections.is_empty() {
            current.clone()
        } else {
            selected.clone()
        };
        (current, selected, both)
    }

    /// Nothing differs between `self` and `other` but the selection, the
    /// clipboard and the message.
    pub open spec fn same_but_sets_and_message(&self, other: &Nav) -> bool {
        &&& self.useful_rows == other.useful_rows
        &&& self.settings == other.settings
        &&& self.dir_cache == other.dir_cache
        &&& self.dirs == other.dirs
        &&& self.dir_preview == other.dir_preview
        &&& self.reg_cache == other.reg_cache
        &&& self.reg_preview == other.reg_preview
        &&& self.cmd_prefix == other.cmd_prefix
        &&& self.cmd_string == other.cmd_string
        &&& self.cmd_string_ind == other.cmd_string_ind
        &&& self.search_string == other.search_string
        &&& self.search_direction == other.search_direction
        &&& self.is_cut == other.is_cut
        &&& self.mv_cp_total_size == other.mv_cp_total_size
        &&& self.mv_cp_size == other.mv_cp_size
    }

    fn copy_paths(set: &PathSet) -> (r: Vec<String>)
        ensures
            r@ == set.items@,
    {
        let mut r: Vec<String> = Vec::new();
        let mut i: usize = 0;
        while i < set.items.len()
            invariant
                i <= set.items@.len(),
                r@ == set.items@.take(i as int),
            decreases set.items.len() - i,
        {
            r.push(set.items[i].clone());
            i += 1;
            assert(r@ =~= set.items@.take(i as int));
        }
        assert(set.items@.take(i as int) =~= set.items@);
        r
    }

    /// Begins to copy or to move what is on the clipboard into the current
    /// directory, and gives the transfer to be run. It is turned down, with a
    /// message and without any other change, while another transfer is under
    /// way (`TransferBusy`), with an empty clipboard (`EmptyClipboard`), and
    /// where the directory cannot be written to (`DestinationReadOnly`), in
    /// this order. A move empties the clipboard at once.
    pub fn paste(&mut self) -> (r: Result<Transfer, NavError>)
        requires
            old(self).wf(),
            old(self).dirs@.len() > 0,
        ensures
            final(self).wf(),
            final(self).same_but_sets_and_message(old(self)),
            final(self).selections == old(self).selections,
            !old(self).idle() ==> {
                &&& r matches Err(e) && e == NavError::TransferBusy
                &&& final(self).cut_or_copy == old(self).cut_or_copy
                &&& final(self).error_message@ == "ERROR: `paste` or `remove` opration already in progress!!!"@
            },
            old(self).idle() && old(self).cut_or_copy.items@.len() == 0 ==> {
                &&& r matches Err(e) && e == NavError::EmptyClipboard
                &&& final(self).cut_or_copy == old(self).cut_or_copy
                &&& final(self).error_message@ == "ERROR: No selected file to paste!!!"@
            },
            old(self).idle() && old(self).cut_or_copy.items@.len() > 0 && old(self).spec_cdir().readonly ==> {
                &&& r matches Err(e) && e == NavError::DestinationReadOnly
                &&& final(self).cut_or_copy == old(self).cut_or_copy
                &&& final(self).error_message@ == "ERROR: target directory is readonly!!!"@
            },
            old(self).idle() && old(self).cut_or_copy.items@.len() > 0 && !old(self).spec_cdir().readonly ==> {
                &&& r matches Ok(t) && {
                    &&& t.wf()
                    &&& t.kind == if old(self).is_cut {
                        Kind::Move
                    } else {
                        Kind::Copy
                    }
                    &&& t.sources@ == old(self).cut_or_copy.items@
                    &&& t.dst_dir@ == old(self).spec_cdir().dir_path@
                    &&& t.phase == Phase::Planning
                    &&& t.index == 0
                    &&& t.sizes@.len() == 0
                    &&& t.total == 0
                    &&& t.pending == 0
                }
                &&& final(self).error_message == old(self).error_message
                &&& old(self).is_cut ==> final(self).cut_or_copy@ == Set::<Seq<char>>::empty() && final(self).cut_or_copy.items@.len() == 0
                &&& !old(self).is_cut ==> final(self).cut_or_copy == old(self).cut_or_copy
            },
    {
        if self.mv_cp_total_size != 0 || self.mv_cp_size != 0 {
            self.error_message = String::from_str("ERROR: `paste` or `remove` opration already in progress!!!");
            return Err(NavError::TransferBusy);
        }
        if self.cut_or_copy.is_empty() {
            self.error_message = String::from_str("ERROR: No selected file to paste!!!");
            return Err(NavError::EmptyClipboard);
        }
        let sources = Self::copy_paths(&self.cut_or_copy);
        let dst_dir = {
            let cdir = self.cdir();
            if cdir.readonly {
                None
            } else {
                Some(cdir.dir_path.clone())
            }
        };
        match dst_dir {
            None => {
                self.error_message = String::from_str("ERROR: target directory is readonly!!!");
                Err(NavError::DestinationReadOnly)
            },
            Some(dst) => {
                let kind = if self.is_cut {
                    Kind::Move
                } else {
                    Kind::Copy
                };
                if self.is_cut {
                    self.cut_or_copy.clear();
                }
                Ok(Transfer::new(kind, sources, dst))
            },
        }
    }

    /// Begins to delete what is selected, and gives the transfer to be
    /// run. It is turned down, with a message and without any other change,
    /// while another transfer is under way (`TransferBusy`) and where
    /// nothing is selected (`EmptySelection`). The selection is emptied at
    /// once.
    pub fn remove(&mut self) -> (r: Result<Transfer, NavError>)
        requires
            old(self).wf(),
        ensures
            final(self).wf(),
            final(self).same_but_sets_and_message(old(self)),
            final(self).cut_or_copy == old(self).cut_or_copy,
            !old(self).idle() ==> {
                &&& r matches Err(e) && e == NavError::TransferBusy
                &&& final(self).selections == old(self).selections
                &&& final(self).error_message@ == "ERROR: `paste` or `remove` opration already in progress!!!"@
            },
            old(self).idle() && old(self).selections.items@.len() == 0 ==> {
                &&& r matches Err(e) && e == NavError::EmptySelection
                &&& final(self).selections == old(self).selections
                &&& final(self).error_message@ == "No selected file to remove"@
            },
            old(self).idle() && old(self).selections.items@.len() > 0 ==> {
                &&& r matches Ok(t) && {
                    &&& t.wf()
                    &&& t.kind == Kind::Remove
                    &&& t.sources@ == old(self).selections.items@
                    &&& t.phase == Phase::Planning
                    &&& t.index == 0
                    &&& t.sizes@.len() == 0
                    &&& t.total == 0
                    &&& t.pending == 0
                }
                &&& final(self).error_message == old(self).error_message
                &&& final(self).selections@ == Set::<Seq<char>>::empty()
                &&& final(self).selections.items@.len() == 0
            },
    {
        if self.mv_cp_total_size != 0 || self.mv_cp_size != 0 {
            self.error_message = String::from_str("ERROR: `paste` or `remove` opration already in progress!!!");
            return Err(NavError::TransferBusy);
        }
        if self.selections.is_empty() {
            self.error_message = String::from_str("No selected file to remove");
            return Err(NavError::EmptySelection);
        }
        let sources = Self::copy_paths(&self.selections);
        self.selections.clear();
        Ok(Transfer::new(Kind::Remove, sources, String::new()))
    }

    /// Takes in what a transfer says. A total begins the count of the
    /// bytes done anew, and a total of zero leaves the engine idle;
    /// progress adds to the bytes done; an error becomes the message.
    pub fn notice(&mut self, notice: Notice)
        requires
            old(self).wf(),
        ensures
            final(self).wf(),
            final(self).dir_cache == old(self).dir_cache,
            final(self).dirs == old(self).dirs,
            final(self).dir_preview == old(self).dir_preview,
            final(self).reg_cache == old(self).reg_cache,
            final(self).reg_preview == old(self).reg_preview,
            final(self).selections == old(self).selections,
            final(self).cut_or_copy == old(self).cut_or_copy,
            final(self).is_cut == old(self).is_cut,
            final(self).useful_rows == old(self).useful_rows,
            final(self).settings == old(self).settings,
            final(self).same_lines(old(self)),
            match notice {
                Notice::Total(n) => final(self).mv_cp_total_size == n && final(self).mv_cp_size == 0 && final(self).error_message == old(self).error_message,
                Notice::Progress(n) => final(self).mv_cp_total_size == old(self).mv_cp_total_size && final(self).mv_cp_size == added(old(self).mv_cp_size, n) && final(self).error_message == old(self).error_message,
                Notice::Error(m) => final(self).mv_cp_total_size == old(self).mv_cp_total_size && final(self).mv_cp_size == old(self).mv_cp_size && final(self).error_message == m,
            },
            notice matches Notice::Total(n) && n == 0 ==> final(self).idle(),
    {
        match notice {
            Notice::Total(n) => {
                self.mv_cp_total_size = n;
                self.mv_cp_size = 0;
            },
            Notice::Progress(n) => {
                self.mv_cp_size = if n > u64::MAX - self.mv_cp_size {
                    u64::MAX
                } else {
                    self.mv_cp_size + n
                };
            },
            Notice::Error(m) => {
                self.error_message = m;
            },
        }
    }

    /// Whether the program may end: not while a transfer is under way,
    /// which leaves a message.
    pub fn quit(&mut self) -> (r: bool)
        requires
            old(self).wf(),
        ensures
            final(self).wf(),
            r == old(self).idle(),
            final(self).same_but_sets_and_message(old(self)),
            final(self).selections == old(self).selections,
            final(self).cut_or_copy == old(self).cut_or_copy,
            r ==> final(self).error_message == old(self).error_message,
            !r ==> final(self).error_message@ == "`paste` or `remove` operation in progress"@,
    {
        if self.mv_cp_total_size == 0 && self.mv_cp_size == 0 {
            true
        } else {
            self.error_message = String::from_str("`paste` or `remove` operation in progress");
            false
        }
    }

    /// Takes over the height of the terminal, and brings the viewport of
    /// every directory of the chain into bounds for it.
    pub fn resize(&mut self, rows: u16)
        requires
            old(self).wf(),
            rows > 4,
        ensures
            final(self).wf(),
            final(self).useful_rows == rows - 4,
            final(self).dirs == old(self).dirs,
            final(self).dir_preview == old(self).dir_preview,
            final(self).selections == old(self).selections,
            final(self).cut_or_copy == old(self).cut_or_copy,
            final(self).same_lines(old(self)),
            final(self).settings == old(self).settings,
            final(self).is_cut == old(self).is_cut,
            final(self).mv_cp_total_size == old(self).mv_cp_total_size,
            final(self).mv_cp_size == old(self).mv_cp_size,
            final(self).error_message == old(self).error_message,
            final(self).reg_cache@.len() == 0,
            final(self).reg_preview is None,
            final(self).dir_cache@.len() == old(self).dir_cache@.len(),
            forall|i: int|
                0 <= i < final(self).dir_cache@.len() ==> (#[trigger] final(self).dir_cache@[i]).same_listing(
                    &old(self).dir_cache@[i],
                ),
            forall|i: int|
                0 <= i < final(self).dir_cache@.len() ==> if first_place(old(self).dirs@, i, 0) < old(self).dirs@.len() {
                    ((#[trigger] final(self).dir_cache@[i]).sp as int, final(self).dir_cache@[i].bp as int)
                        == clamp_viewport(
                        old(self).dir_cache@[i].files_len as int,
                        rows - 4,
                        old(self).dir_cache@[i].sp as int,
                        old(self).dir_cache@[i].bp as int,
                    )
                } else {
                    final(self).dir_cache@[i] == old(self).dir_cache@[i]
                },
    {
        self.useful_rows = rows - 4;
        self.reg_cache = Vec::new();
        self.reg_preview = None;
        let window = self.useful_rows as usize;
        let mut k: usize = 0;
        proof {
            assert forall|i: int| 0 <= i < self.dir_cache@.len() implies #[trigger] first_place(
                old(self).dirs@,
                i,
                0,
            ) >= 0 by {
                lemma_first_place(old(self).dirs@, i, 0);
            }
        }
        while k < self.dirs.len()
            invariant
                k <= self.dirs@.len(),
                window == rows - 4,
                self.wf(),
                self.useful_rows == rows - 4,
                self.dirs == old(self).dirs,
                self.dir_preview == old(self).dir_preview,
                self.selections == old(self).selections,
                self.cut_or_copy == old(self).cut_or_copy,
                self.same_lines(old(self)),
                self.settings == old(self).settings,
                self.is_cut == old(self).is_cut,
                self.mv_cp_total_size == old(self).mv_cp_total_size,
                self.mv_cp_size == old(self).mv_cp_size,
                self.error_message == old(self).error_message,
                self.reg_cache@.len() == 0,
                self.reg_preview is None,
                self.dir_cache@.len() == old(self).dir_cache@.len(),
                forall|i: int|
                    0 <= i < self.dir_cache@.len() ==> (#[trigger] self.dir_cache@[i]).same_listing(
                        &old(self).dir_cache@[i],
                    ),
                forall|i: int|
                    0 <= i < self.dir_cache@.len() ==> if first_place(old(self).dirs@, i, 0) < k {
                        ((#[trigger] self.dir_cache@[i]).sp as int, self.dir_cache@[i].bp as int) == clamp_viewport(
                            old(self).dir_cache@[i].files_len as int,
                            window as int,
                            old(self).dir_cache@[i].sp as int,
                            old(self).dir_cache@[i].bp as int,
                        )
                    } else {
                        self.dir_cache@[i] == old(self).dir_cache@[i]
                    },
            decreases self.dirs.len() - k,
        {
            let h = self.dirs[k];
            let first = self.first_in_chain(h);
            let ghost before = self.dir_cache@;
            if first == k {
                self.dir_cache[h].bound_position(window);
            }
            proof {
                assert forall|i: int| 0 <= i < self.dir_cache@.len() implies if first_place(old(self).dirs@, i, 0) < k
                    + 1 {
                    ((#[trigger] self.dir_cache@[i]).sp as int, self.dir_cache@[i].bp as int) == clamp_viewport(
                        old(self).dir_cache@[i].files_len as int,
                        window as int,
                        old(self).dir_cache@[i].sp as int,
                        old(self).dir_cache@[i].bp as int,
                    )
                } else {
                    self.dir_cache@[i] == old(self).dir_cache@[i]
                } by {
                    lemma_first_place(old(self).dirs@, i, 0);
                    if i != h {
                        assert(self.dir_cache@[i] == before[i]);
                    }
                }
                assert forall|i: int| 0 <= i < self.dir_cache@.len() implies (#[trigger] self.dir_cache@[i]).same_listing(
                    &old(self).dir_cache@[i],
                ) by {
                    if i != h {
                        assert(self.dir_cache@[i] == before[i]);
                    }
                }
            }
            k += 1;
        }
    }
}

} // verus!
