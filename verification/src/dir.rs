//! The snapshot of one directory: its listing, ordered and filtered, and the
//! viewport with the cursor in it.

use crate::config::{Settings, SCROLL_OFF};
use crate::file::File;
use crate::order::{compare, lemma_order_antisymmetric, lemma_order_transitive, natural_order, sign};
use crate::text::{bytes_of, contains_bytes, fold, name_matches, str_eq};
use crate::utils::{hidden_name, is_hidden};
use vstd::prelude::*;
use vstd::seq_lib::{lemma_multiset_commutative, to_multiset_build};
use vstd::string::*;

verus! {

/// The order of the entries of a listing.
#[derive(Debug, Copy, Clone, PartialEq, Eq, Structural)]
pub enum SortType {
    Natural,
    ModifyTime,
    Size,
}

impl SortType {
    /// How two entries stand to each other in this order: below zero where
    /// `a` comes first, zero where neither does.
    pub open spec fn order(self, a: File, b: File) -> int {
        match self {
            SortType::Natural => natural_order(bytes_of(a.file_name@), bytes_of(b.file_name@)),
            SortType::ModifyTime => sign(a.mtime - b.mtime),
            SortType::Size => sign(a.size - b.size),
        }
    }

    /// `s` with `x` put in behind the last entry that does not come after it.
    pub open spec fn inserted(self, s: Seq<File>, x: File) -> Seq<File>
        decreases s.len(),
    {
        if s.len() == 0 || self.order(x, s.last()) >= 0 {
            s.push(x)
        } else {
            self.inserted(s.drop_last(), x).push(s.last())
        }
    }

    /// The entries of `s` in this order; entries that the order does not
    /// tell apart stay as they were.
    pub open spec fn sorted(self, s: Seq<File>) -> Seq<File>
        decreases s.len(),
    {
        if s.len() == 0 {
            s
        } else {
            self.inserted(self.sorted(s.drop_last()), s.last())
        }
    }

    fn precedes(&self, a: &File, b: &File) -> (r: bool)
        ensures
            r == (self.order(*a, *b) < 0),
    {
        match self {
            SortType::Natural => compare(a.file_name.as_str().as_bytes(), b.file_name.as_str().as_bytes())
                < 0,
            SortType::ModifyTime => a.mtime < b.mtime,
            SortType::Size => a.size < b.size,
        }
    }

    /// Puts `files` into this order; the sort is stable. What it leaves
    /// holds the entries that it found, and no entry comes before any that
    /// stands before it.
    pub fn sort(&self, files: &mut Vec<File>)
        ensures
            final(files)@ == self.sorted(old(files)@),
            final(files)@.to_multiset() == old(files)@.to_multiset(),
            ordered_throughout(*self, final(files)@),
    {
        let ghost orig = files@;
        proof {
            lemma_sorted_permutes(*self, orig);
            lemma_sorted_throughout(*self, orig);
        }
        let mut i: usize = 0;
        assert(orig.take(0) =~= Seq::<File>::empty());
        assert(orig.skip(0) =~= orig);
        while i < files.len()
            invariant
                i <= files.len(),
                files.len() == orig.len(),
                files@ == self.sorted(orig.take(i as int)) + orig.skip(i as int),
            decreases files.len() - i,
        {
            let ghost done = self.sorted(orig.take(i as int));
            proof {
                lemma_sorted_len(*self, orig.take(i as int));
            }
            let x = files.remove(i);
            assert(x == orig[i as int]);
            assert(files@ =~= done + orig.skip(i + 1));
            let mut j: usize = i;
            assert(done.take(j as int) =~= done);
            assert(done.skip(j as int) =~= Seq::<File>::empty());
            while j > 0 && self.precedes(&x, &files[j - 1])
                invariant
                    j <= i,
                    i < orig.len(),
                    done.len() == i,
                    files@ == done + orig.skip(i + 1),
                    self.inserted(done, x) == self.inserted(done.take(j as int), x) + done.skip(
                        j as int,
                    ),
                decreases j,
            {
                proof {
                    let t = done.take(j as int);
                    assert(t.last() == files@[j - 1]);
                    assert(t.drop_last() =~= done.take(j - 1));
                    assert(self.inserted(t, x) == self.inserted(done.take(j - 1), x).push(t.last()));
                    assert(self.inserted(done.take(j - 1), x).push(t.last()) + done.skip(j as int)
                        =~= self.inserted(done.take(j - 1), x) + done.skip(j - 1));
                }
                j -= 1;
            }
            proof {
                let t = done.take(j as int);
                if j > 0 {
                    assert(t.last() == files@[j - 1]);
                }
                assert(self.inserted(t, x) == t.push(x));
                assert((done + orig.skip(i + 1)).insert(j as int, x) =~= t.push(x) + done.skip(
                    j as int,
                ) + orig.skip(i + 1));
                assert(orig.take(i + 1).drop_last() =~= orig.take(i as int));
                assert(orig.take(i + 1).last() == x);
            }
            files.insert(j, x);
            i += 1;
        }
        assert(orig.take(i as int) =~= orig);
        assert(orig.skip(i as int) =~= Seq::<File>::empty());
    }
}

pub proof fn lemma_inserted_len(kind: SortType, s: Seq<File>, x: File)
    ensures
        kind.inserted(s, x).len() == s.len() + 1,
    decreases s.len(),
{
    if s.len() == 0 || kind.order(x, s.last()) >= 0 {
    } else {
        lemma_inserted_len(kind, s.drop_last(), x);
    }
}

pub proof fn lemma_sorted_len(kind: SortType, s: Seq<File>)
    ensures
        kind.sorted(s).len() == s.len(),
    decreases s.len(),
{
    if s.len() > 0 {
        lemma_sorted_len(kind, s.drop_last());
        lemma_inserted_len(kind, kind.sorted(s.drop_last()), s.last());
    }
}

/// An order of entries turns round when two entries change places.
pub proof fn lemma_kind_antisymmetric(kind: SortType, a: File, b: File)
    ensures
        kind.order(a, b) == -kind.order(b, a),
        -1 <= kind.order(a, b) <= 1,
{
    if kind == SortType::Natural {
        lemma_order_antisymmetric(bytes_of(a.file_name@), bytes_of(b.file_name@));
    }
}

/// An order of entries passes on.
pub proof fn lemma_kind_transitive(kind: SortType, a: File, b: File, c: File)
    requires
        kind.order(a, b) <= 0,
        kind.order(b, c) <= 0,
    ensures
        kind.order(a, c) <= 0,
{
    if kind == SortType::Natural {
        lemma_order_transitive(bytes_of(a.file_name@), bytes_of(b.file_name@), bytes_of(c.file_name@));
    }
}

/// No entry comes before the one that stands directly before it.
pub open spec fn ordered(kind: SortType, s: Seq<File>) -> bool {
    forall|i: int, j: int| 0 <= i && j == i + 1 && j < s.len() ==> kind.order(#[trigger] s[i], #[trigger] s[j]) <= 0
}

/// No entry comes before any that stands before it.
pub open spec fn ordered_throughout(kind: SortType, s: Seq<File>) -> bool {
    forall|i: int, j: int| 0 <= i < j < s.len() ==> kind.order(#[trigger] s[i], #[trigger] s[j]) <= 0
}

pub proof fn lemma_inserted_last(kind: SortType, s: Seq<File>, x: File)
    ensures
        kind.inserted(s, x).len() == s.len() + 1,
        kind.inserted(s, x).last() == x || (s.len() > 0 && kind.inserted(s, x).last() == s.last() && kind.order(
            x,
            s.last(),
        ) < 0),
    decreases s.len(),
{
    lemma_inserted_len(kind, s, x);
    if s.len() == 0 || kind.order(x, s.last()) >= 0 {
    } else {
        lemma_inserted_len(kind, s.drop_last(), x);
    }
}

pub proof fn lemma_inserted_ordered(kind: SortType, s: Seq<File>, x: File)
    requires
        ordered(kind, s),
    ensures
        ordered(kind, kind.inserted(s, x)),
    decreases s.len(),
{
    let r = kind.inserted(s, x);
    lemma_inserted_len(kind, s, x);
    if s.len() == 0 {
    } else if kind.order(x, s.last()) >= 0 {
        lemma_kind_antisymmetric(kind, x, s.last());
        assert forall|i: int, j: int| 0 <= i && j == i + 1 && j < r.len() implies kind.order(
            #[trigger] r[i],
            #[trigger] r[j],
        ) <= 0 by {
            if j < s.len() {
                assert(r[i] == s[i] && r[j] == s[j]);
            } else {
                assert(r[i] == s.last() && r[j] == x);
            }
        }
    } else {
        let t = s.drop_last();
        let u = kind.inserted(t, x);
        assert(ordered(kind, t)) by {
            assert forall|i: int, j: int| 0 <= i && j == i + 1 && j < t.len() implies kind.order(
                #[trigger] t[i],
                #[trigger] t[j],
            ) <= 0 by {
                assert(t[i] == s[i] && t[j] == s[j]);
            }
        }
        lemma_inserted_ordered(kind, t, x);
        lemma_inserted_last(kind, t, x);
        assert forall|i: int, j: int| 0 <= i && j == i + 1 && j < r.len() implies kind.order(
            #[trigger] r[i],
            #[trigger] r[j],
        ) <= 0 by {
            if j < u.len() {
                assert(r[i] == u[i] && r[j] == u[j]);
            } else {
                assert(r[j] == s.last());
                assert(r[i] == u.last());
                if u.last() != x {
                    assert(t.last() == s[s.len() - 2]);
                    assert(s.last() == s[s.len() - 1]);
                }
            }
        }
    }
}

/// What `sort` leaves holds the entries that it found, each as often as
/// it was there.
pub proof fn lemma_sorted_permutes(kind: SortType, s: Seq<File>)
    ensures
        kind.sorted(s).to_multiset() == s.to_multiset(),
        kind.sorted(s).len() == s.len(),
    decreases s.len(),
{
    lemma_sorted_len(kind, s);
    if s.len() > 0 {
        let t = s.drop_last();
        lemma_sorted_permutes(kind, t);
        lemma_inserted_permutes(kind, kind.sorted(t), s.last());
        to_multiset_build(t, s.last());
        assert(t.push(s.last()) =~= s);
    }
}

pub proof fn lemma_inserted_permutes(kind: SortType, s: Seq<File>, x: File)
    ensures
        kind.inserted(s, x).to_multiset() == s.to_multiset().insert(x),
    decreases s.len(),
{
    if s.len() == 0 || kind.order(x, s.last()) >= 0 {
        to_multiset_build(s, x);
    } else {
        let t = s.drop_last();
        lemma_inserted_permutes(kind, t, x);
        to_multiset_build(kind.inserted(t, x), s.last());
        to_multiset_build(t, s.last());
        assert(t.push(s.last()) =~= s);
        assert(t.to_multiset().insert(x).insert(s.last()) =~= t.to_multiset().insert(s.last()).insert(x));
    }
}

/// In what `sort` leaves no entry comes before the one that stands
/// directly before it.
pub proof fn lemma_sorted_ordered(kind: SortType, s: Seq<File>)
    ensures
        ordered(kind, kind.sorted(s)),
    decreases s.len(),
{
    if s.len() > 0 {
        lemma_sorted_ordered(kind, s.drop_last());
        lemma_inserted_ordered(kind, kind.sorted(s.drop_last()), s.last());
    }
}

/// Entries that are in order each with the next are in order throughout.
pub proof fn lemma_ordered_throughout(kind: SortType, s: Seq<File>)
    requires
        ordered(kind, s),
    ensures
        ordered_throughout(kind, s),
{
    assert forall|i: int, j: int| 0 <= i < j < s.len() implies kind.order(#[trigger] s[i], #[trigger] s[j]) <= 0 by {
        lemma_ordered_span(kind, s, i, j);
    }
}

proof fn lemma_ordered_span(kind: SortType, s: Seq<File>, i: int, j: int)
    requires
        ordered(kind, s),
        0 <= i < j < s.len(),
    ensures
        kind.order(s[i], s[j]) <= 0,
    decreases j - i,
{
    if j == i + 1 {
    } else {
        lemma_ordered_span(kind, s, i, j - 1);
        assert(kind.order(s[j - 1], s[j]) <= 0);
        lemma_kind_transitive(kind, s[i], s[j - 1], s[j]);
    }
}

/// What `sort` leaves is in order throughout.
pub proof fn lemma_sorted_throughout(kind: SortType, s: Seq<File>)
    ensures
        ordered_throughout(kind, kind.sorted(s)),
{
    lemma_sorted_ordered(kind, s);
    lemma_ordered_throughout(kind, kind.sorted(s));
}

/// Whether an order tells an entry apart from `x`.
pub open spec fn tie_with(kind: SortType, x: File) -> spec_fn(File) -> bool {
    |f: File| kind.order(f, x) == 0
}

/// The entries of `s` that the order does not tell apart from `x`, in
/// the order in which they stand.
pub open spec fn peers(kind: SortType, s: Seq<File>, x: File) -> Seq<File> {
    s.filter(tie_with(kind, x))
}

/// Two entries that an order does not tell apart from a third, it does
/// not tell apart from each other.
pub proof fn lemma_ties_pass_on(kind: SortType, a: File, b: File, c: File)
    requires
        kind.order(a, c) == 0,
        kind.order(b, c) == 0,
    ensures
        kind.order(a, b) == 0,
{
    lemma_kind_antisymmetric(kind, b, c);
    lemma_kind_antisymmetric(kind, a, c);
    lemma_kind_antisymmetric(kind, a, b);
    lemma_kind_transitive(kind, a, c, b);
    lemma_kind_transitive(kind, b, c, a);
}

pub proof fn lemma_inserted_peers(kind: SortType, r: Seq<File>, y: File, x: File)
    ensures
        peers(kind, kind.inserted(r, y), x) == if kind.order(y, x) == 0 {
            peers(kind, r, x).push(y)
        } else {
            peers(kind, r, x)
        },
    decreases r.len(),
{
    let tie = tie_with(kind, x);
    if r.len() == 0 || kind.order(y, r.last()) >= 0 {
        r.lemma_filter_push(y, tie);
    } else {
        let t = r.drop_last();
        let last = r.last();
        lemma_inserted_peers(kind, t, y, x);
        kind.inserted(t, y).lemma_filter_push(last, tie);
        t.lemma_filter_push(last, tie);
        assert(t.push(last) =~= r);
        if kind.order(y, x) == 0 && kind.order(last, x) == 0 {
            lemma_ties_pass_on(kind, y, last, x);
        }
    }
}

/// `sort` is stable: the entries that the order does not tell apart
/// from one another stay in the order in which they were.
pub proof fn lemma_sorted_stable(kind: SortType, s: Seq<File>, x: File)
    ensures
        peers(kind, kind.sorted(s), x) == peers(kind, s, x),
    decreases s.len(),
{
    if s.len() > 0 {
        let t = s.drop_last();
        let y = s.last();
        lemma_sorted_stable(kind, t, x);
        lemma_inserted_peers(kind, kind.sorted(t), y, x);
        t.lemma_filter_push(y, tie_with(kind, x));
        assert(t.push(y) =~= s);
    }
}

/// A property by which a listing is parted in two.
#[derive(Debug, Copy, Clone, PartialEq, Eq, Structural)]
pub enum Mark {
    Hidden,
    Directory,
}

impl Mark {
    pub open spec fn holds(self, f: File) -> bool {
        match self {
            Mark::Hidden => hidden_name(f.file_name@),
            Mark::Directory => f.spec_is_dir(),
        }
    }

    /// The entries that have the mark (`want`), or those that have not.
    pub open spec fn pred(self, want: bool) -> spec_fn(File) -> bool {
        |f: File| self.holds(f) == want
    }

    fn test(&self, f: &File) -> (r: bool)
        ensures
            r == self.holds(*f),
    {
        match self {
            Mark::Hidden => is_hidden(f),
            Mark::Directory => f.is_dir(),
        }
    }
}

/// The entries of `s` that have the mark (`want`), or those that have not,
/// in the order they had.
pub open spec fn part(s: Seq<File>, mark: Mark, want: bool) -> Seq<File> {
    s.filter(mark.pred(want))
}

/// The entries with the mark, then the others; both in the order they had.
pub open spec fn fronted(s: Seq<File>, mark: Mark) -> Seq<File> {
    part(s, mark, true) + part(s, mark, false)
}

/// Directories first.
pub open spec fn dirs_first(s: Seq<File>) -> Seq<File> {
    fronted(s, Mark::Directory)
}

/// A whole listing as `Dir::sort` leaves it: where hidden entries are left
/// out (`hide`) they stand in front, as they were; the entries shown follow,
/// in the order `kind`, directories first.
pub open spec fn arranged(s: Seq<File>, hide: bool, kind: SortType) -> Seq<File> {
    if hide {
        part(s, Mark::Hidden, true) + dirs_first(kind.sorted(part(s, Mark::Hidden, false)))
    } else {
        dirs_first(kind.sorted(s))
    }
}

/// How many entries of a listing are left out.
pub open spec fn hidden_count(s: Seq<File>, hide: bool) -> nat {
    if hide {
        part(s, Mark::Hidden, true).len()
    } else {
        0
    }
}

pub proof fn lemma_part_push(s: Seq<File>, x: File, mark: Mark, want: bool)
    ensures
        part(s.push(x), mark, want) == if mark.holds(x) == want {
            part(s, mark, want).push(x)
        } else {
            part(s, mark, want)
        },
{
    s.lemma_filter_push(x, mark.pred(want));
}

pub proof fn lemma_fronted_len(s: Seq<File>, mark: Mark)
    ensures
        fronted(s, mark).len() == s.len(),
        part(s, mark, true).len() + part(s, mark, false).len() == s.len(),
    decreases s.len(),
{
    if s.len() == 0 {
        reveal(Seq::filter);
    } else {
        lemma_fronted_len(s.drop_last(), mark);
        lemma_part_push(s.drop_last(), s.last(), mark, true);
        lemma_part_push(s.drop_last(), s.last(), mark, false);
        assert(s.drop_last().push(s.last()) =~= s);
    }
}

/// Every entry of a part has the mark, or every one has not.
pub proof fn lemma_part_holds(s: Seq<File>, mark: Mark, want: bool)
    ensures
        forall|i: int| 0 <= i < part(s, mark, want).len() ==> mark.holds(#[trigger] part(s, mark, want)[i]) == want,
    decreases s.len(),
{
    if s.len() == 0 {
        reveal(Seq::filter);
    } else {
        lemma_part_holds(s.drop_last(), mark, want);
        lemma_part_push(s.drop_last(), s.last(), mark, want);
        assert(s.drop_last().push(s.last()) =~= s);
    }
}

/// In a listing with the marked entries in front, no entry without the
/// mark stands before one with it: not directly before it, and not further
/// in front.
pub proof fn lemma_fronted_order(s: Seq<File>, mark: Mark)
    ensures
        forall|i: int, j: int|
            0 <= i < j < fronted(s, mark).len() ==> !(!mark.holds(#[trigger] fronted(s, mark)[i]) && mark.holds(
                #[trigger] fronted(s, mark)[j],
            )),
{
    lemma_part_holds(s, mark, true);
    lemma_part_holds(s, mark, false);
    let a = part(s, mark, true);
    let b = part(s, mark, false);
    assert forall|i: int, j: int| 0 <= i < j < fronted(s, mark).len() implies !(!mark.holds(
        #[trigger] fronted(s, mark)[i],
    ) && mark.holds(#[trigger] fronted(s, mark)[j])) by {
        if i < a.len() {
            assert(fronted(s, mark)[i] == a[i]);
        } else {
            assert(fronted(s, mark)[j] == b[j - a.len()]);
        }
    }
}

/// Entries that come before `x` still do when some are left out.
pub proof fn lemma_part_below(kind: SortType, s: Seq<File>, mark: Mark, want: bool, x: File)
    requires
        forall|k: int| 0 <= k < s.len() ==> kind.order(#[trigger] s[k], x) <= 0,
    ensures
        forall|i: int| 0 <= i < part(s, mark, want).len() ==> kind.order(#[trigger] part(s, mark, want)[i], x) <= 0,
    decreases s.len(),
{
    if s.len() == 0 {
        reveal(Seq::filter);
    } else {
        let t = s.drop_last();
        assert forall|k: int| 0 <= k < t.len() implies kind.order(#[trigger] t[k], x) <= 0 by {
            assert(t[k] == s[k]);
        }
        lemma_part_below(kind, t, mark, want, x);
        lemma_part_push(t, s.last(), mark, want);
        assert(t.push(s.last()) =~= s);
        assert(kind.order(s[s.len() - 1], x) <= 0);
    }
}

/// Entries that are in order throughout still are when some are left out.
pub proof fn lemma_part_ordered(kind: SortType, s: Seq<File>, mark: Mark, want: bool)
    requires
        ordered_throughout(kind, s),
    ensures
        ordered_throughout(kind, part(s, mark, want)),
    decreases s.len(),
{
    if s.len() == 0 {
        reveal(Seq::filter);
    } else {
        let t = s.drop_last();
        let x = s.last();
        assert(ordered_throughout(kind, t)) by {
            assert forall|i: int, j: int| 0 <= i < j < t.len() implies kind.order(#[trigger] t[i], #[trigger] t[j])
                <= 0 by {
                assert(t[i] == s[i] && t[j] == s[j]);
            }
        }
        lemma_part_ordered(kind, t, mark, want);
        assert forall|k: int| 0 <= k < t.len() implies kind.order(#[trigger] t[k], x) <= 0 by {
            assert(t[k] == s[k] && x == s[s.len() - 1]);
        }
        lemma_part_below(kind, t, mark, want, x);
        lemma_part_push(t, x, mark, want);
        assert(t.push(x) =~= s);
    }
}

/// Among entries that were sorted and then parted into directories and
/// others, two of the same kind are in order.
pub proof fn lemma_dirs_first_in_order(kind: SortType, s: Seq<File>)
    ensures
        forall|i: int, j: int|
            0 <= i < j < dirs_first(kind.sorted(s)).len() && (#[trigger] dirs_first(kind.sorted(s))[i]).spec_is_dir()
                == (#[trigger] dirs_first(kind.sorted(s))[j]).spec_is_dir() ==> kind.order(
                dirs_first(kind.sorted(s))[i],
                dirs_first(kind.sorted(s))[j],
            ) <= 0,
{
    let r = kind.sorted(s);
    let a = part(r, Mark::Directory, true);
    let b = part(r, Mark::Directory, false);
    let d = dirs_first(r);
    lemma_sorted_throughout(kind, s);
    lemma_part_ordered(kind, r, Mark::Directory, true);
    lemma_part_ordered(kind, r, Mark::Directory, false);
    lemma_part_holds(r, Mark::Directory, true);
    lemma_part_holds(r, Mark::Directory, false);
    assert forall|i: int, j: int|
        0 <= i < j < d.len() && (#[trigger] d[i]).spec_is_dir() == (#[trigger] d[j]).spec_is_dir() implies kind.order(
        d[i],
        d[j],
    ) <= 0 by {
        if j < a.len() {
            assert(d[i] == a[i] && d[j] == a[j]);
        } else if i >= a.len() {
            assert(d[i] == b[i - a.len()] && d[j] == b[j - a.len()]);
        } else {
            assert(d[i] == a[i] && d[j] == b[j - a.len()]);
            assert(Mark::Directory.holds(a[i]));
            assert(!Mark::Directory.holds(b[j - a.len()]));
        }
    }
}

/// To bring the marked entries to the front loses and adds none.
pub proof fn lemma_fronted_permutes(s: Seq<File>, mark: Mark)
    ensures
        fronted(s, mark).to_multiset() == s.to_multiset(),
    decreases s.len(),
{
    let a = part(s, mark, true);
    let b = part(s, mark, false);
    lemma_multiset_commutative(a, b);
    if s.len() == 0 {
        reveal(Seq::filter);
        assert(fronted(s, mark) =~= s);
    } else {
        let t = s.drop_last();
        let x = s.last();
        lemma_fronted_permutes(t, mark);
        let ta = part(t, mark, true);
        let tb = part(t, mark, false);
        lemma_multiset_commutative(ta, tb);
        lemma_part_push(t, x, mark, true);
        lemma_part_push(t, x, mark, false);
        to_multiset_build(ta, x);
        to_multiset_build(tb, x);
        to_multiset_build(t, x);
        assert(t.push(x) =~= s);
        assert(a.to_multiset().add(b.to_multiset()) =~= ta.to_multiset().add(tb.to_multiset()).insert(x));
    }
}

/// To arrange a listing loses and adds no entry.
pub proof fn lemma_arranged_permutes(v: Seq<File>, hide: bool, kind: SortType)
    ensures
        arranged(v, hide, kind).to_multiset() == v.to_multiset(),
{
    let shown = if hide {
        part(v, Mark::Hidden, false)
    } else {
        v
    };
    let r = kind.sorted(shown);
    lemma_sorted_permutes(kind, shown);
    lemma_fronted_permutes(r, Mark::Directory);
    if hide {
        let h = part(v, Mark::Hidden, true);
        lemma_multiset_commutative(h, dirs_first(r));
        lemma_multiset_commutative(h, shown);
        lemma_fronted_permutes(v, Mark::Hidden);
    }
}

/// Brings the entries with the mark to the front and says how many they
/// are. Neither part changes its order.
fn bring_front(files: &mut Vec<File>, mark: Mark) -> (n: usize)
    ensures
        final(files)@ == fronted(old(files)@, mark),
        n == part(old(files)@, mark, true).len(),
        n <= old(files)@.len(),
{
    let ghost orig = files@;
    let mut back: Vec<File> = Vec::new();
    while files.len() > 0
        invariant
            files@ == orig.take(files.len() as int),
            back.len() + files.len() == orig.len(),
            forall|k: int| 0 <= k < back.len() ==> back@[k] == orig[orig.len() - 1 - k],
        decreases files.len(),
    {
        let x = files.pop().unwrap();
        back.push(x);
    }
    let mut yes: Vec<File> = Vec::new();
    let mut no: Vec<File> = Vec::new();
    proof {
        reveal(Seq::filter);
        assert(orig.take(0) =~= Seq::<File>::empty());
    }
    while back.len() > 0
        invariant
            back.len() <= orig.len(),
            forall|k: int| 0 <= k < back.len() ==> back@[k] == orig[orig.len() - 1 - k],
            yes@ == part(orig.take(orig.len() - back.len()), mark, true),
            no@ == part(orig.take(orig.len() - back.len()), mark, false),
        decreases back.len(),
    {
        let ghost i = orig.len() - back.len();
        let x = back.pop().unwrap();
        proof {
            assert(x == orig[i]);
            lemma_part_push(orig.take(i), x, mark, true);
            lemma_part_push(orig.take(i), x, mark, false);
            assert(orig.take(i).push(x) =~= orig.take(i + 1));
        }
        if mark.test(&x) {
            yes.push(x);
        } else {
            no.push(x);
        }
    }
    proof {
        assert(orig.take(orig.len() as int) =~= orig);
        lemma_fronted_len(orig, mark);
    }
    let n = yes.len();
    files.append(&mut yes);
    files.append(&mut no);
    n
}

/// The margin kept between the cursor and the edge of a window of `rows` rows.
pub open spec fn margin(rows: int) -> int {
    let half = if rows % 2 == 0 {
        rows / 2 - 1
    } else {
        rows / 2
    };
    if SCROLL_OFF <= half {
        SCROLL_OFF as int
    } else {
        half
    }
}

pub open spec fn least(a: int, b: int) -> int {
    if a <= b {
        a
    } else {
        b
    }
}

pub open spec fn most(a: int, b: int) -> int {
    if a >= b {
        a
    } else {
        b
    }
}

/// The viewport brought into bounds. `count` entries are shown through a
/// window of `rows` rows that begins at entry `sp`, the cursor is on row
/// `bp` of the window. The window is moved up to the end of the listing and
/// the cursor with it, the cursor is held within the listing, and where the
/// listing is longer than the window the cursor keeps its margin from the
/// window's edges as far as the listing's ends allow.
pub open spec fn clamp_viewport(count: int, rows: int, sp: int, bp: int) -> (int, int) {
    let sp1 = least(sp, most(count - rows, 0));
    let bp1 = bp + (sp - sp1);
    let bp2 = least(bp1, most(count - 1, 0));
    if count > rows {
        keep_margin(count, rows, margin(rows), sp1, bp2)
    } else {
        (sp1, bp2)
    }
}

/// The last step of `clamp_viewport`: a cursor within the margin `m` of the
/// window's top moves the window up, one within the margin of its bottom
/// moves it down, each as far as the margin asks and the listing allows.
pub open spec fn keep_margin(count: int, rows: int, m: int, sp: int, bp: int) -> (int, int) {
    if bp <= m && sp > 0 {
        let off = least(m - bp, sp);
        (sp - off, bp + off)
    } else if bp >= rows - m && sp + rows < count {
        let off = least(bp + m + 1 - rows, count - sp - rows);
        (sp + off, bp - off)
    } else {
        (sp, bp)
    }
}

/// A cursor that is on an entry stays on it when the viewport is brought
/// into bounds, the cursor then is inside the window and inside the listing,
/// and the window does not reach beyond the listing's end.
pub proof fn lemma_clamp_keeps_cursor(count: int, rows: int, sp: int, bp: int)
    requires
        rows >= 1,
        0 <= sp,
        0 <= bp,
        sp + bp < count,
    ensures
        clamp_viewport(count, rows, sp, bp).0 + clamp_viewport(count, rows, sp, bp).1 == sp + bp,
        0 <= clamp_viewport(count, rows, sp, bp).1 < least(count, rows),
        0 <= clamp_viewport(count, rows, sp, bp).0 <= most(count - rows, 0),
{
}

/// The viewport after a move of `step` entries up, before it is brought
/// into bounds: the cursor goes up in the window, and the window follows by
/// what the cursor cannot go.
pub open spec fn moved_up(sp: int, bp: int, step: int) -> (int, int) {
    (
        if bp < step {
            most(sp - (step - bp), 0)
        } else {
            sp
        },
        most(bp - step, 0),
    )
}

/// The viewport after a move of `step` entries down in a window of `rows`
/// rows over `count` entries, before it is brought into bounds: the cursor
/// goes down to the last row at most, and where the move leads further than
/// the window is high, the window follows as far as the listing allows.
pub open spec fn moved_down(count: int, rows: int, sp: int, bp: int, step: int) -> (int, int) {
    (
        if bp + step > rows {
            least(count - rows, sp + (bp + step - rows))
        } else {
            sp
        },
        least(bp + step, most(rows - 1, 0)),
    )
}

/// The viewport with the cursor on the last entry, at the bottom of the window.
pub open spec fn at_bottom(count: int, rows: int) -> (int, int) {
    (most(count - rows, 0), least(most(count - 1, 0), most(rows - 1, 0)))
}

/// The viewport with the cursor put on the entry `pos`: a window that
/// begins behind that entry goes back to the top of the listing first,
/// then the viewport is brought into bounds.
pub open spec fn gone_to(count: int, rows: int, sp: int, pos: int) -> (int, int) {
    clamp_viewport(
        count,
        rows,
        if pos < sp {
            0
        } else {
            sp
        },
        if pos < sp {
            pos
        } else {
            pos - sp
        },
    )
}

/// The index of the first entry from `from` on that is called `name`, or
/// the length of `s` where none is.
pub open spec fn first_named(s: Seq<File>, name: Seq<char>, from: int) -> int
    decreases s.len() - from,
{
    if from >= s.len() {
        s.len() as int
    } else if s[from].file_name@ == name {
        from
    } else {
        first_named(s, name, from + 1)
    }
}

/// The entry that `Dir::sel` goes to: the entry under the cursor where it
/// is called `name`, else the first entry of that name, else the entry under
/// the cursor. A cursor behind the listing counts as on its last entry.
pub open spec fn sel_target(s: Seq<File>, name: Seq<char>, cursor: int) -> int
    recommends
        s.len() > 0,
{
    let ind = least(s.len() - 1, cursor);
    if s[ind].file_name@ == name || first_named(s, name, 0) >= s.len() {
        ind
    } else {
        first_named(s, name, 0)
    }
}

fn scroll_off(rows: usize) -> (r: usize)
    requires
        rows > 0,
    ensures
        r == margin(rows as int),
        2 * r < rows,
{
    let half = if rows % 2 == 0 {
        rows / 2 - 1
    } else {
        rows / 2
    };
    if (SCROLL_OFF as usize) < half {
        SCROLL_OFF as usize
    } else {
        half
    }
}

fn margin_kept(count: usize, rows: usize, m: usize, sp: usize, bp: usize) -> (r: (usize, usize))
    requires
        count > rows,
        2 * m < rows,
        sp <= count - rows,
        bp < count,
    ensures
        (r.0 as int, r.1 as int) == keep_margin(count as int, rows as int, m as int, sp as int, bp as int),
{
    if bp <= m && sp > 0 {
        let room = m - bp;
        let offset = if room < sp {
            room
        } else {
            sp
        };
        (sp - offset, bp + offset)
    } else if bp >= rows - m && count - sp > rows {
        let over = bp - (rows - m) + 1;
        let room = count - sp - rows;
        let offset = if over < room {
            over
        } else {
            room
        };
        (sp + offset, bp - offset)
    } else {
        (sp, bp)
    }
}

fn clamped(count: usize, rows: usize, sp: usize, bp: usize) -> (r: (usize, usize))
    requires
        rows > 0 || count == 0,
    ensures
        (r.0 as int, r.1 as int) == clamp_viewport(count as int, rows as int, sp as int, bp as int),
{
    let sp1 = if count <= rows {
        0
    } else if sp > count - rows {
        count - rows
    } else {
        sp
    };
    let last = if count > 0 {
        count - 1
    } else {
        0
    };
    let bp2 = if bp > last || sp - sp1 > last - bp {
        last
    } else {
        bp + (sp - sp1)
    };
    if count > rows {
        margin_kept(count, rows, scroll_off(rows), sp1, bp2)
    } else {
        (sp1, bp2)
    }
}

/// Puts the entries from `from` on into the order `kind` and brings the
/// directories among them to the front.
fn order_shown(files: &mut Vec<File>, from: usize, kind: SortType)
    requires
        from <= old(files)@.len(),
    ensures
        final(files)@ == old(files)@.take(from as int) + dirs_first(kind.sorted(old(files)@.skip(from as int))),
        final(files)@.len() == old(files)@.len(),
{
    let mut shown = files.split_off(from);
    let ghost before = shown@;
    kind.sort(&mut shown);
    bring_front(&mut shown, Mark::Directory);
    proof {
        lemma_sorted_len(kind, before);
        lemma_fronted_len(kind.sorted(before), Mark::Directory);
        assert(before =~= old(files)@.skip(from as int));
        assert(files@ =~= old(files)@.take(from as int));
    }
    files.append(&mut shown);
}

/// A listing with its hidden entries in front, ordered behind them, is the
/// listing arranged.
pub proof fn lemma_arranged(v: Seq<File>, hide: bool, kind: SortType)
    ensures
        arranged(v, hide, kind).len() == v.len(),
        hidden_count(v, hide) <= v.len(),
        hide ==> arranged(v, hide, kind) == fronted(v, Mark::Hidden).take(hidden_count(v, hide) as int)
            + dirs_first(kind.sorted(fronted(v, Mark::Hidden).skip(hidden_count(v, hide) as int))),
        !hide ==> arranged(v, hide, kind) == v.take(0) + dirs_first(kind.sorted(v.skip(0))),
        arranged(v, hide, kind).skip(hidden_count(v, hide) as int) == dirs_first(
            kind.sorted(
                if hide {
                    part(v, Mark::Hidden, false)
                } else {
                    v
                },
            ),
        ),
{
    lemma_fronted_len(v, Mark::Hidden);
    let n = hidden_count(v, hide) as int;
    if hide {
        let f = fronted(v, Mark::Hidden);
        assert(f.take(n) =~= part(v, Mark::Hidden, true));
        assert(f.skip(n) =~= part(v, Mark::Hidden, false));
        let shown = part(v, Mark::Hidden, false);
        lemma_sorted_len(kind, shown);
        lemma_fronted_len(kind.sorted(shown), Mark::Directory);
        assert(arranged(v, hide, kind).skip(n) =~= dirs_first(kind.sorted(shown)));
    } else {
        assert(v.skip(0) =~= v);
        assert(v.take(0) + dirs_first(kind.sorted(v)) =~= dirs_first(kind.sorted(v)));
        lemma_sorted_len(kind, v);
        lemma_fronted_len(kind.sorted(v), Mark::Directory);
        assert(arranged(v, hide, kind).skip(0) =~= arranged(v, hide, kind));
    }
}

/// The index of the entry `k` places from the cursor, forward or back,
/// in a listing of `count` entries that is taken as a ring.
pub open spec fn step_from(count: int, cursor: int, k: int, forward: bool) -> int {
    if forward {
        if cursor + k < count {
            cursor + k
        } else {
            cursor + k - count
        }
    } else {
        if cursor - k >= 0 {
            cursor - k
        } else {
            cursor - k + count
        }
    }
}

/// The first entry whose name holds `pattern`, among those that are `k` or
/// more places from the cursor and fewer than the whole ring; -1 where
/// none does.
pub open spec fn search_from(files: Seq<File>, pattern: Seq<char>, cursor: int, forward: bool, k: int) -> int
    decreases files.len() - k,
{
    if k < 1 || k >= files.len() {
        -1
    } else if name_matches(files[step_from(files.len() as int, cursor, k, forward)].file_name@, pattern) {
        step_from(files.len() as int, cursor, k, forward)
    } else {
        search_from(files, pattern, cursor, forward, k + 1)
    }
}

/// The entry that a search finds: the nearest one after the cursor, or
/// before it, whose name holds `pattern`. The search goes round the ends of
/// the listing and stops before it comes back to the cursor. -1 where no
/// other entry matches or the cursor is on none.
pub open spec fn found(files: Seq<File>, pattern: Seq<char>, cursor: int, forward: bool) -> int {
    if 0 <= cursor < files.len() {
        search_from(files, pattern, cursor, forward, 1)
    } else {
        -1
    }
}

/// What a snapshot needs to be in step with the directory and the settings.
#[derive(Debug, Copy, Clone, PartialEq, Eq, Structural)]
pub enum Refresh {
    /// The directory may have changed since the load: read it again.
    Reload,
    /// The order has been changed: order the listing anew.
    Resort,
    /// Hidden entries are now shown, or no longer: part the listing anew.
    Refilter,
    /// Nothing.
    Keep,
}

/// What a read of a directory brought: whether it can be written to, the
/// entries or the reason why there are none, and the second of the read.
#[derive(Debug)]
pub struct Loaded {
    pub readonly: bool,
    pub listing: Result<Option<Vec<File>>, String>,
    pub now: u64,
}

/// Whether what was loaded at the second `loadtime` is out of date when
/// the source was last modified at the second `mtime`: it is where it was
/// never loaded, which a load time of zero says, and where the load was
/// before the last change. A change in the second of the load itself is
/// not seen until the next one.
pub open spec fn spec_reload_due(loadtime: u64, mtime: u64) -> bool {
    loadtime == 0 || loadtime < mtime
}

#[verifier::when_used_as_spec(spec_reload_due)]
pub fn reload_due(loadtime: u64, mtime: u64) -> (r: bool)
    ensures
        r == spec_reload_due(loadtime, mtime),
{
    loadtime == 0 || loadtime < mtime
}

/// The steps of `Dir::sort` lead to the listing arranged: `mid` is the
/// listing after it was parted, `n` the number of entries left out, and
/// `out` what the ordering of the entries shown made of `mid`.
pub proof fn lemma_sort_steps(v: Seq<File>, hide: bool, kind: SortType, mid: Seq<File>, n: int, out: Seq<File>)
    requires
        v.len() > 0,
        mid == if hide {
            fronted(v, Mark::Hidden)
        } else {
            v
        },
        n == hidden_count(v, hide),
        out == if n < mid.len() {
            mid.take(n) + dirs_first(kind.sorted(mid.skip(n)))
        } else {
            mid
        },
    ensures
        out == arranged(v, hide, kind),
        out.len() == v.len(),
        n <= v.len(),
        (if n < out.len() {
            out.skip(n)
        } else {
            Seq::<File>::empty()
        }) == dirs_first(
            kind.sorted(
                if hide {
                    part(v, Mark::Hidden, false)
                } else {
                    v
                },
            ),
        ),
        forall|i: int, j: int|
            n <= i < j < out.len() ==> !(!(#[trigger] out[i]).spec_is_dir() && (#[trigger] out[j]).spec_is_dir()),
{
    lemma_arranged(v, hide, kind);
    let shown = if hide {
        part(v, Mark::Hidden, false)
    } else {
        v
    };
    let a = arranged(v, hide, kind);
    let d = dirs_first(kind.sorted(shown));
    lemma_fronted_order(kind.sorted(shown), Mark::Directory);
    if n < mid.len() {
        assert(out == a);
    } else {
        assert(a.skip(n) =~= Seq::<File>::empty());
        assert(mid.skip(n) =~= Seq::<File>::empty());
        assert(mid.take(n) =~= mid);
        assert(a =~= mid.take(n) + a.skip(n));
        assert(out =~= a);
    }
    assert(a.skip(n) == d);
    assert forall|i: int, j: int| n <= i < j < out.len() implies !(!(#[trigger] out[i]).spec_is_dir() && (
    #[trigger] out[j]).spec_is_dir()) by {
        assert(out[i] == d[i - n]);
        assert(out[j] == d[j - n]);
        assert(Mark::Directory.holds(d[i - n]) == d[i - n].spec_is_dir());
        assert(Mark::Directory.holds(d[j - n]) == d[j - n].spec_is_dir());
    }
}

/// Arranges a whole listing as `arranged` says, and gives the number of
/// entries that are left out.
fn arrange(files: &mut Vec<File>, hide: bool, kind: SortType) -> (n: usize)
    requires
        old(files)@.len() > 0,
    ensures
        final(files)@ == arranged(old(files)@, hide, kind),
        final(files)@.len() == old(files)@.len(),
        n == hidden_count(old(files)@, hide),
        n <= old(files)@.len(),
        final(files)@.skip(n as int) == dirs_first(
            kind.sorted(
                if hide {
                    part(old(files)@, Mark::Hidden, false)
                } else {
                    old(files)@
                },
            ),
        ),
        forall|i: int, j: int|
            0 <= i < j < final(files)@.skip(n as int).len() ==> !(!(#[trigger] final(files)@.skip(
                n as int,
            )[i]).spec_is_dir() && (#[trigger] final(files)@.skip(n as int)[j]).spec_is_dir()),
{
    let n = if hide {
        bring_front(files, Mark::Hidden)
    } else {
        0
    };
    let ghost mid = files@;
    if n < files.len() {
        order_shown(files, n, kind);
    }
    proof {
        let out = files@;
        lemma_sort_steps(old(files)@, hide, kind, mid, n as int, out);
        if n >= out.len() {
            assert(out.skip(n as int) =~= Seq::<File>::empty());
        }
        assert forall|i: int, j: int| 0 <= i < j < out.skip(n as int).len() implies !(!(#[trigger] out.skip(
            n as int,
        )[i]).spec_is_dir() && (#[trigger] out.skip(n as int)[j]).spec_is_dir()) by {
            assert(out.skip(n as int)[i] == out[i + n]);
            assert(out.skip(n as int)[j] == out[j + n]);
        }
    }
    n
}

/// The snapshot of a directory.
#[derive(Debug)]
pub struct Dir {
    pub dir_path: String,
    /// The whole listing; nothing before the first load.
    pub files: Option<Vec<File>>,
    /// The number of entries shown.
    pub files_len: usize,
    /// The entry on the first row of the window.
    pub sp: usize,
    /// The row of the cursor, counted from the top of the window.
    pub bp: usize,
    /// Why the directory could not be read, where it could not.
    pub error_message: Option<String>,
    /// The number of entries left out, which stand in front of the listing.
    pub fsnd: usize,
    /// The second of the last load; zero before the first.
    pub loadtime: u64,
    pub sort_type: SortType,
    pub hidden: bool,
    pub readonly: bool,
}

impl Dir {
    /// The entries shown, in their order.
    pub open spec fn visible(&self) -> Seq<File> {
        match self.files {
            Some(v) => if self.fsnd < v@.len() {
                v@.skip(self.fsnd as int)
            } else {
                Seq::empty()
            },
            None => Seq::empty(),
        }
    }

    /// The index of the entry under the cursor among the entries shown.
    pub open spec fn cursor(&self) -> int {
        self.sp + self.bp
    }

    /// `files_len` counts the entries shown.
    pub open spec fn wf(&self) -> bool {
        self.files_len == self.visible().len()
    }

    /// Nothing but the viewport differs between `self` and `other`.
    pub open spec fn same_listing(&self, other: &Dir) -> bool {
        &&& self.dir_path == other.dir_path
        &&& self.files == other.files
        &&& self.files_len == other.files_len
        &&& self.error_message == other.error_message
        &&& self.fsnd == other.fsnd
        &&& self.loadtime == other.loadtime
        &&& self.sort_type == other.sort_type
        &&& self.hidden == other.hidden
        &&& self.readonly == other.readonly
    }

    /// Nothing but the listing and its two counts differs between `self` and `other`.
    pub open spec fn same_but_listing(&self, other: &Dir) -> bool {
        &&& self.dir_path == other.dir_path
        &&& self.sp == other.sp
        &&& self.bp == other.bp
        &&& self.error_message == other.error_message
        &&& self.loadtime == other.loadtime
        &&& self.sort_type == other.sort_type
        &&& self.hidden == other.hidden
        &&& self.readonly == other.readonly
    }

    /// The snapshot has not been loaded and follows `settings`.
    pub open spec fn unloaded(&self, settings: &Settings) -> bool {
        &&& self.files is None
        &&& self.files_len == 0
        &&& self.sp == 0
        &&& self.bp == 0
        &&& self.error_message is None
        &&& self.fsnd == 0
        &&& self.loadtime == 0
        &&& self.sort_type == settings.sort_type
        &&& self.hidden == settings.hidden
        &&& !self.readonly
    }

    /// The snapshot of `p` before its first load, with the settings of the moment.
    pub fn new(p: &str, settings: &Settings) -> (r: Dir)
        ensures
            r.wf(),
            r.dir_path@ == p@,
            r.unloaded(settings),
    {
        Dir {
            dir_path: String::from_str(p),
            files: None,
            files_len: 0,
            sp: 0,
            bp: 0,
            error_message: None,
            fsnd: 0,
            loadtime: 0,
            sort_type: settings.sort_type,
            hidden: settings.hidden,
            readonly: false,
        }
    }

    /// The entries shown, or nothing where none is.
    pub fn files(&self) -> (r: Option<&[File]>)
        ensures
            match r {
                Some(s) => s@ == self.visible() && s@.len() > 0,
                None => self.visible().len() == 0,
            },
    {
        match &self.files {
            Some(files) => {
                if self.fsnd < files.len() {
                    let s = vstd::slice::slice_subrange(files.as_slice(), self.fsnd, files.len());
                    assert(s@ =~= self.visible());
                    Some(s)
                } else {
                    None
                }
            },
            None => None,
        }
    }

    /// Parts the whole listing anew. Where hidden entries are left out they
    /// are brought to the front, in the order they had, and counted; else
    /// every entry is shown. An empty listing, or none, is left as it is.
    pub fn hidden(&mut self)
        ensures
            final(self).same_but_listing(old(self)),
            match old(self).files {
                Some(v) => if v@.len() > 0 {
                    &&& final(self).files is Some
                    &&& final(self).files->0@ == if old(self).hidden {
                        fronted(v@, Mark::Hidden)
                    } else {
                        v@
                    }
                    &&& final(self).fsnd == hidden_count(v@, old(self).hidden)
                    &&& final(self).files_len == v@.len() - final(self).fsnd
                    &&& final(self).visible() == if old(self).hidden {
                        part(v@, Mark::Hidden, false)
                    } else {
                        v@
                    }
                    &&& final(self).wf()
                } else {
                    *final(self) == *old(self)
                },
                None => *final(self) == *old(self),
            },
    {
        match self.files.take() {
            Some(mut all) => {
                if all.len() > 0 {
                    let ghost v = all@;
                    self.fsnd = 0;
                    if self.hidden {
                        let n = bring_front(&mut all, Mark::Hidden);
                        self.fsnd = n;
                        proof {
                            lemma_fronted_len(v, Mark::Hidden);
                            assert(all@.skip(n as int) =~= part(v, Mark::Hidden, false));
                        }
                    } else {
                        assert(all@.skip(0) =~= v);
                    }
                    self.files_len = all.len() - self.fsnd;
                }
                self.files = Some(all);
            },
            None => {},
        }
    }

    /// The listing is what `sort` makes of `listing` under the settings of
    /// this snapshot; `fsnd` is the count from before where nothing is counted.
    pub open spec fn holds_arranged(&self, listing: Option<Vec<File>>, fsnd: usize) -> bool {
        match listing {
            Some(v) => if v@.len() > 0 {
                &&& self.files is Some
                &&& self.files->0@ == arranged(v@, self.hidden, self.sort_type)
                &&& self.files->0@.to_multiset() == v@.to_multiset()
                &&& self.fsnd == hidden_count(v@, self.hidden)
                &&& self.files_len == v@.len() - self.fsnd
                &&& self.visible() == dirs_first(
                    self.sort_type.sorted(
                        if self.hidden {
                            part(v@, Mark::Hidden, false)
                        } else {
                            v@
                        },
                    ),
                )
            } else {
                self.files == listing && self.fsnd == fsnd && self.files_len == 0
            },
            None => self.files is None && self.fsnd == fsnd && self.files_len == 0,
        }
    }

    /// Among the entries shown, two that are both directories, or both
    /// none, are in the order of `sort_type`: the first does not come after
    /// the second.
    pub open spec fn in_order(&self) -> bool {
        forall|i: int, j: int|
            0 <= i < j < self.visible().len() && (#[trigger] self.visible()[i]).spec_is_dir() == (
            #[trigger] self.visible()[j]).spec_is_dir() ==> self.sort_type.order(self.visible()[i], self.visible()[j])
                <= 0
    }

    /// Among the entries shown no directory stands behind an entry that is
    /// none: not directly behind it, and not further back.
    pub open spec fn dirs_lead(&self) -> bool {
        forall|i: int, j: int|
            0 <= i < j < self.visible().len() ==> !(!(#[trigger] self.visible()[i]).spec_is_dir() && (
            #[trigger] self.visible()[j]).spec_is_dir())
    }

    /// Orders the listing anew: parts it as `hidden` does, puts the entries
    /// shown into the order of `sort_type`, and brings the directories among
    /// them to the front.
    pub fn sort(&mut self)
        ensures
            final(self).same_but_listing(old(self)),
            final(self).holds_arranged(old(self).files, old(self).fsnd),
            final(self).dirs_lead(),
            final(self).in_order(),
            final(self).wf(),
    {
        match self.files.take() {
            Some(mut files) => {
                if files.len() > 0 {
                    let ghost v = files@;
                    let n = arrange(&mut files, self.hidden, self.sort_type);
                    self.fsnd = n;
                    self.files_len = files.len() - n;
                    assert(n >= files@.len() ==> files@.skip(n as int) =~= Seq::<File>::empty());
                    proof {
                        lemma_arranged_permutes(v, self.hidden, self.sort_type);
                        lemma_dirs_first_in_order(
                            self.sort_type,
                            if self.hidden {
                                part(v, Mark::Hidden, false)
                            } else {
                                v
                            },
                        );
                    }
                } else {
                    self.files_len = 0;
                }
                self.files = Some(files);
            },
            None => {
                self.files_len = 0;
            },
        }
    }

    /// The entry under the cursor, where the cursor is on one.
    pub fn current(&self) -> (r: Option<&File>)
        ensures
            match r {
                Some(f) => self.cursor() < self.visible().len() && *f == self.visible()[self.cursor()],
                None => self.cursor() >= self.visible().len(),
            },
    {
        match self.files() {
            Some(files) => {
                if self.sp < files.len() && self.bp < files.len() - self.sp {
                    Some(&files[self.sp + self.bp])
                } else {
                    None
                }
            },
            None => None,
        }
    }

    /// Brings the viewport into bounds for a window of `rows` rows: see
    /// `clamp_viewport`. The listing does not change.
    pub fn bound_position(&mut self, rows: usize)
        requires
            old(self).wf(),
            rows > 0 || old(self).files_len == 0,
        ensures
            final(self).wf(),
            final(self).same_listing(old(self)),
            (final(self).sp as int, final(self).bp as int) == clamp_viewport(
                old(self).files_len as int,
                rows as int,
                old(self).sp as int,
                old(self).bp as int,
            ),
            old(self).cursor() < old(self).files_len ==> {
                &&& final(self).cursor() == old(self).cursor()
                &&& final(self).bp < rows
                &&& final(self).sp <= most(old(self).files_len - rows, 0)
            },
    {
        proof {
            if old(self).cursor() < old(self).files_len {
                lemma_clamp_keeps_cursor(
                    old(self).files_len as int,
                    rows as int,
                    old(self).sp as int,
                    old(self).bp as int,
                );
            }
        }
        let (sp, bp) = clamped(self.files_len, rows, self.sp, self.bp);
        self.sp = sp;
        self.bp = bp;
    }

    fn find_named(files: &[File], name: &str) -> (r: usize)
        ensures
            r == first_named(files@, name@, 0),
            r <= files@.len(),
    {
        let mut i: usize = 0;
        while i < files.len()
            invariant
                i <= files.len(),
                first_named(files@, name@, 0) == first_named(files@, name@, i as int),
            decreases files.len() - i,
        {
            if str_eq(files[i].file_name.as_str(), name) {
                return i;
            }
            i += 1;
        }
        i
    }

    /// Puts the cursor on the entry called `name` (see `sel_target`) and
    /// brings the viewport into bounds. Where no entry is shown nothing
    /// changes.
    pub fn sel(&mut self, name: &str, rows: usize)
        requires
            old(self).wf(),
            rows > 0 || old(self).files_len == 0,
        ensures
            final(self).wf(),
            final(self).same_listing(old(self)),
            old(self).files_len == 0 ==> final(self).sp == old(self).sp && final(self).bp == old(self).bp,
            old(self).files_len > 0 ==> final(self).cursor() == sel_target(
                old(self).visible(),
                name@,
                old(self).cursor(),
            ) && final(self).bp < rows && final(self).sp <= most(old(self).files_len - rows, 0),
            old(self).files_len > 0 ==> (final(self).sp as int, final(self).bp as int) == clamp_viewport(
                old(self).files_len as int,
                rows as int,
                if sel_target(old(self).visible(), name@, old(self).cursor()) <= old(self).sp {
                    0
                } else {
                    old(self).sp as int
                },
                if sel_target(old(self).visible(), name@, old(self).cursor()) <= old(self).sp {
                    sel_target(old(self).visible(), name@, old(self).cursor())
                } else {
                    sel_target(old(self).visible(), name@, old(self).cursor()) - old(self).sp
                },
            ),
    {
        let target = match self.files() {
            Some(files) => {
                let last = self.files_len - 1;
                let ind = if self.sp < last && self.bp < last - self.sp {
                    self.sp + self.bp
                } else {
                    last
                };
                if str_eq(files[ind].file_name.as_str(), name) {
                    ind
                } else {
                    let found = Self::find_named(files, name);
                    if found < files.len() {
                        found
                    } else {
                        ind
                    }
                }
            },
            None => {
                return ;
            },
        };
        if target <= self.sp {
            self.sp = 0;
        }
        self.bp = target - self.sp;
        self.bound_position(rows);
    }

    /// Takes in what a read of the directory brought. `readonly` is kept in
    /// any case. A listing replaces the old one and is ordered as `sort`
    /// does, and `now` becomes the time of the load; a listing that could
    /// not be taken whole counts as none. An error is kept as the message,
    /// and the listing and its time stay as they were.
    pub fn update(&mut self, readonly: bool, listing: Result<Option<Vec<File>>, String>, now: u64)
        ensures
            final(self).dir_path == old(self).dir_path,
            final(self).sp == old(self).sp,
            final(self).bp == old(self).bp,
            final(self).sort_type == old(self).sort_type,
            final(self).hidden == old(self).hidden,
            final(self).readonly == readonly,
            match listing {
                Ok(l) => {
                    &&& final(self).loadtime == now
                    &&& final(self).error_message == old(self).error_message
                    &&& final(self).holds_arranged(l, old(self).fsnd)
                    &&& final(self).dirs_lead()
                    &&& final(self).in_order()
                    &&& final(self).wf()
                },
                Err(e) => {
                    &&& final(self).loadtime == old(self).loadtime
                    &&& final(self).error_message == Some(e)
                    &&& final(self).files == old(self).files
                    &&& final(self).files_len == old(self).files_len
                    &&& final(self).fsnd == old(self).fsnd
                    &&& final(self).wf() == old(self).wf()
                },
            },
    {
        self.readonly = readonly;
        match listing {
            Ok(l) => {
                self.files = l;
                self.sort();
                self.loadtime = now;
            },
            Err(e) => {
                self.error_message = Some(e);
            },
        }
    }

    pub open spec fn spec_stale(&self, mtime: u64, settings: &Settings) -> Refresh {
        if spec_reload_due(self.loadtime, mtime) {
            Refresh::Reload
        } else if self.sort_type != settings.sort_type {
            Refresh::Resort
        } else if self.hidden != settings.hidden {
            Refresh::Refilter
        } else {
            Refresh::Keep
        }
    }

    /// What the snapshot needs when the directory was last modified at the
    /// second `mtime` and the settings are `settings`.
    #[verifier::when_used_as_spec(spec_stale)]
    pub fn stale(&self, mtime: u64, settings: &Settings) -> (r: Refresh)
        ensures
            r == self.spec_stale(mtime, settings),
    {
        if reload_due(self.loadtime, mtime) {
            Refresh::Reload
        } else if self.sort_type != settings.sort_type {
            Refresh::Resort
        } else if self.hidden != settings.hidden {
            Refresh::Refilter
        } else {
            Refresh::Keep
        }
    }

    /// The listing and what belongs to it are in `self` as one step of work
    /// leaves them that began at `before`. A reload takes in what was read,
    /// under the settings that the snapshot had; without a read it changes
    /// nothing. To order or to part anew takes over both settings and orders
    /// the listing under them.
    pub open spec fn worked(
        &self,
        before: &Dir,
        work: Refresh,
        loaded: Option<Loaded>,
        settings: &Settings,
    ) -> bool {
        &&& self.dir_path == before.dir_path
        &&& match work {
            Refresh::Reload => match loaded {
                Some(l) => {
                    &&& self.sort_type == before.sort_type
                    &&& self.hidden == before.hidden
                    &&& self.readonly == l.readonly
                    &&& match l.listing {
                        Ok(v) => {
                            &&& self.loadtime == l.now
                            &&& self.error_message == before.error_message
                            &&& self.holds_arranged(v, before.fsnd)
                            &&& self.dirs_lead()
                            &&& self.in_order()
                        },
                        Err(e) => {
                            &&& self.loadtime == before.loadtime
                            &&& self.error_message == Some(e)
                            &&& self.files == before.files
                            &&& self.files_len == before.files_len
                            &&& self.fsnd == before.fsnd
                        },
                    }
                },
                None => self.same_listing(before),
            },
            Refresh::Resort | Refresh::Refilter => {
                &&& self.sort_type == settings.sort_type
                &&& self.hidden == settings.hidden
                &&& self.readonly == before.readonly
                &&& self.loadtime == before.loadtime
                &&& self.error_message == before.error_message
                &&& self.holds_arranged(before.files, before.fsnd)
                &&& self.dirs_lead()
                &&& self.in_order()
            },
            Refresh::Keep => self.same_listing(before),
        }
    }

    /// Brings the snapshot in step. The work is what `stale` asks for;
    /// `loaded` is what was read where a reload was due. Then the viewport
    /// is brought into bounds for `rows` rows, and where `name` is given the
    /// cursor goes to the entry of that name as in `sel`.
    pub fn refresh(
        &mut self,
        mtime: u64,
        loaded: Option<Loaded>,
        settings: &Settings,
        rows: usize,
        name: Option<&str>,
    )
        requires
            old(self).wf(),
            rows > 0,
        ensures
            final(self).wf(),
            final(self).worked(old(self), old(self).spec_stale(mtime, settings), loaded, settings),
            match name {
                Some(n) => final(self).files_len > 0 ==> final(self).cursor() == sel_target(
                    final(self).visible(),
                    n@,
                    clamp_viewport(final(self).files_len as int, rows as int, old(self).sp as int, old(self).bp as int).0
                        + clamp_viewport(
                        final(self).files_len as int,
                        rows as int,
                        old(self).sp as int,
                        old(self).bp as int,
                    ).1,
                ) && final(self).bp < rows,
                None => true,
            },
            name is None || final(self).files_len == 0 ==> (final(self).sp as int, final(self).bp as int)
                == clamp_viewport(
                final(self).files_len as int,
                rows as int,
                old(self).sp as int,
                old(self).bp as int,
            ),
    {
        match self.stale(mtime, settings) {
            Refresh::Reload => {
                match loaded {
                    Some(l) => {
                        self.update(l.readonly, l.listing, l.now);
                    },
                    None => {},
                }
            },
            Refresh::Resort | Refresh::Refilter => {
                self.sort_type = settings.sort_type;
                self.hidden = settings.hidden;
                self.sort();
            },
            Refresh::Keep => {},
        }
        self.bound_position(rows);
        match name {
            Some(n) => {
                self.sel(n, rows);
            },
            None => {},
        }
    }

    /// Moves the cursor `step` entries up, or to the first entry where
    /// there are fewer above it, then brings the viewport into bounds.
    pub fn up(&mut self, step: usize, rows: usize)
        requires
            old(self).wf(),
            rows > 0,
        ensures
            final(self).wf(),
            final(self).same_listing(old(self)),
            (final(self).sp as int, final(self).bp as int) == clamp_viewport(
                old(self).files_len as int,
                rows as int,
                moved_up(old(self).sp as int, old(self).bp as int, step as int).0,
                moved_up(old(self).sp as int, old(self).bp as int, step as int).1,
            ),
            old(self).cursor() < old(self).files_len ==> final(self).cursor() == most(
                old(self).cursor() - step,
                0,
            ) && final(self).bp < rows,
    {
        if self.bp < step {
            let rest = step - self.bp;
            self.sp = if self.sp > rest {
                self.sp - rest
            } else {
                0
            };
        }
        self.bp = if self.bp > step {
            self.bp - step
        } else {
            0
        };
        proof {
            if old(self).cursor() < old(self).files_len {
                lemma_clamp_keeps_cursor(
                    self.files_len as int,
                    rows as int,
                    self.sp as int,
                    self.bp as int,
                );
            }
        }
        self.bound_position(rows);
    }

    /// Moves the cursor `step` entries down as `moved_down` says, in a
    /// window that is no higher than the listing is long, then brings the
    /// viewport into bounds for that window.
    pub fn down(&mut self, step: usize, rows: usize)
        requires
            old(self).wf(),
            rows > 0,
        ensures
            final(self).wf(),
            final(self).same_listing(old(self)),
            (final(self).sp as int, final(self).bp as int) == clamp_viewport(
                old(self).files_len as int,
                least(rows as int, old(self).files_len as int),
                moved_down(
                    old(self).files_len as int,
                    least(rows as int, old(self).files_len as int),
                    old(self).sp as int,
                    old(self).bp as int,
                    step as int,
                ).0,
                moved_down(
                    old(self).files_len as int,
                    least(rows as int, old(self).files_len as int),
                    old(self).sp as int,
                    old(self).bp as int,
                    step as int,
                ).1,
            ),
            old(self).cursor() + step < old(self).files_len && old(self).bp + step < rows
                ==> final(self).cursor() == old(self).cursor() + step,
    {
        let count = self.files_len;
        let window = if rows < count {
            rows
        } else {
            count
        };
        let target: u128 = self.bp as u128 + step as u128;
        if target > window as u128 {
            let wanted: u128 = self.sp as u128 + (target - window as u128);
            self.sp = if wanted < (count - window) as u128 {
                wanted as usize
            } else {
                count - window
            };
        }
        let low = if window > 0 {
            window - 1
        } else {
            0
        };
        self.bp = if target < low as u128 {
            target as usize
        } else {
            low
        };
        proof {
            if old(self).cursor() + step < old(self).files_len && old(self).bp + step < rows {
                lemma_clamp_keeps_cursor(
                    self.files_len as int,
                    window as int,
                    self.sp as int,
                    self.bp as int,
                );
            }
        }
        self.bound_position(window);
    }

    /// Puts the cursor on the first entry.
    pub fn top(&mut self)
        ensures
            final(self).same_listing(old(self)),
            final(self).sp == 0,
            final(self).bp == 0,
    {
        self.sp = 0;
        self.bp = 0;
    }

    /// Puts the cursor on the last entry, at the bottom of a window of `rows` rows.
    pub fn bottom(&mut self, rows: usize)
        ensures
            final(self).same_listing(old(self)),
            (final(self).sp as int, final(self).bp as int) == at_bottom(old(self).files_len as int, rows as int),
            old(self).files_len > 0 && rows > 0 ==> final(self).cursor() == old(self).files_len - 1,
    {
        let count = self.files_len;
        self.sp = if count > rows {
            count - rows
        } else {
            0
        };
        let last = if count > 0 {
            count - 1
        } else {
            0
        };
        let low = if rows > 0 {
            rows - 1
        } else {
            0
        };
        self.bp = if last < low {
            last
        } else {
            low
        };
    }

    /// The entry that a search for `pattern` finds from the cursor: see `found`.
    pub fn find(&self, pattern: &str, forward: bool) -> (r: Option<usize>)
        ensures
            match r {
                Some(pos) => pos == found(self.visible(), pattern@, self.cursor(), forward) && pos
                    < self.visible().len(),
                None => found(self.visible(), pattern@, self.cursor(), forward) == -1,
            },
    {
        match self.files() {
            Some(files) => {
                let n = files.len();
                if !(self.sp < n && self.bp < n - self.sp) {
                    return None;
                }
                let cursor = self.sp + self.bp;
                let pat = fold(pattern);
                let mut k: usize = 1;
                while k < n
                    invariant
                        1 <= k <= n,
                        n == files@.len(),
                        cursor < n,
                        cursor == self.cursor(),
                        files@ == self.visible(),
                        pat@ == crate::text::folded(bytes_of(pattern@)),
                        search_from(files@, pattern@, cursor as int, forward, 1) == search_from(
                            files@,
                            pattern@,
                            cursor as int,
                            forward,
                            k as int,
                        ),
                    decreases n - k,
                {
                    let pos = if forward {
                        if k < n - cursor {
                            cursor + k
                        } else {
                            k - (n - cursor)
                        }
                    } else {
                        if k <= cursor {
                            cursor - k
                        } else {
                            n - (k - cursor)
                        }
                    };
                    assert(pos == step_from(n as int, cursor as int, k as int, forward));
                    let name = fold(files[pos].file_name.as_str());
                    if contains_bytes(&pat, &name) {
                        return Some(pos);
                    }
                    k += 1;
                }
                None
            },
            None => None,
        }
    }

    /// Puts the cursor on the entry `pos`. A window that begins behind that
    /// entry goes back to the top of the listing first; then the viewport is
    /// brought into bounds.
    pub fn go_to(&mut self, pos: usize, rows: usize)
        requires
            old(self).wf(),
            rows > 0,
            pos < old(self).files_len,
        ensures
            final(self).wf(),
            final(self).same_listing(old(self)),
            final(self).cursor() == pos,
            final(self).bp < rows,
            final(self).sp <= most(old(self).files_len - rows, 0),
            (final(self).sp as int, final(self).bp as int) == gone_to(
                old(self).files_len as int,
                rows as int,
                old(self).sp as int,
                pos as int,
            ),
    {
        if pos < self.sp {
            self.sp = 0;
        }
        self.bp = pos - self.sp;
        proof {
            lemma_clamp_keeps_cursor(self.files_len as int, rows as int, self.sp as int, self.bp as int);
        }
        self.bound_position(rows);
    }

    /// The name of the entry under the cursor, where the cursor is on one.
    pub open spec fn cursor_name(&self) -> Option<Seq<char>> {
        if self.cursor() < self.visible().len() {
            Some(self.visible()[self.cursor()].file_name@)
        } else {
            None
        }
    }

    /// `self` is what `resort` makes of `before`.
    pub open spec fn resorted(&self, before: &Dir, settings: &Settings, rows: int) -> bool {
        if before.files_len == 0 {
            *self == *before
        } else {
            &&& self.wf()
            &&& self.worked(before, Refresh::Resort, None, settings)
            &&& match before.cursor_name() {
                Some(n) => {
                    &&& self.files_len > 0 ==> self.cursor() == sel_target(self.visible(), n, before.cursor())
                        && self.bp < rows
                    &&& self.files_len == 0 ==> self.sp == before.sp && self.bp == before.bp
                },
                None => (self.sp as int, self.bp as int) == clamp_viewport(
                    self.files_len as int,
                    rows,
                    before.sp as int,
                    before.bp as int,
                ),
            }
        }
    }

    /// Takes over the settings and orders the listing under them; the
    /// cursor then goes back to the entry on which it was, by its name. A
    /// snapshot that shows no entry is left as it is.
    pub fn resort(&mut self, settings: &Settings, rows: usize)
        requires
            old(self).wf(),
            rows > 0,
        ensures
            final(self).resorted(old(self), settings, rows as int),
            final(self).wf(),
            final(self).dir_path == old(self).dir_path,
    {
        if self.files_len != 0 {
            let name = match self.current() {
                Some(f) => Some(f.file_name.clone()),
                None => None,
            };
            self.hidden = settings.hidden;
            self.sort_type = settings.sort_type;
            self.sort();
            match name {
                Some(n) => {
                    self.sel(n.as_str(), rows);
                },
                None => {
                    self.bound_position(rows);
                },
            }
        }
    }

    /// `self` is what `reload` makes of `before`.
    pub open spec fn reloaded(&self, before: &Dir, loaded: Loaded, rows: int) -> bool {
        &&& self.wf()
        &&& self.dir_path == before.dir_path
        &&& self.sort_type == before.sort_type
        &&& self.hidden == before.hidden
        &&& self.readonly == loaded.readonly
        &&& match loaded.listing {
            Ok(v) => {
                &&& self.loadtime == loaded.now
                &&& self.error_message == before.error_message
                &&& self.holds_arranged(v, before.fsnd)
                &&& self.dirs_lead()
                &&& self.in_order()
            },
            Err(e) => {
                &&& self.loadtime == before.loadtime
                &&& self.error_message == Some(e)
                &&& self.files == before.files
                &&& self.files_len == before.files_len
                &&& self.fsnd == before.fsnd
            },
        }
        &&& (self.sp as int, self.bp as int) == clamp_viewport(
            self.files_len as int,
            rows,
            before.sp as int,
            before.bp as int,
        )
    }

    /// Takes in what a read of the directory brought, as `update` does,
    /// and brings the viewport into bounds.
    pub fn reload(&mut self, loaded: Loaded, rows: usize)
        requires
            old(self).wf(),
            rows > 0,
        ensures
            final(self).reloaded(old(self), loaded, rows as int),
    {
        self.update(loaded.readonly, loaded.listing, loaded.now);
        self.bound_position(rows);
    }
}

/// A snapshot that was read is not read again while the directory is
/// as it was at the read: that is, while the last change is no later than
/// the read. The second zero stands for no load at all, so a read in it
/// does not count.
pub proof fn lemma_no_second_reload(before: Dir, after: Dir, loaded: Loaded, mtime: u64, settings: Settings)
    requires
        after.worked(&before, Refresh::Reload, Some(loaded), &settings),
        loaded.listing is Ok,
        loaded.now > 0,
        mtime <= loaded.now,
    ensures
        after.spec_stale(mtime, &settings) != Refresh::Reload,
{
}

/// A snapshot that is in step stays in step: when nothing is due, a
/// refresh changes nothing of the listing.
pub proof fn lemma_refresh_in_step(before: Dir, after: Dir, loaded: Option<Loaded>, mtime: u64, settings: Settings)
    requires
        before.spec_stale(mtime, &settings) == Refresh::Keep,
        after.worked(&before, before.spec_stale(mtime, &settings), loaded, &settings),
    ensures
        after.same_listing(&before),
        after.spec_stale(mtime, &settings) == Refresh::Keep,
{
}

} // verus!
