//! A set of paths that keeps the order in which they came: the selection
//! and the clipboard.

use crate::text::{chars_of, str_eq};
use vstd::prelude::*;
use vstd::string::*;

verus! {

/// A set of paths, in the order in which they came.
#[derive(Debug)]
pub struct PathSet {
    pub items: Vec<String>,
}

impl View for PathSet {
    type V = Set<Seq<char>>;

    open spec fn view(&self) -> Set<Seq<char>> {
        Set::new(|p: Seq<char>| self.holds(p))
    }
}

impl PathSet {
    /// `p` is one of the paths.
    pub open spec fn holds(&self, p: Seq<char>) -> bool {
        exists|i: int| 0 <= i < self.items@.len() && (#[trigger] self.items@[i])@ == p
    }

    /// No path occurs twice.
    pub open spec fn wf(&self) -> bool {
        forall|i: int, j: int|
            0 <= i < j < self.items@.len() ==> (#[trigger] self.items@[i])@ != (#[trigger] self.items@[j])@
    }

    /// The paths in the order in which they came.
    pub open spec fn paths(&self) -> Seq<Seq<char>> {
        Seq::new(self.items@.len(), |i: int| self.items@[i]@)
    }

    pub fn new() -> (r: PathSet)
        ensures
            r.wf(),
            r@ == Set::<Seq<char>>::empty(),
            r.items@.len() == 0,
    {
        let r = PathSet { items: Vec::new() };
        assert(r@ =~= Set::<Seq<char>>::empty());
        r
    }

    /// The set of the first `n` paths.
    pub open spec fn first(&self, n: int) -> Set<Seq<char>> {
        Set::new(|p: Seq<char>| exists|i: int| 0 <= i < n && i < self.items@.len() && (#[trigger] self.items@[i])@ == p)
    }

    /// A set without a path twice has as many paths as it lists.
    pub proof fn lemma_count(&self, n: int)
        requires
            self.wf(),
            0 <= n <= self.items@.len(),
        ensures
            self.first(n).finite(),
            self.first(n).len() == n,
            n == self.items@.len() ==> self.first(n) == self@,
        decreases n,
    {
        if n == 0 {
            assert(self.first(0) =~= Set::<Seq<char>>::empty());
        } else {
            self.lemma_count(n - 1);
            let p = self.items@[n - 1]@;
            assert(!self.first(n - 1).contains(p));
            assert(self.first(n) =~= self.first(n - 1).insert(p)) by {
                assert forall|q: Seq<char>| self.first(n).contains(q) == self.first(n - 1).insert(p).contains(q) by {
                    if self.first(n).contains(q) {
                        let i = choose|i: int| 0 <= i < n && i < self.items@.len() && (#[trigger] self.items@[i])@ == q;
                        if i < n - 1 {
                            assert(self.first(n - 1).contains(q));
                        }
                    }
                    if self.first(n - 1).contains(q) {
                        let i = choose|i: int|
                            0 <= i < n - 1 && i < self.items@.len() && (#[trigger] self.items@[i])@ == q;
                        assert(self.items@[i]@ == q);
                    }
                    if q == p {
                        assert(self.items@[n - 1]@ == q);
                    }
                }
            }
        }
        if n == self.items@.len() {
            assert(self.first(n) =~= self@);
        }
    }

    /// The number of paths.
    pub fn len(&self) -> (r: usize)
        ensures
            r == self.items@.len(),
            self.wf() ==> self@.finite() && self@.len() == r,
    {
        proof {
            if self.wf() {
                self.lemma_count(self.items@.len() as int);
            }
        }
        self.items.len()
    }

    pub fn is_empty(&self) -> (r: bool)
        ensures
            r == (self.items@.len() == 0),
            r == (self@ == Set::<Seq<char>>::empty()),
    {
        proof {
            if self.items@.len() > 0 {
                assert(self.holds(self.items@[0]@));
                assert(self@.contains(self.items@[0]@));
            } else {
                assert(self@ =~= Set::<Seq<char>>::empty());
            }
        }
        self.items.len() == 0
    }

    /// Where `p` stands among the paths, or their number where it does not.
    fn position(&self, p: &str) -> (r: usize)
        ensures
            r <= self.items@.len(),
            r < self.items@.len() ==> self.items@[r as int]@ == p@,
            forall|i: int| 0 <= i < r ==> (#[trigger] self.items@[i])@ != p@,
            (r < self.items@.len()) == self@.contains(p@),
    {
        let mut i: usize = 0;
        while i < self.items.len()
            invariant
                i <= self.items@.len(),
                forall|k: int| 0 <= k < i ==> (#[trigger] self.items@[k])@ != p@,
            decreases self.items.len() - i,
        {
            if str_eq(self.items[i].as_str(), p) {
                assert(self.holds(p@));
                return i;
            }
            i += 1;
        }
        i
    }

    pub fn contains(&self, p: &str) -> (r: bool)
        ensures
            r == self@.contains(p@),
    {
        self.position(p) < self.items.len()
    }

    /// Takes `p` in, behind the others, unless it is there already.
    pub fn insert(&mut self, p: String)
        requires
            old(self).wf(),
        ensures
            final(self).wf(),
            final(self)@ == old(self)@.insert(p@),
            final(self).items@ == if old(self)@.contains(p@) {
                old(self).items@
            } else {
                old(self).items@.push(p)
            },
    {
        if self.position(p.as_str()) == self.items.len() {
            let ghost before = *self;
            self.items.push(p);
            proof {
                assert forall|q: Seq<char>| self@.contains(q) == before@.insert(p@).contains(q) by {
                    if before.holds(q) {
                        let i = choose|i: int| 0 <= i < before.items@.len() && (#[trigger] before.items@[i])@ == q;
                        assert(self.items@[i]@ == q);
                    }
                    if q == p@ {
                        assert(self.items@[before.items@.len() as int]@ == q);
                    }
                }
                assert(self@ =~= before@.insert(p@));
            }
        } else {
            assert(self@ =~= self@.insert(p@));
        }
    }

    /// Takes `p` out, where it is there. The others keep their order.
    pub fn remove(&mut self, p: &str)
        requires
            old(self).wf(),
        ensures
            final(self).wf(),
            final(self)@ == old(self)@.remove(p@),
    {
        let at = self.position(p);
        if at < self.items.len() {
            let ghost before = *self;
            self.items.remove(at);
            proof {
                assert forall|q: Seq<char>| self@.contains(q) == before@.remove(p@).contains(q) by {
                    if self.holds(q) {
                        let i = choose|i: int| 0 <= i < self.items@.len() && (#[trigger] self.items@[i])@ == q;
                        if i < at {
                            assert(before.items@[i]@ == q);
                        } else {
                            assert(before.items@[i + 1]@ == q);
                        }
                    }
                    if before.holds(q) && q != p@ {
                        let i = choose|i: int| 0 <= i < before.items@.len() && (#[trigger] before.items@[i])@ == q;
                        if i < at {
                            assert(self.items@[i]@ == q);
                        } else {
                            assert(self.items@[i - 1]@ == q);
                        }
                    }
                }
                assert(self@ =~= before@.remove(p@));
            }
        } else {
            assert(self@ =~= self@.remove(p@));
        }
    }

    /// Takes `p` out where it is there, and in where it is not.
    pub fn toggle(&mut self, p: &str)
        requires
            old(self).wf(),
        ensures
            final(self).wf(),
            final(self)@ == if old(self)@.contains(p@) {
                old(self)@.remove(p@)
            } else {
                old(self)@.insert(p@)
            },
    {
        if self.contains(p) {
            self.remove(p);
        } else {
            self.insert(String::from_str(p));
        }
    }

    pub fn clear(&mut self)
        ensures
            final(self).wf(),
            final(self)@ == Set::<Seq<char>>::empty(),
            final(self).items@.len() == 0,
    {
        self.items.clear();
        assert(self@ =~= Set::<Seq<char>>::empty());
    }
}

/// A component of the path `s` ends before `e`: the character before is
/// no slash, and a slash or the end of the path follows.
pub open spec fn is_end(s: Seq<char>, e: int) -> bool {
    1 <= e <= s.len() && s[e - 1] != '/' && (e == s.len() || s[e] == '/')
}

/// The ancestors of the path `s` that end before `e` or earlier, the
/// shortest first: the root where the path begins with a slash, then the
/// path up to the end of each of its components.
pub open spec fn chain_upto(s: Seq<char>, e: int) -> Seq<Seq<char>>
    decreases e,
{
    if e <= 0 {
        if s.len() > 0 && s[0] == '/' {
            seq![seq!['/']]
        } else {
            Seq::empty()
        }
    } else {
        let before = chain_upto(s, e - 1);
        if is_end(s, e) {
            before.push(s.take(e))
        } else {
            before
        }
    }
}

/// The chain of directories that leads to the path `s`, from the root to
/// the path itself.
pub open spec fn spec_ancestors(s: Seq<char>) -> Seq<Seq<char>> {
    chain_upto(s, s.len() as int)
}

/// Where the last component of the path `s` begins: behind its last slash.
pub open spec fn name_start(s: Seq<char>) -> int
    decreases s.len(),
{
    if s.len() == 0 {
        0
    } else if s.last() == '/' {
        s.len() as int
    } else {
        name_start(s.drop_last())
    }
}

/// Where the last component of the path `s` ends: before the slashes
/// that the path ends in, if it ends in any.
pub open spec fn name_end(s: Seq<char>) -> int
    decreases s.len(),
{
    if s.len() == 0 {
        0
    } else if s.last() != '/' {
        s.len() as int
    } else {
        name_end(s.drop_last())
    }
}

/// Where the last component of the path `s` begins: behind the last
/// slash that stands before its end.
pub open spec fn last_start(s: Seq<char>) -> int {
    name_start(s.take(name_end(s)))
}

/// The last component of the path `s`: what stands between its last
/// slash and its end, slashes that the path ends in left aside. Nothing
/// for a path of slashes only.
pub open spec fn spec_base_name(s: Seq<char>) -> Seq<char> {
    s.subrange(last_start(s), name_end(s))
}

pub proof fn lemma_name_end(s: Seq<char>)
    ensures
        0 <= name_end(s) <= s.len(),
        0 <= last_start(s) <= name_end(s),
        name_end(s) > 0 ==> s[name_end(s) - 1] != '/',
        forall|i: int| name_end(s) <= i < s.len() ==> s[i] == '/',
    decreases s.len(),
{
    if s.len() > 0 && s.last() == '/' {
        let t = s.drop_last();
        lemma_name_end(t);
        assert forall|i: int| name_end(s) <= i < s.len() implies s[i] == '/' by {
            if i < t.len() {
                assert(s[i] == t[i]);
            }
        }
        if name_end(s) > 0 {
            assert(s[name_end(s) - 1] == t[name_end(t) - 1]);
        }
        assert(s.take(name_end(s)) =~= t.take(name_end(t)));
    }
    lemma_name_start(s.take(name_end(s)));
}

/// The path of `name` in the directory `dir`.
pub open spec fn spec_join(dir: Seq<char>, name: Seq<char>) -> Seq<char> {
    if dir.len() == 0 || dir.last() == '/' {
        dir + name
    } else {
        dir + seq!['/'] + name
    }
}

/// The path `s` with `name` in the place of its last component.
pub open spec fn spec_sibling(s: Seq<char>, name: Seq<char>) -> Seq<char> {
    s.take(last_start(s)) + name
}

pub proof fn lemma_name_start(s: Seq<char>)
    ensures
        0 <= name_start(s) <= s.len(),
        forall|i: int| name_start(s) <= i < s.len() ==> s[i] != '/',
        name_start(s) > 0 ==> s[name_start(s) - 1] == '/',
    decreases s.len(),
{
    if s.len() > 0 && s.last() != '/' {
        let t = s.drop_last();
        lemma_name_start(t);
        assert forall|i: int| name_start(s) <= i < s.len() implies s[i] != '/' by {
            if i < t.len() {
                assert(s[i] == t[i]);
            }
        }
        if name_start(s) > 0 {
            assert(s[name_start(s) - 1] == t[name_start(t) - 1]);
        }
    }
}

/// The chain of directories that leads to `p`, from the root to `p` itself.
pub fn ancestors(p: &str) -> (r: Vec<String>)
    ensures
        r@.len() == spec_ancestors(p@).len(),
        forall|k: int| 0 <= k < r@.len() ==> (#[trigger] r@[k])@ == spec_ancestors(p@)[k],
{
    let cs = chars_of(p);
    let mut r: Vec<String> = Vec::new();
    if cs.len() > 0 && cs[0] == '/' {
        r.push(String::from_str(p.substring_char(0, 1)));
        assert(p@.subrange(0, 1) =~= seq!['/']);
    }
    let mut e: usize = 0;
    while e < cs.len()
        invariant
            e <= cs.len(),
            cs@ == p@,
            r@.len() == chain_upto(p@, e as int).len(),
            forall|k: int| 0 <= k < r@.len() ==> (#[trigger] r@[k])@ == chain_upto(p@, e as int)[k],
        decreases cs.len() - e,
    {
        e += 1;
        if cs[e - 1] != '/' && (e == cs.len() || cs[e] == '/') {
            r.push(String::from_str(p.substring_char(0, e)));
            assert(p@.subrange(0, e as int) =~= p@.take(e as int));
        }
    }
    r
}

fn find_name_end(cs: &Vec<char>) -> (r: usize)
    ensures
        r == name_end(cs@),
        r <= cs@.len(),
{
    let mut i: usize = cs.len();
    proof {
        assert(cs@.take(i as int) =~= cs@);
    }
    while i > 0 && cs[i - 1] == '/'
        invariant
            i <= cs@.len(),
            name_end(cs@) == name_end(cs@.take(i as int)),
        decreases i,
    {
        proof {
            assert(cs@.take(i as int).drop_last() =~= cs@.take(i - 1));
        }
        i -= 1;
    }
    proof {
        if i > 0 {
            assert(cs@.take(i as int).last() == cs@[i - 1]);
        }
    }
    i
}

fn find_name_start(cs: &Vec<char>, end: usize) -> (r: usize)
    requires
        end <= cs@.len(),
    ensures
        r == name_start(cs@.take(end as int)),
        r <= end,
{
    let ghost s = cs@.take(end as int);
    let mut i: usize = end;
    proof {
        assert(s.take(i as int) =~= s);
    }
    while i > 0 && cs[i - 1] != '/'
        invariant
            i <= end <= cs@.len(),
            s == cs@.take(end as int),
            name_start(s) == name_start(s.take(i as int)),
        decreases i,
    {
        proof {
            assert(s[i - 1] == cs@[i - 1]);
            assert(s.take(i as int).drop_last() =~= s.take(i - 1));
        }
        i -= 1;
    }
    proof {
        if i > 0 {
            assert(s.take(i as int).last() == cs@[i - 1]);
        }
    }
    i
}

/// The last component of `p`: see `spec_base_name`.
pub fn base_name(p: &str) -> (r: String)
    ensures
        r@ == spec_base_name(p@),
{
    let cs = chars_of(p);
    let end = find_name_end(&cs);
    let start = find_name_start(&cs, end);
    String::from_str(p.substring_char(start, end))
}

/// The path of `name` in the directory `dir`.
pub fn join(dir: &str, name: &str) -> (r: String)
    ensures
        r@ == spec_join(dir@, name@),
{
    proof {
        reveal_strlit("/");
    }
    let cs = chars_of(dir);
    let mut r = String::from_str(dir);
    if cs.len() > 0 && cs[cs.len() - 1] != '/' {
        r.append("/");
    }
    r.append(name);
    r
}

/// `p` with `name` in the place of its last component.
pub fn sibling(p: &str, name: &str) -> (r: String)
    ensures
        r@ == spec_sibling(p@, name@),
{
    let cs = chars_of(p);
    let end = find_name_end(&cs);
    let start = find_name_start(&cs, end);
    let mut r = String::from_str(p.substring_char(0, start));
    assert(p@.subrange(0, start as int) =~= p@.take(start as int));
    r.append(name);
    r
}

/// What is left of the path `from` behind the path `base` that it begins
/// with, without the slash that parts the two.
pub open spec fn rest_behind(from: Seq<char>, base: Seq<char>) -> Seq<char> {
    let rest = from.skip(base.len() as int);
    if rest.len() > 0 && rest[0] == '/' {
        rest.skip(1)
    } else {
        rest
    }
}

/// The path `from` lies under the path `base`, or is that path: it
/// begins with it, and goes on with a new component, if at all.
pub open spec fn lies_under(from: Seq<char>, base: Seq<char>) -> bool {
    &&& base.len() <= from.len()
    &&& from.take(base.len() as int) == base
    &&& from.len() == base.len() || from[base.len() as int] == '/' || (base.len() > 0 && base.last() == '/')
}

/// The path under `dst` that stands for the path `from` under `base`:
/// `dst` itself for `base` itself, else `dst` with what follows `base` in
/// `from`. Nothing where `from` does not lie under `base`.
pub open spec fn spec_rebase(from: Seq<char>, base: Seq<char>, dst: Seq<char>) -> Option<Seq<char>> {
    if lies_under(from, base) {
        if rest_behind(from, base).len() == 0 {
            Some(dst)
        } else {
            Some(spec_join(dst, rest_behind(from, base)))
        }
    } else {
        None
    }
}

/// The path under `dst` that stands for the path `from` under `base`:
/// see `spec_rebase`.
pub fn rebase(from: &str, base: &str, dst: &str) -> (r: Option<String>)
    ensures
        match r {
            Some(p) => spec_rebase(from@, base@, dst@) == Some(p@),
            None => spec_rebase(from@, base@, dst@) is None,
        },
{
    let f = chars_of(from);
    let b = chars_of(base);
    if b.len() > f.len() {
        return None;
    }
    let mut i: usize = 0;
    while i < b.len()
        invariant
            i <= b@.len() <= f@.len(),
            f@ == from@,
            b@ == base@,
            forall|k: int| 0 <= k < i ==> f@[k] == b@[k],
        decreases b.len() - i,
    {
        if f[i] != b[i] {
            assert(from@.take(base@.len() as int)[i as int] != base@[i as int]);
            return None;
        }
        i += 1;
    }
    assert(from@.take(base@.len() as int) =~= base@);
    if b.len() < f.len() && f[b.len()] != '/' && !(b.len() > 0 && b[b.len() - 1] == '/') {
        return None;
    }
    let start = if b.len() < f.len() && f[b.len()] == '/' {
        b.len() + 1
    } else {
        b.len()
    };
    let rest = from.substring_char(start, f.len());
    assert(rest@ =~= rest_behind(from@, base@));
    if start == f.len() {
        Some(String::from_str(dst))
    } else {
        Some(join(dst, rest))
    }
}

} // verus!
