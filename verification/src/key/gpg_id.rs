//! Recipient sets, the files that hold them, and the tree of directories that
//! the files stand in.

use vstd::prelude::*;
use crate::text::chars_of;
use crate::text::is_plain_line;
use crate::text::join_lines;
use crate::text::joined_lines;
use crate::text::lemma_lines_of_joined;
use crate::text::lemma_text_lt_irreflexive;
use crate::text::lines_of;
use crate::text::split_lines;
use crate::text::lemma_text_lt_total;
use crate::text::lemma_text_lt_transitive;
use crate::text::str_eq;
use crate::text::str_lt;
use crate::text::text_lt;

verus! {

/// Whether each text of a sequence comes before all that follow it.
pub open spec fn strictly_ascending(ids: Seq<Seq<char>>) -> bool {
    forall|i: int, j: int| 0 <= i < j < ids.len() ==> text_lt(#[trigger] ids[i], #[trigger] ids[j])
}

/// There is one way only to put a set of texts in ascending order.
pub proof fn lemma_ascending_unique(a: Seq<Seq<char>>, b: Seq<Seq<char>>)
    requires
        strictly_ascending(a),
        strictly_ascending(b),
        a.to_set() == b.to_set(),
    ensures
        a == b,
    decreases a.len(),
{
    if a.len() == 0 {
        if b.len() > 0 {
            assert(b.to_set().contains(b[0]));
        }
        assert(a =~= b);
    } else {
        assert(a.to_set().contains(a.last()));
        if b.len() == 0 {
            assert(false);
        }
        assert(b.to_set().contains(b.last()));
        let k = choose|k: int| 0 <= k < b.len() && b[k] == a.last();
        let m = choose|m: int| 0 <= m < a.len() && a[m] == b.last();
        if a.last() != b.last() {
            assert(text_lt(b[k], b[b.len() - 1]));
            assert(text_lt(a[m], a[a.len() - 1]));
            lemma_text_lt_transitive(a.last(), b.last(), a.last());
            lemma_text_lt_irreflexive(a.last());
        }
        let a0 = a.drop_last();
        let b0 = b.drop_last();
        assert forall|x: Seq<char>| a0.to_set().contains(x) <==> b0.to_set().contains(x) by {
            lemma_text_lt_irreflexive(a.last());
            if a0.to_set().contains(x) {
                let i = choose|i: int| 0 <= i < a0.len() && a0[i] == x;
                assert(a[i] == x);
                assert(text_lt(a[i], a[a.len() - 1]));
                assert(a.to_set().contains(x));
                let j = choose|j: int| 0 <= j < b.len() && b[j] == x;
                assert(b0[j] == x);
            }
            if b0.to_set().contains(x) {
                let i = choose|i: int| 0 <= i < b0.len() && b0[i] == x;
                assert(b[i] == x);
                assert(text_lt(b[i], b[b.len() - 1]));
                assert(b.to_set().contains(x));
                let j = choose|j: int| 0 <= j < a.len() && a[j] == x;
                assert(a0[j] == x);
            }
        }
        assert(a0.to_set() =~= b0.to_set());
        assert(strictly_ascending(a0)) by {
            assert forall|i: int, j: int| 0 <= i < j < a0.len() implies text_lt(
                #[trigger] a0[i],
                #[trigger] a0[j],
            ) by {
                assert(text_lt(a[i], a[j]));
            }
        }
        assert(strictly_ascending(b0)) by {
            assert forall|i: int, j: int| 0 <= i < j < b0.len() implies text_lt(
                #[trigger] b0[i],
                #[trigger] b0[j],
            ) by {
                assert(text_lt(b[i], b[j]));
            }
        }
        lemma_ascending_unique(a0, b0);
        assert(a =~= a0.push(a.last()));
        assert(b =~= b0.push(b.last()));
    }
}

/// The texts of a finite set in ascending order.
pub open spec fn ascending(ids: Set<Seq<char>>) -> Seq<Seq<char>> {
    choose|s: Seq<Seq<char>>| strictly_ascending(s) && s.to_set() == ids
}

/// A sequence in ascending order is the ascending order of its set.
pub proof fn lemma_ascending_of_set(s: Seq<Seq<char>>)
    requires
        strictly_ascending(s),
    ensures
        ascending(s.to_set()) == s,
{
    let t = ascending(s.to_set());
    lemma_ascending_unique(s, t);
}

/// Where a text goes into an ascending sequence: behind the texts that come
/// before it.
pub open spec fn insertion_point(s: Seq<Seq<char>>, x: Seq<char>) -> int
    decreases s.len(),
{
    if s.len() == 0 {
        0
    } else if text_lt(s.last(), x) {
        s.len() as int
    } else {
        insertion_point(s.drop_last(), x)
    }
}

proof fn lemma_insertion_point(s: Seq<Seq<char>>, x: Seq<char>)
    requires
        strictly_ascending(s),
    ensures
        0 <= insertion_point(s, x) <= s.len(),
        forall|i: int| 0 <= i < insertion_point(s, x) ==> text_lt(#[trigger] s[i], x),
        forall|i: int| insertion_point(s, x) <= i < s.len() ==> !text_lt(#[trigger] s[i], x),
    decreases s.len(),
{
    if s.len() > 0 {
        if text_lt(s.last(), x) {
            assert forall|i: int| 0 <= i < s.len() implies text_lt(#[trigger] s[i], x) by {
                if i < s.len() - 1 {
                    assert(text_lt(s[i], s[s.len() - 1]));
                    lemma_text_lt_transitive(s[i], s.last(), x);
                }
            }
        } else {
            let front = s.drop_last();
            assert(strictly_ascending(front)) by {
                assert forall|i: int, j: int| 0 <= i < j < front.len() implies text_lt(
                    #[trigger] front[i],
                    #[trigger] front[j],
                ) by {
                    assert(text_lt(s[i], s[j]));
                }
            }
            lemma_insertion_point(front, x);
            let p = insertion_point(front, x);
            assert forall|i: int| 0 <= i < p implies text_lt(#[trigger] s[i], x) by {
                assert(front[i] == s[i]);
            }
            assert forall|i: int| p <= i < s.len() implies !text_lt(#[trigger] s[i], x) by {
                if i < s.len() - 1 {
                    assert(front[i] == s[i]);
                }
            }
        }
    }
}

/// An ascending sequence stays one when a text that it lacks goes in at its
/// insertion point, and it then holds that text besides its own.
proof fn lemma_insert_ascending(s: Seq<Seq<char>>, x: Seq<char>)
    requires
        strictly_ascending(s),
        !s.to_set().contains(x),
    ensures
        strictly_ascending(s.insert(insertion_point(s, x), x)),
        s.insert(insertion_point(s, x), x).to_set() == s.to_set().insert(x),
{
    lemma_insertion_point(s, x);
    let p = insertion_point(s, x);
    let u = s.insert(p, x);
    assert forall|k: int| p <= k < s.len() implies text_lt(x, #[trigger] s[k]) by {
        assert(s.to_set().contains(s[k]));
        lemma_text_lt_total(s[k], x);
    }
    assert forall|a: int, b: int| 0 <= a < b < u.len() implies text_lt(
        #[trigger] u[a],
        #[trigger] u[b],
    ) by {
        if a < p && b > p {
            assert(text_lt(s[a], x));
            assert(text_lt(x, s[b - 1]));
            lemma_text_lt_transitive(s[a], x, s[b - 1]);
        } else if a == p {
            assert(text_lt(x, s[b - 1]));
        } else if b == p {
            assert(text_lt(s[a], x));
        } else if b < p {
            assert(text_lt(s[a], s[b]));
        } else {
            assert(text_lt(s[a - 1], s[b - 1]));
        }
    }
    assert forall|y: Seq<char>| u.to_set().contains(y) <==> s.to_set().insert(x).contains(y) by {
        if u.to_set().contains(y) {
            let k = choose|k: int| 0 <= k < u.len() && u[k] == y;
            if k < p {
                assert(s[k] == y);
            } else if k > p {
                assert(s[k - 1] == y);
            }
        }
        if s.to_set().insert(x).contains(y) {
            if y == x {
                assert(u[p] == y);
            } else {
                let k = choose|k: int| 0 <= k < s.len() && s[k] == y;
                if k < p {
                    assert(u[k] == y);
                } else {
                    assert(u[k + 1] == y);
                }
            }
        }
    }
    assert(u.to_set() =~= s.to_set().insert(x));
}

/// Every finite set of texts can be put in ascending order.
pub proof fn lemma_ascending_exists(ids: Set<Seq<char>>)
    requires
        ids.finite(),
    ensures
        strictly_ascending(ascending(ids)),
        ascending(ids).to_set() == ids,
    decreases ids.len(),
{
    if ids.len() == 0 {
        let s = Seq::<Seq<char>>::empty();
        assert(ids =~= Set::<Seq<char>>::empty());
        assert(s.to_set() =~= ids);
        assert(strictly_ascending(s) && s.to_set() == ids);
    } else {
        let x = ids.choose();
        let rest = ids.remove(x);
        lemma_ascending_exists(rest);
        let t = ascending(rest);
        lemma_insert_ascending(t, x);
        let u = t.insert(insertion_point(t, x), x);
        assert(rest.insert(x) =~= ids);
        assert(strictly_ascending(u) && u.to_set() == ids);
    }
}

/// A sequence with one more text at its end holds that text besides its own.
pub proof fn lemma_push_to_set(s: Seq<Seq<char>>, x: Seq<char>)
    ensures
        s.push(x).to_set() == s.to_set().insert(x),
{
    let t = s.push(x);
    assert forall|y: Seq<char>| t.to_set().contains(y) <==> s.to_set().insert(x).contains(y) by {
        if t.to_set().contains(y) {
            let k = choose|k: int| 0 <= k < t.len() && t[k] == y;
            if k < s.len() {
                assert(s[k] == y);
            }
        }
        if s.to_set().insert(x).contains(y) {
            if y == x {
                assert(t[s.len() as int] == y);
            } else {
                let k = choose|k: int| 0 <= k < s.len() && s[k] == y;
                assert(t[k] == y);
            }
        }
    }
    assert(t.to_set() =~= s.to_set().insert(x));
}

/// A set of recipient identities. Each identity is held once, and they are
/// held in ascending order, so that what is written out is reproducible.
#[derive(Debug, PartialEq, Eq)]
pub struct RecipientSet {
    ids: Vec<String>,
}

impl View for RecipientSet {
    type V = Set<Seq<char>>;

    closed spec fn view(&self) -> Set<Seq<char>> {
        self.ids.deep_view().to_set()
    }
}

impl RecipientSet {
    #[verifier::type_invariant]
    spec fn inv(&self) -> bool {
        strictly_ascending(self.ids.deep_view())
    }

    /// The empty set.
    pub fn new() -> (set: RecipientSet)
        ensures
            set@ == Set::<Seq<char>>::empty(),
    {
        let set = RecipientSet { ids: Vec::new() };
        proof {
            assert(set.ids.deep_view() =~= Seq::<Seq<char>>::empty());
            assert(set@ =~= Set::<Seq<char>>::empty());
        }
        set
    }

    /// Number of identities in the set.
    pub fn len(&self) -> (n: usize)
        ensures
            n == self@.len(),
    {
        proof {
            use_type_invariant(self);
            let ids = self.ids.deep_view();
            assert forall|i: int, j: int| 0 <= i < ids.len() && 0 <= j < ids.len() && i != j implies ids[i]
                != ids[j] by {
                lemma_text_lt_irreflexive(ids[i]);
                if i < j {
                    assert(text_lt(ids[i], ids[j]));
                } else {
                    assert(text_lt(ids[j], ids[i]));
                }
            }
            ids.unique_seq_to_set();
        }
        self.ids.len()
    }

    /// Whether the set holds no identity.
    pub fn is_empty(&self) -> (empty: bool)
        ensures
            empty == (self@ == Set::<Seq<char>>::empty()),
    {
        proof {
            if self.ids.len() > 0 {
                assert(self.ids.deep_view().to_set().contains(self.ids.deep_view()[0]));
            } else {
                assert(self@ =~= Set::<Seq<char>>::empty());
            }
        }
        self.ids.len() == 0
    }

    /// Whether the identity is in the set.
    pub fn contains(&self, id: &str) -> (held: bool)
        ensures
            held == self@.contains(id@),
    {
        let mut i: usize = 0;
        while i < self.ids.len()
            invariant
                i <= self.ids.len(),
                forall|j: int| 0 <= j < i ==> #[trigger] self.ids.deep_view()[j] != id@,
            decreases self.ids.len() - i,
        {
            if str_eq(self.ids[i].as_str(), id) {
                proof {
                    assert(self.ids.deep_view()[i as int] == id@);
                }
                return true;
            }
            i += 1;
        }
        false
    }

    /// The identities of the set in ascending order, each once.
    pub fn to_vec(&self) -> (ids: Vec<String>)
        ensures
            ids.deep_view() == ascending(self@),
            strictly_ascending(ids.deep_view()),
            ids.deep_view().to_set() == self@,
    {
        proof {
            use_type_invariant(self);
            lemma_ascending_of_set(self.ids.deep_view());
        }
        let mut ids: Vec<String> = Vec::new();
        let mut i: usize = 0;
        while i < self.ids.len()
            invariant
                i <= self.ids.len(),
                ids.deep_view() =~= self.ids.deep_view().take(i as int),
            decreases self.ids.len() - i,
        {
            let ghost before = ids.deep_view();
            let id = self.ids[i].clone();
            ids.push(id);
            proof {
                assert(ids.deep_view() =~= before.push(id@));
            }
            i += 1;
        }
        proof {
            assert(self.ids.deep_view().take(i as int) =~= self.ids.deep_view());
        }
        ids
    }

    /// Adds every identity of `other` to this set.
    pub fn union_with(&mut self, other: &RecipientSet)
        ensures
            final(self)@ == old(self)@.union(other@),
    {
        let mut i: usize = 0;
        while i < other.ids.len()
            invariant
                i <= other.ids.len(),
                self@ =~= old(self)@.union(other.ids.deep_view().take(i as int).to_set()),
            decreases other.ids.len() - i,
        {
            let ghost so_far = other.ids.deep_view().take(i as int);
            let id = other.ids[i].clone();
            self.insert(id);
            proof {
                assert(other.ids.deep_view().take(i + 1) =~= so_far.push(id@));
                lemma_push_to_set(so_far, id@);
            }
            i += 1;
        }
        proof {
            assert(other.ids.deep_view().take(i as int) =~= other.ids.deep_view());
        }
    }

    /// The set of the given identities.
    pub fn from_vec(ids: Vec<String>) -> (set: RecipientSet)
        ensures
            set@ == ids.deep_view().to_set(),
    {
        let mut set = RecipientSet::new();
        let mut i: usize = 0;
        while i < ids.len()
            invariant
                i <= ids.len(),
                set@ =~= ids.deep_view().take(i as int).to_set(),
            decreases ids.len() - i,
        {
            let ghost so_far = ids.deep_view().take(i as int);
            let id = ids[i].clone();
            set.insert(id);
            proof {
                assert(ids.deep_view().take(i + 1) =~= so_far.push(id@));
                lemma_push_to_set(so_far, id@);
            }
            i += 1;
        }
        proof {
            assert(ids.deep_view().take(i as int) =~= ids.deep_view());
        }
        set
    }

    /// Adds an identity; says whether it was new to the set.
    pub fn insert(&mut self, id: String) -> (added: bool)
        ensures
            final(self)@ == old(self)@.insert(id@),
            added == !old(self)@.contains(id@),
    {
        proof {
            use_type_invariant(&*self);
        }
        let ghost before = self.ids.deep_view();
        let mut i: usize = 0;
        while i < self.ids.len() && str_lt(self.ids[i].as_str(), id.as_str())
            invariant
                i <= self.ids.len(),
                self.ids.deep_view() == before,
                forall|j: int| 0 <= j < i ==> text_lt(#[trigger] before[j], id@),
            decreases self.ids.len() - i,
        {
            i += 1;
        }
        if i < self.ids.len() && str_eq(self.ids[i].as_str(), id.as_str()) {
            proof {
                assert(before[i as int] == id@);
                assert(before.to_set().insert(id@) =~= before.to_set());
            }
            return false;
        }
        proof {
            assert forall|j: int| 0 <= j < before.len() implies #[trigger] before[j] != id@ by {
                lemma_text_lt_irreflexive(id@);
                if j >= i {
                    lemma_text_lt_total(before[i as int], id@);
                    if j > i {
                        lemma_text_lt_transitive(id@, before[i as int], before[j]);
                    }
                }
            }
        }
        let mut ids: Vec<String> = Vec::new();
        proof {
            assert(ids.deep_view() =~= Seq::<Seq<char>>::empty());
        }
        std::mem::swap(&mut self.ids, &mut ids);
        ids.insert(i, id);
        proof {
            let after = ids.deep_view();
            assert(after =~= before.insert(i as int, id@));
            assert forall|k: int| i <= k < before.len() implies text_lt(id@, #[trigger] before[k]) by {
                lemma_text_lt_total(before[i as int], id@);
                if k > i {
                    lemma_text_lt_transitive(id@, before[i as int], before[k]);
                }
            }
            assert forall|a: int, b: int| 0 <= a < b < after.len() implies text_lt(
                #[trigger] after[a],
                #[trigger] after[b],
            ) by {
                if a < i && b > i {
                    assert(text_lt(id@, before[b - 1]));
                    lemma_text_lt_transitive(before[a], id@, before[b - 1]);
                } else if a == i {
                    assert(text_lt(id@, before[b - 1]));
                } else if b == i {
                    assert(text_lt(before[a], id@));
                } else if b < i {
                    assert(text_lt(before[a], before[b]));
                } else {
                    assert(text_lt(before[a - 1], before[b - 1]));
                }
            }
            assert(after.to_set() =~= before.to_set().insert(id@)) by {
                assert forall|x: Seq<char>| after.to_set().contains(x) implies before.to_set().insert(
                    id@,
                ).contains(x) by {
                    let k = choose|k: int| 0 <= k < after.len() && after[k] == x;
                    if k < i {
                        assert(before[k] == x);
                    } else if k > i {
                        assert(before[k - 1] == x);
                    }
                }
                assert forall|x: Seq<char>| before.to_set().insert(id@).contains(
                    x,
                ) implies after.to_set().contains(x) by {
                    if x == id@ {
                        assert(after[i as int] == x);
                    } else {
                        let k = choose|k: int| 0 <= k < before.len() && before[k] == x;
                        if k < i {
                            assert(after[k] == x);
                        } else {
                            assert(after[k + 1] == x);
                        }
                    }
                }
            }
        }
        self.ids = ids;
        true
    }
}

/// The recipients that a recipient file with the given contents declares: one
/// to a line.
pub open spec fn recipients_in(contents: Seq<char>) -> Set<Seq<char>> {
    lines_of(contents).to_set()
}

/// The contents of the recipient file that declares the given identities: one
/// to a line, in the order given.
pub open spec fn gpg_id_contents(ids: Seq<Seq<char>>) -> Seq<char> {
    joined_lines(ids)
}

/// Reads the recipients out of the contents of a recipient file.
pub fn parse_gpg_id_file(contents: &str) -> (set: RecipientSet)
    ensures
        set@ == recipients_in(contents@),
{
    RecipientSet::from_vec(split_lines(contents))
}

/// The contents of the recipient file that declares the set: its identities
/// in ascending order, one to a line.
pub fn render_gpg_ids(gpg_ids: &RecipientSet) -> (contents: String)
    ensures
        contents@ == gpg_id_contents(ascending(gpg_ids@)),
{
    let ids = gpg_ids.to_vec();
    join_lines(&ids)
}

/// Whether every identity of a set can stand as a line of its own.
pub open spec fn writable(ids: Set<Seq<char>>) -> bool {
    forall|id: Seq<char>| ids.contains(id) ==> is_plain_line(id)
}

/// A recipient set that is written to a file and read back is the set that was
/// written, provided that no identity holds a line feed or ends with a
/// carriage return.
pub proof fn lemma_written_set_reads_back(ids: Seq<Seq<char>>)
    requires
        writable(ids.to_set()),
    ensures
        recipients_in(gpg_id_contents(ids)) == ids.to_set(),
{
    assert forall|i: int| 0 <= i < ids.len() implies is_plain_line(#[trigger] ids[i]) by {
        assert(ids.to_set().contains(ids[i]));
    }
    lemma_lines_of_joined(ids);
}

/// Whether the directory `path` is `dir` itself or lies below it. Paths are
/// relative to the root of the store, with `/` between their parts; the root
/// is the empty path.
pub open spec fn path_within(path: Seq<char>, dir: Seq<char>) -> bool {
    ||| dir.len() == 0
    ||| path == dir
    ||| (path.len() > dir.len() && path.take(dir.len() as int) == dir && path[dir.len() as int]
        == '/')
}

/// Whether the directory `path` is `dir` itself or lies below it.
pub fn is_within(path: &str, dir: &str) -> (within: bool)
    ensures
        within == path_within(path@, dir@),
{
    let p = chars_of(path);
    let d = chars_of(dir);
    if d.len() == 0 {
        return true;
    }
    if p.len() < d.len() {
        return false;
    }
    let mut i: usize = 0;
    while i < d.len()
        invariant
            i <= d.len() <= p.len(),
            p@ == path@,
            d@ == dir@,
            forall|j: int| 0 <= j < i ==> p@[j] == d@[j],
        decreases d.len() - i,
    {
        if p[i] != d[i] {
            proof {
                assert(path@.take(dir@.len() as int)[i as int] != dir@[i as int]);
            }
            return false;
        }
        i += 1;
    }
    proof {
        assert(path@.take(dir@.len() as int) =~= dir@);
        if p.len() == d.len() {
            assert(path@ =~= dir@);
        }
    }
    p.len() == d.len() || p[d.len()] == '/'
}

/// One directory of the store: its path below the root and the contents of
/// its recipient file, if it has one.
pub struct StoreDir {
    pub path: String,
    pub gpg_id: Option<String>,
}

/// The mathematical content of a [`StoreDir`].
pub ghost struct StoreDirView {
    pub path: Seq<char>,
    pub gpg_id: Option<Seq<char>>,
}

impl View for StoreDir {
    type V = StoreDirView;

    open spec fn view(&self) -> StoreDirView {
        StoreDirView { path: self.path@, gpg_id: self.gpg_id.deep_view() }
    }
}

impl DeepView for StoreDir {
    type V = StoreDirView;

    open spec fn deep_view(&self) -> StoreDirView {
        self@
    }
}

/// The directories of a listing as a map from path to recipient file.
pub open spec fn dirs_map(dirs: Seq<StoreDirView>) -> Map<Seq<char>, Option<Seq<char>>>
    decreases dirs.len(),
{
    if dirs.len() == 0 {
        Map::empty()
    } else {
        dirs_map(dirs.drop_last()).insert(dirs.last().path, dirs.last().gpg_id)
    }
}

/// Whether no two directories of a listing have the same path.
pub open spec fn distinct_paths(dirs: Seq<StoreDirView>) -> bool {
    forall|i: int, j: int|
        0 <= i < j < dirs.len() ==> (#[trigger] dirs[i]).path != (#[trigger] dirs[j]).path
}

/// The map of a listing knows exactly the paths of the listing.
pub proof fn lemma_dirs_map_dom(dirs: Seq<StoreDirView>, path: Seq<char>)
    ensures
        dirs_map(dirs).contains_key(path) <==> exists|i: int|
            0 <= i < dirs.len() && (#[trigger] dirs[i]).path == path,
    decreases dirs.len(),
{
    if dirs.len() > 0 {
        let front = dirs.drop_last();
        lemma_dirs_map_dom(front, path);
        if dirs_map(dirs).contains_key(path) {
            if dirs.last().path == path {
                assert(dirs[dirs.len() - 1].path == path);
            } else {
                let i = choose|i: int| 0 <= i < front.len() && (#[trigger] front[i]).path == path;
                assert(dirs[i].path == path);
            }
        }
        if exists|i: int| 0 <= i < dirs.len() && (#[trigger] dirs[i]).path == path {
            let i = choose|i: int| 0 <= i < dirs.len() && (#[trigger] dirs[i]).path == path;
            if i < dirs.len() - 1 {
                assert(front[i].path == path);
            }
        }
    }
}

/// The map of a listing without repeated paths gives each directory its own
/// recipient file.
pub proof fn lemma_dirs_map_value(dirs: Seq<StoreDirView>, i: int)
    requires
        distinct_paths(dirs),
        0 <= i < dirs.len(),
    ensures
        dirs_map(dirs).contains_key(dirs[i].path),
        dirs_map(dirs)[dirs[i].path] == dirs[i].gpg_id,
    decreases dirs.len(),
{
    if i < dirs.len() - 1 {
        let front = dirs.drop_last();
        assert(front[i] == dirs[i]);
        assert(distinct_paths(front)) by {
            assert forall|a: int, b: int| 0 <= a < b < front.len() implies (#[trigger] front[a]).path
                != (#[trigger] front[b]).path by {
                assert(front[a] == dirs[a]);
                assert(front[b] == dirs[b]);
            }
        }
        lemma_dirs_map_value(front, i);
        assert(dirs[i].path != dirs[dirs.len() - 1].path);
    }
}

/// A listing without repeated paths stays one when a directory leaves it,
/// and its map loses that directory's path and no other.
pub proof fn lemma_dirs_map_remove(dirs: Seq<StoreDirView>, i: int)
    requires
        distinct_paths(dirs),
        0 <= i < dirs.len(),
    ensures
        distinct_paths(dirs.remove(i)),
        dirs_map(dirs.remove(i)) == dirs_map(dirs).remove(dirs[i].path),
    decreases dirs.len(),
{
    let rest = dirs.remove(i);
    let front = dirs.drop_last();
    assert(distinct_paths(rest)) by {
        assert forall|a: int, b: int| 0 <= a < b < rest.len() implies (#[trigger] rest[a]).path != (
        #[trigger] rest[b]).path by {
            let a0 = if a < i { a } else { a + 1 };
            let b0 = if b < i { b } else { b + 1 };
            assert(rest[a] == dirs[a0]);
            assert(rest[b] == dirs[b0]);
        }
    }
    assert(distinct_paths(front)) by {
        assert forall|a: int, b: int| 0 <= a < b < front.len() implies (#[trigger] front[a]).path
            != (#[trigger] front[b]).path by {
            assert(front[a] == dirs[a]);
            assert(front[b] == dirs[b]);
        }
    }
    if i == dirs.len() - 1 {
        assert(rest =~= front);
        lemma_dirs_map_dom(front, dirs[i].path);
        if dirs_map(front).contains_key(dirs[i].path) {
            let k = choose|k: int| 0 <= k < front.len() && (#[trigger] front[k]).path == dirs[i].path;
            assert(front[k] == dirs[k]);
        }
        assert(dirs_map(front) =~= dirs_map(dirs).remove(dirs[i].path));
    } else {
        assert(rest.drop_last() =~= front.remove(i));
        assert(rest.last() == dirs.last());
        assert(front[i] == dirs[i]);
        lemma_dirs_map_remove(front, i);
        assert(dirs[i].path != dirs[dirs.len() - 1].path);
        assert(dirs_map(rest) =~= dirs_map(dirs).remove(dirs[i].path));
    }
}

/// A snapshot of the recipient tree: the directories of the store, each with
/// the contents of its recipient file. No path occurs twice.
pub struct Store {
    dirs: Vec<StoreDir>,
}

impl View for Store {
    type V = Map<Seq<char>, Option<Seq<char>>>;

    closed spec fn view(&self) -> Map<Seq<char>, Option<Seq<char>>> {
        dirs_map(self.dirs.deep_view())
    }
}

/// The recipients that the directory `path` declares itself: those of its own
/// recipient file, none where it has no such file or is not in the store.
pub open spec fn base_recipients(store: Map<Seq<char>, Option<Seq<char>>>, path: Seq<char>) -> Set<
    Seq<char>,
> {
    if store.contains_key(path) && store[path] is Some {
        recipients_in(store[path]->Some_0)
    } else {
        Set::empty()
    }
}

/// The recipients that `dir` and the directories below it declare, taken
/// together.
pub open spec fn subtree_recipients(store: Map<Seq<char>, Option<Seq<char>>>, dir: Seq<char>) -> Set<
    Seq<char>,
> {
    Set::new(
        |id: Seq<char>|
            exists|path: Seq<char>|
                store.contains_key(path) && path_within(path, dir) && #[trigger] base_recipients(
                    store,
                    path,
                ).contains(id),
    )
}

/// The recipients that are declared anywhere in the store.
pub open spec fn all_recipients(store: Map<Seq<char>, Option<Seq<char>>>) -> Set<Seq<char>> {
    subtree_recipients(store, Seq::empty())
}

impl Store {
    #[verifier::type_invariant]
    spec fn inv(&self) -> bool {
        distinct_paths(self.dirs.deep_view())
    }

    /// A store without directories.
    pub fn new() -> (store: Store)
        ensures
            store@ == Map::<Seq<char>, Option<Seq<char>>>::empty(),
    {
        let store = Store { dirs: Vec::new() };
        proof {
            assert(store.dirs.deep_view() =~= Seq::<StoreDirView>::empty());
        }
        store
    }

    /// Where the directory `path` stands in the listing.
    fn position(&self, path: &str) -> (found: Option<usize>)
        ensures
            found matches Some(i) ==> i < self.dirs.len() && self.dirs.deep_view()[i as int].path
                == path@,
            found is None ==> forall|j: int|
                0 <= j < self.dirs.len() ==> (#[trigger] self.dirs.deep_view()[j]).path != path@,
    {
        let mut i: usize = 0;
        while i < self.dirs.len()
            invariant
                i <= self.dirs.len(),
                forall|j: int| 0 <= j < i ==> (#[trigger] self.dirs.deep_view()[j]).path != path@,
            decreases self.dirs.len() - i,
        {
            if str_eq(self.dirs[i].path.as_str(), path) {
                return Some(i);
            }
            i += 1;
        }
        None
    }

    /// Puts the directory `path` into the store, with the contents of its
    /// recipient file if it has one. A directory that is in the store already
    /// is replaced.
    pub fn put_dir(&mut self, path: String, gpg_id: Option<String>)
        ensures
            final(self)@ == old(self)@.insert(path@, gpg_id.deep_view()),
    {
        proof {
            use_type_invariant(&*self);
        }
        let found = self.position(path.as_str());
        let ghost before = self.dirs.deep_view();
        let mut dirs: Vec<StoreDir> = Vec::new();
        proof {
            assert(dirs.deep_view() =~= Seq::<StoreDirView>::empty());
        }
        std::mem::swap(&mut self.dirs, &mut dirs);
        match found {
            Some(i) => {
                dirs.remove(i);
                proof {
                    assert(dirs.deep_view() =~= before.remove(i as int));
                    lemma_dirs_map_remove(before, i as int);
                }
            },
            None => {},
        }
        let ghost kept = dirs.deep_view();
        let dir = StoreDir { path, gpg_id };
        proof {
            lemma_dirs_map_dom(kept, dir@.path);
            lemma_dirs_map_dom(before, dir@.path);
        }
        dirs.push(dir);
        proof {
            let after = dirs.deep_view();
            assert(after =~= kept.push(dir@));
            assert(after.drop_last() =~= kept);
            assert(dirs_map(after) =~= dirs_map(before).insert(dir@.path, dir@.gpg_id));
            assert forall|a: int, b: int| 0 <= a < b < after.len() implies (#[trigger] after[a]).path
                != (#[trigger] after[b]).path by {
                assert(after[a] == kept[a]);
                if b < kept.len() {
                    assert(after[b] == kept[b]);
                }
            }
        }
        self.dirs = dirs;
    }

    /// Whether the store has the directory `path`.
    pub fn has_dir(&self, path: &str) -> (known: bool)
        ensures
            known == self@.contains_key(path@),
    {
        proof {
            lemma_dirs_map_dom(self.dirs.deep_view(), path@);
        }
        self.position(path).is_some()
    }

    /// The contents of the recipient file of the directory `path`, where the
    /// store has the directory and the directory has the file.
    pub fn gpg_id_file(&self, path: &str) -> (contents: Option<&String>)
        ensures
            contents.deep_view() == (if self@.contains_key(path@) {
                self@[path@]
            } else {
                None
            }),
    {
        proof {
            use_type_invariant(self);
            lemma_dirs_map_dom(self.dirs.deep_view(), path@);
        }
        match self.position(path) {
            Some(i) => {
                proof {
                    lemma_dirs_map_value(self.dirs.deep_view(), i as int);
                }
                self.dirs[i].gpg_id.as_ref()
            },
            None => None,
        }
    }
}

/// Why a recipient file could not be written.
#[derive(Clone, Copy, Debug, PartialEq, Eq)]
pub enum StoreError {
    /// The store has no such directory.
    MissingDirectory,
}

/// The recipients that `path` and the directories below it declare, taken
/// together.
pub fn get_gpgs_for_dir(store: &Store, path: &str) -> (gpgs: RecipientSet)
    ensures
        gpgs@ == subtree_recipients(store@, path@),
{
    proof {
        use_type_invariant(store);
    }
    let ghost dirs = store.dirs.deep_view();
    let mut gpgs = RecipientSet::new();
    let mut i: usize = 0;
    while i < store.dirs.len()
        invariant
            i <= store.dirs.len(),
            dirs == store.dirs.deep_view(),
            distinct_paths(dirs),
            forall|id: Seq<char>|
                gpgs@.contains(id) <==> exists|j: int|
                    0 <= j < i && path_within((#[trigger] dirs[j]).path, path@) && dirs[j].gpg_id
                        is Some && recipients_in(dirs[j].gpg_id->Some_0).contains(id),
        decreases store.dirs.len() - i,
    {
        let dir = &store.dirs[i];
        let ghost before = gpgs@;
        if is_within(dir.path.as_str(), path) {
            match &dir.gpg_id {
                Some(contents) => {
                    let dir_gpgs = parse_gpg_id_file(contents.as_str());
                    gpgs.union_with(&dir_gpgs);
                },
                None => {},
            }
        }
        proof {
            assert forall|id: Seq<char>| gpgs@.contains(id) implies exists|j: int|
                0 <= j < i + 1 && path_within((#[trigger] dirs[j]).path, path@) && dirs[j].gpg_id
                    is Some && recipients_in(dirs[j].gpg_id->Some_0).contains(id) by {
                if before.contains(id) {
                    let j = choose|j: int|
                        0 <= j < i && path_within((#[trigger] dirs[j]).path, path@)
                            && dirs[j].gpg_id is Some && recipients_in(
                            dirs[j].gpg_id->Some_0,
                        ).contains(id);
                    assert(path_within(dirs[j].path, path@));
                } else {
                    assert(path_within(dirs[i as int].path, path@));
                }
            }
        }
        i += 1;
    }
    proof {
        let wanted = subtree_recipients(store@, path@);
        assert forall|id: Seq<char>| gpgs@.contains(id) implies wanted.contains(id) by {
            let j = choose|j: int|
                0 <= j < dirs.len() && path_within((#[trigger] dirs[j]).path, path@)
                    && dirs[j].gpg_id is Some && recipients_in(dirs[j].gpg_id->Some_0).contains(id);
            lemma_dirs_map_value(dirs, j);
            assert(base_recipients(store@, dirs[j].path).contains(id));
        }
        assert forall|id: Seq<char>| wanted.contains(id) implies gpgs@.contains(id) by {
            let p = choose|p: Seq<char>|
                store@.contains_key(p) && path_within(p, path@) && #[trigger] base_recipients(
                    store@,
                    p,
                ).contains(id);
            lemma_dirs_map_dom(dirs, p);
            let j = choose|j: int| 0 <= j < dirs.len() && (#[trigger] dirs[j]).path == p;
            lemma_dirs_map_value(dirs, j);
            assert(path_within(dirs[j].path, path@));
        }
        assert(gpgs@ =~= wanted);
    }
    gpgs
}

/// The recipients that are declared anywhere in the store.
pub fn get_all_gpgs(store: &Store) -> (gpgs: RecipientSet)
    ensures
        gpgs@ == all_recipients(store@),
{
    proof {
        reveal_strlit("");
        assert(""@ =~= Seq::<char>::empty());
    }
    get_gpgs_for_dir(store, "")
}

/// The recipients that the directory `path` declares itself, without those of
/// the directories above or below it.
pub fn get_base_gpgs_for_dir(store: &Store, path: &str) -> (gpgs: RecipientSet)
    ensures
        gpgs@ == base_recipients(store@, path@),
{
    match store.gpg_id_file(path) {
        Some(contents) => parse_gpg_id_file(contents.as_str()),
        None => RecipientSet::new(),
    }
}

/// The recipients that the root of the store declares itself.
pub fn get_base_gpgs(store: &Store) -> (gpgs: RecipientSet)
    ensures
        gpgs@ == base_recipients(store@, Seq::empty()),
{
    proof {
        reveal_strlit("");
        assert(""@ =~= Seq::<char>::empty());
    }
    get_base_gpgs_for_dir(store, "")
}

/// Rewrites the recipient file of the directory `path` so that it declares
/// the given set, and hands back the new contents of the file. A directory
/// that the store does not have is not created: the store stays as it is.
pub fn write_gpg_ids(store: &mut Store, path: &str, gpg_ids: &RecipientSet) -> (written: Result<
    String,
    StoreError,
>)
    ensures
        written is Ok <==> old(store)@.contains_key(path@),
        written matches Ok(contents) ==> contents@ == gpg_id_contents(ascending(gpg_ids@))
            && final(store)@ == old(store)@.insert(path@, Some(contents@)),
        written is Err ==> final(store)@ == old(store)@,
{
    if !store.has_dir(path) {
        return Err(StoreError::MissingDirectory);
    }
    let contents = render_gpg_ids(gpg_ids);
    store.put_dir(path.to_owned(), Some(contents.clone()));
    Ok(contents)
}

/// A finite recipient set that is written to the recipient file of a
/// directory is what that directory declares afterwards, provided that no
/// identity holds a line feed or ends with a carriage return.
pub proof fn lemma_write_then_read(
    store: Map<Seq<char>, Option<Seq<char>>>,
    path: Seq<char>,
    ids: Set<Seq<char>>,
)
    requires
        ids.finite(),
        writable(ids),
    ensures
        base_recipients(store.insert(path, Some(gpg_id_contents(ascending(ids)))), path) == ids,
{
    lemma_ascending_exists(ids);
    lemma_written_set_reads_back(ascending(ids));
}

} // verus!
