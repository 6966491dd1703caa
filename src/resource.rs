//! The content-addressed resource store and the export-time path map.
use crate::error::ConvertError;
use crate::naming::{candidate, join_name, lemma_candidate, split_name};
use crate::path_index::PathIndex;
use std::rc::Rc;
use vstd::prelude::*;

verus! {

/// A media file: its bytes and the relative path it was found under.
#[derive(Debug)]
pub struct ResourceEntity {
    pub original_path: String,
    pub bytes: Vec<u8>,
}

/// A shared, immutable handle on a media file. Two entries are equal when
/// their bytes are: the original path takes no part in identity.
#[derive(Debug)]
pub struct ResourceEntry(pub Rc<ResourceEntity>);

impl ResourceEntry {
    pub open spec fn path(&self) -> Seq<char> {
        self.0.original_path@
    }

    pub open spec fn content(&self) -> Seq<u8> {
        self.0.bytes@
    }

    pub fn new(original_path: String, bytes: Vec<u8>) -> (r: Self)
        ensures
            r.path() == original_path@,
            r.content() == bytes@,
    {
        ResourceEntry(Rc::new(ResourceEntity { original_path, bytes }))
    }
}

impl Clone for ResourceEntry {
    fn clone(&self) -> (r: Self)
        ensures
            r == *self,
    {
        ResourceEntry(Rc::clone(&self.0))
    }
}

/// Whether two byte buffers hold the same bytes.
pub fn same_bytes(a: &Vec<u8>, b: &Vec<u8>) -> (r: bool)
    ensures
        r == (a@ == b@),
{
    if a.len() != b.len() {
        return false;
    }
    let mut i: usize = 0;
    while i < a.len()
        invariant
            a@.len() == b@.len(),
            0 <= i <= a@.len(),
            forall|j: int| 0 <= j < i ==> a@[j] == b@[j],
        decreases a@.len() - i,
    {
        if a[i] != b[i] {
            return false;
        }
        i = i + 1;
    }
    proof {
        assert(a@ =~= b@);
    }
    true
}

impl PartialEq for ResourceEntry {
    fn eq(&self, other: &Self) -> (r: bool)
        ensures
            r == (self.content() == other.content()),
    {
        same_bytes(&self.0.bytes, &other.0.bytes)
    }
}

impl vstd::std_specs::cmp::PartialEqSpecImpl for ResourceEntry {
    open spec fn obeys_eq_spec() -> bool {
        true
    }

    open spec fn eq_spec(&self, other: &ResourceEntry) -> bool {
        self.content() == other.content()
    }
}

/// Whether some entry of `s` holds the bytes `b`.
pub open spec fn holds_content(s: Seq<ResourceEntry>, b: Seq<u8>) -> bool {
    exists|k: int| 0 <= k < s.len() && (#[trigger] s[k]).content() == b
}

/// `b` keeps every entry of `a` at its position, and may hold more after.
pub open spec fn extends(a: Seq<ResourceEntry>, b: Seq<ResourceEntry>) -> bool {
    a.len() <= b.len() && forall|i: int| 0 <= i < a.len() ==> #[trigger] b[i] == a[i]
}

/// No two entries of `s` hold the same bytes.
pub open spec fn contents_distinct(s: Seq<ResourceEntry>) -> bool {
    forall|i: int, j: int|
        0 <= i < s.len() && 0 <= j < s.len() && i != j ==> (#[trigger] s[i]).content() != (
        #[trigger] s[j]).content()
}

/// The distinct media of a package, and an index from the relative paths
/// they were imported under to those media. The index is a convenience for
/// resolving paths while one bundle is read; it takes no part in identity.
pub struct ResourcePool {
    entries: Vec<ResourceEntry>,
    path_to_entry: PathIndex,
}

impl ResourcePool {
    /// The distinct entries, in order of first insertion.
    pub closed spec fn contents(&self) -> Seq<ResourceEntry> {
        self.entries@
    }

    /// The path index.
    pub closed spec fn path_index(&self) -> Map<Seq<char>, ResourceEntry> {
        Map::new(
            |p: Seq<char>| self.path_to_entry@.contains_key(p),
            |p: Seq<char>| self.entries@[self.path_to_entry@[p] as int],
        )
    }

    pub closed spec fn wf(&self) -> bool {
        &&& contents_distinct(self.entries@)
        &&& self.path_to_entry.wf()
        &&& forall|p: Seq<char>|
            #[trigger] self.path_to_entry@.contains_key(p) ==> self.path_to_entry@[p]
                < self.entries@.len()
    }

    /// No two entries hold the same bytes.
    pub proof fn lemma_contents_distinct(&self)
        requires
            self.wf(),
        ensures
            contents_distinct(self.contents()),
    {
    }

    pub fn new() -> (r: Self)
        ensures
            r.wf(),
            r.contents() == Seq::<ResourceEntry>::empty(),
            r.path_index() == Map::<Seq<char>, ResourceEntry>::empty(),
    {
        let r = ResourcePool { entries: Vec::new(), path_to_entry: PathIndex::new() };
        proof {
            assert(r.path_index() =~= Map::<Seq<char>, ResourceEntry>::empty());
        }
        r
    }

    fn position_of(&self, bytes: &Vec<u8>) -> (r: Option<usize>)
        requires
            self.wf(),
        ensures
            match r {
                Some(k) => k < self.contents().len() && self.contents()[k as int].content()
                    == bytes@,
                None => !holds_content(self.contents(), bytes@),
            },
    {
        let mut k: usize = 0;
        while k < self.entries.len()
            invariant
                0 <= k <= self.entries@.len(),
                forall|j: int| 0 <= j < k ==> (#[trigger] self.entries@[j]).content() != bytes@,
            decreases self.entries@.len() - k,
        {
            if same_bytes(&self.entries[k].0.bytes, bytes) {
                return Some(k);
            }
            k = k + 1;
        }
        None
    }

    /// Adds `entry` unless an entry with the same bytes is already held, and
    /// points the path index at the held entry under `entry`'s path. Returns
    /// the held entry and whether it is new.
    pub fn insert_entry(&mut self, entry: ResourceEntry) -> (r: (ResourceEntry, bool))
        requires
            old(self).wf(),
        ensures
            final(self).wf(),
            r.0.content() == entry.content(),
            r.1 == !holds_content(old(self).contents(), entry.content()),
            r.1 ==> r.0 == entry && final(self).contents() == old(self).contents().push(entry),
            !r.1 ==> final(self).contents() == old(self).contents() && old(
                self,
            ).contents().contains(r.0),
            final(self).path_index() == old(self).path_index().insert(entry.path(), r.0),
    {
        let path = entry.0.original_path.clone();
        let (k, held, added) = match self.position_of(&entry.0.bytes) {
            Some(k) => (k, self.entries[k].clone(), false),
            None => {
                let k = self.entries.len();
                self.entries.push(entry.clone());
                proof {
                    assert forall|i: int, j: int|
                        0 <= i < self.entries@.len() && 0 <= j < self.entries@.len() && i
                            != j implies (#[trigger] self.entries@[i]).content() != (
                    #[trigger] self.entries@[j]).content() by {
                        if i != k {
                            assert(old(self).entries@[i] == self.entries@[i]);
                        }
                        if j != k {
                            assert(old(self).entries@[j] == self.entries@[j]);
                        }
                    }
                }
                (k, entry, true)
            },
        };
        self.path_to_entry.set(path, k);
        proof {
            assert forall|i: int| 0 <= i < old(self).entries@.len() implies #[trigger] self.entries@[i]
                == old(self).entries@[i] by {}
            assert(self.path_index() =~= old(self).path_index().insert(entry.path(), held));
        }
        (held, added)
    }

    /// Adds `entry` unless an entry with the same bytes is already held;
    /// returns whether it was added. Either way the path index maps the
    /// entry's path to the held entry.
    pub fn insert(&mut self, entry: ResourceEntry) -> (r: bool)
        requires
            old(self).wf(),
        ensures
            final(self).wf(),
            r == !holds_content(old(self).contents(), entry.content()),
            r ==> final(self).contents() == old(self).contents().push(entry)
                && final(self).path_index() == old(self).path_index().insert(entry.path(), entry),
            !r ==> final(self).contents() == old(self).contents() && exists|e: ResourceEntry|
                old(self).contents().contains(e) && e.content() == entry.content()
                    && final(self).path_index() == old(self).path_index().insert(entry.path(), e),
    {
        let (_, added) = self.insert_entry(entry);
        added
    }

    /// Stores the bytes read from `original_path`, as `insert_entry` does.
    pub fn insert_bytes(&mut self, original_path: String, bytes: Vec<u8>) -> (r: (
        ResourceEntry,
        bool,
    ))
        requires
            old(self).wf(),
        ensures
            final(self).wf(),
            r.0.content() == bytes@,
            r.1 == !holds_content(old(self).contents(), bytes@),
            r.1 ==> r.0.path() == original_path@ && final(self).contents() == old(
                self,
            ).contents().push(r.0),
            !r.1 ==> final(self).contents() == old(self).contents() && old(
                self,
            ).contents().contains(r.0),
            final(self).path_index() == old(self).path_index().insert(original_path@, r.0),
    {
        self.insert_entry(ResourceEntry::new(original_path, bytes))
    }

    /// The entry that the path index holds for `path`.
    pub fn get_entry_from_path(&self, path: &str) -> (r: Option<ResourceEntry>)
        requires
            self.wf(),
        ensures
            r == (if self.path_index().contains_key(path@) {
                Some(self.path_index()[path@])
            } else {
                None
            }),
    {
        match self.path_to_entry.get(path) {
            Some(k) => Some(self.entries[k].clone()),
            None => None,
        }
    }

    /// Drops the path index; the contents stay.
    pub fn clear_path(&mut self)
        requires
            old(self).wf(),
        ensures
            final(self).wf(),
            final(self).contents() == old(self).contents(),
            final(self).path_index() == Map::<Seq<char>, ResourceEntry>::empty(),
    {
        self.path_to_entry.clear();
        proof {
            assert(self.path_index() =~= Map::<Seq<char>, ResourceEntry>::empty());
        }
    }

    /// The distinct entries, in order of first insertion.
    pub fn entries(&self) -> (r: &Vec<ResourceEntry>)
        ensures
            r@ == self.contents(),
    {
        &self.entries
    }
}

/// Whether a name is assigned to one of the first `k` entries of `a`.
pub open spec fn taken_before(a: Seq<(Seq<u8>, Seq<char>)>, k: int, name: Seq<char>) -> bool {
    exists|j: int| 0 <= j < k && (#[trigger] a[j]).1 == name
}

/// `a` assigns to each entry of `s`, in order, the first candidate name of
/// its original path that no earlier entry was given.
pub open spec fn inflates(s: Seq<ResourceEntry>, a: Seq<(Seq<u8>, Seq<char>)>) -> bool {
    &&& a.len() == s.len()
    &&& forall|k: int| 0 <= k < a.len() ==> (#[trigger] a[k]).0 == s[k].content()
    &&& forall|k: int| 0 <= k < a.len() ==> #[trigger] has_first_free(a, s, k)
}

/// Entry `k` of `a` is named by the first candidate of its original path
/// that no earlier entry was given.
pub open spec fn has_first_free(a: Seq<(Seq<u8>, Seq<char>)>, s: Seq<ResourceEntry>, k: int) -> bool {
    exists|n: nat| first_free_at(a, s, k, n)
}

/// Entry `k` of `a` is named by the `n`-th candidate of its original path,
/// which no earlier entry was given, while each earlier candidate was.
pub open spec fn first_free_at(
    a: Seq<(Seq<u8>, Seq<char>)>,
    s: Seq<ResourceEntry>,
    k: int,
    n: nat,
) -> bool {
    &&& a[k].1 == candidate(s[k].path(), n)
    &&& !taken_before(a, k, a[k].1)
    &&& forall|m: nat| m < n ==> taken_before(a, k, #[trigger] candidate(s[k].path(), m))
}

/// The path that `a` assigns to the resource with bytes `content`.
pub open spec fn path_for(a: Seq<(Seq<u8>, Seq<char>)>, content: Seq<u8>) -> Option<Seq<char>> {
    if exists|i: int| 0 <= i < a.len() && (#[trigger] a[i]).0 == content {
        Some(a[choose|i: int| 0 <= i < a.len() && (#[trigger] a[i]).0 == content].1)
    } else {
        None
    }
}

/// The longest name in `a`.
pub open spec fn max_name_len(a: Seq<(Seq<u8>, Seq<char>)>) -> nat
    decreases a.len(),
{
    if a.len() == 0 {
        0
    } else {
        let m = max_name_len(a.drop_last());
        if a.last().1.len() > m {
            a.last().1.len()
        } else {
            m
        }
    }
}

proof fn lemma_max_name_len(a: Seq<(Seq<u8>, Seq<char>)>, i: int)
    requires
        0 <= i < a.len(),
    ensures
        a[i].1.len() <= max_name_len(a),
    decreases a.len(),
{
    if i < a.len() - 1 {
        lemma_max_name_len(a.drop_last(), i);
        assert(a.drop_last()[i] == a[i]);
    }
}

/// The output path assigned to each distinct resource when a pool is
/// written out.
pub struct ResourceOut {
    assigned: Vec<(ResourceEntry, String)>,
}

impl ResourceOut {
    /// The assignment, in pool order: each entry's bytes and its path.
    pub closed spec fn assignment(&self) -> Seq<(Seq<u8>, Seq<char>)> {
        self.assigned@.map_values(|a: (ResourceEntry, String)| (a.0.content(), a.1@))
    }

    pub closed spec fn wf(&self) -> bool {
        forall|i: int, j: int|
            0 <= i < self.assigned@.len() && 0 <= j < self.assigned@.len() && i != j ==> (
            #[trigger] self.assigned@[i]).0.content() != (#[trigger] self.assigned@[j]).0.content()
    }

    pub fn new() -> (r: Self)
        ensures
            r.wf(),
            r.assignment().len() == 0,
    {
        ResourceOut { assigned: Vec::new() }
    }

    fn is_taken(&self, name: &String) -> (r: bool)
        ensures
            r == taken_before(self.assignment(), self.assignment().len() as int, name@),
    {
        let mut j: usize = 0;
        while j < self.assigned.len()
            invariant
                0 <= j <= self.assigned@.len(),
                forall|i: int| 0 <= i < j ==> (#[trigger] self.assignment()[i]).1 != name@,
            decreases self.assigned@.len() - j,
        {
            if self.assigned[j].1 == *name {
                proof {
                    assert(self.assignment()[j as int].1 == name@);
                }
                return true;
            }
            j = j + 1;
        }
        false
    }

    /// Assigns every distinct resource of `pool` an output path, as
    /// `inflates` says, when the target directory is empty.
    pub fn inflate(&mut self, dir_is_empty: bool, pool: &ResourcePool) -> (r: Result<(), ConvertError>)
        requires
            pool.wf(),
        ensures
            !dir_is_empty ==> r == Err::<(), ConvertError>(ConvertError::AlreadyExists),
            !dir_is_empty ==> *final(self) == *old(self),
            dir_is_empty ==> r is Ok && final(self).wf() && inflates(
                pool.contents(),
                final(self).assignment(),
            ),
    {
        if !dir_is_empty {
            return Err(ConvertError::AlreadyExists);
        }
        self.assigned.clear();
        let entries = pool.entries();
        let mut k: usize = 0;
        proof {
            assert(self.assignment() =~= Seq::<(Seq<u8>, Seq<char>)>::empty());
        }
        while k < entries.len()
            invariant
                pool.wf(),
                entries@ == pool.contents(),
                0 <= k <= entries@.len(),
                self.assignment().len() == k,
                inflates(entries@.take(k as int), self.assignment()),
            decreases entries@.len() - k,
        {
            let ghost a = self.assignment();
            let ghost p = entries@[k as int].path();
            let parts = split_name(entries[k].0.original_path.as_str());
            let mut stem = parts.stem.clone();
            let ghost mut n: nat = 0;
            let mut name = join_name(&parts, &stem);
            proof {
                assert forall|nn: nat| #[trigger] candidate(p, nn) == parts.dir@ + (parts.stem@ + Seq::new(nn, |i: int| 'c')) + parts.ext@ by {
                    assert(candidate(p, nn) =~= parts.dir@ + (parts.stem@ + Seq::new(nn, |i: int| 'c')) + parts.ext@);
                }
                lemma_candidate(p, 0);
                assert(Seq::new(0, |i: int| 'c') =~= Seq::<char>::empty());
                assert(parts.stem@ + Seq::new(0, |i: int| 'c') =~= parts.stem@);
            }
            while self.is_taken(&name)
                invariant
                    self.assignment() == a,
                    a.len() == k,
                    stem@ == parts.stem@ + Seq::new(n, |i: int| 'c'),
                    name@ == parts.dir@ + stem@ + parts.ext@,
                    name@ == candidate(p, n),
                    parts.dir@ + parts.stem@ + parts.ext@ == candidate(p, 0),
                    forall|nn: nat| #[trigger] candidate(p, nn) == parts.dir@ + (parts.stem@ + Seq::new(nn, |i: int| 'c')) + parts.ext@,
                    forall|m: nat| m < n ==> taken_before(a, k as int, #[trigger] candidate(p, m)),
                decreases max_name_len(a) + 1 - n,
            {
                proof {
                    let j = choose|j: int| 0 <= j < k && (#[trigger] a[j]).1 == name@;
                    lemma_max_name_len(a, j);
                    lemma_candidate(p, n);
                }
                let c = "c";
                proof {
                    reveal_strlit("c");
                    assert(parts.stem@ + Seq::new(n + 1, |i: int| 'c') =~= stem@ + c@);
                    assert(taken_before(a, k as int, candidate(p, n)));
                }
                stem.append(c);
                proof {
                    n = n + 1;
                }
                name = join_name(&parts, &stem);
            }
            let ghost a2 = a.push((entries@[k as int].content(), name@));
            self.assigned.push((entries[k].clone(), name));
            proof {
                assert(self.assignment() =~= a2);
                let s2 = entries@.take(k + 1);
                assert forall|i: int| 0 <= i < a2.len() implies (#[trigger] a2[i]).0 == s2[i].content() by {
                    if i < k {
                        assert(a2[i] == a[i]);
                    }
                }
                assert forall|i: int| 0 <= i < a2.len() implies #[trigger] has_first_free(a2, s2, i) by {
                    if i < k {
                        assert(a2[i] == a[i]);
                        assert(s2[i] == entries@.take(k as int)[i]);
                        assert(has_first_free(a, entries@.take(k as int), i));
                        let nn = choose|nn: nat| first_free_at(a, entries@.take(k as int), i, nn);
                        assert forall|m: nat| m < nn implies taken_before(a2, i, #[trigger] candidate(s2[i].path(), m)) by {
                            let q = candidate(s2[i].path(), m);
                            assert(taken_before(a, i, q));
                            let j = choose|j: int| 0 <= j < i && (#[trigger] a[j]).1 == q;
                            assert(a2[j] == a[j]);
                        }
                        if taken_before(a2, i, a2[i].1) {
                            let j = choose|j: int| 0 <= j < i && (#[trigger] a2[j]).1 == a2[i].1;
                            assert(a2[j] == a[j]);
                        }
                        assert(first_free_at(a2, s2, i, nn));
                    } else {
                        assert(s2[i].path() == p);
                        assert forall|m: nat| m < n implies taken_before(a2, i, #[trigger] candidate(s2[i].path(), m)) by {
                            let q = candidate(p, m);
                            assert(taken_before(a, k as int, q));
                            let j = choose|j: int| 0 <= j < k && (#[trigger] a[j]).1 == q;
                            assert(a2[j] == a[j]);
                        }
                        if taken_before(a2, i, a2[i].1) {
                            let j = choose|j: int| 0 <= j < i && (#[trigger] a2[j]).1 == a2[i].1;
                            assert(a2[j] == a[j]);
                            assert(taken_before(a, k as int, name@));
                        }
                        assert(first_free_at(a2, s2, i, n));
                    }
                }
                assert(a2.len() == s2.len());
                assert(inflates(s2, a2));
            }
            k = k + 1;
        }
        proof {
            assert(entries@.take(k as int) =~= entries@);
            assert forall|i: int, j: int|
                0 <= i < self.assigned@.len() && 0 <= j < self.assigned@.len() && i != j implies (
            #[trigger] self.assigned@[i]).0.content() != (#[trigger] self.assigned@[j]).0.content() by {
                assert(self.assignment()[i].0 == self.assigned@[i].0.content());
                assert(self.assignment()[j].0 == self.assigned@[j].0.content());
            }
        }
        Ok(())
    }

    /// The path assigned to the resource with `entry`'s bytes.
    pub fn get_path_from_entry(&self, entry: &ResourceEntry) -> (r: Option<&String>)
        requires
            self.wf(),
        ensures
            match r {
                Some(p) => path_for(self.assignment(), entry.content()) == Some(p@),
                None => path_for(self.assignment(), entry.content()) is None,
            },
    {
        let mut j: usize = 0;
        while j < self.assigned.len()
            invariant
                self.wf(),
                0 <= j <= self.assigned@.len(),
                forall|i: int| 0 <= i < j ==> (#[trigger] self.assignment()[i]).0 != entry.content(),
            decreases self.assigned@.len() - j,
        {
            if same_bytes(&self.assigned[j].0.0.bytes, &entry.0.bytes) {
                proof {
                    let a = self.assignment();
                    assert(a[j as int].0 == entry.content());
                    let i = choose|i: int| 0 <= i < a.len() && (#[trigger] a[i]).0 == entry.content();
                    if i != j {
                        assert(self.assigned@[i].0.content() != self.assigned@[j as int].0.content());
                    }
                }
                return Some(&self.assigned[j].1);
            }
            j = j + 1;
        }
        None
    }

    /// The assignment, in pool order: each entry with its output path.
    pub fn assigned(&self) -> (r: &Vec<(ResourceEntry, String)>)
        ensures
            r@.len() == self.assignment().len(),
            forall|i: int| 0 <= i < r@.len() ==> (#[trigger] r@[i]).0.content() == self.assignment()[i].0
                && r@[i].1@ == self.assignment()[i].1,
    {
        &self.assigned
    }
}

/// `after` is `before` with the bytes `bytes` stored as read from `path`,
/// and `held` is the entry that now stands for them.
pub open spec fn inserted(
    before: ResourcePool,
    after: ResourcePool,
    path: Seq<char>,
    bytes: Seq<u8>,
    held: ResourceEntry,
) -> bool {
    &&& held.content() == bytes
    &&& holds_content(before.contents(), bytes) ==> after.contents() == before.contents()
        && before.contents().contains(held)
    &&& !holds_content(before.contents(), bytes) ==> after.contents() == before.contents().push(
        held,
    ) && held.path() == path
    &&& after.path_index() == before.path_index().insert(path, held)
}

/// Storing bytes keeps every entry, and the entry handed back is held.
pub proof fn lemma_inserted_extends(
    before: ResourcePool,
    after: ResourcePool,
    path: Seq<char>,
    bytes: Seq<u8>,
    held: ResourceEntry,
)
    requires
        inserted(before, after, path, bytes, held),
    ensures
        extends(before.contents(), after.contents()),
        after.contents().contains(held),
{
    if !holds_content(before.contents(), bytes) {
        assert(after.contents()[before.contents().len() as int] == held);
    }
}

/// What a list holds, a list that extends it holds too.
pub proof fn lemma_extends_contains(a: Seq<ResourceEntry>, b: Seq<ResourceEntry>, e: ResourceEntry)
    requires
        extends(a, b),
        a.contains(e),
    ensures
        b.contains(e),
{
    let k = choose|k: int| 0 <= k < a.len() && a[k] == e;
    assert(b[k] == e);
}

/// Storing the same bytes twice, under any two paths, leaves one entry for
/// them: the second store hands back the entry that the first made or found.
pub proof fn lemma_content_identity(
    p0: ResourcePool,
    p1: ResourcePool,
    p2: ResourcePool,
    path1: Seq<char>,
    path2: Seq<char>,
    bytes: Seq<u8>,
    h1: ResourceEntry,
    h2: ResourceEntry,
)
    requires
        p1.wf(),
        inserted(p0, p1, path1, bytes, h1),
        inserted(p1, p2, path2, bytes, h2),
    ensures
        h2 == h1,
        p2.contents() == p1.contents(),
        p2.path_index()[path1] == h1 || path1 == path2,
        p2.path_index()[path2] == h1,
        exists|k: int|
            0 <= k < p2.contents().len() && (#[trigger] p2.contents()[k]).content() == bytes,
        forall|i: int, j: int|
            0 <= i < p2.contents().len() && 0 <= j < p2.contents().len() && (
            #[trigger] p2.contents()[i]).content() == bytes && (#[trigger] p2.contents()[j]).content()
                == bytes ==> i == j,
{
    p1.lemma_contents_distinct();
    let k1 = if holds_content(p0.contents(), bytes) {
        choose|k: int| 0 <= k < p0.contents().len() && p0.contents()[k] == h1
    } else {
        p0.contents().len() as int
    };
    assert(p1.contents()[k1] == h1);
    assert(holds_content(p1.contents(), bytes));
    let k2 = choose|k: int| 0 <= k < p1.contents().len() && p1.contents()[k] == h2;
    assert(p1.contents()[k2].content() == bytes);
}

/// After inflation, the one entry written to the path assigned to a
/// resource is that resource: reading that path gives back its bytes.
pub proof fn lemma_inflate_round_trip(s: Seq<ResourceEntry>, a: Seq<(Seq<u8>, Seq<char>)>, k: int)
    requires
        inflates(s, a),
        0 <= k < s.len(),
    ensures
        a[k].0 == s[k].content(),
        forall|j: int| 0 <= j < a.len() && (#[trigger] a[j]).1 == a[k].1 ==> j == k,
{
    assert forall|j: int| 0 <= j < a.len() && (#[trigger] a[j]).1 == a[k].1 implies j == k by {
        if j < k {
            assert(has_first_free(a, s, k));
            let n = choose|n: nat| first_free_at(a, s, k, n);
        } else if j > k {
            assert(has_first_free(a, s, j));
            let n = choose|n: nat| first_free_at(a, s, j, n);
            assert(a[k].1 == a[j].1);
        }
    }
}

} // verus!
