//! A map from relative paths to positions, kept as a list of unique keys.
use vstd::prelude::*;

verus! {

pub struct PathIndex {
    pairs: Vec<(String, usize)>,
    map: Ghost<Map<Seq<char>, usize>>,
}

impl View for PathIndex {
    type V = Map<Seq<char>, usize>;

    closed spec fn view(&self) -> Map<Seq<char>, usize> {
        self.map@
    }
}

impl PathIndex {
    pub closed spec fn wf(&self) -> bool {
        &&& forall|i: int, j: int|
            0 <= i < j < self.pairs@.len() ==> (#[trigger] self.pairs@[i]).0@ != (
            #[trigger] self.pairs@[j]).0@
        &&& forall|i: int|
            0 <= i < self.pairs@.len() ==> self.map@.contains_key((#[trigger] self.pairs@[i]).0@)
                && self.map@[self.pairs@[i].0@] == self.pairs@[i].1
        &&& forall|p: Seq<char>|
            #[trigger] self.map@.contains_key(p) ==> exists|i: int|
                0 <= i < self.pairs@.len() && (#[trigger] self.pairs@[i]).0@ == p
    }

    pub fn new() -> (r: Self)
        ensures
            r.wf(),
            r@ == Map::<Seq<char>, usize>::empty(),
    {
        PathIndex { pairs: Vec::new(), map: Ghost(Map::empty()) }
    }

    /// The position stored under `path`.
    pub fn get(&self, path: &str) -> (r: Option<usize>)
        requires
            self.wf(),
        ensures
            r == (if self@.contains_key(path@) {
                Some(self@[path@])
            } else {
                None
            }),
    {
        let key = path.to_owned();
        let mut i: usize = 0;
        while i < self.pairs.len()
            invariant
                self.wf(),
                key@ == path@,
                0 <= i <= self.pairs@.len(),
                forall|j: int| 0 <= j < i ==> (#[trigger] self.pairs@[j]).0@ != path@,
            decreases self.pairs@.len() - i,
        {
            if self.pairs[i].0 == key {
                return Some(self.pairs[i].1);
            }
            i = i + 1;
        }
        proof {
            if self@.contains_key(path@) {
                let j = choose|j: int|
                    0 <= j < self.pairs@.len() && (#[trigger] self.pairs@[j]).0@ == path@;
            }
        }
        None
    }

    /// Stores `k` under `path`, replacing what was stored there.
    pub fn set(&mut self, path: String, k: usize)
        requires
            old(self).wf(),
        ensures
            final(self).wf(),
            final(self)@ == old(self)@.insert(path@, k),
    {
        let ghost pv = path@;
        let ghost new_map = self.map@.insert(pv, k);
        let mut i: usize = 0;
        while i < self.pairs.len()
            invariant
                self.wf(),
                *self == *old(self),
                pv == path@,
                new_map == old(self).map@.insert(pv, k),
                0 <= i <= self.pairs@.len(),
                forall|j: int| 0 <= j < i ==> (#[trigger] self.pairs@[j]).0@ != pv,
            decreases self.pairs@.len() - i,
        {
            if self.pairs[i].0 == path {
                self.pairs.set(i, (path, k));
                self.map = Ghost(new_map);
                proof {
                    let ps = self.pairs@;
                    let ops = old(self).pairs@;
                    assert forall|a: int, b: int| 0 <= a < b < ps.len() implies (#[trigger] ps[a]).0@
                        != (#[trigger] ps[b]).0@ by {
                        assert(ops[a].0@ != ops[b].0@);
                        if a == i {
                            assert(ops[a].0@ == pv);
                        }
                        if b == i {
                            assert(ops[b].0@ == pv);
                        }
                    }
                    assert forall|a: int| 0 <= a < ps.len() implies self.map@.contains_key(
                        (#[trigger] ps[a]).0@,
                    ) && self.map@[ps[a].0@] == ps[a].1 by {
                        if a != i {
                            assert(ps[a] == ops[a]);
                            if a < i {
                                assert(ops[a].0@ != ops[i as int].0@);
                            } else {
                                assert(ops[i as int].0@ != ops[a].0@);
                            }
                        }
                    }
                    assert forall|p: Seq<char>| #[trigger] self.map@.contains_key(p) implies exists|
                        j: int,
                    | 0 <= j < ps.len() && (#[trigger] ps[j]).0@ == p by {
                        if p != pv {
                            let j = choose|j: int| 0 <= j < ops.len() && (#[trigger] ops[j]).0@ == p;
                            assert(ps[j].0@ == p);
                        } else {
                            assert(ps[i as int].0@ == p);
                        }
                    }
                }
                return;
            }
            i = i + 1;
        }
        self.pairs.push((path, k));
        self.map = Ghost(new_map);
        proof {
            let ps = self.pairs@;
            let ops = old(self).pairs@;
            let n = ps.len() - 1;
            assert(ps[n].0@ == pv);
            assert forall|a: int, b: int| 0 <= a < b < ps.len() implies (#[trigger] ps[a]).0@ != (
            #[trigger] ps[b]).0@ by {
                if b == n {
                    assert(ps[a] == ops[a]);
                } else {
                    assert(ps[a] == ops[a] && ps[b] == ops[b]);
                }
            }
            assert forall|a: int| 0 <= a < ps.len() implies self.map@.contains_key(
                (#[trigger] ps[a]).0@,
            ) && self.map@[ps[a].0@] == ps[a].1 by {
                if a != n {
                    assert(ps[a] == ops[a]);
                }
            }
            assert forall|p: Seq<char>| #[trigger] self.map@.contains_key(p) implies exists|
                j: int,
            | 0 <= j < ps.len() && (#[trigger] ps[j]).0@ == p by {
                if p != pv {
                    let j = choose|j: int| 0 <= j < ops.len() && (#[trigger] ops[j]).0@ == p;
                    assert(ps[j] == ops[j]);
                } else {
                    assert(ps[n].0@ == p);
                }
            }
        }
    }

    /// Removes every key.
    pub fn clear(&mut self)
        ensures
            final(self).wf(),
            final(self)@ == Map::<Seq<char>, usize>::empty(),
    {
        self.pairs.clear();
        self.map = Ghost(Map::empty());
    }
}

} // verus!
