//! File names for inflated resources: a taken name is lengthened by
//! appending a fixed character to its base name until it is free.
use vstd::prelude::*;

verus! {

/// The position of the last `c` in `p`, or -1.
pub open spec fn last_index_of(p: Seq<char>, c: char) -> int
    decreases p.len(),
{
    if p.len() == 0 {
        -1
    } else if p.last() == c {
        p.len() - 1
    } else {
        last_index_of(p.drop_last(), c)
    }
}

/// The directory part of a relative path, with its final `/`.
pub open spec fn dir_part(p: Seq<char>) -> Seq<char> {
    p.take(last_index_of(p, '/') + 1)
}

/// The file name of a relative path.
pub open spec fn file_part(p: Seq<char>) -> Seq<char> {
    p.skip(last_index_of(p, '/') + 1)
}

/// Where the extension of a file name starts: its last `.`, unless that is
/// the first character or there is none, in which case the name's length.
pub open spec fn ext_start(name: Seq<char>) -> int {
    if last_index_of(name, '.') > 0 {
        last_index_of(name, '.')
    } else {
        name.len() as int
    }
}

/// The name under which the `n`-th attempt stores a file first found at
/// `p`: its directory, its base name followed by `n` suffix characters,
/// and its extension.
pub open spec fn candidate(p: Seq<char>, n: nat) -> Seq<char> {
    let name = file_part(p);
    dir_part(p) + name.take(ext_start(name)) + Seq::new(n, |i: int| 'c') + name.skip(
        ext_start(name),
    )
}

pub proof fn lemma_last_index_of(p: Seq<char>, c: char)
    ensures
        -1 <= last_index_of(p, c) < p.len(),
        last_index_of(p, c) >= 0 ==> p[last_index_of(p, c)] == c,
    decreases p.len(),
{
    if p.len() > 0 && p.last() != c {
        lemma_last_index_of(p.drop_last(), c);
    }
}

/// The first attempt keeps the path; each attempt is one character longer.
pub proof fn lemma_candidate(p: Seq<char>, n: nat)
    ensures
        candidate(p, 0) == p,
        candidate(p, n).len() == p.len() + n,
{
    lemma_last_index_of(p, '/');
    let name = file_part(p);
    lemma_last_index_of(name, '.');
    let k = ext_start(name);
    assert(0 <= k <= name.len());
    assert(dir_part(p) + name.take(k) + Seq::new(0, |i: int| 'c') + name.skip(k) =~= p);
}

fn last_index(s: &str, c: char) -> (r: Option<usize>)
    ensures
        match r {
            Some(i) => i == last_index_of(s@, c),
            None => last_index_of(s@, c) == -1,
        },
{
    let n = s.unicode_len();
    let mut i: usize = n;
    proof {
        assert(s@.take(n as int) =~= s@);
    }
    while i > 0
        invariant
            i <= n == s@.len(),
            last_index_of(s@, c) == last_index_of(s@.take(i as int), c),
        decreases i,
    {
        let ghost t = s@.take(i as int);
        if s.get_char(i - 1) == c {
            return Some(i - 1);
        }
        proof {
            assert(t.drop_last() =~= s@.take(i - 1));
        }
        i = i - 1;
    }
    None
}

/// A file path split for renaming: directory, base name and extension.
pub struct NameParts {
    pub dir: String,
    pub stem: String,
    pub ext: String,
}

/// Splits `p` into its directory, base name and extension.
pub fn split_name(p: &str) -> (r: NameParts)
    ensures
        r.dir@ == dir_part(p@),
        r.stem@ == file_part(p@).take(ext_start(file_part(p@))),
        r.ext@ == file_part(p@).skip(ext_start(file_part(p@))),
{
    proof {
        lemma_last_index_of(p@, '/');
    }
    let n = p.unicode_len();
    let cut: usize = match last_index(p, '/') {
        Some(i) => i + 1,
        None => 0,
    };
    let dir = p.substring_char(0, cut);
    let name = p.substring_char(cut, n);
    proof {
        assert(name@ =~= file_part(p@));
        lemma_last_index_of(name@, '.');
    }
    let m = name.unicode_len();
    let dot: usize = match last_index(name, '.') {
        Some(i) => if i > 0 {
            i
        } else {
            m
        },
        None => m,
    };
    let stem = name.substring_char(0, dot);
    let ext = name.substring_char(dot, m);
    proof {
        assert(stem@ =~= name@.take(dot as int));
        assert(ext@ =~= name@.skip(dot as int));
    }
    NameParts { dir: String::from_str(dir), stem: String::from_str(stem), ext: String::from_str(ext) }
}

/// The `n`-th candidate, given the parts and the base name already
/// lengthened `n` times.
pub fn join_name(parts: &NameParts, stem: &String) -> (r: String)
    ensures
        r@ == parts.dir@ + stem@ + parts.ext@,
{
    let mut out = parts.dir.clone();
    out.append(stem.as_str());
    out.append(parts.ext.as_str());
    out
}

} // verus!
