//! The game-agnostic data model: beatmaps, their timing and hit objects, and
//! the package that gathers them with one resource pool.
use crate::resource::{ResourceEntry, ResourcePool};
use vstd::prelude::*;

verus! {

/// Decimal numbers are carried as `rust_decimal::Decimal`; nothing here
/// looks inside one.
#[verifier::external_type_specification]
#[verifier::external_body]
pub struct ExDecimal(rust_decimal::Decimal);

/// One text in its latin-script and its unicode-script rendering.
#[derive(Debug)]
pub struct LatinAndUnicodeString {
    pub latin: Option<String>,
    pub unicode: Option<String>,
}

/// The first of `a` and `b` that is present.
pub open spec fn first_present(a: Option<String>, b: Option<String>) -> Option<String> {
    if a is Some {
        a
    } else {
        b
    }
}

/// The referenced string, as an owned value.
pub open spec fn deref_opt(o: Option<&String>) -> Option<String> {
    match o {
        Some(s) => Some(*s),
        None => None,
    }
}

impl LatinAndUnicodeString {
    pub fn new() -> (r: Self)
        ensures
            r.latin is None,
            r.unicode is None,
    {
        LatinAndUnicodeString { latin: None, unicode: None }
    }

    /// The latin rendering, else the unicode one.
    pub fn latin_or_unicode(&self) -> (r: Option<&String>)
        ensures
            deref_opt(r) == first_present(self.latin, self.unicode),
    {
        match &self.latin {
            Some(l) => Some(l),
            None => match &self.unicode {
                Some(u) => Some(u),
                None => None,
            },
        }
    }

    /// The unicode rendering, else the latin one.
    pub fn unicode_or_latin(&self) -> (r: Option<&String>)
        ensures
            deref_opt(r) == first_present(self.unicode, self.latin),
    {
        match &self.unicode {
            Some(u) => Some(u),
            None => match &self.latin {
                Some(l) => Some(l),
                None => None,
            },
        }
    }
}

/// A tempo change.
#[derive(Debug, Clone, Copy, PartialEq)]
pub struct BpmTimePoint {
    pub offset: i32,
    pub bpm: rust_decimal::Decimal,
    pub beats_per_bar: u32,
}

/// A change of scroll speed alone.
#[derive(Debug, Clone, Copy, PartialEq)]
pub struct EffectTimePoint {
    pub offset: i32,
    pub velocity_multiplier: rust_decimal::Decimal,
}

/// A hit object; `column` is the zero-based lane.
#[derive(Debug, Clone, Copy, PartialEq, Eq)]
pub enum Object {
    Note { column: u32, offset: i32 },
    LongNote { column: u32, offset: i32, end_offset: i32 },
}

impl Object {
    pub open spec fn column_spec(&self) -> u32 {
        match *self {
            Object::Note { column, .. } => column,
            Object::LongNote { column, .. } => column,
        }
    }
}

/// One playable chart.
pub struct Beatmap {
    pub title: LatinAndUnicodeString,
    pub artist: LatinAndUnicodeString,
    pub version: Option<String>,
    pub creator: Option<String>,
    pub column_count: Option<u32>,
    pub audio: Option<ResourceEntry>,
    pub audio_lead_in: Option<i32>,
    pub preview_time: Option<i32>,
    pub background: Option<ResourceEntry>,
    pub hp_difficulty: Option<rust_decimal::Decimal>,
    pub acc_difficulty: Option<rust_decimal::Decimal>,
    pub bpm_time_points: Vec<BpmTimePoint>,
    pub effect_time_points: Vec<EffectTimePoint>,
    pub objects: Vec<Object>,
}

/// `parts` joined with `sep` between neighbours.
pub open spec fn join_parts(parts: Seq<Seq<char>>, sep: Seq<char>) -> Seq<char>
    decreases parts.len(),
{
    if parts.len() == 0 {
        Seq::empty()
    } else if parts.len() == 1 {
        parts[0]
    } else {
        join_parts(parts.drop_last(), sep) + sep + parts.last()
    }
}

/// The text of `o` as a one-element list when it is present and not empty.
pub open spec fn nonempty_part(o: Option<String>) -> Seq<Seq<char>> {
    match o {
        Some(s) => if s@.len() > 0 {
            seq![s@]
        } else {
            Seq::empty()
        },
        None => Seq::empty(),
    }
}

/// The name a beatmap's chart file is saved under, without extension:
/// creator, title and version, those that are present and not empty,
/// joined by `" - "`.
pub open spec fn basename_of(b: Beatmap) -> Seq<char> {
    join_parts(
        nonempty_part(b.creator) + nonempty_part(first_present(b.title.unicode, b.title.latin))
            + nonempty_part(b.version),
        seq![' ', '-', ' '],
    )
}

/// Appends `part`, when it is present and not empty, to the parts already
/// joined in `out`; `any` tells whether there are such parts. Returns
/// whether there are any now.
fn push_part(out: &mut String, parts: Ghost<Seq<Seq<char>>>, any: bool, part: &Option<String>) -> (r: bool)
    requires
        old(out)@ == join_parts(parts@, seq![' ', '-', ' ']),
        any == (parts@.len() > 0),
    ensures
        final(out)@ == join_parts(parts@ + nonempty_part(*part), seq![' ', '-', ' ']),
        r == ((parts@ + nonempty_part(*part)).len() > 0),
{
    match part {
        Some(s) => {
            if s.unicode_len() > 0 {
                let ghost all = parts@ + seq![s@];
                assert(all.drop_last() =~= parts@);
                if any {
                    let sep = " - ";
                    proof {
                        reveal_strlit(" - ");
                        assert(sep@ =~= seq![' ', '-', ' ']);
                    }
                    out.append(sep);
                } else {
                    assert(out@ =~= Seq::<char>::empty());
                }
                out.append(s.as_str());
                true
            } else {
                assert(parts@ + Seq::<Seq<char>>::empty() =~= parts@);
                any
            }
        },
        None => {
            assert(parts@ + Seq::<Seq<char>>::empty() =~= parts@);
            any
        },
    }
}

impl Beatmap {
    /// A beatmap with nothing set.
    pub fn new() -> (r: Self)
        ensures
            r.title.latin is None && r.title.unicode is None,
            r.artist.latin is None && r.artist.unicode is None,
            r.version is None && r.creator is None,
            r.column_count is None,
            r.audio is None && r.background is None,
            r.audio_lead_in is None && r.preview_time is None,
            r.hp_difficulty is None && r.acc_difficulty is None,
            r.bpm_time_points@.len() == 0,
            r.effect_time_points@.len() == 0,
            r.objects@.len() == 0,
    {
        Beatmap {
            title: LatinAndUnicodeString::new(),
            artist: LatinAndUnicodeString::new(),
            version: None,
            creator: None,
            column_count: None,
            audio: None,
            audio_lead_in: None,
            preview_time: None,
            background: None,
            hp_difficulty: None,
            acc_difficulty: None,
            bpm_time_points: Vec::new(),
            effect_time_points: Vec::new(),
            objects: Vec::new(),
        }
    }

    /// The chart file's name without extension; see `basename_of`.
    pub fn make_basename(&self) -> (r: String)
        ensures
            r@ == basename_of(*self),
    {
        let mut out = String::new();
        let ghost p0 = Seq::<Seq<char>>::empty();
        let any = push_part(&mut out, Ghost(p0), false, &self.creator);
        let ghost p1 = p0 + nonempty_part(self.creator);
        let title = match self.title.unicode_or_latin() {
            Some(t) => Some(t.clone()),
            None => None,
        };
        let any = push_part(&mut out, Ghost(p1), any, &title);
        let ghost p2 = p1 + nonempty_part(title);
        push_part(&mut out, Ghost(p2), any, &self.version);
        proof {
            assert(p0 + nonempty_part(self.creator) =~= nonempty_part(self.creator));
        }
        out
    }
}

/// The media of `b` are entries of `s`.
pub open spec fn media_held(b: Beatmap, s: Seq<ResourceEntry>) -> bool {
    &&& b.audio matches Some(e) ==> s.contains(e)
    &&& b.background matches Some(e) ==> s.contains(e)
}

/// The media of every beatmap of `p` are entries of its pool.
pub open spec fn holds_media(p: Package) -> bool {
    forall|i: int|
        0 <= i < p.beatmaps@.len() ==> media_held(#[trigger] p.beatmaps@[i], p.resource_pool.contents())
}

/// The beatmaps of a chart set and the pool that holds their media.
pub struct Package {
    pub beatmaps: Vec<Beatmap>,
    pub resource_pool: ResourcePool,
}

impl Package {
    pub fn new() -> (r: Self)
        ensures
            r.beatmaps@.len() == 0,
            r.resource_pool.wf(),
            r.resource_pool.contents().len() == 0,
            r.resource_pool.path_index() == Map::<Seq<char>, ResourceEntry>::empty(),
            holds_media(r),
    {
        Package { beatmaps: Vec::new(), resource_pool: ResourcePool::new() }
    }
}

} // verus!
