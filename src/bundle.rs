//! Whole bundles: decoding every chart of an extracted bundle into a
//! package, and compiling a package into the files of an output bundle.
//! A chart or beatmap that fails is skipped and reported; the others go on.
use crate::chart::OsuChart;
use crate::decoder::{decode_chart, decodes_to, lane_count_of, media_read};
use crate::encoder::{chart_file_name, encode_beatmap, encodes};
use crate::error::{ConvertError, Field};
use crate::resource::{
    extends, inflates, lemma_extends_contains, path_for, ResourceOut,
};
use crate::types::{basename_of, holds_media, media_held, Beatmap, Package};
use vstd::prelude::*;

verus! {

/// The extension of chart files, with its dot.
pub open spec fn chart_extension() -> Seq<char> {
    seq!['.', 'o', 's', 'u']
}

/// Whether a file name marks a chart file: a non-empty base name followed
/// by the chart extension.
pub open spec fn is_chart_name(name: Seq<char>) -> bool {
    name.len() > 4 && name.skip(name.len() - 4) == chart_extension()
}

/// Whether the file name `name` marks a chart file.
pub fn is_chart_file_name(name: &str) -> (r: bool)
    ensures
        r == is_chart_name(name@),
{
    let n = name.unicode_len();
    if n <= 4 {
        return false;
    }
    let tail = String::from_str(name.substring_char(n - 4, n));
    let ext = String::from_str(".osu");
    proof {
        reveal_strlit(".osu");
        assert(ext@ =~= chart_extension());
        assert(tail@ =~= name@.skip(n - 4));
    }
    tail == ext
}

/// One chart of an extracted bundle, with the bytes of the media files it
/// references, where they could be read.
pub struct ChartSource {
    pub chart: OsuChart,
    pub audio: Option<Vec<u8>>,
    pub background: Option<Vec<u8>>,
}

/// The charts of one extracted bundle.
pub struct ExtractedBundle {
    pub charts: Vec<ChartSource>,
}

/// The positions below `n` at which `p` holds, in increasing order.
pub open spec fn indices_where(n: nat, p: spec_fn(int) -> bool) -> Seq<int>
    decreases n,
{
    if n == 0 {
        Seq::empty()
    } else if p(n - 1) {
        indices_where((n - 1) as nat, p).push(n - 1)
    } else {
        indices_where((n - 1) as nat, p)
    }
}

/// Whether the chart at a position of `s` states a lane count.
pub open spec fn has_lanes(s: Seq<ChartSource>) -> spec_fn(int) -> bool {
    |i: int| lane_count_of(s[i].chart) is Some
}

/// Whether the chart at a position of `s` states no lane count.
pub open spec fn lacks_lanes(s: Seq<ChartSource>) -> spec_fn(int) -> bool {
    |i: int| lane_count_of(s[i].chart) is None
}

/// The positions of the charts of `s` that decode: those with a lane count.
pub open spec fn decodable_charts(s: Seq<ChartSource>) -> Seq<int> {
    indices_where(s.len(), has_lanes(s))
}

/// The positions of the charts of `s` that fail to decode.
pub open spec fn undecodable_charts(s: Seq<ChartSource>) -> Seq<int> {
    indices_where(s.len(), lacks_lanes(s))
}

/// `after` is `before` with the charts of `s` decoded into it: the pool
/// only grows, the earlier beatmaps stay in front, one beatmap follows for
/// each chart with a lane count, in order, with the chart's fields and the
/// media read for it, and `r` lists the other charts with their error.
pub open spec fn appends(
    s: Seq<ChartSource>,
    before: Package,
    after: Package,
    r: Seq<(usize, ConvertError)>,
) -> bool {
    let n0 = before.beatmaps@.len();
    let ok = decodable_charts(s);
    let bad = undecodable_charts(s);
    &&& extends(before.resource_pool.contents(), after.resource_pool.contents())
    &&& after.beatmaps@.len() == n0 + ok.len()
    &&& forall|j: int| 0 <= j < n0 ==> #[trigger] after.beatmaps@[j] == before.beatmaps@[j]
    &&& forall|j: int|
        0 <= j < ok.len() ==> decodes_to(s[ok[j]].chart, #[trigger] after.beatmaps@[n0 + j])
            && media_read(after.beatmaps@[n0 + j], s[ok[j]].chart, s[ok[j]].audio, s[ok[j]].background)
    &&& r.len() == bad.len()
    &&& forall|j: int|
        0 <= j < r.len() ==> (#[trigger] r[j]).0 == bad[j] && r[j].1 == ConvertError::MissingField(
            Field::ColumnCount,
        )
}

/// Decodes the charts of one bundle into `package`, in order. A chart that
/// fails is skipped, and its position and error are returned; the others
/// are appended. With `clear_paths`, the pool's path index is emptied first,
/// so that paths this bundle shares with earlier ones resolve afresh.
pub fn append_bundle(package: &mut Package, charts: Vec<ChartSource>, clear_paths: bool) -> (r: Vec<
    (usize, ConvertError),
>)
    requires
        old(package).resource_pool.wf(),
        holds_media(*old(package)),
    ensures
        final(package).resource_pool.wf(),
        holds_media(*final(package)),
        appends(charts@, *old(package), *final(package), r@),
{
    if clear_paths {
        package.resource_pool.clear_path();
    }
    let ghost s = charts@;
    let ghost n0 = package.beatmaps@.len();
    let ghost ok = has_lanes(s);
    let ghost bad = lacks_lanes(s);
    let mut failures: Vec<(usize, ConvertError)> = Vec::new();
    let mut i: usize = 0;
    let mut rest = charts;
    let total = rest.len();
    proof {
        assert(rest@ =~= s.skip(0));
    }
    while rest.len() > 0
        invariant
            package.resource_pool.wf(),
            holds_media(*package),
            extends(old(package).resource_pool.contents(), package.resource_pool.contents()),
            ok == has_lanes(s),
            s.len() == total,
            bad == lacks_lanes(s),
            i + rest@.len() == s.len(),
            rest@ == s.skip(i as int),
            package.beatmaps@.len() == n0 + indices_where(i as nat, ok).len(),
            forall|j: int|
                0 <= j < n0 ==> #[trigger] package.beatmaps@[j] == old(package).beatmaps@[j],
            forall|j: int|
                0 <= j < indices_where(i as nat, ok).len() ==> decodes_to(
                    s[indices_where(i as nat, ok)[j]].chart,
                    #[trigger] package.beatmaps@[n0 + j],
                ) && media_read(
                    package.beatmaps@[n0 + j],
                    s[indices_where(i as nat, ok)[j]].chart,
                    s[indices_where(i as nat, ok)[j]].audio,
                    s[indices_where(i as nat, ok)[j]].background,
                ),
            failures@.len() == indices_where(i as nat, bad).len(),
            forall|j: int|
                0 <= j < failures@.len() ==> (#[trigger] failures@[j]).0 == indices_where(
                    i as nat,
                    bad,
                )[j] && failures@[j].1 == ConvertError::MissingField(Field::ColumnCount),
        decreases rest@.len(),
    {
        let source = rest.remove(0);
        proof {
            assert(source == s[i as int]);
            assert(rest@ =~= s.skip(i + 1));
        }
        let ChartSource { chart, audio, background } = source;
        let ghost before = package.beatmaps@;
        let ghost fails_before = failures@;
        let ghost pool_before = package.resource_pool.contents();
        let decoded = decode_chart(&chart, audio, background, &mut package.resource_pool);
        proof {
            assert forall|j: int| 0 <= j < before.len() implies media_held(
                #[trigger] before[j],
                package.resource_pool.contents(),
            ) by {
                assert(media_held(before[j], pool_before));
                if let Some(e) = before[j].audio {
                    lemma_extends_contains(pool_before, package.resource_pool.contents(), e);
                }
                if let Some(e) = before[j].background {
                    lemma_extends_contains(pool_before, package.resource_pool.contents(), e);
                }
            }
            let o = old(package).resource_pool.contents();
            let c = package.resource_pool.contents();
            assert forall|k: int| 0 <= k < o.len() implies #[trigger] c[k] == o[k] by {
                assert(pool_before[k] == o[k]);
            }
        }
        match decoded {
            Ok(b) => {
                package.beatmaps.push(b);
                proof {
                    assert forall|j: int| 0 <= j < package.beatmaps@.len() implies media_held(
                        #[trigger] package.beatmaps@[j],
                        package.resource_pool.contents(),
                    ) by {
                        if j < before.len() {
                            assert(package.beatmaps@[j] == before[j]);
                        }
                    }
                    assert(ok(i as int));
                    let w = indices_where(i as nat, ok);
                    assert(indices_where((i + 1) as nat, ok) == w.push(i as int));
                    assert(indices_where((i + 1) as nat, bad) == indices_where(i as nat, bad));
                    assert forall|j: int|
                        0 <= j < indices_where((i + 1) as nat, ok).len() implies decodes_to(
                        s[indices_where((i + 1) as nat, ok)[j]].chart,
                        #[trigger] package.beatmaps@[n0 + j],
                    ) && media_read(
                        package.beatmaps@[n0 + j],
                        s[indices_where((i + 1) as nat, ok)[j]].chart,
                        s[indices_where((i + 1) as nat, ok)[j]].audio,
                        s[indices_where((i + 1) as nat, ok)[j]].background,
                    ) by {
                        if j < w.len() {
                            assert(package.beatmaps@[n0 + j] == before[n0 + j]);
                        }
                    }
                    assert forall|j: int| 0 <= j < n0 implies #[trigger] package.beatmaps@[j]
                        == old(package).beatmaps@[j] by {
                        assert(package.beatmaps@[j] == before[j]);
                    }
                }
            },
            Err(e) => {
                failures.push((i, e));
                proof {
                    assert(package.beatmaps@ == before);
                    assert(bad(i as int));
                    let w = indices_where(i as nat, bad);
                    assert(indices_where((i + 1) as nat, bad) == w.push(i as int));
                    assert(indices_where((i + 1) as nat, ok) == indices_where(i as nat, ok));
                    assert forall|j: int| 0 <= j < failures@.len() implies (
                    #[trigger] failures@[j]).0 == indices_where((i + 1) as nat, bad)[j]
                        && failures@[j].1 == ConvertError::MissingField(Field::ColumnCount) by {
                        if j < fails_before.len() {
                            assert(failures@[j] == fails_before[j]);
                        }
                    }
                }
            },
        }
        i = i + 1;
    }
    proof {
        assert(i == s.len());
    }
    failures
}

proof fn lemma_one_lacking_prefix(s: Seq<ChartSource>, m: int, n: nat)
    requires
        0 <= m < s.len(),
        n <= s.len(),
        lane_count_of(s[m].chart) is None,
        forall|i: int| 0 <= i < s.len() && i != m ==> lane_count_of(#[trigger] s[i].chart) is Some,
    ensures
        indices_where(n, has_lanes(s)).len() == if n > m {
            n - 1
        } else {
            n as int
        },
        forall|j: int|
            0 <= j < indices_where(n, has_lanes(s)).len() ==> #[trigger] indices_where(
                n,
                has_lanes(s),
            )[j] == if j < m {
                j
            } else {
                j + 1
            },
        indices_where(n, lacks_lanes(s)) == if n > m {
            seq![m]
        } else {
            Seq::<int>::empty()
        },
    decreases n,
{
    if n > 0 {
        let k = (n - 1) as nat;
        lemma_one_lacking_prefix(s, m, k);
        if k as int == m {
            assert(!has_lanes(s)(m));
            assert(lacks_lanes(s)(m));
            assert(Seq::<int>::empty().push(m) =~= seq![m]);
        } else {
            assert(has_lanes(s)(k as int));
            assert(!lacks_lanes(s)(k as int));
        }
    }
}

/// A bundle in which exactly one chart states no lane count: every other
/// chart decodes, in order, and that chart alone is reported.
pub proof fn lemma_one_chart_lacking_lanes(s: Seq<ChartSource>, m: int)
    requires
        0 <= m < s.len(),
        lane_count_of(s[m].chart) is None,
        forall|i: int| 0 <= i < s.len() && i != m ==> lane_count_of(#[trigger] s[i].chart) is Some,
    ensures
        decodable_charts(s).len() == s.len() - 1,
        forall|j: int|
            0 <= j < s.len() - 1 ==> #[trigger] decodable_charts(s)[j] == if j < m {
                j
            } else {
                j + 1
            },
        undecodable_charts(s) == seq![m],
{
    lemma_one_lacking_prefix(s, m, s.len());
}

/// One chart file of an output bundle.
pub struct CompiledChart {
    pub file_name: String,
    pub chart: OsuChart,
}

/// The contents of an output bundle: every distinct resource with the path
/// it is written to, and one chart file per beatmap that encoded. The
/// beatmaps that did not are listed by position, with the reason.
pub struct OsuBundle {
    pub resources: ResourceOut,
    pub charts: Vec<CompiledChart>,
    pub failures: Vec<(usize, ConvertError)>,
}

/// Whether a beatmap has what encoding needs: a positive lane count and an
/// audio file.
pub open spec fn encodable(b: Beatmap) -> bool {
    b.column_count matches Some(n) && n > 0 && b.audio is Some
}

/// Why a beatmap does not encode.
pub open spec fn encode_failure(b: Beatmap) -> ConvertError {
    if b.column_count matches Some(n) && n > 0 {
        ConvertError::MissingField(Field::Audio)
    } else {
        ConvertError::MissingField(Field::ColumnCount)
    }
}

pub open spec fn encodable_at(s: Seq<Beatmap>) -> spec_fn(int) -> bool {
    |i: int| encodable(s[i])
}

pub open spec fn unencodable_at(s: Seq<Beatmap>) -> spec_fn(int) -> bool {
    |i: int| !encodable(s[i])
}

/// `r` is what compiling `p` gives: every distinct resource of the pool
/// gets an output path as `inflates` says, each beatmap that has what
/// encoding needs gives, in order, its chart record under its basename with
/// the chart extension (and names an audio file), and the other beatmaps
/// are listed with their error.
pub open spec fn compiles_to(p: Package, r: OsuBundle) -> bool {
    let s = p.beatmaps@;
    let ok = indices_where(s.len(), encodable_at(s));
    let bad = indices_where(s.len(), unencodable_at(s));
    &&& r.resources.wf()
    &&& inflates(p.resource_pool.contents(), r.resources.assignment())
    &&& r.charts@.len() == ok.len()
    &&& forall|j: int|
        0 <= j < r.charts@.len() ==> {
            &&& encodes(s[ok[j]], r.resources.assignment(), (#[trigger] r.charts@[j]).chart)
            &&& r.charts@[j].file_name@ == basename_of(s[ok[j]]) + chart_extension()
            &&& r.charts@[j].chart.audio_filename is Some
        }
    &&& r.failures@.len() == bad.len()
    &&& forall|j: int|
        0 <= j < r.failures@.len() ==> (#[trigger] r.failures@[j]).0 == bad[j] && r.failures@[j].1
            == encode_failure(s[bad[j]])
}

impl Package {
    /// Compiles the package into a scratch directory, which must be empty:
    /// gives every distinct resource a path there, and encodes every
    /// beatmap that has what encoding needs, skipping the others.
    pub fn compile(&self, dir_is_empty: bool) -> (r: Result<OsuBundle, ConvertError>)
        requires
            self.resource_pool.wf(),
            holds_media(*self),
        ensures
            !dir_is_empty ==> r is Err && r->Err_0 == ConvertError::AlreadyExists,
            dir_is_empty ==> r is Ok && compiles_to(*self, r->Ok_0),
    {
        let mut resources = ResourceOut::new();
        if resources.inflate(dir_is_empty, &self.resource_pool).is_err() {
            return Err(ConvertError::AlreadyExists);
        }
        let ghost s = self.beatmaps@;
        let ghost ok = encodable_at(s);
        let ghost bad = unencodable_at(s);
        let ghost a = resources.assignment();
        let mut charts: Vec<CompiledChart> = Vec::new();
        let mut failures: Vec<(usize, ConvertError)> = Vec::new();
        let mut i: usize = 0;
        while i < self.beatmaps.len()
            invariant
                resources.wf(),
                resources.assignment() == a,
                s == self.beatmaps@,
                ok == encodable_at(s),
                bad == unencodable_at(s),
                0 <= i <= s.len(),
                charts@.len() == indices_where(i as nat, ok).len(),
                forall|j: int|
                    0 <= j < charts@.len() ==> {
                        let b = s[indices_where(i as nat, ok)[j]];
                        &&& encodes(b, a, (#[trigger] charts@[j]).chart)
                        &&& charts@[j].file_name@ == basename_of(b) + chart_extension()
                    },
                forall|j: int|
                    0 <= j < charts@.len() ==> (#[trigger] charts@[j]).chart.audio_filename is Some,
                failures@.len() == indices_where(i as nat, bad).len(),
                forall|j: int|
                    0 <= j < failures@.len() ==> (#[trigger] failures@[j]).0 == indices_where(
                        i as nat,
                        bad,
                    )[j] && failures@[j].1 == encode_failure(s[failures@[j].0 as int]),
                holds_media(*self),
                inflates(self.resource_pool.contents(), a),
            decreases s.len() - i,
        {
            let b = &self.beatmaps[i];
            let ghost charts_before = charts@;
            let ghost fails_before = failures@;
            match encode_beatmap(b, &resources) {
                Ok(chart) => {
                    proof {
                        let e = b.audio->0;
                        let pc = self.resource_pool.contents();
                        assert(media_held(s[i as int], pc));
                        let k = choose|k: int| 0 <= k < pc.len() && pc[k] == e;
                        assert(a[k].0 == pc[k].content());
                        assert(path_for(a, e.content()) is Some);
                    }
                    let file_name = chart_file_name(b);
                    charts.push(CompiledChart { file_name, chart });
                    proof {
                        assert(ok(i as int));
                        assert(!bad(i as int));
                        let w = indices_where(i as nat, ok);
                        assert(indices_where((i + 1) as nat, ok) == w.push(i as int));
                        assert(indices_where((i + 1) as nat, bad) == indices_where(i as nat, bad));
                        assert forall|j: int| 0 <= j < charts@.len() implies {
                            let bb = s[indices_where((i + 1) as nat, ok)[j]];
                            &&& encodes(bb, a, (#[trigger] charts@[j]).chart)
                            &&& charts@[j].file_name@ == basename_of(bb) + chart_extension()
                        } by {
                            if j < w.len() {
                                assert(charts@[j] == charts_before[j]);
                            }
                        }
                    }
                },
                Err(e) => {
                    failures.push((i, e));
                    proof {
                        assert(!ok(i as int));
                        assert(bad(i as int));
                        let w = indices_where(i as nat, bad);
                        assert(indices_where((i + 1) as nat, bad) == w.push(i as int));
                        assert(indices_where((i + 1) as nat, ok) == indices_where(i as nat, ok));
                        assert forall|j: int| 0 <= j < failures@.len() implies (
                        #[trigger] failures@[j]).0 == indices_where((i + 1) as nat, bad)[j]
                            && failures@[j].1 == encode_failure(s[failures@[j].0 as int]) by {
                            if j < fails_before.len() {
                                assert(failures@[j] == fails_before[j]);
                            }
                        }
                    }
                },
            }
            i = i + 1;
        }
        Ok(OsuBundle { resources, charts, failures })
    }
}

} // verus!
