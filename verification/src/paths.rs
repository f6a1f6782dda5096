//! Pure path algebra: absolute and relative paths as sequences of segments,
//! joining a relative path onto an absolute base, and computing the relative
//! path that leads from one absolute directory to an absolute target.

use vstd::prelude::*;

verus! {

/// One segment of a relative path: a step up to the parent directory, a
/// step that stays in place, or a step down into a named entry.
#[derive(Debug, PartialEq, Eq)]
pub enum PathSeg {
    Up,
    Cur,
    Name(String),
}

/// Spec-level value of a [`PathSeg`].
pub enum SegV {
    Up,
    Cur,
    Name(Seq<char>),
}

impl View for PathSeg {
    type V = SegV;

    open spec fn view(&self) -> SegV {
        match self {
            PathSeg::Up => SegV::Up,
            PathSeg::Cur => SegV::Cur,
            PathSeg::Name(s) => SegV::Name(s@),
        }
    }
}

/// The spec-level contents of a sequence of strings.
pub open spec fn strs_view(s: Seq<String>) -> Seq<Seq<char>> {
    s.map_values(|x: String| x@)
}

/// The spec-level contents of a sequence of path segments.
pub open spec fn segs_view(s: Seq<PathSeg>) -> Seq<SegV> {
    s.map_values(|x: PathSeg| x@)
}

pub proof fn lemma_strs_view_push(s: Seq<String>, x: String)
    ensures
        strs_view(s.push(x)) == strs_view(s).push(x@),
{
    assert(strs_view(s.push(x)) =~= strs_view(s).push(x@));
}

pub proof fn lemma_segs_view_push(s: Seq<PathSeg>, x: PathSeg)
    ensures
        segs_view(s.push(x)) == segs_view(s).push(x@),
{
    assert(segs_view(s.push(x)) =~= segs_view(s).push(x@));
}

/// A relative filesystem path, as an ordered sequence of segments.
#[derive(Debug, PartialEq, Eq)]
pub struct RelPath {
    pub segments: Vec<PathSeg>,
}

impl View for RelPath {
    type V = Seq<SegV>;

    open spec fn view(&self) -> Seq<SegV> {
        segs_view(self.segments@)
    }
}

/// Spec-level value of an [`AbsPath`]: the volume it is rooted on and its
/// ordered segments.
pub struct AbsPathV {
    pub volume: Seq<char>,
    pub segments: Seq<Seq<char>>,
}

/// An absolute filesystem path: a volume (empty on platforms with a single
/// root) and the ordered segments below that volume's root. Segments are
/// plain names; `.` and `..` steps only occur in a [`RelPath`].
#[derive(Debug, PartialEq, Eq)]
pub struct AbsPath {
    pub volume: String,
    pub segments: Vec<String>,
}

impl View for AbsPath {
    type V = AbsPathV;

    open spec fn view(&self) -> AbsPathV {
        AbsPathV { volume: self.volume@, segments: strs_view(self.segments@) }
    }
}

/// Two absolute paths admit no relative path between them when they are
/// rooted on different volumes.
#[derive(Debug)]
pub struct PathDiffError {
    pub from_volume: String,
    pub to_volume: String,
}

impl View for PathDiffError {
    type V = (Seq<char>, Seq<char>);

    open spec fn view(&self) -> (Seq<char>, Seq<char>) {
        (self.from_volume@, self.to_volume@)
    }
}

impl Clone for PathSeg {
    fn clone(&self) -> (r: Self)
        ensures
            r@ == self@,
    {
        match self {
            PathSeg::Up => PathSeg::Up,
            PathSeg::Cur => PathSeg::Cur,
            PathSeg::Name(s) => PathSeg::Name(s.clone()),
        }
    }
}

impl Clone for RelPath {
    fn clone(&self) -> (r: Self)
        ensures
            r@ == self@,
    {
        RelPath { segments: clone_segs(&self.segments) }
    }
}

impl Clone for AbsPath {
    fn clone(&self) -> (r: Self)
        ensures
            r@ == self@,
    {
        AbsPath { volume: self.volume.clone(), segments: clone_strings(&self.segments) }
    }
}

/// Clones a vector of strings, keeping its spec-level contents.
pub fn clone_strings(v: &Vec<String>) -> (r: Vec<String>)
    ensures
        strs_view(r@) == strs_view(v@),
{
    let mut r: Vec<String> = Vec::new();
    let mut i: usize = 0;
    proof {
        assert(strs_view(r@) =~= strs_view(v@).take(0));
    }
    while i < v.len()
        invariant
            i <= v.len(),
            strs_view(r@) == strs_view(v@).take(i as int),
        decreases v.len() - i,
    {
        let ghost pre = r@;
        r.push(v[i].clone());
        proof {
            lemma_strs_view_push(pre, v@[i as int]);
            assert(strs_view(v@)[i as int] == v@[i as int]@);
            assert(strs_view(v@).take(i + 1) =~= strs_view(v@).take(i as int).push(
                strs_view(v@)[i as int],
            ));
        }
        i = i + 1;
    }
    proof {
        assert(strs_view(v@).take(v@.len() as int) =~= strs_view(v@));
    }
    r
}

/// Clones a vector of path segments, keeping its spec-level contents.
pub fn clone_segs(v: &Vec<PathSeg>) -> (r: Vec<PathSeg>)
    ensures
        segs_view(r@) == segs_view(v@),
{
    let mut r: Vec<PathSeg> = Vec::new();
    let mut i: usize = 0;
    proof {
        assert(segs_view(r@) =~= segs_view(v@).take(0));
    }
    while i < v.len()
        invariant
            i <= v.len(),
            segs_view(r@) == segs_view(v@).take(i as int),
        decreases v.len() - i,
    {
        let ghost pre = r@;
        let s = v[i].clone();
        r.push(s);
        proof {
            lemma_segs_view_push(pre, v@[i as int]);
            assert(segs_view(v@)[i as int] == v@[i as int]@);
            assert(segs_view(v@).take(i + 1) =~= segs_view(v@).take(i as int).push(
                segs_view(v@)[i as int],
            ));
        }
        i = i + 1;
    }
    proof {
        assert(segs_view(v@).take(v@.len() as int) =~= segs_view(v@));
    }
    r
}

/// The segments obtained by resolving the relative steps `rel` against the
/// absolute segments `base`: `..` drops the last segment (at the root it
/// stays at the root), `.` changes nothing, and a name is appended.
pub open spec fn join_segs(base: Seq<Seq<char>>, rel: Seq<SegV>) -> Seq<Seq<char>>
    decreases rel.len(),
{
    if rel.len() == 0 {
        base
    } else {
        match rel[0] {
            SegV::Up => join_segs(
                if base.len() == 0 {
                    base
                } else {
                    base.drop_last()
                },
                rel.skip(1),
            ),
            SegV::Cur => join_segs(base, rel.skip(1)),
            SegV::Name(s) => join_segs(base.push(s), rel.skip(1)),
        }
    }
}

/// The absolute path obtained by resolving `rel` against `base`.
pub open spec fn spec_join(base: AbsPathV, rel: Seq<SegV>) -> AbsPathV {
    AbsPathV { volume: base.volume, segments: join_segs(base.segments, rel) }
}

/// Resolves a relative path against an absolute base, normalizing `.` and
/// `..` steps, with no filesystem access.
pub fn join(base: &AbsPath, rel: &RelPath) -> (r: AbsPath)
    ensures
        r@ == spec_join(base@, rel@),
{
    let mut segments = clone_strings(&base.segments);
    let mut i: usize = 0;
    proof {
        assert(rel@.skip(0) =~= rel@);
    }
    while i < rel.segments.len()
        invariant
            i <= rel.segments.len(),
            join_segs(strs_view(segments@), rel@.skip(i as int)) == join_segs(
                base@.segments,
                rel@,
            ),
        decreases rel.segments.len() - i,
    {
        proof {
            assert(rel@.skip(i as int)[0] == rel@[i as int]);
            assert(rel@[i as int] == rel.segments@[i as int]@);
            assert(rel@.skip(i as int).skip(1) =~= rel@.skip(i as int + 1));
        }
        let ghost pre = segments@;
        match &rel.segments[i] {
            PathSeg::Up => {
                if segments.len() > 0 {
                    segments.pop();
                    proof {
                        assert(strs_view(segments@) =~= strs_view(pre).drop_last());
                    }
                }
            },
            PathSeg::Cur => {},
            PathSeg::Name(s) => {
                let owned = s.clone();
                segments.push(owned);
                proof {
                    lemma_strs_view_push(pre, pre.push(segments@[pre.len() as int])[pre.len() as int]);
                    assert(strs_view(segments@) =~= strs_view(pre).push(s@));
                }
            },
        }
        i = i + 1;
    }
    proof {
        assert(rel@.skip(rel.segments@.len() as int) =~= Seq::<SegV>::empty());
    }
    AbsPath { volume: base.volume.clone(), segments }
}

/// The length of the longest common prefix of two segment sequences.
pub open spec fn common_len(a: Seq<Seq<char>>, b: Seq<Seq<char>>) -> nat
    decreases a.len(),
{
    if a.len() == 0 || b.len() == 0 || a[0] != b[0] {
        0
    } else {
        1 + common_len(a.skip(1), b.skip(1))
    }
}

/// The common prefix is no longer than either sequence and is a prefix of
/// both.
pub proof fn lemma_common_len_bounds(a: Seq<Seq<char>>, b: Seq<Seq<char>>)
    ensures
        common_len(a, b) <= a.len(),
        common_len(a, b) <= b.len(),
        a.take(common_len(a, b) as int) == b.take(common_len(a, b) as int),
    decreases a.len(),
{
    let cl = common_len(a, b);
    if a.len() == 0 || b.len() == 0 || a[0] != b[0] {
        assert(a.take(0) =~= b.take(0));
    } else {
        lemma_common_len_bounds(a.skip(1), b.skip(1));
        let sub = common_len(a.skip(1), b.skip(1));
        assert(a.take(cl as int) =~= b.take(cl as int)) by {
            assert forall|m: int| 0 <= m < cl implies a[m] == b[m] by {
                if m > 0 {
                    assert(a.skip(1).take(sub as int)[m - 1] == b.skip(1).take(sub as int)[m - 1]);
                }
            }
        }
    }
}

/// A sequence of `n` steps up to the parent directory.
pub open spec fn ups(n: nat) -> Seq<SegV> {
    Seq::new(n, |i: int| SegV::Up)
}

/// The given names as relative path steps down.
pub open spec fn names(segs: Seq<Seq<char>>) -> Seq<SegV> {
    segs.map_values(|s: Seq<char>| SegV::Name(s))
}

/// The relative steps leading from the directory `from` to the target `to`,
/// both given as absolute segments on one volume: up out of every segment of
/// `from` past the common prefix, then down the remaining segments of `to`.
pub open spec fn rel_segs(from: Seq<Seq<char>>, to: Seq<Seq<char>>) -> Seq<SegV> {
    ups((from.len() - common_len(from, to)) as nat) + names(to.skip(common_len(from, to) as int))
}

/// The relative path from `from` to `to`, or the two volumes when they admit
/// none.
pub open spec fn spec_relative_between(from: AbsPathV, to: AbsPathV) -> Result<
    Seq<SegV>,
    (Seq<char>, Seq<char>),
> {
    if from.volume != to.volume {
        Err((from.volume, to.volume))
    } else {
        Ok(rel_segs(from.segments, to.segments))
    }
}

/// Computes the relative path that leads from the absolute directory `from`
/// to the absolute target `to`, reporting an error when the two paths are
/// rooted on different volumes and so admit no relative expression.
pub fn relative_between(from: &AbsPath, to: &AbsPath) -> (r: Result<RelPath, PathDiffError>)
    ensures
        match r {
            Ok(rel) => spec_relative_between(from@, to@) == Ok::<
                Seq<SegV>,
                (Seq<char>, Seq<char>),
            >(rel@),
            Err(e) => spec_relative_between(from@, to@) == Err::<
                Seq<SegV>,
                (Seq<char>, Seq<char>),
            >(e@),
        },
{
    if !(from.volume == to.volume) {
        return Err(
            PathDiffError { from_volume: from.volume.clone(), to_volume: to.volume.clone() },
        );
    }
    let k = common_prefix_len(&from.segments, &to.segments);
    proof {
        lemma_common_len_bounds(from@.segments, to@.segments);
    }
    let mut segments: Vec<PathSeg> = Vec::new();
    let mut i: usize = k;
    proof {
        assert(segs_view(segments@) =~= ups(0));
    }
    while i < from.segments.len()
        invariant
            k <= i <= from.segments.len(),
            segs_view(segments@) == ups((i - k) as nat),
        decreases from.segments.len() - i,
    {
        let ghost pre = segments@;
        segments.push(PathSeg::Up);
        proof {
            lemma_segs_view_push(pre, PathSeg::Up);
            assert(segs_view(segments@) =~= ups((i + 1 - k) as nat));
        }
        i = i + 1;
    }
    let ghost nups = (from.segments@.len() - k) as nat;
    let mut j: usize = k;
    proof {
        assert(names(to@.segments.subrange(k as int, k as int)) =~= Seq::<SegV>::empty());
        assert(segs_view(segments@) =~= ups(nups) + names(
            to@.segments.subrange(k as int, k as int),
        ));
    }
    while j < to.segments.len()
        invariant
            k <= j <= to.segments.len(),
            k <= from.segments@.len(),
            nups == (from.segments@.len() - k) as nat,
            segs_view(segments@) == ups(nups) + names(to@.segments.subrange(k as int, j as int)),
        decreases to.segments.len() - j,
    {
        let ghost pre = segments@;
        let owned = to.segments[j].clone();
        segments.push(PathSeg::Name(owned));
        proof {
            lemma_segs_view_push(pre, PathSeg::Name(to.segments@[j as int]));
            assert(to@.segments[j as int] == to.segments@[j as int]@);
            assert(names(to@.segments.subrange(k as int, j + 1))
                =~= names(to@.segments.subrange(k as int, j as int)).push(
                SegV::Name(to@.segments[j as int]),
            ));
            assert(segs_view(segments@) =~= ups(nups) + names(
                to@.segments.subrange(k as int, j + 1),
            ));
        }
        j = j + 1;
    }
    proof {
        assert(to@.segments.subrange(k as int, to@.segments.len() as int) =~= to@.segments.skip(
            k as int,
        ));
        assert(segs_view(segments@) == rel_segs(from@.segments, to@.segments));
    }
    Ok(RelPath { segments })
}

/// Computes the length of the longest common prefix of two segment vectors.
fn common_prefix_len(a: &Vec<String>, b: &Vec<String>) -> (k: usize)
    ensures
        k == common_len(strs_view(a@), strs_view(b@)),
{
    let ghost av = strs_view(a@);
    let ghost bv = strs_view(b@);
    let mut i: usize = 0;
    proof {
        assert(av.skip(0) =~= av);
        assert(bv.skip(0) =~= bv);
    }
    while i < a.len() && i < b.len() && a[i] == b[i]
        invariant
            i <= a.len(),
            i <= b.len(),
            av == strs_view(a@),
            bv == strs_view(b@),
            av.len() == a@.len(),
            bv.len() == b@.len(),
            common_len(av, bv) == i + common_len(av.skip(i as int), bv.skip(i as int)),
        decreases a.len() - i,
    {
        proof {
            assert(av.skip(i as int)[0] == av[i as int]);
            assert(bv.skip(i as int)[0] == bv[i as int]);
            assert(av[i as int] == a@[i as int]@);
            assert(bv[i as int] == b@[i as int]@);
            assert(av.skip(i as int).skip(1) =~= av.skip(i as int + 1));
            assert(bv.skip(i as int).skip(1) =~= bv.skip(i as int + 1));
        }
        i = i + 1;
    }
    proof {
        let asub = av.skip(i as int);
        let bsub = bv.skip(i as int);
        if i < a.len() && i < b.len() {
            assert(a@[i as int]@ != b@[i as int]@);
            assert(asub[0] == av[i as int]);
            assert(bsub[0] == bv[i as int]);
        }
        assert(common_len(asub, bsub) == 0);
    }
    i
}

/// The up-steps of a relative path climb out of the trailing segments of the
/// base they are resolved against.
proof fn lemma_join_ups(base: Seq<Seq<char>>, n: nat, rest: Seq<SegV>)
    requires
        n <= base.len(),
    ensures
        join_segs(base, ups(n) + rest) == join_segs(base.take(base.len() - n), rest),
    decreases n,
{
    if n == 0 {
        assert(ups(0) + rest =~= rest);
        assert(base.take(base.len() - 0) =~= base);
    } else {
        let stepped = ups(n) + rest;
        assert(stepped[0] == SegV::Up);
        assert(stepped.skip(1) =~= ups((n - 1) as nat) + rest);
        assert(base.len() > 0);
        lemma_join_ups(base.drop_last(), (n - 1) as nat, rest);
        assert(base.drop_last().take(base.drop_last().len() - (n - 1)) =~= base.take(
            base.len() - n,
        ));
    }
}

/// Name steps resolved against a base simply extend it.
proof fn lemma_join_names(base: Seq<Seq<char>>, segs: Seq<Seq<char>>)
    ensures
        join_segs(base, names(segs)) == base + segs,
    decreases segs.len(),
{
    if segs.len() == 0 {
        assert(names(segs) =~= Seq::<SegV>::empty());
        assert(base + segs =~= base);
    } else {
        assert(names(segs)[0] == SegV::Name(segs[0]));
        assert(names(segs).skip(1) =~= names(segs.skip(1)));
        lemma_join_names(base.push(segs[0]), segs.skip(1));
        assert(base.push(segs[0]) + segs.skip(1) =~= base + segs);
    }
}

/// Round trip of the path algebra: resolving, against an absolute directory
/// `from`, the relative path computed from `from` to an absolute target `to`
/// on the same volume lands exactly at `to`.
pub proof fn lemma_join_relative_round_trip(from: AbsPathV, to: AbsPathV)
    requires
        from.volume == to.volume,
    ensures
        spec_relative_between(from, to) == Ok::<Seq<SegV>, (Seq<char>, Seq<char>)>(
            rel_segs(from.segments, to.segments),
        ),
        spec_join(from, rel_segs(from.segments, to.segments)) == to,
{
    let cl = common_len(from.segments, to.segments) as int;
    lemma_common_len_bounds(from.segments, to.segments);
    let n = (from.segments.len() - cl) as nat;
    lemma_join_ups(from.segments, n, names(to.segments.skip(cl)));
    assert(from.segments.take(from.segments.len() - n) =~= from.segments.take(cl));
    lemma_join_names(from.segments.take(cl), to.segments.skip(cl));
    assert(to.segments.take(cl) + to.segments.skip(cl) =~= to.segments);
    assert(spec_join(from, rel_segs(from.segments, to.segments)).segments == to.segments);
}

} // verus!
