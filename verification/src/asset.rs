//! The asset-path safety layer.
//!
//! Effect files live under one asset root and are addressed by paths
//! relative to it, written in portable form: forward-slash separators,
//! carried here as UTF-8 bytes. Before anything touches the file system a
//! candidate path is validated lexically — dot segments are resolved against
//! the root, the root prefix is stripped, and the required extension is
//! forced — so a path that would escape the root or name no file is rejected
//! without ever consulting the disk. Name collisions are resolved by probing
//! numbered variants of the file stem.

use vstd::prelude::*;
use crate::codec::{serialize, spec_enc_effect, spec_ser_bounds};
use crate::gradient::{ColorGradient, GradientKey, POS_HALF};
use crate::reffect::{
    EffectView, InitLifetimeModifier, InitPosition, InitPositionCircle, InitVelocity,
    InitVelocityCircle, ParticleTexture, REffect, ShapeDimension, Spawner, TextureView,
};
use crate::value::{Rgba, Value, Vec3i, UNBOUNDED, UNIT};

verus! {

/// The portable path separator.
pub const SLASH: u8 = 47;

/// The byte that introduces a file extension or a dot segment.
pub const DOT: u8 = 46;

/// Why a candidate path was rejected.
#[derive(Clone, Copy, Debug, PartialEq, Eq, Structural)]
pub enum PathError {
    /// The input was empty.
    EmptyPath,
    /// The input names no file: it ends in a dot segment or a separator.
    NoFileName,
    /// Resolving the input against the asset root leaves the root.
    OutsideRoot,
    /// Every probed variant of the name is already taken.
    Exhausted,
    /// A texture's origin path cannot be written in portable form.
    UnportablePath,
    /// A resolved texture whose origin path is unknown: saving would embed
    /// the handle in the file, which the on-disk form never does.
    UnknownOrigin,
}

/// The byte views of a list of byte vectors.
pub open spec fn segs_view(v: Seq<Vec<u8>>) -> Seq<Seq<u8>> {
    v.map_values(|x: Vec<u8>| x@)
}

/// How many bytes the leading segment of `s` runs before a separator.
pub open spec fn spec_seg_len(s: Seq<u8>) -> int
    decreases s.len(),
{
    if s.len() == 0 || s[0] == SLASH {
        0
    } else {
        1 + spec_seg_len(s.drop_first())
    }
}

/// The leading segment runs exactly to the first separator.
pub proof fn lemma_seg_len(s: Seq<u8>)
    ensures
        0 <= spec_seg_len(s) <= s.len(),
        forall|j: int| 0 <= j < spec_seg_len(s) ==> s[j] != SLASH,
        spec_seg_len(s) < s.len() ==> s[spec_seg_len(s)] == SLASH,
    decreases s.len(),
{
    if s.len() != 0 && s[0] != SLASH {
        let t = s.drop_first();
        lemma_seg_len(t);
        assert forall|j: int| 0 <= j < spec_seg_len(s) implies s[j] != SLASH by {
            if j > 0 {
                assert(t[j - 1] != SLASH);
            }
        }
        if spec_seg_len(s) < s.len() {
            assert(s[spec_seg_len(s)] == t[spec_seg_len(t)]);
        }
    }
}

/// Any boundary with the leading-segment characterization is the leading
/// segment's length.
pub proof fn lemma_seg_len_unique(s: Seq<u8>, m: int)
    requires
        0 <= m <= s.len(),
        forall|j: int| 0 <= j < m ==> s[j] != SLASH,
        m < s.len() ==> s[m] == SLASH,
    ensures
        spec_seg_len(s) == m,
{
    lemma_seg_len(s);
    let l = spec_seg_len(s);
    if l < m {
        assert(s[l] != SLASH);
    } else if m < l {
        assert(s[m] != SLASH);
    }
}

/// The segments of a byte path: maximal runs of non-separator bytes, in
/// order. Empty runs — leading, trailing or doubled separators — contribute
/// nothing.
pub open spec fn spec_split(s: Seq<u8>) -> Seq<Seq<u8>>
    decreases s.len(),
    via spec_split_decreases
{
    if s.len() == 0 {
        Seq::empty()
    } else if s[0] == SLASH {
        spec_split(s.drop_first())
    } else {
        seq![s.take(spec_seg_len(s))] + spec_split(s.skip(spec_seg_len(s)))
    }
}

#[via_fn]
proof fn spec_split_decreases(s: Seq<u8>) {
    if s.len() != 0 && s[0] != SLASH {
        lemma_seg_len(s);
    }
}

/// Split a byte path into its segments.
pub fn split_segments(path: &Vec<u8>) -> (segs: Vec<Vec<u8>>)
    ensures
        segs_view(segs@) == spec_split(path@),
{
    let n = path.len();
    let mut segs: Vec<Vec<u8>> = Vec::new();
    let mut i: usize = 0;
    proof {
        assert(path@.skip(0) =~= path@);
        assert(segs_view(segs@) =~= Seq::<Seq<u8>>::empty());
        assert(segs_view(segs@) + spec_split(path@) =~= spec_split(path@));
    }
    while i < n
        invariant
            n == path@.len(),
            i <= n,
            spec_split(path@) == segs_view(segs@) + spec_split(path@.skip(i as int)),
        decreases n - i,
    {
        if path[i] == SLASH {
            proof {
                assert(path@.skip(i as int).drop_first() =~= path@.skip(i + 1));
            }
            i = i + 1;
        } else {
            let start = i;
            let mut j = i;
            while j < n && path[j] != SLASH
                invariant
                    n == path@.len(),
                    start <= j <= n,
                    forall|k: int| start <= k < j ==> path@[k] != SLASH,
                decreases n - j,
            {
                j = j + 1;
            }
            let seg = vstd::slice::slice_to_vec(
                vstd::slice::slice_subrange(path.as_slice(), start, j),
            );
            let ghost segspre = segs@;
            segs.push(seg);
            proof {
                let s = path@.skip(start as int);
                assert forall|k: int| 0 <= k < (j - start) implies s[k] != SLASH by {
                    assert(s[k] == path@[start + k]);
                }
                if j < n {
                    assert(s[(j - start) as int] == path@[j as int]);
                }
                lemma_seg_len_unique(s, j - start);
                assert(seg@ =~= s.take(j - start));
                assert(s.skip(j - start) =~= path@.skip(j as int));
                assert(segs_view(segs@) =~= segs_view(segspre) + seq![seg@]);
                assert(segs_view(segs@) + spec_split(path@.skip(j as int)) =~= segs_view(segspre)
                    + (seq![s.take(spec_seg_len(s))] + spec_split(s.skip(spec_seg_len(s)))));
            }
            i = j;
        }
    }
    proof {
        assert(path@.skip(n as int) =~= Seq::<u8>::empty());
        assert(segs_view(segs@) + spec_split(path@.skip(n as int)) =~= segs_view(segs@));
    }
    segs
}

/// Is this segment the "stay here" dot segment?
pub open spec fn seg_is_cur(seg: Seq<u8>) -> bool {
    seg == seq![DOT]
}

/// Is this segment the "go up" dot-dot segment?
pub open spec fn seg_is_parent(seg: Seq<u8>) -> bool {
    seg == seq![DOT, DOT]
}

/// A real name: non-empty and not a dot segment.
pub open spec fn seg_is_name(seg: Seq<u8>) -> bool {
    seg.len() > 0 && !seg_is_cur(seg) && !seg_is_parent(seg)
}

/// Resolve dot segments left to right against a base: a name descends, a
/// dot stays, a dot-dot climbs one step (and is dropped at the top, as it
/// is at a file system root).
pub open spec fn spec_dedot(base: Seq<Seq<u8>>, segs: Seq<Seq<u8>>) -> Seq<Seq<u8>>
    decreases segs.len(),
{
    if segs.len() == 0 {
        base
    } else {
        let rest = segs.drop_first();
        if seg_is_cur(segs[0]) {
            spec_dedot(base, rest)
        } else if seg_is_parent(segs[0]) {
            spec_dedot(
                if base.len() > 0 {
                    base.drop_last()
                } else {
                    base
                },
                rest,
            )
        } else {
            spec_dedot(base.push(segs[0]), rest)
        }
    }
}

/// Join segments with separators, without a leading one.
pub open spec fn spec_join(segs: Seq<Seq<u8>>) -> Seq<u8>
    decreases segs.len(),
{
    if segs.len() == 0 {
        Seq::empty()
    } else {
        segs[0] + spec_join_rest(segs.drop_first())
    }
}

/// The continuation of a join: a separator before every further segment.
pub open spec fn spec_join_rest(segs: Seq<Seq<u8>>) -> Seq<u8>
    decreases segs.len(),
{
    if segs.len() == 0 {
        Seq::empty()
    } else {
        seq![SLASH] + segs[0] + spec_join_rest(segs.drop_first())
    }
}

/// The last index where byte `b` occurs in `s`, or -1.
pub open spec fn spec_last_pos(s: Seq<u8>, b: u8) -> int
    decreases s.len(),
{
    if s.len() == 0 {
        -1
    } else if s.last() == b {
        s.len() - 1
    } else {
        spec_last_pos(s.drop_last(), b)
    }
}

/// The last occurrence is one: `b` sits there and nowhere later.
pub proof fn lemma_last_pos(s: Seq<u8>, b: u8)
    ensures
        -1 <= spec_last_pos(s, b) < s.len(),
        spec_last_pos(s, b) >= 0 ==> s[spec_last_pos(s, b)] == b,
        forall|j: int| spec_last_pos(s, b) < j < s.len() ==> s[j] != b,
    decreases s.len(),
{
    if s.len() > 0 && s.last() != b {
        lemma_last_pos(s.drop_last(), b);
        assert forall|j: int| spec_last_pos(s, b) < j < s.len() implies s[j] != b by {
            if j < s.len() - 1 {
                assert(s.drop_last()[j] != b);
            }
        }
    }
}

/// Any index with the last-occurrence characterization is the last
/// occurrence (and -1 characterizes absence).
pub proof fn lemma_last_pos_unique(s: Seq<u8>, b: u8, m: int)
    requires
        -1 <= m < s.len(),
        m >= 0 ==> s[m] == b,
        forall|j: int| m < j < s.len() ==> s[j] != b,
    ensures
        spec_last_pos(s, b) == m,
{
    lemma_last_pos(s, b);
    let l = spec_last_pos(s, b);
    if l < m {
        assert(s[m] != b);
    } else if m < l {
        assert(s[l] != b);
    }
}

/// Where the file name starts: right after the last separator.
pub open spec fn spec_filename_start(s: Seq<u8>) -> int {
    spec_last_pos(s, SLASH) + 1
}

/// Force the required extension onto the file name of `s`: keep the path
/// when the extension already matches, replace a differing extension, and
/// append one where the name has none (a name opening with its only dot
/// counts as having none).
pub open spec fn spec_force_ext(s: Seq<u8>, ext: Seq<u8>) -> Seq<u8> {
    let fs = spec_filename_start(s);
    let f = s.skip(fs);
    let d = spec_last_pos(f, DOT);
    if d > 0 && f.skip(d + 1) == ext {
        s
    } else if d > 0 {
        s.take(fs + d) + seq![DOT] + ext
    } else {
        s + seq![DOT] + ext
    }
}

/// Is the path absolute — does it open with a separator?
pub open spec fn spec_is_abs(s: Seq<u8>) -> bool {
    s.len() > 0 && s[0] == SLASH
}

/// What validation makes of a candidate path: empty input and input whose
/// last segment is no name are rejected outright; otherwise the input's dot
/// segments are resolved against the asset root (an absolute input against
/// the file system root), and the result must land strictly below the asset
/// root, whose prefix is then stripped and the required extension forced.
/// Input that resolves to the root itself names no file; input that
/// resolves elsewhere has left the root.
pub open spec fn spec_validate(path: Seq<u8>, ext: Seq<u8>, root: Seq<u8>) -> Result<
    Seq<u8>,
    PathError,
> {
    let segs = spec_split(path);
    if path.len() == 0 {
        Err(PathError::EmptyPath)
    } else if segs.len() == 0 || !seg_is_name(segs.last()) {
        Err(PathError::NoFileName)
    } else {
        let rsegs = spec_split(root);
        let abs = spec_dedot(
            if spec_is_abs(path) {
                Seq::empty()
            } else {
                rsegs
            },
            segs,
        );
        if abs.len() > rsegs.len() && abs.take(rsegs.len() as int) == rsegs {
            Ok(spec_force_ext(spec_join(abs.skip(rsegs.len() as int)), ext))
        } else if abs == rsegs {
            Err(PathError::NoFileName)
        } else {
            Err(PathError::OutsideRoot)
        }
    }
}

/// The decimal digits of a probe number (two digits at most are ever
/// needed).
pub open spec fn spec_decimal(n: int) -> Seq<u8>
    recommends
        1 <= n <= 99,
{
    if n < 10 {
        seq![(48 + n) as u8]
    } else {
        seq![(48 + n / 10) as u8, (48 + n % 10) as u8]
    }
}

/// The `i`-th probe name for a taken path: the path's stem (its file name
/// shorn of a differing or matching extension), the probe number, and the
/// required extension.
pub open spec fn spec_candidate(path: Seq<u8>, ext: Seq<u8>, i: int) -> Seq<u8> {
    let fs = spec_filename_start(path);
    let f = path.skip(fs);
    let d = spec_last_pos(f, DOT);
    let stem_end = if d > 0 {
        fs + d
    } else {
        path.len() as int
    };
    path.take(stem_end) + spec_decimal(i) + seq![DOT] + ext
}

/// Probe numbered variants from `i` up to 64, settling on the first free
/// one.
pub open spec fn spec_probe(
    path: Seq<u8>,
    ext: Seq<u8>,
    existing: Seq<Seq<u8>>,
    i: int,
) -> Result<Seq<u8>, PathError>
    decreases 65 - i,
{
    if i < 1 || i > 64 {
        Err(PathError::Exhausted)
    } else if !existing.contains(spec_candidate(path, ext, i)) {
        Ok(spec_candidate(path, ext, i))
    } else {
        spec_probe(path, ext, existing, i + 1)
    }
}

/// What unique-name generation yields: the path itself when nothing exists
/// there, otherwise the first free numbered variant of its stem, and an
/// error when all 64 are taken (or the path has no file name to number).
pub open spec fn spec_unique(path: Seq<u8>, ext: Seq<u8>, existing: Seq<Seq<u8>>) -> Result<
    Seq<u8>,
    PathError,
> {
    if !existing.contains(path) {
        Ok(path)
    } else if spec_filename_start(path) >= path.len() {
        Err(PathError::NoFileName)
    } else {
        spec_probe(path, ext, existing, 1)
    }
}

/// Byte-vector equality.
pub fn bytes_eq(a: &Vec<u8>, b: &Vec<u8>) -> (r: bool)
    ensures
        r == (a@ == b@),
{
    if a.len() != b.len() {
        return false;
    }
    let mut i: usize = 0;
    while i < a.len()
        invariant
            a@.len() == b@.len(),
            i <= a@.len(),
            forall|k: int| 0 <= k < i ==> a@[k] == b@[k],
        decreases a@.len() - i,
    {
        if a[i] != b[i] {
            return false;
        }
        i = i + 1;
    }
    proof {
        assert(a@ =~= b@);
    }
    true
}

/// Is this segment exactly "."?
fn is_cur_seg(seg: &Vec<u8>) -> (r: bool)
    ensures
        r == seg_is_cur(seg@),
{
    let r = seg.len() == 1 && seg[0] == DOT;
    proof {
        if r {
            assert(seg@ =~= seq![DOT]);
        }
    }
    r
}

/// Is this segment exactly ".."?
fn is_parent_seg(seg: &Vec<u8>) -> (r: bool)
    ensures
        r == seg_is_parent(seg@),
{
    let r = seg.len() == 2 && seg[0] == DOT && seg[1] == DOT;
    proof {
        if r {
            assert(seg@ =~= seq![DOT, DOT]);
        }
    }
    r
}

/// Resolve dot segments against a base segment stack.
pub fn dedot_segments(base: Vec<Vec<u8>>, segs: Vec<Vec<u8>>) -> (out: Vec<Vec<u8>>)
    ensures
        segs_view(out@) == spec_dedot(segs_view(base@), segs_view(segs@)),
{
    let ghost base0 = segs_view(base@);
    let ghost segs0 = segs_view(segs@);
    let mut stack = base;
    let mut rest = segs;
    while rest.len() > 0
        invariant
            spec_dedot(base0, segs0) == spec_dedot(segs_view(stack@), segs_view(rest@)),
        decreases rest@.len(),
    {
        let ghost stackpre = segs_view(stack@);
        let ghost restpre = segs_view(rest@);
        let seg = rest.remove(0);
        proof {
            assert(segs_view(rest@) =~= restpre.drop_first());
            assert(restpre[0] == seg@);
        }
        if is_cur_seg(&seg) {
            // stay
        } else if is_parent_seg(&seg) {
            if stack.len() > 0 {
                stack.pop();
                proof {
                    assert(segs_view(stack@) =~= stackpre.drop_last());
                }
            }
        } else {
            stack.push(seg);
            proof {
                assert(segs_view(stack@) =~= stackpre.push(seg@));
            }
        }
    }
    proof {
        assert(segs_view(rest@).len() == 0);
        assert(segs_view(rest@) =~= Seq::<Seq<u8>>::empty());
    }
    stack
}

/// Append the bytes of `seg` to `out`.
fn append_bytes(out: &mut Vec<u8>, seg: &Vec<u8>)
    ensures
        final(out)@ == old(out)@ + seg@,
{
    let mut i: usize = 0;
    while i < seg.len()
        invariant
            i <= seg@.len(),
            out@ == old(out)@ + seg@.take(i as int),
        decreases seg@.len() - i,
    {
        out.push(seg[i]);
        proof {
            assert(old(out)@ + seg@.take(i as int) + seq![seg@[i as int]] =~= old(out)@
                + seg@.take(i + 1));
        }
        i = i + 1;
    }
    proof {
        assert(seg@.take(seg@.len() as int) =~= seg@);
    }
}

/// Join segments with separators.
pub fn join_segments(segs: &Vec<Vec<u8>>) -> (out: Vec<u8>)
    ensures
        out@ == spec_join(segs_view(segs@)),
{
    let mut out: Vec<u8> = Vec::new();
    let n = segs.len();
    if n == 0 {
        return out;
    }
    append_bytes(&mut out, &segs[0]);
    proof {
        assert(segs_view(segs@).drop_first() =~= segs_view(segs@).skip(1));
        assert(out@ =~= Seq::<u8>::empty() + segs_view(segs@)[0]);
    }
    let mut i: usize = 1;
    while i < n
        invariant
            1 <= i <= n,
            n == segs@.len(),
            out@ + spec_join_rest(segs_view(segs@).skip(i as int)) == spec_join(segs_view(segs@)),
        decreases n - i,
    {
        let ghost outpre = out@;
        out.push(SLASH);
        append_bytes(&mut out, &segs[i]);
        proof {
            let sv = segs_view(segs@);
            assert(sv.skip(i as int).drop_first() =~= sv.skip(i + 1));
            assert(sv.skip(i as int)[0] == sv[i as int]);
            assert(out@ =~= outpre + seq![SLASH] + sv[i as int]);
            assert(out@ + spec_join_rest(sv.skip(i + 1)) =~= outpre + (seq![SLASH] + sv[i as int]
                + spec_join_rest(sv.skip(i + 1))));
        }
        i = i + 1;
    }
    proof {
        assert(segs_view(segs@).skip(n as int) =~= Seq::<Seq<u8>>::empty());
        assert(out@ + spec_join_rest(Seq::<Seq<u8>>::empty()) =~= out@);
    }
    out
}

/// The last index where `b` occurs in `v`, if any.
fn find_last(v: &Vec<u8>, b: u8) -> (r: Option<usize>)
    ensures
        match r {
            Some(i) => spec_last_pos(v@, b) == i,
            None => spec_last_pos(v@, b) == -1,
        },
{
    let mut i = v.len();
    while i > 0
        invariant
            i <= v@.len(),
            forall|k: int| i <= k < v@.len() ==> v@[k] != b,
        decreases i,
    {
        i = i - 1;
        if v[i] == b {
            proof {
                lemma_last_pos_unique(v@, b, i as int);
            }
            return Some(i);
        }
    }
    proof {
        lemma_last_pos_unique(v@, b, -1);
    }
    None
}

/// Rewrite `path` so that its file name carries exactly the required
/// extension: left alone when it already does, its differing extension
/// replaced otherwise, or the extension appended when it has none.
pub fn with_extension(path: &Vec<u8>, ext: &Vec<u8>) -> (out: Vec<u8>)
    ensures
        out@ == spec_force_ext(path@, ext@),
{
    let n = path.len();
    proof {
        lemma_last_pos(path@, SLASH);
    }
    let fs = match find_last(path, SLASH) {
        Some(i) => i + 1,
        None => 0,
    };
        let name = vstd::slice::slice_to_vec(
        vstd::slice::slice_subrange(path.as_slice(), fs, n),
    );
    proof {
        assert(name@ =~= path@.skip(fs as int));
    }
    proof {
        lemma_last_pos(name@, DOT);
    }
    let d = find_last(&name, DOT);
    let replace_at = match d {
        Some(di) => if di > 0 {
            di
        } else {
            0
        },
        None => 0,
    };
    if replace_at > 0 {
        let di = replace_at;
        let tail = vstd::slice::slice_to_vec(
            vstd::slice::slice_subrange(name.as_slice(), di + 1, name.len()),
        );
        proof {
            assert(tail@ =~= name@.skip(di + 1));
        }
        if bytes_eq(&tail, ext) {
            let out = vstd::slice::slice_to_vec(
                vstd::slice::slice_subrange(path.as_slice(), 0, n),
            );
            proof {
                assert(out@ =~= path@);
            }
            out
        } else {
            let mut out = vstd::slice::slice_to_vec(
                vstd::slice::slice_subrange(path.as_slice(), 0, fs + di),
            );
            out.push(DOT);
            append_bytes(&mut out, ext);
            proof {
                assert(out@ =~= path@.take(fs + di) + seq![DOT] + ext@);
            }
            out
        }
    } else {
        let mut out = vstd::slice::slice_to_vec(
            vstd::slice::slice_subrange(path.as_slice(), 0, n),
        );
        out.push(DOT);
        append_bytes(&mut out, ext);
        proof {
            assert(out@ =~= path@ + seq![DOT] + ext@);
        }
        out
    }
}

/// Validate a candidate save path against the asset root: resolve its dot
/// segments lexically, demand it land strictly inside the root, strip the
/// root prefix and force the required extension. Rejected paths name the
/// reason; nothing here touches the file system.
pub fn validate_path(path: &Vec<u8>, ext: &Vec<u8>, root: &Vec<u8>) -> (r: Result<
    Vec<u8>,
    PathError,
>)
    ensures
        ({
            let sv = spec_validate(path@, ext@, root@);
            match r {
                Ok(p) => sv == Ok::<Seq<u8>, PathError>(p@),
                Err(e) => sv == Err::<Seq<u8>, PathError>(e),
            }
        }),
{
    if path.len() == 0 {
        return Err(PathError::EmptyPath);
    }
    let segs = split_segments(path);
    if segs.len() == 0 {
        return Err(PathError::NoFileName);
    }
    let lastref = &segs[segs.len() - 1];
    proof {
        assert(segs_view(segs@).last() == lastref@);
    }
    if lastref.len() == 0 || is_cur_seg(lastref) || is_parent_seg(lastref) {
        return Err(PathError::NoFileName);
    }
    let base: Vec<Vec<u8>> = if path[0] == SLASH {
        Vec::new()
    } else {
        split_segments(root)
    };
    proof {
        if path@[0] == SLASH {
            assert(segs_view(base@) =~= Seq::<Seq<u8>>::empty());
        }
    }
    let abs = dedot_segments(base, segs);
    let rsegs = split_segments(root);
    let rlen = rsegs.len();
    if abs.len() >= rlen {
        let mut eq = true;
        let mut i: usize = 0;
        proof {
            assert(segs_view(abs@).take(0) =~= segs_view(rsegs@).take(0));
        }
        while i < rlen
            invariant
                i <= rlen,
                rlen == rsegs@.len(),
                rlen <= abs@.len(),
                eq == (segs_view(abs@).take(i as int) == segs_view(rsegs@).take(i as int)),
            decreases rlen - i,
        {
            let ghost eqpre = eq;
            let same = bytes_eq(&abs[i], &rsegs[i]);
            eq = eq && same;
            proof {
                let av = segs_view(abs@);
                let rv = segs_view(rsegs@);
                if eqpre && same {
                    assert(av.take(i + 1) =~= av.take(i as int).push(av[i as int]));
                    assert(rv.take(i + 1) =~= rv.take(i as int).push(rv[i as int]));
                    assert(av.take(i + 1) == rv.take(i + 1));
                } else {
                    if av.take(i + 1) == rv.take(i + 1) {
                        assert(av.take(i + 1).drop_last() =~= av.take(i as int));
                        assert(rv.take(i + 1).drop_last() =~= rv.take(i as int));
                        assert(av.take(i + 1)[i as int] == av[i as int]);
                        assert(false);
                    }
                }
            }
            i = i + 1;
        }
        proof {
            assert(segs_view(rsegs@).take(rlen as int) =~= segs_view(rsegs@));
        }
        if eq {
            if abs.len() == rlen {
                proof {
                    assert(segs_view(abs@).take(rlen as int) =~= segs_view(abs@));
                }
                return Err(PathError::NoFileName);
            }
            let mut tail = abs;
            let mut k: usize = 0;
            while k < rlen
                invariant
                    k <= rlen,
                    rlen < segs_view(tail@).len() + k,
                    rlen < spec_dedot(
                        if spec_is_abs(path@) {
                            Seq::empty()
                        } else {
                            spec_split(root@)
                        },
                        spec_split(path@),
                    ).len(),
                    segs_view(tail@) =~= spec_dedot(
                        if spec_is_abs(path@) {
                            Seq::empty()
                        } else {
                            spec_split(root@)
                        },
                        spec_split(path@),
                    ).skip(k as int),
                decreases rlen - k,
            {
                let ghost tailpre = segs_view(tail@);
                tail.remove(0);
                proof {
                    let x = spec_dedot(
                        if spec_is_abs(path@) {
                            Seq::empty()
                        } else {
                            spec_split(root@)
                        },
                        spec_split(path@),
                    );
                    assert(segs_view(tail@) =~= tailpre.drop_first());
                    assert(tailpre == x.skip(k as int));
                    assert(x.skip(k as int).drop_first() =~= x.skip(k + 1));
                }
                k = k + 1;
            }
            let joined = join_segments(&tail);
            let out = with_extension(&joined, ext);
            return Ok(out);
        }
    }
    proof {
        let sv = spec_validate(path@, ext@, root@);
        let rv = segs_view(rsegs@);
        let av = segs_view(abs@);
        if av == rv {
            assert(av.take(rv.len() as int) =~= av);
        }
    }
    Err(PathError::OutsideRoot)
}

/// A proper path segment: non-empty, with no separator inside.
pub open spec fn proper_seg(seg: Seq<u8>) -> bool {
    seg.len() > 0 && forall|j: int| 0 <= j < seg.len() ==> seg[j] != SLASH
}

/// Every listed segment is proper.
pub open spec fn proper_segs(v: Seq<Seq<u8>>) -> bool {
    forall|i: int| 0 <= i < v.len() ==> proper_seg(#[trigger] v[i])
}

/// Splitting yields only proper segments.
pub proof fn lemma_split_segments_proper(s: Seq<u8>)
    ensures
        proper_segs(spec_split(s)),
    decreases s.len(),
{
    if s.len() == 0 {
    } else if s[0] == SLASH {
        lemma_split_segments_proper(s.drop_first());
    } else {
        lemma_seg_len(s);
        lemma_split_segments_proper(s.skip(spec_seg_len(s)));
        assert forall|i: int| 0 <= i < spec_split(s).len() implies proper_seg(
            #[trigger] spec_split(s)[i],
        ) by {
            if i == 0 {
                let head = s.take(spec_seg_len(s));
                assert(spec_split(s)[0] == head);
                assert forall|j: int| 0 <= j < head.len() implies head[j] != SLASH by {
                    assert(head[j] == s[j]);
                }
            } else {
                assert(spec_split(s)[i] == spec_split(s.skip(spec_seg_len(s)))[i - 1]);
                assert(proper_seg(spec_split(s.skip(spec_seg_len(s)))[i - 1]));
            }
        }
    }
}

/// Dot-segment resolution over proper segments yields proper segments.
pub proof fn lemma_dedot_proper(base: Seq<Seq<u8>>, segs: Seq<Seq<u8>>)
    requires
        proper_segs(base),
        proper_segs(segs),
    ensures
        proper_segs(spec_dedot(base, segs)),
    decreases segs.len(),
{
    if segs.len() != 0 {
        let rest = segs.drop_first();
        assert forall|i: int| 0 <= i < rest.len() implies proper_seg(#[trigger] rest[i]) by {
            assert(rest[i] == segs[i + 1]);
        }
        if seg_is_cur(segs[0]) {
            lemma_dedot_proper(base, rest);
        } else if seg_is_parent(segs[0]) {
            let base2 = if base.len() > 0 {
                base.drop_last()
            } else {
                base
            };
            assert forall|i: int| 0 <= i < base2.len() implies proper_seg(#[trigger] base2[i]) by {
                assert(base2[i] == base[i]);
            }
            lemma_dedot_proper(base2, rest);
        } else {
            let base2 = base.push(segs[0]);
            assert forall|i: int| 0 <= i < base2.len() implies proper_seg(#[trigger] base2[i]) by {
                if i < base.len() {
                    assert(base2[i] == base[i]);
                } else {
                    assert(base2[i] == segs[0]);
                }
            }
            lemma_dedot_proper(base2, rest);
        }
    }
}

/// Whatever validation accepts is a relative path — it opens with a name,
/// not a separator — and its file name carries exactly the required
/// extension.
pub proof fn lemma_validate_ok_form(path: Seq<u8>, ext: Seq<u8>, root: Seq<u8>)
    requires
        ext.len() > 0,
        forall|i: int| 0 <= i < ext.len() ==> ext[i] != DOT && (#[trigger] ext[i]) != SLASH,
    ensures
        match spec_validate(path, ext, root) {
            Ok(p) => p.len() > ext.len() && p[0] != SLASH && p.skip(p.len() - ext.len()) == ext
                && p[p.len() - ext.len() - 1] == DOT,
            Err(_) => true,
        },
{
    let segs = spec_split(path);
    let rsegs = spec_split(root);
    if path.len() == 0 || segs.len() == 0 || !seg_is_name(segs.last()) {
    } else {
        let base = if spec_is_abs(path) {
            Seq::empty()
        } else {
            rsegs
        };
        let abs = spec_dedot(base, segs);
        if abs.len() > rsegs.len() && abs.take(rsegs.len() as int) == rsegs {
            let tail = abs.skip(rsegs.len() as int);
            let joined = spec_join(tail);
            lemma_split_segments_proper(path);
            lemma_split_segments_proper(root);
            lemma_dedot_proper(base, segs);
            assert(tail.len() >= 1);
            assert(tail[0] == abs[rsegs.len() as int]);
            assert(proper_seg(tail[0]));
            assert(tail[0].len() > 0 && tail[0][0] != SLASH);
            assert(joined == tail[0] + spec_join_rest(tail.drop_first()));
            assert(joined.len() > 0 && joined[0] == tail[0][0]);
            let p = spec_force_ext(joined, ext);
            lemma_force_ext_suffix(joined, ext);
            let fs = spec_filename_start(joined);
            lemma_last_pos(joined, SLASH);
            let f = joined.skip(fs);
            let d = spec_last_pos(f, DOT);
            lemma_last_pos(f, DOT);
            if d > 0 && f.skip(d + 1) == ext {
                assert(p[0] == joined[0]);
            } else if d > 0 {
                assert(p == joined.take(fs + d) + seq![DOT] + ext);
                assert(p[0] == joined[0]);
            } else {
                assert(p == joined + seq![DOT] + ext);
                assert(p[0] == joined[0]);
            }
            assert(spec_validate(path, ext, root) == Ok::<Seq<u8>, PathError>(p));
        }
    }
}

/// A candidate that opens by climbing two directories out of the asset root
/// and then descends into `a/b` is rejected, whatever the asset root: no
/// such path validates. The two provisos mark the genuine exceptions — a
/// root at the file system root contains every path, and a root whose own
/// single segment is `a` is re-entered by the climb.
pub proof fn lemma_validate_rejects_escape(
    path: Seq<u8>,
    ext: Seq<u8>,
    root: Seq<u8>,
    a: Seq<u8>,
    b: Seq<u8>,
)
    requires
        path.len() > 0,
        !spec_is_abs(path),
        spec_split(path) == seq![seq![DOT, DOT], seq![DOT, DOT], a, b],
        seg_is_name(a),
        seg_is_name(b),
        spec_split(root).len() >= 1,
        spec_split(root) != seq![a],
    ensures
        spec_validate(path, ext, root) is Err,
{
    let pp = seq![DOT, DOT];
    let segs = spec_split(path);
    let rsegs = spec_split(root);
    assert(seg_is_parent(pp));
    assert(!seg_is_cur(pp)) by {
        assert(pp.len() == 2);
        assert(seq![DOT].len() == 1);
    }
    assert(segs.last() == b);
    assert(segs.drop_first() =~= seq![pp, a, b]);
    assert(seq![pp, a, b].drop_first() =~= seq![a, b]);
    assert(seq![a, b].drop_first() =~= seq![b]);
    assert(seq![b].drop_first() =~= Seq::<Seq<u8>>::empty());
    let base1 = rsegs.drop_last();
    if rsegs.len() == 1 {
        assert(base1.len() == 0);
        let abs = spec_dedot(rsegs, segs);
        assert(spec_dedot(rsegs, segs) == spec_dedot(base1, seq![pp, a, b]));
        assert(spec_dedot(base1, seq![pp, a, b]) == spec_dedot(base1, seq![a, b]));
        assert(spec_dedot(base1, seq![a, b]) == spec_dedot(base1.push(a), seq![b]));
        assert(spec_dedot(base1.push(a), seq![b]) == spec_dedot(
            base1.push(a).push(b),
            Seq::<Seq<u8>>::empty(),
        ));
        assert(abs == base1.push(a).push(b));
        assert(abs.len() == 2);
        assert(abs.take(1) =~= seq![a]);
        if abs.take(rsegs.len() as int) == rsegs {
            assert(rsegs =~= seq![a]);
        }
        assert(!(abs.len() > rsegs.len() && abs.take(rsegs.len() as int) == rsegs));
        assert(abs != rsegs);
    } else {
        let base2 = base1.drop_last();
        assert(base1.len() == rsegs.len() - 1);
        assert(base2.len() == rsegs.len() - 2);
        let abs = spec_dedot(rsegs, segs);
        assert(spec_dedot(rsegs, segs) == spec_dedot(base1, seq![pp, a, b]));
        assert(spec_dedot(base1, seq![pp, a, b]) == spec_dedot(base2, seq![a, b]));
        assert(spec_dedot(base2, seq![a, b]) == spec_dedot(base2.push(a), seq![b]));
        assert(spec_dedot(base2.push(a), seq![b]) == spec_dedot(
            base2.push(a).push(b),
            Seq::<Seq<u8>>::empty(),
        ));
        assert(abs == base2.push(a).push(b));
        assert(abs.len() == rsegs.len());
        assert(!(abs.len() > rsegs.len()));
    }
}

/// Whatever validation returns as `Ok` carries the required extension: it
/// ends in a dot followed by exactly the required bytes.
pub proof fn lemma_force_ext_suffix(s: Seq<u8>, ext: Seq<u8>)
    requires
        forall|i: int| 0 <= i < ext.len() ==> ext[i] != DOT && (#[trigger] ext[i]) != SLASH,
    ensures
        ({
            let out = spec_force_ext(s, ext);
            out.len() > ext.len() && out.skip(out.len() - ext.len()) == ext && out[out.len()
                - ext.len() - 1] == DOT
        }),
{
    let fs = spec_filename_start(s);
    lemma_last_pos(s, SLASH);
    let f = s.skip(fs);
    let d = spec_last_pos(f, DOT);
    lemma_last_pos(f, DOT);
    let out = spec_force_ext(s, ext);
    if d > 0 && f.skip(d + 1) == ext {
        assert(out == s);
        assert(s.len() == fs + f.len());
        assert(f.skip(d + 1).len() == ext.len());
        assert(out.skip(out.len() - ext.len()) =~= ext) by {
            assert forall|j: int| 0 <= j < ext.len() implies out.skip(out.len() - ext.len())[j]
                == ext[j] by {
                assert(out.skip(out.len() - ext.len())[j] == s[s.len() - ext.len() + j]);
                assert(f.skip(d + 1)[j] == f[d + 1 + j]);
                assert(f[d + 1 + j] == s[fs + d + 1 + j]);
                assert(s.len() - ext.len() + j == fs + d + 1 + j);
            }
        }
        assert(out[out.len() - ext.len() - 1] == f[d]);
        assert(f[d] == DOT);
    } else if d > 0 {
        assert(out =~= s.take(fs + d) + seq![DOT] + ext);
        assert(out.skip(out.len() - ext.len()) =~= ext);
        assert(out[out.len() - ext.len() - 1] == DOT);
    } else {
        assert(out =~= s + seq![DOT] + ext);
        assert(out.skip(out.len() - ext.len()) =~= ext);
        assert(out[out.len() - ext.len() - 1] == DOT);
    }
}

/// Is `p` one of the listed paths?
pub fn contains_path(list: &Vec<Vec<u8>>, p: &Vec<u8>) -> (r: bool)
    ensures
        r == segs_view(list@).contains(p@),
{
    let mut i: usize = 0;
    while i < list.len()
        invariant
            i <= list@.len(),
            forall|k: int| 0 <= k < i ==> segs_view(list@)[k] != p@,
        decreases list@.len() - i,
    {
        if bytes_eq(&list[i], p) {
            assert(segs_view(list@)[i as int] == p@);
            return true;
        }
        i = i + 1;
    }
    proof {
        if segs_view(list@).contains(p@) {
            let w = choose|k: int| 0 <= k < segs_view(list@).len() && segs_view(list@)[k] == p@;
            assert(segs_view(list@)[w] != p@);
        }
    }
    false
}

/// Find a save path that collides with nothing: the candidate itself when
/// no file exists there, else the first of `{stem}1.{ext}` … `{stem}64.{ext}`
/// that is free. `existing` lists the paths that exist on disk where the
/// candidate points.
pub fn unique_path(path: &Vec<u8>, ext: &Vec<u8>, existing: &Vec<Vec<u8>>) -> (r: Result<
    Vec<u8>,
    PathError,
>)
    ensures
        ({
            let su = spec_unique(path@, ext@, segs_view(existing@));
            match r {
                Ok(p) => su == Ok::<Seq<u8>, PathError>(p@),
                Err(e) => su == Err::<Seq<u8>, PathError>(e),
            }
        }),
{
    let n = path.len();
    if !contains_path(existing, path) {
        let out = vstd::slice::slice_to_vec(vstd::slice::slice_subrange(path.as_slice(), 0, n));
        proof {
            assert(out@ =~= path@);
        }
        return Ok(out);
    }
    proof {
        lemma_last_pos(path@, SLASH);
    }
    let fs = match find_last(path, SLASH) {
        Some(i) => i + 1,
        None => 0,
    };
    if fs >= n {
        return Err(PathError::NoFileName);
    }
    let name = vstd::slice::slice_to_vec(vstd::slice::slice_subrange(path.as_slice(), fs, n));
    proof {
        assert(name@ =~= path@.skip(fs as int));
        lemma_last_pos(name@, DOT);
    }
    let stem_end = match find_last(&name, DOT) {
        Some(di) => if di > 0 {
            fs + di
        } else {
            n
        },
        None => n,
    };
    let mut i: usize = 1;
    while i <= 64
        invariant
            1 <= i <= 65,
            n == path@.len(),
            stem_end <= n,
            segs_view(existing@).contains(path@),
            spec_filename_start(path@) < path@.len(),
            stem_end == ({
                let d = spec_last_pos(path@.skip(spec_filename_start(path@)), DOT);
                if d > 0 {
                    spec_filename_start(path@) + d
                } else {
                    path@.len() as int
                }
            }),
            spec_probe(path@, ext@, segs_view(existing@), 1) == spec_probe(
                path@,
                ext@,
                segs_view(existing@),
                i as int,
            ),
        decreases 65 - i,
    {
        let mut cand = vstd::slice::slice_to_vec(
            vstd::slice::slice_subrange(path.as_slice(), 0, stem_end),
        );
        if i < 10 {
            cand.push(48 + (i as u8));
        } else {
            cand.push(48 + ((i / 10) as u8));
            cand.push(48 + ((i % 10) as u8));
        }
        cand.push(DOT);
        append_bytes(&mut cand, ext);
        proof {
            assert(cand@ =~= spec_candidate(path@, ext@, i as int));
        }
        if !contains_path(existing, &cand) {
            proof {
                let ev = segs_view(existing@);
                assert(ev.contains(path@));
                assert(spec_filename_start(path@) < path@.len());
                assert(!ev.contains(spec_candidate(path@, ext@, i as int)));
                assert(spec_probe(path@, ext@, ev, i as int) == Ok::<Seq<u8>, PathError>(cand@));
                assert(spec_unique(path@, ext@, ev) == Ok::<Seq<u8>, PathError>(cand@));
            }
            return Ok(cand);
        }
        i = i + 1;
    }
    Err(PathError::Exhausted)
}

/// One discovered asset file: its path relative to the asset root, the
/// resource handle once the user asked for a load, and whether the file on
/// disk still matches the in-memory state.
pub struct AssetEntry {
    pub path: Vec<u8>,
    pub handle: Option<u64>,
    pub saved: bool,
}

/// The registry of asset files found below one root for one extension.
pub struct AssetPaths {
    pub root: Vec<u8>,
    pub extension: Vec<u8>,
    pub entries: Vec<AssetEntry>,
}

/// A discovered absolute path stripped of the root prefix, when it does lie
/// below the root.
pub open spec fn spec_strip_root(root: Seq<u8>, d: Seq<u8>) -> Option<Seq<u8>> {
    if d.len() > root.len() + 1 && d.take(root.len() as int) == root && d[root.len() as int]
        == SLASH {
        Some(d.skip(root.len() + 1 as int))
    } else {
        None
    }
}

/// The root-relative paths of the discovered files, in discovery order;
/// files outside the root contribute nothing.
pub open spec fn spec_discovered(root: Seq<u8>, ds: Seq<Seq<u8>>) -> Seq<Seq<u8>>
    decreases ds.len(),
{
    if ds.len() == 0 {
        Seq::empty()
    } else {
        (match spec_strip_root(root, ds[0]) {
            Some(p) => seq![p],
            None => Seq::empty(),
        }) + spec_discovered(root, ds.drop_first())
    }
}

/// The paths the registry's entries hold, in order.
pub open spec fn entry_paths(s: Seq<AssetEntry>) -> Seq<Seq<u8>> {
    s.map_values(|e: AssetEntry| e.path@)
}

/// Does `d` start with `root` followed by a separator, with something after?
fn strip_root(root: &Vec<u8>, d: Vec<u8>) -> (r: Option<Vec<u8>>)
    ensures
        match r {
            Some(p) => spec_strip_root(root@, d@) == Some(p@),
            None => spec_strip_root(root@, d@) is None,
        },
{
    let rl = root.len();
    if d.len() <= rl {
        return None;
    }
    if d.len() - rl <= 1 {
        return None;
    }
    if d[rl] != SLASH {
        return None;
    }
    let mut i: usize = 0;
    while i < rl
        invariant
            i <= rl,
            rl == root@.len(),
            rl + 1 < d@.len(),
            forall|k: int| 0 <= k < i ==> d@[k] == root@[k],
        decreases rl - i,
    {
        if d[i] != root[i] {
            proof {
                if d@.take(rl as int) == root@ {
                    assert(d@.take(rl as int)[i as int] == d@[i as int]);
                }
            }
            return None;
        }
        i = i + 1;
    }
    proof {
        assert(d@.take(rl as int) =~= root@);
    }
    let out = vstd::slice::slice_to_vec(vstd::slice::slice_subrange(d.as_slice(), rl + 1, d.len()));
    proof {
        assert(out@ =~= d@.skip(rl + 1));
    }
    Some(out)
}

impl AssetPaths {
    /// Set the registry up from a directory scan: every discovered file that
    /// lies below the root is recorded under its root-relative path, not yet
    /// loaded, and in step with the disk.
    pub fn new(root: Vec<u8>, extension: Vec<u8>, discovered: Vec<Vec<u8>>) -> (reg: AssetPaths)
        ensures
            reg.root@ == root@,
            reg.extension@ == extension@,
            entry_paths(reg.entries@) == spec_discovered(root@, segs_view(discovered@)),
            forall|i: int|
                0 <= i < reg.entries@.len() ==> (#[trigger] reg.entries@[i]).handle is None
                    && reg.entries@[i].saved,
    {
        let ghost ds0 = segs_view(discovered@);
        let mut entries: Vec<AssetEntry> = Vec::new();
        let mut rest = discovered;
        proof {
            assert(entry_paths(entries@) =~= Seq::<Seq<u8>>::empty());
            assert(entry_paths(entries@) + spec_discovered(root@, ds0) =~= spec_discovered(
                root@,
                ds0,
            ));
        }
        while rest.len() > 0
            invariant
                spec_discovered(root@, ds0) == entry_paths(entries@) + spec_discovered(
                    root@,
                    segs_view(rest@),
                ),
                forall|i: int|
                    0 <= i < entries@.len() ==> (#[trigger] entries@[i]).handle is None
                        && entries@[i].saved,
            decreases rest@.len(),
        {
            let ghost restpre = segs_view(rest@);
            let ghost entpre = entries@;
            let d = rest.remove(0);
            proof {
                assert(segs_view(rest@) =~= restpre.drop_first());
                assert(restpre[0] == d@);
            }
            match strip_root(&root, d) {
                Some(p) => {
                    entries.push(AssetEntry { path: p, handle: None, saved: true });
                    proof {
                        assert(entry_paths(entries@) =~= entry_paths(entpre).push(
                            entries@.last().path@,
                        ));
                        assert(entry_paths(entries@) + spec_discovered(root@, segs_view(rest@))
                            =~= entry_paths(entpre) + (seq![entries@.last().path@]
                            + spec_discovered(root@, segs_view(rest@))));
                    }
                },
                None => {
                    proof {
                        assert(entry_paths(entries@) + (Seq::<Seq<u8>>::empty()
                            + spec_discovered(root@, segs_view(rest@))) =~= entry_paths(entpre)
                            + spec_discovered(root@, segs_view(rest@)));
                    }
                },
            }
        }
        proof {
            assert(segs_view(rest@) =~= Seq::<Seq<u8>>::empty());
            assert(entry_paths(entries@) + spec_discovered(root@, segs_view(rest@)) =~= entry_paths(
                entries@,
            ));
        }
        AssetPaths { root, extension, entries }
    }

    /// How many files the registry knows.
    pub fn len(&self) -> (n: usize)
        ensures
            n == self.entries@.len(),
    {
        self.entries.len()
    }

    /// The entry at index `i`.
    pub fn entry(&self, i: usize) -> (e: &AssetEntry)
        requires
            i < self.entries@.len(),
        ensures
            *e == self.entries@[i as int],
    {
        &self.entries[i]
    }

    /// Record that the user asked for a load and the handle arrived.
    pub fn set_handle(&mut self, i: usize, handle: u64)
        requires
            i < old(self).entries@.len(),
        ensures
            final(self).entries@ == old(self).entries@.update(
                i as int,
                AssetEntry {
                    path: old(self).entries@[i as int].path,
                    handle: Some(handle),
                    saved: old(self).entries@[i as int].saved,
                },
            ),
            final(self).root == old(self).root,
            final(self).extension == old(self).extension,
    {
        self.entries[i].handle = Some(handle);
        proof {
            assert(self.entries@ =~= old(self).entries@.update(
                i as int,
                AssetEntry {
                    path: old(self).entries@[i as int].path,
                    handle: Some(handle),
                    saved: old(self).entries@[i as int].saved,
                },
            ));
        }
    }

    /// Record whether the file on disk matches the in-memory state: edits
    /// flip this off, a completed save flips it back on.
    pub fn set_saved(&mut self, i: usize, saved: bool)
        requires
            i < old(self).entries@.len(),
        ensures
            final(self).entries@ == old(self).entries@.update(
                i as int,
                AssetEntry {
                    path: old(self).entries@[i as int].path,
                    handle: old(self).entries@[i as int].handle,
                    saved,
                },
            ),
            final(self).root == old(self).root,
            final(self).extension == old(self).extension,
    {
        self.entries[i].saved = saved;
        proof {
            assert(self.entries@ =~= old(self).entries@.update(
                i as int,
                AssetEntry {
                    path: old(self).entries@[i as int].path,
                    handle: old(self).entries@[i as int].handle,
                    saved,
                },
            ));
        }
    }
}

/// In portable form — forward-slash separators, plain name segments, ASCII
/// bytes with no backslash or drive colon (which another platform's path
/// syntax would reinterpret), no opening or closing separator. Serialized
/// assets carry texture paths only in this form.
pub open spec fn spec_portable_form(s: Seq<u8>) -> bool {
    &&& s.len() > 0
    &&& s[0] != SLASH
    &&& s.last() != SLASH
    &&& forall|i: int| 0 <= i < s.len() ==> s[i] < 128 && (#[trigger] s[i]) != 92 && s[i] != 58
    &&& forall|i: int| 0 <= i < s.len() - 1 ==> !((#[trigger] s[i]) == SLASH && s[i + 1] == SLASH)
    &&& forall|i: int|
        0 <= i < spec_split(s).len() ==> seg_is_name(#[trigger] spec_split(s)[i])
}

/// Re-encode a path in portable form, as serialized assets carry it.
///
/// Relies on `relative_path::RelativePathBuf::from_path` and `into_string`:
/// the native path's components are rebuilt joined by single forward
/// slashes, so whatever comes back never opens or closes with a separator
/// and never doubles one; a path that already is a plain relative portable
/// path comes back unchanged on every platform, and an absolute path is
/// refused.
#[verifier::external_body]
fn portable_path(p: &Vec<u8>) -> (r: Option<Vec<u8>>)
    ensures
        spec_portable_form(p@) ==> match r {
            Some(q) => q@ == p@,
            None => false,
        },
        spec_is_abs(p@) ==> r is None,
        match r {
            Some(q) => q@.len() == 0 || (q@[0] != SLASH && q@[q@.len() - 1] != SLASH && forall|
                i: int,
            | 0 <= i < q@.len() - 1 ==> !((#[trigger] q@[i]) == SLASH && q@[i + 1] == SLASH)),
            None => true,
        },
{
    match core::str::from_utf8(p.as_slice()) {
        Ok(s) => relative_path::RelativePathBuf::from_path(s).ok().map(
            |rp| rp.into_string().into_bytes(),
        ),
        Err(_) => None,
    }
}

/// Re-encode a texture path for serialization, through the portable-path
/// collaborator.
pub fn to_portable(p: &Vec<u8>) -> (r: Option<Vec<u8>>)
    ensures
        spec_portable_form(p@) ==> match r {
            Some(q) => q@ == p@,
            None => false,
        },
        spec_is_abs(p@) ==> r is None,
        match r {
            Some(q) => q@.len() == 0 || (q@[0] != SLASH && q@[q@.len() - 1] != SLASH && forall|
                i: int,
            | 0 <= i < q@.len() - 1 ==> !((#[trigger] q@[i]) == SLASH && q@[i + 1] == SLASH)),
            None => true,
        },
{
    portable_path(p)
}

/// What the path editor does when its field settles: the entered text is
/// validated against the root, a valid revision replaces the path, and an
/// invalid one leaves the previous path standing (the editor restores its
/// backup and logs the reason).
pub fn commit_path_edit(path: &mut Vec<u8>, entered: &Vec<u8>, ext: &Vec<u8>, root: &Vec<u8>) -> (r:
    Result<(), PathError>)
    ensures
        match spec_validate(entered@, ext@, root@) {
            Ok(p) => r is Ok && final(path)@ == p,
            Err(e) => r == Err::<(), PathError>(e) && final(path)@ == old(path)@,
        },
{
    match validate_path(entered, ext, root) {
        Ok(p) => {
            *path = p;
            Ok(())
        },
        Err(e) => Err(e),
    }
}

/// Prepare an effect for its background save: a resolved texture handle is
/// rewritten to the portable form of its origin path (handed in by the
/// resource collaborator), the definition is serialized, and the file's
/// full path below the root is joined. The caller hands the bytes and the
/// path to the background writer; nothing here touches the disk.
///
/// The bytes handed out never embed a resolved handle: a resolved texture
/// whose origin path the collaborator does not know is an error, never a
/// handle written to disk.
#[verifier::rlimit(60)]
pub fn save_effect(effect: &REffect, origin: Option<&Vec<u8>>, root: &Vec<u8>, path: &Vec<u8>) -> (r:
    Result<(Vec<u8>, Vec<u8>), PathError>)
    requires
        effect.wf(),
        spec_ser_bounds(effect@),
    ensures
        ({
            let v = effect@;
            match (v.render_particle_texture, origin) {
                (TextureView::Texture(h), Some(p)) => {
                    &&& (spec_portable_form(p@) && p@.len() <= u32::MAX ==> (match r {
                        Ok(t) => t.0@ == root@ + seq![SLASH] + path@ && t.1@ == spec_enc_effect(
                            EffectView {
                                render_particle_texture: TextureView::Path(p@),
                                ..v
                            },
                        ),
                        Err(_) => false,
                    }))
                    &&& (match r {
                        Ok(t) => t.0@ == root@ + seq![SLASH] + path@ && exists|q: Seq<u8>|
                            q.len() <= u32::MAX && (q.len() == 0 || q[0] != SLASH) && t.1@
                                == #[trigger] spec_enc_effect(
                                EffectView {
                                    render_particle_texture: TextureView::Path(q),
                                    ..v
                                },
                            ),
                        Err(e) => e == PathError::UnportablePath,
                    })
                },
                (TextureView::Texture(h), None) => match r {
                    Ok(_) => false,
                    Err(e) => e == PathError::UnknownOrigin,
                },
                _ => match r {
                    Ok(t) => t.0@ == root@ + seq![SLASH] + path@ && t.1@ == spec_enc_effect(v),
                    Err(_) => false,
                },
            }
        }),
        match r {
            Ok(t) => exists|w: EffectView|
                t.1@ == #[trigger] spec_enc_effect(w) && !(w.render_particle_texture is Texture),
            Err(_) => true,
        },
{
    let mut full = vstd::slice::slice_to_vec(vstd::slice::slice_subrange(
        root.as_slice(),
        0,
        root.len(),
    ));
    full.push(SLASH);
    append_bytes(&mut full, path);
    proof {
        assert(full@ =~= root@ + seq![SLASH] + path@);
    }
    let is_resolved = matches!(&effect.render_particle_texture, ParticleTexture::Texture(_));
    if is_resolved {
        let p = match origin {
            Some(p) => p,
            None => {
                return Err(PathError::UnknownOrigin);
            },
        };
        match to_portable(p) {
            Some(q) => {
                if q.len() > 4294967295 {
                    return Err(PathError::UnportablePath);
                }
                let ghost qv = q@;
                let rewritten = effect.with_texture(ParticleTexture::Path(q));
                let bytes = serialize(&rewritten);
                proof {
                    let w = EffectView {
                        render_particle_texture: TextureView::Path(qv),
                        ..effect@
                    };
                    assert(qv.len() <= u32::MAX && (qv.len() == 0 || qv[0] != SLASH) && bytes@
                        == spec_enc_effect(w));
                }
                return Ok((full, bytes));
            },
            None => {
                return Err(PathError::UnportablePath);
            },
        }
    }
    let bytes = serialize(effect);
    proof {
        assert(bytes@ == spec_enc_effect(effect@) && !(effect@.render_particle_texture
            is Texture));
    }
    Ok((full, bytes))
}

/// The demonstration effect the editor seeds a fresh scene with: a burst of
/// particles off a flat circle, rising in a ring, fading over five seconds,
/// textured by the given image handle.
pub fn spawn_circle(texture: u64) -> (e: REffect)
    ensures
        e.name@ =~= seq![100u8, 101u8, 102u8, 97u8, 117u8, 108u8, 116u8],
        e.capacity == 32768,
        e.spawner == (Spawner {
            num_particles: Value::Single(32),
            spawn_time: Value::Single(0),
            period: Value::Single(UNBOUNDED),
            starts_active: true,
            starts_immediately: true,
        }),
        e.init_position == InitPosition::Circle(
            InitPositionCircle {
                center: Vec3i { x: 0, y: 6554, z: 0 },
                axis: Vec3i { x: 0, y: UNIT as i32, z: 0 },
                radius: 26214,
                dimension: ShapeDimension::Surface,
            },
        ),
        e.init_velocity == Some(
            InitVelocity::Circle(
                InitVelocityCircle {
                    center: Vec3i { x: 0, y: 0, z: 0 },
                    axis: Vec3i { x: 0, y: UNIT as i32, z: 0 },
                    speed: Value::Uniform(UNIT, 98304),
                },
            ),
        ),
        e.init_lifetime == Some(InitLifetimeModifier { lifetime: Value::Single(327680) }),
        e@.render_particle_texture == TextureView::Texture(texture),
        e@.render_color_over_lifetime == Some(
            seq![
                GradientKey {
                    pos: POS_HALF,
                    value: Rgba { r: 65535, g: 65535, b: 65535, a: 65535 },
                },
            ],
        ),
        e.init_size is None,
        e.init_age is None,
        e.update_accel is None,
        e.update_force_field is None,
        e.update_linear_drag is None,
        e.update_aabb_kill is None,
        e.render_set_color is None,
        e.render_set_size is None,
        e.render_size_over_lifetime is None,
        !e.render_billboard,
        e.render_orient_along_velocity is None,
        e.wf(),
{
    let mut e = REffect::default();
    e.name = vec![100u8, 101u8, 102u8, 97u8, 117u8, 108u8, 116u8];
    e.capacity = 32768;
    e.spawner = Spawner::once(Value::Single(32), true);
    e.init_position = InitPosition::Circle(
        InitPositionCircle {
            center: Vec3i { x: 0, y: 6554, z: 0 },
            axis: Vec3i { x: 0, y: UNIT as i32, z: 0 },
            radius: 26214,
            dimension: ShapeDimension::Surface,
        },
    );
    e.init_velocity = Some(
        InitVelocity::Circle(
            InitVelocityCircle {
                center: Vec3i { x: 0, y: 0, z: 0 },
                axis: Vec3i { x: 0, y: UNIT as i32, z: 0 },
                speed: Value::Uniform(UNIT, 98304),
            },
        ),
    );
    e.init_lifetime = Some(InitLifetimeModifier { lifetime: Value::Single(327680) });
    e.render_particle_texture = ParticleTexture::Texture(texture);
    e.render_color_over_lifetime = Some(ColorGradient::default());
    e
}

} // verus!
