//! Ordered keyframe gradients: color-over-lifetime and size-over-lifetime.
//!
//! A gradient maps normalized particle lifetime — positions from 0 to
//! [`POS_ONE`] in fixed point — to a value. It always holds at least one key.
//! While a key handle is being dragged its position moves freely (clamped to
//! the strip), and only when the drag is released are the keys sorted back
//! into non-decreasing position order; the sort is stable, so keys that share
//! a position keep their relative order.

use vstd::prelude::*;
use crate::value::{Rgba, Size2};

verus! {

/// The right edge of the strip: the fixed-point position standing for 1.0.
pub const POS_ONE: u32 = 65536;

/// The middle of the strip, where a fresh gradient's seed key sits.
pub const POS_HALF: u32 = 32768;

/// One keyframe: a position on the strip and the value the gradient takes
/// there.
#[derive(Clone, Copy, Debug, PartialEq, Eq)]
pub struct GradientKey<V> {
    pub pos: u32,
    pub value: V,
}

/// An ordered keyframe sequence. The keys are reachable only through methods
/// that keep at least one key alive and every position on the strip.
#[derive(Clone, Debug)]
pub struct Gradient<V> {
    keys: Vec<GradientKey<V>>,
}

/// A gradient over colors.
pub type ColorGradient = Gradient<Rgba>;

/// A gradient over particle sizes.
pub type SizeGradient = Gradient<Size2>;

impl<V> View for Gradient<V> {
    type V = Seq<GradientKey<V>>;

    closed spec fn view(&self) -> Seq<GradientKey<V>> {
        self.keys@
    }
}

/// What one key's draggable handle reported for the current frame.
#[derive(Clone, Copy, Debug, PartialEq, Eq, Structural)]
pub enum KeyInteraction {
    /// Nothing happened on this handle.
    Idle,
    /// The handle was clicked with the secondary button: delete the key.
    Remove,
    /// The handle is being dragged; the pointer sits at this position.
    Drag(u32),
    /// A drag on this handle was released this frame.
    Release,
}

/// One segment of the rendered preview strip: how far it runs (in position
/// units) and the key value painted at its right edge. While a drag is
/// unsettled the keys may sit out of order, so a width can be negative,
/// exactly as the strip then draws it.
#[derive(Clone, Copy, Debug, PartialEq, Eq)]
pub struct StripSegment<V> {
    pub width: i32,
    pub value: V,
}

/// Everything the strip renderer needs: the color of the left edge, one
/// segment per key right of the opening zero run, and the trailing gap up to
/// the right edge, painted with the last key's value.
#[derive(Clone, Debug)]
pub struct PreviewStrip<V> {
    pub start: V,
    pub segments: Vec<StripSegment<V>>,
    pub tail: u32,
    pub tail_value: V,
}

/// Keys are in non-decreasing position order.
pub open spec fn sorted_keys<V>(s: Seq<GradientKey<V>>) -> bool {
    forall|i: int, j: int| 0 <= i < j < s.len() ==> s[i].pos <= s[j].pos
}

/// The predicate "this key sits at position `p`".
pub open spec fn at_pos<V>(p: u32) -> spec_fn(GradientKey<V>) -> bool {
    |k: GradientKey<V>| k.pos == p
}

/// The keys of `s` that sit at position `p`, in their order in `s`.
pub open spec fn keys_at<V>(s: Seq<GradientKey<V>>, p: u32) -> Seq<GradientKey<V>> {
    s.filter(at_pos(p))
}

/// `r` rearranges `s` without disturbing the relative order of keys that
/// share a position: at every position, both hold the same keys in the same
/// order.
pub open spec fn stable_reorder_of<V>(r: Seq<GradientKey<V>>, s: Seq<GradientKey<V>>) -> bool {
    forall|p: u32| #[trigger] keys_at(r, p) == keys_at(s, p)
}

/// Where one frame of handle interactions takes the key sequence, scanned
/// from the first key: the keys afterwards (before any sort), whether a key
/// was deleted, and whether a released drag asks for the sort. A deletion
/// stops the scan — later handles are not revisited that frame — but a sort
/// requested by an earlier release still happens.
pub open spec fn spec_scan<V>(
    s: Seq<GradientKey<V>>,
    acts: Seq<KeyInteraction>,
    i: int,
) -> (Seq<GradientKey<V>>, bool, bool)
    decreases acts.len() - i,
{
    if i < 0 || i >= acts.len() || i >= s.len() {
        (s, false, false)
    } else {
        match acts[i] {
            KeyInteraction::Idle => spec_scan(s, acts, i + 1),
            KeyInteraction::Remove => if s.len() > 1 {
                (s.remove(i), true, false)
            } else {
                spec_scan(s, acts, i + 1)
            },
            KeyInteraction::Drag(p) => spec_scan(
                s.update(
                    i,
                    GradientKey {
                        pos: if p <= POS_ONE { p } else { POS_ONE },
                        value: s[i].value,
                    },
                ),
                acts,
                i + 1,
            ),
            KeyInteraction::Release => {
                let rest = spec_scan(s, acts, i + 1);
                (rest.0, rest.1, true)
            },
        }
    }
}

/// The preview segments for the keys of `s`, walked left to right from
/// position `last`: each key paints a segment reaching from the previous
/// key's position to its own.
pub open spec fn spec_segments<V>(s: Seq<GradientKey<V>>, last: int) -> Seq<StripSegment<V>>
    decreases s.len(),
{
    if s.len() == 0 {
        Seq::empty()
    } else {
        seq![StripSegment { width: (s[0].pos - last) as i32, value: s[0].value }]
            + spec_segments(s.drop_first(), s[0].pos as int)
    }
}

/// How long a run of position-zero keys opens the sequence.
pub open spec fn spec_zero_run<V>(s: Seq<GradientKey<V>>) -> int
    decreases s.len(),
{
    if s.len() == 0 || s[0].pos != 0 {
        0
    } else {
        1 + spec_zero_run(s.drop_first())
    }
}

/// The key that paints the left edge of the strip: the first key when it
/// sits right of zero, otherwise the last key of the opening run at zero
/// (earlier zero keys are inert placeholders for the ramp start).
pub open spec fn spec_initial_index<V>(s: Seq<GradientKey<V>>) -> int {
    if s.len() == 0 {
        0
    } else if s[0].pos > 0 {
        0
    } else {
        spec_zero_run(s) - 1
    }
}

/// The opening zero run is exactly that: every key before it sits at zero,
/// and the key after it (if any) does not.
pub proof fn lemma_zero_run<V>(s: Seq<GradientKey<V>>)
    ensures
        0 <= spec_zero_run(s) <= s.len(),
        forall|j: int| 0 <= j < spec_zero_run(s) ==> (#[trigger] s[j]).pos == 0,
        spec_zero_run(s) < s.len() ==> s[spec_zero_run(s)].pos != 0,
    decreases s.len(),
{
    if s.len() != 0 && s[0].pos == 0 {
        let t = s.drop_first();
        lemma_zero_run(t);
        assert forall|j: int| 0 <= j < spec_zero_run(s) implies (#[trigger] s[j]).pos == 0 by {
            if j > 0 {
                assert(t[j - 1].pos == 0);
            }
        }
        if spec_zero_run(s) < s.len() {
            assert(s[spec_zero_run(s)] == t[spec_zero_run(t)]);
        }
    }
}

/// Any index with the zero-run characterization is the zero run's length.
pub proof fn lemma_zero_run_unique<V>(s: Seq<GradientKey<V>>, n: int)
    requires
        0 <= n <= s.len(),
        forall|j: int| 0 <= j < n ==> (#[trigger] s[j]).pos == 0,
        n < s.len() ==> s[n].pos != 0,
    ensures
        spec_zero_run(s) == n,
{
    lemma_zero_run(s);
    let z = spec_zero_run(s);
    if z < n {
        assert(s[z].pos == 0);
    } else if n < z {
        assert(s[n].pos == 0);
    }
}

/// The first key of the run at position 0 other than the last one are
/// placeholders; the initial index lands on a real key.
pub proof fn lemma_initial_index_in_range<V>(s: Seq<GradientKey<V>>)
    requires
        s.len() > 0,
    ensures
        0 <= spec_initial_index(s) < s.len(),
        s[0].pos > 0 ==> spec_initial_index(s) == 0,
        s[0].pos == 0 ==> s[spec_initial_index(s)].pos == 0,
        s[0].pos == 0 ==> (spec_initial_index(s) + 1 == s.len()
            || s[spec_initial_index(s) + 1].pos != 0),
        s[0].pos == 0 ==> forall|j: int|
            0 <= j <= spec_initial_index(s) ==> (#[trigger] s[j]).pos == 0,
{
    lemma_zero_run(s);
    if s[0].pos == 0 {
        lemma_zero_run(s.drop_first());
    }
}

/// Filtering keeps nothing when the predicate holds nowhere.
proof fn lemma_filter_none<A>(s: Seq<A>, pred: spec_fn(A) -> bool)
    requires
        forall|i: int| 0 <= i < s.len() ==> !pred(#[trigger] s[i]),
    ensures
        s.filter(pred) == Seq::<A>::empty(),
    decreases s.len(),
{
    reveal(Seq::filter);
    if s.len() > 0 {
        assert forall|i: int| 0 <= i < s.drop_last().len() implies !pred(
            #[trigger] s.drop_last()[i],
        ) by {
            assert(s.drop_last()[i] == s[i]);
        }
        lemma_filter_none(s.drop_last(), pred);
    }
}

/// Filtering a single element keeps it exactly when the predicate holds.
proof fn lemma_filter_one<A>(x: A, pred: spec_fn(A) -> bool)
    ensures
        pred(x) ==> seq![x].filter(pred) == seq![x],
        !pred(x) ==> seq![x].filter(pred) == Seq::<A>::empty(),
{
    reveal(Seq::filter);
    assert(seq![x].drop_last() =~= Seq::<A>::empty());
    assert(Seq::<A>::empty().filter(pred) == Seq::<A>::empty());
    if pred(x) {
        assert(seq![x].filter(pred) =~= seq![x]);
    }
}

impl Default for ColorGradient {
    /// One full-white key in the middle of the strip.
    fn default() -> (g: Self)
        ensures
            g@ =~= seq![
                GradientKey {
                    pos: POS_HALF,
                    value: Rgba { r: 65535, g: 65535, b: 65535, a: 65535 },
                },
            ],
            g.wf(),
    {
        Gradient::new(Rgba { r: 65535, g: 65535, b: 65535, a: 65535 })
    }
}

impl Default for SizeGradient {
    /// One unit-size key in the middle of the strip.
    fn default() -> (g: Self)
        ensures
            g@ =~= seq![
                GradientKey {
                    pos: POS_HALF,
                    value: Size2 { x: crate::value::UNIT, y: crate::value::UNIT },
                },
            ],
            g.wf(),
    {
        Gradient::new(Size2 { x: crate::value::UNIT, y: crate::value::UNIT })
    }
}

impl<V> Gradient<V> {
    /// A gradient never loses its last key, and every key sits on the strip.
    pub open spec fn wf(&self) -> bool {
        &&& self@.len() >= 1
        &&& forall|i: int| 0 <= i < self@.len() ==> (#[trigger] self@[i]).pos <= POS_ONE
    }

    /// A fresh gradient: one key in the middle of the strip.
    pub fn new(value: V) -> (g: Gradient<V>)
        ensures
            g@ =~= seq![GradientKey { pos: POS_HALF, value }],
            g.wf(),
    {
        let mut keys: Vec<GradientKey<V>> = Vec::new();
        keys.push(GradientKey { pos: POS_HALF, value });
        Gradient { keys }
    }

    /// Adopt a ready key sequence (a parsed one): it must already respect
    /// the gradient's shape — at least one key, every position on the strip.
    pub fn from_keys(keys: Vec<GradientKey<V>>) -> (g: Gradient<V>)
        requires
            keys@.len() >= 1,
            forall|i: int| 0 <= i < keys@.len() ==> (#[trigger] keys@[i]).pos <= POS_ONE,
        ensures
            g@ == keys@,
            g.wf(),
    {
        Gradient { keys }
    }

    /// How many keys the gradient holds.
    pub fn len(&self) -> (n: usize)
        ensures
            n == self@.len(),
    {
        self.keys.len()
    }

    /// The key at index `i`.
    pub fn key(&self, i: usize) -> (k: &GradientKey<V>)
        requires
            i < self@.len(),
        ensures
            *k == self@[i as int],
    {
        &self.keys[i]
    }

    /// Append a key at the right edge of the strip, as the "add key" control
    /// does.
    pub fn add_key(&mut self, value: V)
        requires
            old(self).wf(),
        ensures
            final(self)@ =~= old(self)@.push(GradientKey { pos: POS_ONE, value }),
            final(self).wf(),
    {
        self.keys.push(GradientKey { pos: POS_ONE, value });
    }

    /// Replace the value of the key at `i`, as its inline editor does.
    pub fn set_key_value(&mut self, i: usize, value: V)
        requires
            old(self).wf(),
            i < old(self)@.len(),
        ensures
            final(self)@ =~= old(self)@.update(
                i as int,
                GradientKey { pos: old(self)@[i as int].pos, value },
            ),
            final(self).wf(),
    {
        let pos = self.keys[i].pos;
        self.keys[i] = GradientKey { pos, value };
    }

    /// Delete the key at `i` — unless it is the last one left, in which case
    /// nothing happens: a gradient never goes empty.
    pub fn remove_key(&mut self, i: usize) -> (removed: bool)
        requires
            old(self).wf(),
            i < old(self)@.len(),
        ensures
            removed == (old(self)@.len() > 1),
            removed ==> final(self)@ =~= old(self)@.remove(i as int),
            !removed ==> final(self)@ =~= old(self)@,
            final(self).wf(),
    {
        if self.keys.len() > 1 {
            self.keys.remove(i);
            assert forall|j: int| 0 <= j < self@.len() implies (#[trigger] self@[j]).pos
                <= POS_ONE by {
                assert(self@[j] == if j < i { old(self)@[j] } else { old(self)@[j + 1] });
            }
            true
        } else {
            false
        }
    }

    /// Move the key at `i` to the pointer's position, clamped onto the
    /// strip. Dragging reorders nothing and signals nothing: the re-sort and
    /// the change signal wait for the release.
    pub fn drag_key(&mut self, i: usize, pos: u32)
        requires
            old(self).wf(),
            i < old(self)@.len(),
        ensures
            final(self)@ =~= old(self)@.update(
                i as int,
                GradientKey {
                    pos: if pos <= POS_ONE { pos } else { POS_ONE },
                    value: old(self)@[i as int].value,
                },
            ),
            final(self).wf(),
    {
        let clamped = if pos <= POS_ONE { pos } else { POS_ONE };
        self.keys[i].pos = clamped;
    }

    /// The value the strip shows at position 0: the first key's value when
    /// that key sits right of zero, otherwise the value of the last key in
    /// the opening run at zero.
    pub fn initial_value(&self) -> (v: &V)
        requires
            self.wf(),
        ensures
            *v == self@[spec_initial_index(self@)].value,
    {
        proof {
            lemma_zero_run(self@);
        }
        if self.keys[0].pos > 0 {
            &self.keys[0].value
        } else {
            let n = self.keys.len();
            let mut i: usize = 0;
            while i + 1 < n && self.keys[i + 1].pos == 0
                invariant
                    self.wf(),
                    n == self@.len(),
                    i < self@.len(),
                    forall|j: int| 0 <= j <= i ==> (#[trigger] self@[j]).pos == 0,
                decreases self@.len() - i,
            {
                i = i + 1;
            }
            proof {
                lemma_zero_run_unique(self@, i + 1);
            }
            &self.keys[i].value
        }
    }

    /// Sort the keys by position once a drag is released. The order becomes
    /// non-decreasing, and the sort is stable: keys that share a position
    /// keep the relative order they had.
    #[verifier::rlimit(60)]
    pub fn sort_keys(&mut self)
        requires
            old(self).wf(),
        ensures
            final(self)@.len() == old(self)@.len(),
            sorted_keys(final(self)@),
            stable_reorder_of(final(self)@, old(self)@),
            final(self).wf(),
    {
        let ghost orig = self.keys@;
        let mut work: Vec<GradientKey<V>> = Vec::new();
        core::mem::swap(&mut work, &mut self.keys);
        let mut out: Vec<GradientKey<V>> = Vec::new();
        proof {
            assert forall|p: u32| #[trigger] keys_at(orig, p) == keys_at(out@, p) + keys_at(
                work@,
                p,
            ) by {
                lemma_filter_none(out@, at_pos::<V>(p));
                assert(keys_at(out@, p) + keys_at(work@, p) =~= keys_at(work@, p));
            }
        }
        while work.len() > 0
            invariant
                out@.len() + work@.len() == orig.len(),
                sorted_keys(out@),
                forall|a: int, b: int|
                    0 <= a < out@.len() && 0 <= b < work@.len() ==> out@[a].pos <= work@[b].pos,
                forall|p: u32| #[trigger] keys_at(orig, p) == keys_at(out@, p) + keys_at(work@, p),
                forall|i: int| 0 <= i < out@.len() ==> (#[trigger] out@[i]).pos <= POS_ONE,
                forall|i: int| 0 <= i < work@.len() ==> (#[trigger] work@[i]).pos <= POS_ONE,
            decreases work@.len(),
        {
            // Find the first key with the least position among those left.
            let mut j: usize = 0;
            let mut i: usize = 1;
            while i < work.len()
                invariant
                    j < i <= work@.len(),
                    forall|k: int| 0 <= k < i ==> work@[j as int].pos <= (#[trigger] work@[k]).pos,
                    forall|k: int| 0 <= k < j ==> work@[j as int].pos < (#[trigger] work@[k]).pos,
                decreases work@.len() - i,
            {
                if work[i].pos < work[j].pos {
                    j = i;
                }
                i = i + 1;
            }
            let ghost wpre = work@;
            let ghost outpre = out@;
            let m = work.remove(j);
            out.push(m);
            proof {
                let ghost a = wpre.subrange(0, j as int);
                let ghost b = wpre.subrange(j + 1, wpre.len() as int);
                assert(work@ =~= a + b);
                assert(wpre =~= a + seq![m] + b);
                assert forall|p: u32| #[trigger] keys_at(orig, p) == keys_at(out@, p) + keys_at(
                    work@,
                    p,
                ) by {
                    let pr = at_pos::<V>(p);
                    Seq::filter_distributes_over_add(a + seq![m], b, pr);
                    Seq::filter_distributes_over_add(a, seq![m], pr);
                    Seq::filter_distributes_over_add(a, b, pr);
                    Seq::filter_distributes_over_add(outpre, seq![m], pr);
                    lemma_filter_one(m, pr);
                    assert(keys_at(wpre, p) == (a + seq![m] + b).filter(pr));
                    assert(keys_at(work@, p) == (a + b).filter(pr));
                    assert(out@ =~= outpre + seq![m]);
                    if p == m.pos {
                        assert forall|t: int| 0 <= t < a.len() implies !pr(#[trigger] a[t]) by {
                            assert(a[t] == wpre[t]);
                            assert(wpre[j as int].pos < wpre[t].pos);
                        }
                        lemma_filter_none(a, pr);
                        assert(keys_at(wpre, p) =~= seq![m] + b.filter(pr));
                        assert(keys_at(out@, p) =~= outpre.filter(pr) + seq![m]);
                        assert(keys_at(orig, p) =~= outpre.filter(pr) + (seq![m] + b.filter(pr)));
                        assert(keys_at(out@, p) + keys_at(work@, p) =~= outpre.filter(pr) + seq![m]
                            + a.filter(pr) + b.filter(pr));
                        assert(keys_at(out@, p) + keys_at(work@, p) =~= keys_at(orig, p));
                    } else {
                        assert(!pr(m));
                        assert(keys_at(out@, p) =~= outpre.filter(pr));
                        assert(keys_at(work@, p) =~= a.filter(pr) + b.filter(pr));
                        assert(keys_at(wpre, p) =~= a.filter(pr) + b.filter(pr));
                    }
                }
                assert forall|x: int, y: int| 0 <= x < y < out@.len() implies out@[x].pos
                    <= out@[y].pos by {
                    if y + 1 == out@.len() {
                        assert(out@[x] == outpre[x]);
                        assert(wpre[j as int].pos <= wpre[j as int].pos);
                    }
                }
                assert forall|x: int, y: int|
                    0 <= x < out@.len() && 0 <= y < work@.len() implies out@[x].pos
                    <= work@[y].pos by {
                    let w = if y < j { wpre[y] } else { wpre[y + 1] };
                    assert(work@[y] == w);
                }
            }
        }
        core::mem::swap(&mut out, &mut self.keys);
        proof {
            assert forall|p: u32| #[trigger] keys_at(self@, p) == keys_at(orig, p) by {
                lemma_filter_none(work@, at_pos::<V>(p));
                assert(keys_at(self@, p) + keys_at(work@, p) =~= keys_at(self@, p));
            }
            assert(self@.len() == orig.len());
        }
    }

    /// Run one frame of handle interactions over the keys, exactly as the
    /// strip presents them: the first deleting click wins (and never the
    /// last key), drags move keys without signalling, and a released drag
    /// triggers the stable re-sort after the scan. Reports whether the
    /// gradient changed this frame — a deletion or a settled drag.
    pub fn apply_interactions(&mut self, acts: &Vec<KeyInteraction>) -> (changed: bool)
        requires
            old(self).wf(),
            acts@.len() == old(self)@.len(),
        ensures
            ({
                let scan = spec_scan(old(self)@, acts@, 0);
                &&& changed == (scan.1 || scan.2)
                &&& scan.2 ==> sorted_keys(final(self)@) && stable_reorder_of(final(self)@, scan.0)
                    && final(self)@.len() == scan.0.len()
                &&& !scan.2 ==> final(self)@ == scan.0
            }),
            final(self).wf(),
    {
        let ghost orig = self@;
        let mut deleted = false;
        let mut sort = false;
        let mut i: usize = 0;
        let n = acts.len();
        while i < n && !deleted
            invariant
                self.wf(),
                n == acts@.len(),
                i <= n,
                !deleted ==> self@.len() == acts@.len(),
                spec_scan(orig, acts@, 0) == ({
                    let rest = if deleted {
                        (self@, true, false)
                    } else {
                        spec_scan(self@, acts@, i as int)
                    };
                    (rest.0, rest.1, rest.2 || sort)
                }),
            decreases n - i,
        {
            match *(&acts[i]) {
                KeyInteraction::Idle => {},
                KeyInteraction::Remove => {
                    deleted = self.remove_key(i);
                },
                KeyInteraction::Drag(p) => {
                    self.drag_key(i, p);
                },
                KeyInteraction::Release => {
                    sort = true;
                },
            }
            i = i + 1;
        }
        if sort {
            self.sort_keys();
        }
        deleted || sort
    }
}

impl<V: Copy> Gradient<V> {
    /// The ordered keyframes, as the runtime's interpolation-ready form
    /// takes them: the key order is preserved exactly.
    pub fn to_keyframes(&self) -> (v: Vec<GradientKey<V>>)
        ensures
            v@ == self@,
    {
        let mut v: Vec<GradientKey<V>> = Vec::new();
        let n = self.keys.len();
        let mut i: usize = 0;
        while i < n
            invariant
                i <= n,
                n == self@.len(),
                v@ =~= self@.take(i as int),
            decreases n - i,
        {
            v.push(self.keys[i]);
            proof {
                assert(self@.take(i as int).push(self@[i as int]) =~= self@.take(i + 1));
            }
            i = i + 1;
        }
        proof {
            assert(self@.take(n as int) =~= self@);
        }
        v
    }

    /// A by-value copy of the gradient.
    pub fn duplicate(&self) -> (g: Gradient<V>)
        requires
            self.wf(),
        ensures
            g@ == self@,
            g.wf(),
    {
        let keys = self.to_keyframes();
        Gradient::from_keys(keys)
    }

    /// Lay the preview strip out: the left-edge value, one segment per key
    /// right of the opening zero run, and the trailing gap to the right
    /// edge, which reuses the last key's value.
    pub fn preview(&self) -> (strip: PreviewStrip<V>)
        requires
            self.wf(),
        ensures
            strip.start == self@[spec_initial_index(self@)].value,
            strip.segments@ == spec_segments(self@.skip(spec_zero_run(self@)), 0),
            strip.tail_value == self@[self@.len() - 1].value,
            ({
                let last = if spec_zero_run(self@) == self@.len() {
                    0
                } else {
                    self@[self@.len() - 1].pos as int
                };
                strip.tail == if last < POS_ONE { POS_ONE - last } else { 0 }
            }),
    {
        let start = *self.initial_value();
        let n = self.keys.len();
        // Measure the opening run of keys at position zero.
        let mut z: usize = 0;
        while z < n && self.keys[z].pos == 0
            invariant
                self.wf(),
                n == self@.len(),
                z <= n,
                forall|j: int| 0 <= j < z ==> (#[trigger] self@[j]).pos == 0,
            decreases n - z,
        {
            z = z + 1;
        }
        proof {
            lemma_zero_run_unique(self@, z as int);
        }
        let mut segments: Vec<StripSegment<V>> = Vec::new();
        let mut last: u32 = 0;
        let mut i: usize = z;
        while i < n
            invariant
                self.wf(),
                n == self@.len(),
                z <= i <= n,
                last <= POS_ONE,
                last == if i == z {
                    0
                } else {
                    self@[i - 1].pos
                },
                segments@ + spec_segments(self@.skip(i as int), last as int) == spec_segments(
                    self@.skip(z as int),
                    0,
                ),
            decreases n - i,
        {
            let k = &self.keys[i];
            let width = k.pos as i32 - last as i32;
            let ghost segpre = segments@;
            segments.push(StripSegment { width, value: k.value });
            proof {
                assert(self@.skip(i as int).drop_first() =~= self@.skip(i + 1));
                assert(self@.skip(i as int)[0] == self@[i as int]);
                assert(segments@ =~= segpre + seq![
                    StripSegment { width: width, value: self@[i as int].value },
                ]);
                assert(segments@ + spec_segments(self@.skip(i + 1), self@[i as int].pos as int)
                    =~= segpre + spec_segments(self@.skip(i as int), last as int));
            }
            last = k.pos;
            i = i + 1;
        }
        proof {
            assert(self@.skip(n as int) =~= Seq::<GradientKey<V>>::empty());
            assert(segments@ + spec_segments(self@.skip(n as int), last as int) =~= segments@);
        }
        let tail = if last < POS_ONE {
            POS_ONE - last
        } else {
            0
        };
        let tail_value = self.keys[n - 1].value;
        PreviewStrip { start, segments, tail, tail_value }
    }
}

} // verus!
