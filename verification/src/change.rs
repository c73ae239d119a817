//! The "did this change" signal that every editor operation reports.
//!
//! An operation either knows only a plain boolean, or it holds the full
//! response of the widget it drove, which carries its own change bit plus
//! other interaction metadata. Call sites combine several such signals with
//! [`Change::merge`]; the combination keeps the richer representation when
//! one side has it, folding the other side's boolean into its change bit.

use vstd::prelude::*;

verus! {

/// Interaction metadata a widget reports for one frame, reduced to the bits
/// the editor reads: its own change flag, plus hover and click state.
#[derive(Clone, Copy, PartialEq, Eq, Structural, Debug)]
pub struct WidgetResponse {
    pub changed: bool,
    pub hovered: bool,
    pub clicked: bool,
}

/// A change signal: either a bare boolean, or a full widget response.
#[derive(Clone, Copy, PartialEq, Eq, Structural, Debug)]
pub enum Change {
    Change(bool),
    Response(WidgetResponse),
}

/// Pointwise union of two widget responses, as the toolkit itself combines
/// the responses of two widgets.
pub open spec fn spec_union(a: WidgetResponse, b: WidgetResponse) -> WidgetResponse {
    WidgetResponse {
        changed: a.changed || b.changed,
        hovered: a.hovered || b.hovered,
        clicked: a.clicked || b.clicked,
    }
}

/// A response with its change bit forced on when `c` holds; every other
/// field is untouched.
pub open spec fn spec_marked(r: WidgetResponse, c: bool) -> WidgetResponse {
    WidgetResponse { changed: r.changed || c, ..r }
}

impl Change {
    /// The boolean reading of a signal, whichever representation holds it.
    pub open spec fn spec_changed(&self) -> bool {
        match self {
            Change::Change(c) => *c,
            Change::Response(r) => r.changed,
        }
    }

    /// How two signals combine: booleans are or-ed; a boolean beside a
    /// response is folded into the response's change bit; two responses
    /// take their pointwise union.
    pub open spec fn spec_merge(self, rhs: Change) -> Change {
        match (self, rhs) {
            (Change::Change(c), Change::Change(d)) => Change::Change(c || d),
            (Change::Change(c), Change::Response(r)) => Change::Response(spec_marked(r, c)),
            (Change::Response(r), Change::Change(c)) => Change::Response(spec_marked(r, c)),
            (Change::Response(r), Change::Response(s)) => Change::Response(spec_union(r, s)),
        }
    }

    /// Did this signal report a change?
    pub fn changed(&self) -> (r: bool)
        ensures
            r == self.spec_changed(),
    {
        match self {
            Change::Change(c) => *c,
            Change::Response(r) => r.changed,
        }
    }

    /// Combine two signals into one.
    pub fn merge(self, rhs: Change) -> (r: Change)
        ensures
            r == self.spec_merge(rhs),
    {
        match (self, rhs) {
            (Change::Change(c), Change::Change(d)) => Change::Change(c || d),
            (Change::Change(c), Change::Response(mut r)) => {
                if c {
                    r.changed = true;
                }
                Change::Response(r)
            },
            (Change::Response(mut r), Change::Change(c)) => {
                if c {
                    r.changed = true;
                }
                Change::Response(r)
            },
            (Change::Response(r), Change::Response(s)) => {
                Change::Response(
                    WidgetResponse {
                        changed: r.changed || s.changed,
                        hovered: r.hovered || s.hovered,
                        clicked: r.clicked || s.clicked,
                    },
                )
            },
        }
    }

    /// Wrap a bare boolean.
    pub fn from_flag(b: bool) -> (r: Change)
        ensures
            r == Change::Change(b),
    {
        Change::Change(b)
    }

    /// Wrap a widget response.
    pub fn from_response(r: WidgetResponse) -> (c: Change)
        ensures
            c == Change::Response(r),
    {
        Change::Response(r)
    }
}

/// Merging never loses or invents an edit: the combined signal reads changed
/// exactly when one of the two sides does. In particular the reading is
/// independent of the order in which call sites fold their sub-results.
pub proof fn lemma_merge_changed(a: Change, b: Change)
    ensures
        a.spec_merge(b).spec_changed() == (a.spec_changed() || b.spec_changed()),
        a.spec_merge(b).spec_changed() == b.spec_merge(a).spec_changed(),
{
}

/// Folding a boolean signal into a native response only marks the response
/// as changed (when the boolean is set); no other field of the response
/// moves, and the richer representation survives.
pub proof fn lemma_merge_marks_response(c: bool, r: WidgetResponse)
    ensures
        Change::Change(c).spec_merge(Change::Response(r)) == Change::Response(spec_marked(r, c)),
        Change::Response(r).spec_merge(Change::Change(c)) == Change::Response(spec_marked(r, c)),
        spec_marked(r, c).hovered == r.hovered,
        spec_marked(r, c).clicked == r.clicked,
        spec_marked(r, c).changed == (r.changed || c),
{
}

/// Merging is commutative up to the pointwise union of responses, and fully
/// commutative whenever at most one side is a native response.
pub proof fn lemma_merge_commutes(a: Change, b: Change)
    ensures
        a.spec_merge(b).spec_changed() == b.spec_merge(a).spec_changed(),
        (a is Change || b is Change) ==> a.spec_merge(b) == b.spec_merge(a),
{
}

/// Merging is associative: call sites may fold sub-results in any grouping.
pub proof fn lemma_merge_associative(a: Change, b: Change, c: Change)
    ensures
        a.spec_merge(b).spec_merge(c) == a.spec_merge(b.spec_merge(c)),
{
}

} // verus!
