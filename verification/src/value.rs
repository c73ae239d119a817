//! Scalar-or-range values and the edits the binding layer applies to them.
//!
//! Every numeric field of an effect is a [`Value`]: either one fixed number
//! or a uniform-distribution pair. Quantities are carried as fixed-point
//! integers ([`UNIT`] stands for one whole unit), so the editor's rules about
//! them — in range form the lower bound never exceeds the upper one — are
//! exact. The surrounding application projects these onto its widgets.

use vstd::prelude::*;

verus! {

/// One whole unit in the fixed-point scale used for continuous quantities.
pub const UNIT: u32 = 65536;

/// The greatest representable quantity; stands in for an unbounded one
/// (a spawner period that never repeats).
pub const UNBOUNDED: u32 = 4294967295;

/// A three-component vector in fixed-point units (components may be negative).
#[derive(Clone, Copy, Debug, PartialEq, Eq, Structural)]
pub struct Vec3i {
    pub x: i32,
    pub y: i32,
    pub z: i32,
}

/// A premultiplied color; each channel runs from 0 to 65535 for full.
#[derive(Clone, Copy, Debug, PartialEq, Eq, Structural)]
pub struct Rgba {
    pub r: u16,
    pub g: u16,
    pub b: u16,
    pub a: u16,
}

/// A two-component particle size in fixed-point units.
#[derive(Clone, Copy, Debug, PartialEq, Eq, Structural)]
pub struct Size2 {
    pub x: u32,
    pub y: u32,
}

/// One fixed value, or a uniform distribution between two bounds.
#[derive(Clone, Copy, Debug, PartialEq, Eq, Structural)]
pub enum Value<T> {
    Single(T),
    Uniform(T, T),
}

/// One edit the binding layer can apply to a [`Value`]: switch its form, or
/// set one of its fields.
#[derive(Clone, Copy, Debug, PartialEq, Eq)]
pub enum ValueEdit<T> {
    /// The "Single" entry of the form selector was picked.
    ChooseSingle,
    /// The "Uniform" entry of the form selector was picked.
    ChooseUniform,
    /// The single field was set to a new quantity.
    SetSingle(T),
    /// The lower bound's field was set to a new quantity.
    SetLower(T),
    /// The upper bound's field was set to a new quantity.
    SetUpper(T),
    /// The single field was asked for an unbounded quantity.
    SetUnbounded,
}

impl<T> Value<T> {
    /// How an edit rewrites a value whose payload type carries no order:
    /// switching forms duplicates or drops a bound, and the set edits
    /// overwrite one field as given, with no clamping between the bounds.
    pub open spec fn spec_apply_free(self, e: ValueEdit<T>) -> Value<T> {
        match e {
            ValueEdit::ChooseSingle => match self {
                Value::Uniform(lo, _) => Value::Single(lo),
                _ => self,
            },
            ValueEdit::ChooseUniform => match self {
                Value::Single(v) => Value::Uniform(v, v),
                _ => self,
            },
            ValueEdit::SetSingle(x) => match self {
                Value::Single(_) => Value::Single(x),
                _ => self,
            },
            ValueEdit::SetLower(x) => match self {
                Value::Uniform(_, hi) => Value::Uniform(x, hi),
                _ => self,
            },
            ValueEdit::SetUpper(x) => match self {
                Value::Uniform(lo, _) => Value::Uniform(lo, x),
                _ => self,
            },
            ValueEdit::SetUnbounded => self,
        }
    }

    /// Does the edit land on a field or selector this form presents? The
    /// widget behind such an edit reports the change itself, so this is the
    /// change signal of a free edit.
    pub open spec fn spec_free_edit_applies(self, e: ValueEdit<T>) -> bool {
        match e {
            ValueEdit::ChooseSingle => self is Uniform,
            ValueEdit::ChooseUniform => self is Single,
            ValueEdit::SetSingle(_) => self is Single,
            ValueEdit::SetLower(_) => self is Uniform,
            ValueEdit::SetUpper(_) => self is Uniform,
            ValueEdit::SetUnbounded => false,
        }
    }
}

impl<T: Copy> Value<T> {
    /// Apply an edit to a value whose bounds are not mutually constrained
    /// (colors, sizes).
    pub fn apply_free_edit(&mut self, e: ValueEdit<T>) -> (changed: bool)
        ensures
            *final(self) == old(self).spec_apply_free(e),
            changed == old(self).spec_free_edit_applies(e),
    {
        match (&*self, &e) {
            (Value::Uniform(lo, _), ValueEdit::ChooseSingle) => {
                *self = Value::Single(*lo);
                true
            },
            (Value::Single(v), ValueEdit::ChooseUniform) => {
                *self = Value::Uniform(*v, *v);
                true
            },
            (Value::Single(_), ValueEdit::SetSingle(x)) => {
                *self = Value::Single(*x);
                true
            },
            (Value::Uniform(_, hi), ValueEdit::SetLower(x)) => {
                *self = Value::Uniform(*x, *hi);
                true
            },
            (Value::Uniform(lo, _), ValueEdit::SetUpper(x)) => {
                *self = Value::Uniform(*lo, *x);
                true
            },
            _ => false,
        }
    }
}

impl Value<u32> {
    /// In range form the lower bound never exceeds the upper one.
    pub open spec fn wf(self) -> bool {
        match self {
            Value::Uniform(lo, hi) => lo <= hi,
            _ => true,
        }
    }

    /// How an edit rewrites a scalar value. Form switches behave as in
    /// [`Value::spec_apply_free`]; a bound set past the opposing bound is
    /// clamped to it, never rejected; an unbounded request turns a single
    /// quantity into [`UNBOUNDED`].
    pub open spec fn spec_apply(self, e: ValueEdit<u32>) -> Value<u32> {
        match e {
            ValueEdit::SetLower(x) => match self {
                Value::Uniform(_, hi) => Value::Uniform(if x <= hi { x } else { hi }, hi),
                _ => self,
            },
            ValueEdit::SetUpper(x) => match self {
                Value::Uniform(lo, _) => Value::Uniform(lo, if x >= lo { x } else { lo }),
                _ => self,
            },
            ValueEdit::SetUnbounded => match self {
                Value::Single(_) => Value::Single(UNBOUNDED),
                _ => self,
            },
            _ => self.spec_apply_free(e),
        }
    }

    /// Apply one edit to a scalar value, keeping the bounds ordered by
    /// clamping. The change signal is that of the drag widgets: set whenever
    /// the value actually moved.
    pub fn apply_edit(&mut self, e: ValueEdit<u32>) -> (changed: bool)
        requires
            old(self).wf(),
        ensures
            *final(self) == old(self).spec_apply(e),
            final(self).wf(),
            changed == (*final(self) != *old(self)),
    {
        match (&*self, &e) {
            (Value::Uniform(lo0, hi0), ValueEdit::SetLower(x)) => {
                let old_lo = *lo0;
                let hi = *hi0;
                let lo = if *x <= hi { *x } else { hi };
                *self = Value::Uniform(lo, hi);
                lo != old_lo
            },
            (Value::Uniform(lo0, hi0), ValueEdit::SetUpper(x)) => {
                let lo = *lo0;
                let old_hi = *hi0;
                let hi = if *x >= lo { *x } else { lo };
                *self = Value::Uniform(lo, hi);
                hi != old_hi
            },
            (Value::Single(v), ValueEdit::SetUnbounded) => {
                let moved = *v != UNBOUNDED;
                *self = Value::Single(UNBOUNDED);
                moved
            },
            (Value::Single(v), ValueEdit::SetSingle(x)) => {
                let moved = *v != *x;
                *self = Value::Single(*x);
                moved
            },
            (Value::Uniform(lo, _), ValueEdit::ChooseSingle) => {
                *self = Value::Single(*lo);
                true
            },
            (Value::Single(v), ValueEdit::ChooseUniform) => {
                *self = Value::Uniform(*v, *v);
                true
            },
            _ => false,
        }
    }
}

/// What the presence checkbox of an optional field does: ticking it seeds
/// the field with a default value, unticking destroys the value; a click
/// that matches the current presence changes nothing. The nested editor for
/// a present value runs separately.
pub fn ui_option<T>(data: &mut Option<T>, present: bool, seed: T) -> (changed: bool)
    ensures
        changed == (present != ((*old(data)) is Some)),
        present && ((*old(data)) is None) ==> *final(data) == Some(seed),
        present && ((*old(data)) is Some) ==> *final(data) == *old(data),
        !present && ((*old(data)) is Some) ==> *final(data) == None::<T>,
        !present && ((*old(data)) is None) ==> *final(data) == *old(data),
{
    if present {
        if data.is_none() {
            *data = Some(seed);
            true
        } else {
            false
        }
    } else {
        if data.is_some() {
            *data = None;
            true
        } else {
            false
        }
    }
}

/// Every edit leaves a well-formed scalar value well-formed: in range form
/// the lower bound still does not exceed the upper one. Clamping, never
/// rejection, enforces this.
pub proof fn lemma_edit_keeps_bounds_ordered(v: Value<u32>, e: ValueEdit<u32>)
    requires
        v.wf(),
    ensures
        v.spec_apply(e).wf(),
{
}

} // verus!
