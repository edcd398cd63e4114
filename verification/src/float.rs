//! Regions of a page that text has to keep clear of.
use crate::dimension::Pt;
use vstd::prelude::*;

verus! {

/// What occupies a float.
#[derive(Clone, Copy, Debug, PartialEq, Eq, Structural)]
pub enum FloatSource {
    Image,
    Shape,
    /// A floating table, with the index of the block that owns it.
    Table { owner_block_idx: usize },
}

/// The sides of a float on which text may run.
#[derive(Clone, Copy, Debug, PartialEq, Eq, Structural)]
pub enum WrapTextSide {
    BothSides,
    Left,
    Right,
    Largest,
}

/// A region of the current page that text has to keep clear of.
#[derive(Clone, Copy, Debug, PartialEq, Eq, Structural)]
pub struct ActiveFloat {
    pub page_x: Pt,
    pub page_y_start: Pt,
    pub page_y_end: Pt,
    pub width: Pt,
    pub source: FloatSource,
    /// Whether no text at all may stand beside the float.
    pub vertical_exclusion: bool,
    pub wrap_text: WrapTextSide,
}

impl ActiveFloat {
    /// Whether the float covers the height `y`.
    #[verifier::allow_in_spec]
    pub fn overlaps_y(&self, y: Pt) -> bool
        returns
            (self.page_y_start.units <= y.units && y.units < self.page_y_end.units),
    {
        self.page_y_start.units <= y.units && y.units < self.page_y_end.units
    }
}

/// The floats that reach below `y`, in order.
pub open spec fn live_floats(floats: Seq<ActiveFloat>, y: Pt) -> Seq<ActiveFloat> {
    floats.filter(|f: ActiveFloat| f.page_y_end.units > y.units)
}

/// Drop the floats that end at or above `y`.
pub fn prune_floats(floats: &mut Vec<ActiveFloat>, y: Pt)
    ensures
        final(floats)@ == live_floats(old(floats)@, y),
{
    let mut kept: Vec<ActiveFloat> = Vec::new();
    let mut i: usize = 0;
    let ghost p = |f: ActiveFloat| f.page_y_end.units > y.units;
    assert(floats@.take(0).filter(p) =~= Seq::<ActiveFloat>::empty()) by {
        reveal(Seq::filter);
    }
    while i < floats.len()
        invariant
            i <= floats@.len(),
            floats@ == old(floats)@,
            p == (|f: ActiveFloat| f.page_y_end.units > y.units),
            kept@ == floats@.take(i as int).filter(p),
        decreases floats@.len() - i,
    {
        let f = floats[i];
        proof {
            assert(floats@.take(i + 1).drop_last() =~= floats@.take(i as int));
            reveal(Seq::filter);
        }
        if f.page_y_end.units > y.units {
            kept.push(f);
        }
        i += 1;
    }
    assert(floats@.take(i as int) =~= floats@);
    *floats = kept;
}

} // verus!
