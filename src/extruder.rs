//! The extrusion axis: a motor without limit sensor, with the same tick law.
use crate::motor::{conversion_ok, fits_i32, ticks_checked, ticks_of};
use vstd::prelude::*;

verus! {

/// An extrusion drive: `ratio` in millionths of a degree per millimetre of
/// filament, `ticks_per_rev` encoder ticks per revolution.
#[derive(Clone, Copy, Debug)]
pub struct Extruder {
    pub ratio: i64,
    pub ticks_per_rev: u32,
}

impl Extruder {
    /// Ticks for a length or speed of filament.
    pub open spec fn ticks(&self, micro: int) -> int {
        ticks_of(micro, self.ratio as int, self.ticks_per_rev as int)
    }

    pub open spec fn wf(&self) -> bool {
        conversion_ok(self.ratio as int, self.ticks_per_rev as int)
    }

    /// An extruder with the given encoder resolution and ratio; `None` when
    /// either is out of range.
    pub fn new(ticks_per_rev: u32, ratio: i64) -> (r: Option<Extruder>)
        ensures
            r is Some <==> (Extruder { ratio, ticks_per_rev }).wf(),
            r is Some ==> r->0 == (Extruder { ratio, ticks_per_rev }),
    {
        if ticks_per_rev == 0 || ticks_per_rev > crate::motor::MAX_TICKS_PER_REV || ratio
            < -crate::motor::MAX_RATIO || ratio > crate::motor::MAX_RATIO {
            None
        } else {
            Some(Extruder { ratio, ticks_per_rev })
        }
    }

    /// Ticks for `measure` millionths of a millimetre (or per second) of
    /// filament; `None` when they do not fit the driver.
    pub fn mm_to_tacho(&self, measure: i64) -> (r: Option<i32>)
        requires
            self.wf(),
        ensures
            r == (if fits_i32(self.ticks(measure as int)) {
                Some(self.ticks(measure as int) as i32)
            } else {
                None::<i32>
            }),
    {
        ticks_checked(measure, self.ratio, self.ticks_per_rev)
    }
}

} // verus!
