//! Correction of the desktop's DPI, once and not over and over.
use vstd::prelude::*;

verus! {

/// 96 DPI in the units of the toolkit.
pub const FALLBACK_DPI: i32 = 98304;

/// Keeps what the desktop asked for apart from what was put in its place.
#[derive(Clone, Copy, Debug, PartialEq, Eq, Structural)]
pub struct Correction {
    original: Option<i32>,
    applied: Option<i32>,
}

/// What a desktop value becomes on a surface scaled by `scale`.
pub open spec fn corrected(original: int, scale: int) -> int {
    let divisor = if scale > 1 { scale } else { 1 };
    if original <= 0 {
        FALLBACK_DPI as int
    } else if original / divisor > 1 {
        original / divisor
    } else {
        1
    }
}

impl Correction {
    pub closed spec fn spec_original(self) -> Option<i32> {
        self.original
    }

    pub closed spec fn spec_applied(self) -> Option<i32> {
        self.applied
    }

    /// The desktop's own value, where `current` is seen: what was put in its
    /// place is not mistaken for it.
    pub open spec fn desktop_value(self, current: i32) -> i32 {
        if self.spec_applied() == Some(current) && self.spec_original() is Some {
            self.spec_original()->Some_0
        } else {
            current
        }
    }

    /// What becomes of a correction that sees `current`.
    pub open spec fn updates_to(self, current: i32, scale: i32, next: Correction) -> bool {
        &&& next.spec_applied() is Some
        &&& next.spec_applied()->Some_0 == corrected(
            self.desktop_value(current) as int,
            scale as int,
        )
        &&& next.spec_original() == if self.spec_applied() == Some(current) {
            self.spec_original()
        } else {
            Some(current)
        }
    }

    /// Sees the value in force and gives the one to put in its place.
    pub fn update(&mut self, current: i32, scale: i32) -> (applied: i32)
        ensures
            old(self).updates_to(current, scale, *final(self)),
            final(self).spec_applied() == Some(applied),
    {
        let own = match self.applied {
            Some(applied) => applied == current,
            None => false,
        };
        if !own {
            self.original = Some(current);
        }
        let original: i32 = match self.original {
            Some(original) => original,
            None => current,
        };
        let divisor: i32 = if scale > 1 { scale } else { 1 };
        let applied: i32 = if original <= 0 {
            FALLBACK_DPI
        } else {
            let quotient: i32 = original / divisor;
            if quotient > 1 {
                quotient
            } else {
                1
            }
        };
        self.applied = Some(applied);
        applied
    }
}

impl Default for Correction {
    fn default() -> (correction: Self)
        ensures
            correction.spec_original() is None,
            correction.spec_applied() is None,
    {
        Correction { original: None, applied: None }
    }
}

/// However often views see the value that was put in place of the desktop's, and
/// whatever the scale is by then, the correction starts from the desktop's own
/// value and not from the last correction.
pub proof fn corrections_do_not_accumulate(
    start: Correction,
    first: Correction,
    second: Correction,
    desktop: i32,
    scale: i32,
    rescale: i32,
)
    requires
        start.spec_applied() != Some(desktop),
        start.updates_to(desktop, scale, first),
        first.updates_to(first.spec_applied()->Some_0, rescale, second),
    ensures
        second.spec_applied()->Some_0 == corrected(desktop as int, rescale as int),
        second.spec_original() == Some(desktop),
{
}

/// The value put in place is always usable, and never larger than a usable one
/// that the desktop asked for.
pub proof fn corrected_values_are_usable(original: int, scale: int)
    ensures
        corrected(original, scale) >= 1,
        original >= 1 ==> corrected(original, scale) <= original,
        original >= 1 && scale <= 1 ==> corrected(original, scale) == original,
{
    let divisor = if scale > 1 { scale } else { 1 };
    if original >= 1 {
        assert(original / divisor <= original) by (nonlinear_arith)
            requires
                original >= 1,
                divisor >= 1,
        ;
    }
}

/// A corrected value is the desktop's divided by the scale and rounded down, though never below
/// one; without a scale it is the desktop's, and without a value there the customary one.
pub proof fn corrections_divide_by_the_scale(original: int, scale: int)
    ensures
        original <= 0 ==> corrected(original, scale) == 96 * 1024,
        original > 0 && scale <= 1 ==> corrected(original, scale) == original,
        original > 0 && scale >= 1 && original >= scale ==> corrected(original, scale) * scale
            <= original < (corrected(original, scale) + 1) * scale,
        original > 0 && original < scale ==> corrected(original, scale) == 1,
{
    if original > 0 && scale >= 1 {
        let quotient = original / scale;
        assert(quotient * scale <= original < (quotient + 1) * scale) by (nonlinear_arith)
            requires
                scale >= 1,
                quotient == original / scale,
        ;
        if original >= scale {
            assert(quotient >= 1) by (nonlinear_arith)
                requires
                    original >= scale,
                    original < (quotient + 1) * scale,
                    scale >= 1,
            ;
        } else {
            assert(quotient <= 0) by (nonlinear_arith)
                requires
                    original < scale,
                    quotient * scale <= original,
                    scale >= 1,
            ;
        }
    }
}

/// The value that a correction put there is traced back to what was there before; any other is
/// the desktop's own.
pub proof fn own_values_are_traced_back(correction: Correction, current: i32)
    ensures
        correction.spec_applied() != Some(current) ==> correction.desktop_value(current)
            == current,
        correction.spec_applied() == Some(current) && correction.spec_original() is Some
            ==> correction.spec_original() == Some(correction.desktop_value(current)),
        correction.spec_original() is None ==> correction.desktop_value(current) == current,
{
}

} // verus!
