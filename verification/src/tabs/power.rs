//! How the power tab reads the thermal throttle figure.

use vstd::prelude::*;

verus! {

/// The state behind a throttle figure: the share of nominal CPU speed
/// that is still available.
#[derive(Debug, Clone, Copy, PartialEq, Eq, Structural)]
pub enum Throttle {
    /// Full nominal speed.
    Nominal,
    /// At least four fifths of nominal speed (the figure is kept).
    Mild(u32),
    /// Less than four fifths of nominal speed (the figure is kept).
    Significant(u32),
    /// The platform does not say.
    Unavailable,
}

/// The state a throttle figure `pct` stands for.
pub open spec fn throttle_of(pct: Option<u32>) -> Throttle {
    match pct {
        None => Throttle::Unavailable,
        Some(n) => if n == 100 {
            Throttle::Nominal
        } else if n >= 80 {
            Throttle::Mild(n)
        } else {
            Throttle::Significant(n)
        },
    }
}

/// Classifies a throttle figure.
pub fn throttle_state(pct: Option<u32>) -> (r: Throttle)
    ensures
        r == throttle_of(pct),
{
    match pct {
        None => Throttle::Unavailable,
        Some(n) => if n == 100 {
            Throttle::Nominal
        } else if n >= 80 {
            Throttle::Mild(n)
        } else {
            Throttle::Significant(n)
        },
    }
}

/// The line that explains a throttle state.
pub open spec fn throttle_detail_text(t: Throttle) -> Seq<char> {
    match t {
        Throttle::Nominal => "CPU at 100% nominal speed"@,
        Throttle::Mild(_) => "thermal throttling \u{2014} mild"@,
        Throttle::Significant(_) => "thermal throttling \u{2014} significant"@,
        Throttle::Unavailable => "platform doesn't expose throttle state"@,
    }
}

impl Throttle {
    /// The explaining line shown under the figure.
    pub fn detail(self) -> (r: &'static str)
        ensures
            r@ == throttle_detail_text(self),
    {
        match self {
            Throttle::Nominal => "CPU at 100% nominal speed",
            Throttle::Mild(_) => "thermal throttling \u{2014} mild",
            Throttle::Significant(_) => "thermal throttling \u{2014} significant",
            Throttle::Unavailable => "platform doesn't expose throttle state",
        }
    }
}

/// A throttle figure reads as nominal at exactly 100, as mild throttling
/// at 80 or more otherwise, as significant throttling below 80, and as
/// unknown when absent; the mild and significant lines differ.
pub proof fn lemma_throttle_reading(n: u32)
    ensures
        n == 100 ==> throttle_detail_text(throttle_of(Some(n))) == "CPU at 100% nominal speed"@,
        n >= 80 && n != 100 ==> throttle_of(Some(n)) == Throttle::Mild(n)
            && throttle_detail_text(throttle_of(Some(n))) == "thermal throttling \u{2014} mild"@,
        n < 80 ==> throttle_of(Some(n)) == Throttle::Significant(n)
            && throttle_detail_text(throttle_of(Some(n))) == "thermal throttling \u{2014} significant"@,
        throttle_detail_text(throttle_of(None)) == "platform doesn't expose throttle state"@,
        "thermal throttling \u{2014} mild"@ != "thermal throttling \u{2014} significant"@,
{
    reveal_strlit("thermal throttling \u{2014} mild");
    reveal_strlit("thermal throttling \u{2014} significant");
    assert("thermal throttling \u{2014} mild"@.len() != "thermal throttling \u{2014} significant"@.len());
}

} // verus!
