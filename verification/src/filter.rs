//! The kinds of second-order filter that a section can be set up as.
use vstd::prelude::*;

verus! {

/// The response of a second-order filter section. It is chosen once, when the
/// section is set up; the section then runs on the coefficients derived for
/// it.
#[derive(Clone, Copy, Debug, PartialEq, Eq, Structural)]
pub enum FilterType {
    LowPass,
    HighPass,
    BandPass,
    LowShelf,
    HighShelf,
    Peaking,
    AllPass,
    Notch,
}

} // verus!
