use vstd::prelude::*;

verus! {

/// Which way the bracketing interval of the root finder may grow when the
/// supplied endpoints do not yet straddle a sign change. The root finder
/// itself works on floating-point numbers, which the verifier does not
/// model, so it lives with the embedding application; this choice of
/// direction is plain data and is shared from here. `Neither` keeps both
/// endpoints fixed.
#[derive(Clone, Copy, Debug, PartialEq, Eq, Structural)]
pub enum ExpandDirection {
    Neither,
    Left,
    Right,
}

} // verus!
