use vstd::prelude::*;

verus! {

/// The number of non-negative-frequency bins kept when the spectrum of a
/// real window of `n` samples is folded: `n / 2 + 1`, or none for an
/// empty window.
pub open spec fn folded_len_spec(n: nat) -> nat {
    if n == 0 {
        0
    } else {
        n / 2 + 1
    }
}

/// How a folded bin's magnitude is normalised.
#[derive(Debug, PartialEq, Eq, Structural, Clone, Copy)]
pub enum BinScale {
    /// Divided by the window length: a bin without a negative-frequency
    /// conjugate (DC, and Nyquist for an even length).
    OverLen,
    /// Multiplied by two over the window length: the folded-away
    /// conjugate's energy is added back.
    TwiceOverLen,
}

/// The number of bins kept when folding the spectrum of `n` samples.
pub fn folded_len(n: usize) -> (r: usize)
    ensures
        r == folded_len_spec(n as nat),
{
    if n == 0 {
        0
    } else {
        n / 2 + 1
    }
}

/// The normalisation of folded bin `i` of a window of `n` samples.
pub fn bin_scale(i: usize, n: usize) -> (r: BinScale)
    requires
        i < folded_len_spec(n as nat),
    ensures
        r == (if i == 0 || (i == n / 2 && n % 2 == 0) {
            BinScale::OverLen
        } else {
            BinScale::TwiceOverLen
        }),
{
    if i == 0 {
        BinScale::OverLen
    } else if i == folded_len(n) - 1 && n % 2 == 0 {
        BinScale::OverLen
    } else {
        BinScale::TwiceOverLen
    }
}

} // verus!
