//! The token estimator: a fixed ratio of three and a half characters to the
//! token, rounded up.

use vstd::prelude::*;
use vstd::string::StrSliceExecFns;

verus! {

/// The estimate for a text of `chars` characters: `chars / 3.5`, rounded up.
pub open spec fn token_estimate(chars: nat) -> nat {
    ((2 * chars + 6) / 7) as nat
}

/// A longer text never has a smaller estimate.
pub proof fn lemma_estimate_monotonic(shorter: nat, longer: nat)
    requires
        shorter <= longer,
    ensures
        token_estimate(shorter) <= token_estimate(longer),
{
}

/// The estimate for `chars` characters, computed without leaving `usize`.
pub fn estimate_chars(chars: usize) -> (tokens: usize)
    ensures
        tokens == token_estimate(chars as nat),
{
    let sevens: usize = chars / 7;
    let rest: usize = chars % 7;
    sevens * 2 + (rest * 2 + 6) / 7
}

/// Estimates the token count of `text`. The empty text has none.
pub fn estimate_tokens(text: &str) -> (tokens: usize)
    ensures
        tokens == token_estimate(text@.len()),
{
    estimate_chars(text.unicode_len())
}

} // verus!
