//! Byte-based token budget approximation: roughly four bytes per token, so a
//! budget of `t` tokens admits `4 t` bytes.

use vstd::prelude::*;

use vstd::string::StringSliceAdditionalSpecFns;

verus! {

/// A response size budget, in bytes.
#[derive(Debug)]
pub struct TokenBudget {
    pub max_bytes: usize,
}

impl TokenBudget {
    /// A budget of roughly `max_tokens` tokens: four bytes per token,
    /// saturating at the machine limit.
    pub fn from_tokens(max_tokens: usize) -> (r: TokenBudget)
        ensures
            r.max_bytes as int == (if 4 * max_tokens <= usize::MAX as int {
                4 * max_tokens as int
            } else {
                usize::MAX as int
            }),
    {
        if max_tokens > usize::MAX / 4 {
            TokenBudget { max_bytes: usize::MAX }
        } else {
            TokenBudget { max_bytes: 4 * max_tokens }
        }
    }

    /// True when the text's byte length stays within the budget.
    pub fn fits(&self, text: &str) -> (r: bool)
        ensures
            r == (text.spec_bytes().len() <= self.max_bytes),
    {
        text.as_bytes().len() <= self.max_bytes
    }
}

} // verus!
