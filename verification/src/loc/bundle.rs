use vstd::prelude::*;

verus! {

/// Where a localization key resolves in a locale fallback chain.
#[derive(Debug, Clone, Copy, PartialEq, Eq, Structural)]
pub enum Resolution {
    /// In the bundle at this position of the chain; `fallback` when that
    /// is not the primary (first) locale.
    Locale { index: usize, fallback: bool },
    /// In no bundle: the raw key is shown instead.
    RawKey,
}

/// Picks where a key resolves, given for each locale of the fallback
/// chain, in order, whether its bundle has the message with a value: the
/// first locale that has it, or the raw key when none does.
pub fn resolve_in_chain(has_value: &[bool]) -> (r: Resolution)
    ensures
        match r {
            Resolution::Locale { index, fallback } => {
                &&& index < has_value@.len()
                &&& has_value@[index as int]
                &&& forall|j: int| 0 <= j < index ==> !has_value@[j]
                &&& fallback == (index > 0)
            },
            Resolution::RawKey => forall|j: int| 0 <= j < has_value@.len() ==> !has_value@[j],
        },
{
    let mut i: usize = 0;
    while i < has_value.len()
        invariant
            i <= has_value@.len(),
            forall|j: int| 0 <= j < i ==> !has_value@[j],
        decreases has_value@.len() - i,
    {
        if has_value[i] {
            return Resolution::Locale { index: i, fallback: i > 0 };
        }
        i = i + 1;
    }
    Resolution::RawKey
}

} // verus!
