//! The catalogue of typefaces.
use crate::random::random_between;
use vstd::prelude::*;

verus! {

/// A typeface of the catalogue: its name and its definition, compressed.
pub struct TypefaceAsset {
    pub name: String,
    pub compressed: Vec<u8>,
}

/// Picks a place in a catalogue of `count` typefaces, each as likely.
pub fn select_random(count: usize) -> (index: usize)
    requires
        count > 0,
    ensures
        index < count,
{
    random_between(0, count - 1)
}

/// Picks a typeface of `catalog`, each as likely.
pub fn random_font(catalog: &Vec<TypefaceAsset>) -> (asset: &TypefaceAsset)
    requires
        catalog.len() > 0,
    ensures
        exists|i: int| 0 <= i < catalog.len() && *asset == #[trigger] catalog[i],
{
    let index = select_random(catalog.len());
    &catalog[index]
}

} // verus!
