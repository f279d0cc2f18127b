use rand::seq::SliceRandom;
use vstd::prelude::*;

use crate::tile::Color;

verus! {

/// Relies on rand's `SliceRandom::choose` with the thread-local generator:
/// on a non-empty slice it returns one of its elements, picked at random.
#[verifier::external_body]
fn choose_color(palette: &Vec<Color>) -> (r: Color)
    requires
        palette@.len() > 0,
    ensures
        palette@.contains(r),
{
    *palette.choose(&mut rand::thread_rng()).unwrap()
}

/// `n` colors, each drawn independently from the palette.
pub fn random_colors(palette: &Vec<Color>, n: usize) -> (r: Vec<Color>)
    requires
        palette@.len() > 0,
    ensures
        r@.len() == n,
        forall|i: int| 0 <= i < n ==> palette@.contains(#[trigger] r@[i]),
{
    let mut r: Vec<Color> = Vec::new();
    let mut i: usize = 0;
    while i < n
        invariant
            palette@.len() > 0,
            i <= n,
            r@.len() == i,
            forall|j: int| 0 <= j < i ==> palette@.contains(#[trigger] r@[j]),
        decreases n - i,
    {
        r.push(choose_color(palette));
        i = i + 1;
    }
    r
}

} // verus!
