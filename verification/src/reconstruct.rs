use vstd::prelude::*;

use crate::assign::{all_wf, closest_centroid_index, closest_spec};
use crate::color::{Centroid, Pixel};

verus! {

/// The output color for one sample: the color of the centroid nearest to it
/// in the final set, truncated to 8 bits per channel.
pub open spec fn recolor_spec(cs: Seq<Centroid>, p: Pixel) -> Pixel {
    cs[closest_spec(cs, p)].quantized()
}

/// Re-renders the samples with the final palette: each sample's output
/// color is the quantized color of the centroid nearest to it among the
/// final centroids. The nearest centroid is recomputed here against the
/// final set, independently of any assignment computed during the run.
pub fn reconstruct_colors(centroids: &Vec<Centroid>, pixels: &Vec<Pixel>) -> (out: Vec<Pixel>)
    requires
        centroids@.len() >= 1,
        all_wf(centroids@),
    ensures
        out@.len() == pixels@.len(),
        forall|i: int| 0 <= i < pixels@.len() ==> out@[i] == recolor_spec(centroids@, pixels@[i]),
{
    let mut out: Vec<Pixel> = Vec::new();
    let mut i: usize = 0;
    while i < pixels.len()
        invariant
            i <= pixels@.len(),
            out@.len() == i as int,
            centroids@.len() >= 1,
            all_wf(centroids@),
            forall|t: int| 0 <= t < i as int ==> out@[t] == recolor_spec(centroids@, pixels@[t]),
        decreases pixels@.len() - i as int,
    {
        let j = closest_centroid_index(&pixels[i], centroids);
        out.push(centroids[j].quantize());
        i = i + 1;
    }
    out
}

} // verus!
