//! Choosing one of the variants of a stream by its resolution.
//!
//! The variants are taken in the order of descending width; where two are
//! equally wide, the one listed first comes first. A request for the largest
//! resolution gets the first variant of that order, a request for the
//! smallest gets the last, and a request for a height gets the first variant
//! of that height.

use vstd::prelude::*;

verus! {

/// A video resolution in pixels. As a request, the height `u64::MAX` asks for
/// the largest resolution there is, and the height `0` for the smallest.
#[derive(Clone, Copy, Debug, PartialEq, Eq, Structural)]
pub struct Resolution {
    pub width: u64,
    pub height: u64,
}

/// One rendition of a stream: its place in the listing it came from, its
/// resolution, and its bitrate in bits per second.
#[derive(Clone, Copy, Debug, PartialEq, Eq, Structural)]
pub struct Variant {
    pub id: usize,
    pub resolution: Resolution,
    pub bandwidth: u64,
}

/// Whether the variant at `i` comes before the variant at `j` once the
/// variants are put in the order of descending width, with equally wide ones
/// left in the order given.
pub open spec fn comes_before(variants: Seq<Variant>, i: int, j: int) -> bool {
    variants[i].resolution.width > variants[j].resolution.width || (variants[i].resolution.width
        == variants[j].resolution.width && i < j)
}

/// Whether the variant at `i` answers to the request `wanted` at all: any
/// variant does for the largest or the smallest resolution, and one of the
/// wanted height does otherwise.
pub open spec fn answers(variants: Seq<Variant>, wanted: Resolution, i: int) -> bool {
    wanted.height == u64::MAX || wanted.height == 0 || variants[i].resolution.height
        == wanted.height
}

/// Whether the variant at `i` is preferred to the variant at `j` under the
/// request `wanted`: the one that comes later is, where the smallest
/// resolution is wanted, and the one that comes first is otherwise.
pub open spec fn preferred(variants: Seq<Variant>, wanted: Resolution, i: int, j: int) -> bool {
    if wanted.height == 0 {
        comes_before(variants, j, i)
    } else {
        comes_before(variants, i, j)
    }
}

/// The request `wanted` selects the variant at `i` from the first `upto`
/// variants: it answers to the request, and it is preferred to every other
/// one of them that does.
pub open spec fn selects_among(variants: Seq<Variant>, wanted: Resolution, i: int, upto: int) -> bool {
    &&& 0 <= i < upto
    &&& answers(variants, wanted, i)
    &&& forall|j: int|
        0 <= j < upto && j != i && answers(variants, wanted, j) ==> #[trigger] preferred(
            variants,
            wanted,
            i,
            j,
        )
}

/// The request `wanted` selects the variant at `i`. With the variants in the
/// order of descending width, that is the first for the largest resolution,
/// the last for the smallest, and the first of the wanted height otherwise.
pub open spec fn selects(variants: Seq<Variant>, wanted: Resolution, i: int) -> bool {
    selects_among(variants, wanted, i, variants.len() as int)
}

/// Whether some variant answers to the request `wanted`.
pub open spec fn has_match(variants: Seq<Variant>, wanted: Resolution) -> bool {
    exists|j: int| 0 <= j < variants.len() && #[trigger] answers(variants, wanted, j)
}

/// A request selects one variant at most.
pub proof fn lemma_selection_is_unique(variants: Seq<Variant>, wanted: Resolution, i: int, j: int)
    requires
        selects(variants, wanted, i),
        selects(variants, wanted, j),
    ensures
        i == j,
{
    if i != j {
        assert(preferred(variants, wanted, i, j));
        assert(preferred(variants, wanted, j, i));
    }
}

/// Selects the variant that answers the request `resolution`.
///
/// With the variants in the order of descending width (equally wide ones in
/// the order given), the request for the largest resolution selects the
/// first, the request for the smallest selects the last, and a request for a
/// height selects the first variant of exactly that height. Where no variant
/// answers the request, nothing is selected.
pub fn find_resolution(streaming_data: Vec<Variant>, resolution: &Resolution) -> (found: Option<
    Variant,
>)
    ensures
        found is Some <==> has_match(streaming_data@, *resolution),
        match found {
            Some(variant) => exists|i: int|
                selects(streaming_data@, *resolution, i) && variant == streaming_data@[i],
            None => forall|i: int| !selects(streaming_data@, *resolution, i),
        },
{
    let largest: bool = resolution.height == u64::MAX;
    let smallest: bool = resolution.height == 0;
    let mut best: Option<usize> = None;
    let mut i: usize = 0;
    while i < streaming_data.len()
        invariant
            i <= streaming_data.len(),
            largest == (resolution.height == u64::MAX),
            smallest == (resolution.height == 0),
            match best {
                Some(b) => selects_among(streaming_data@, *resolution, b as int, i as int),
                None => forall|j: int|
                    0 <= j < i ==> !#[trigger] answers(streaming_data@, *resolution, j),
            },
        decreases streaming_data.len() - i,
    {
        let candidate: Variant = streaming_data[i];
        let fits: bool = largest || smallest || candidate.resolution.height == resolution.height;
        let takes: bool = match best {
            None => fits,
            Some(b) => {
                let held: Variant = streaming_data[b];
                if smallest {
                    candidate.resolution.width <= held.resolution.width
                } else {
                    fits && candidate.resolution.width > held.resolution.width
                }
            },
        };
        proof {
            let all = streaming_data@;
            let wanted = *resolution;
            assert(fits == answers(all, wanted, i as int));
            match best {
                Some(b) => {
                    if takes {
                        assert forall|j: int|
                            0 <= j < i + 1 && j != i && answers(all, wanted, j) implies #[trigger] preferred(
                            all,
                            wanted,
                            i as int,
                            j,
                        ) by {
                            if j != b {
                                assert(preferred(all, wanted, b as int, j));
                            }
                        }
                    } else {
                        assert forall|j: int|
                            0 <= j < i + 1 && j != b && answers(all, wanted, j) implies #[trigger] preferred(
                            all,
                            wanted,
                            b as int,
                            j,
                        ) by {}
                    }
                },
                None => {},
            }
        }
        if takes {
            best = Some(i);
        }
        i += 1;
    }
    match best {
        Some(b) => {
            assert(answers(streaming_data@, *resolution, b as int));
            Some(streaming_data[b])
        },
        None => None,
    }
}

} // verus!
