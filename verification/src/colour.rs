//! The smooth-log colour policy, and the built-in palettes.
//!
//! A point that never escaped — its count is the cap, the non-escape
//! sentinel — is painted black. For an escaping point the caller computes
//! the smoothing value round(sqrt(i + 10 - log2(|z|)) * 256) from the
//! point's count i and final orbit value z, and the entry at that value
//! modulo the palette length is its colour. (The scaling constant is 256
//! on every path; an earlier convention of 255 on the parallel paths was
//! a copy-paste divergence, resolved here deliberately in favour of the
//! sequential one.) This policy is stateless per point and can be applied
//! to results as they arrive.

use vstd::prelude::*;

verus! {

/// Why a colouring request was refused: parameters that admit no colour,
/// such as an empty palette, whose index modulo zero is undefined.
#[derive(Clone, Copy, PartialEq, Eq, Structural, Debug)]
pub enum ColourError {
    InvalidParameter,
}

/// The colour of one result under the smooth-log policy: black for the
/// sentinel, otherwise the palette entry at the caller's smoothing value
/// modulo the palette length.
pub open spec fn smooth_colour_spec(
    iterations: u64,
    max_iterations: u64,
    smooth_index: u64,
    palette: Seq<(u8, u8, u8)>,
) -> (u8, u8, u8)
    recommends
        palette.len() > 0,
{
    if iterations == max_iterations {
        (0, 0, 0)
    } else {
        palette[smooth_index as int % palette.len() as int]
    }
}

/// One point's smooth-log colour.
pub fn smooth_colour(
    iterations: u64,
    max_iterations: u64,
    smooth_index: u64,
    palette: &Vec<(u8, u8, u8)>,
) -> (colour: (u8, u8, u8))
    requires
        palette@.len() > 0,
    ensures
        colour == smooth_colour_spec(iterations, max_iterations, smooth_index, palette@),
{
    if iterations == max_iterations {
        (0, 0, 0)
    } else {
        let index = smooth_index % (palette.len() as u64);
        palette[index as usize]
    }
}

/// One point's smooth-log colour, with the empty palette refused rather
/// than clamped.
pub fn smooth_colour_checked(
    iterations: u64,
    max_iterations: u64,
    smooth_index: u64,
    palette: &Vec<(u8, u8, u8)>,
) -> (colour: Result<(u8, u8, u8), ColourError>)
    ensures
        palette@.len() > 0 ==> colour == Ok::<(u8, u8, u8), ColourError>(
            smooth_colour_spec(iterations, max_iterations, smooth_index, palette@),
        ),
        palette@.len() == 0 ==> colour == Err::<(u8, u8, u8), ColourError>(
            ColourError::InvalidParameter,
        ),
{
    if palette.len() == 0 {
        Err(ColourError::InvalidParameter)
    } else {
        Ok(smooth_colour(iterations, max_iterations, smooth_index, palette))
    }
}

/// The colours of a whole result set under the smooth-log policy. The
/// caller supplies each point's smoothing value; the selection — sentinel
/// to black, everything else into the palette — is decided here.
pub fn smooth_colours(
    counts: &Vec<u64>,
    smooth_indices: &Vec<u64>,
    max_iterations: u64,
    palette: &Vec<(u8, u8, u8)>,
) -> (colours: Result<Vec<(u8, u8, u8)>, ColourError>)
    requires
        counts@.len() == smooth_indices@.len(),
    ensures
        palette@.len() == 0 ==> colours == Err::<Vec<(u8, u8, u8)>, ColourError>(
            ColourError::InvalidParameter,
        ),
        palette@.len() > 0 ==> (colours matches Ok(shades) && shades@.len() == counts@.len() && (
        forall|i: int|
            0 <= i < counts@.len() ==> shades@[i] == smooth_colour_spec(
                counts@[i],
                max_iterations,
                smooth_indices@[i],
                palette@,
            ))),
{
    if palette.len() == 0 {
        return Err(ColourError::InvalidParameter);
    }
    let mut shades: Vec<(u8, u8, u8)> = Vec::new();
    let mut i: usize = 0;
    while i < counts.len()
        invariant
            counts@.len() == smooth_indices@.len(),
            palette@.len() > 0,
            i <= counts@.len(),
            shades@.len() == i,
            forall|j: int|
                0 <= j < i ==> shades@[j] == smooth_colour_spec(
                    counts@[j],
                    max_iterations,
                    smooth_indices@[j],
                    palette@,
                ),
        decreases counts@.len() - i,
    {
        shades.push(smooth_colour(counts[i], max_iterations, smooth_indices[i], palette));
        i = i + 1;
    }
    Ok(shades)
}

/// Law: the smooth-log policy paints black exactly the sentinel count. An
/// escaping point always gets a palette entry — the index lands inside
/// the palette — so it can be black only if that entry itself is black.
pub proof fn lemma_smooth_black_iff(
    iterations: u64,
    max_iterations: u64,
    smooth_index: u64,
    palette: Seq<(u8, u8, u8)>,
)
    requires
        palette.len() > 0,
    ensures
        iterations == max_iterations ==> smooth_colour_spec(
            iterations,
            max_iterations,
            smooth_index,
            palette,
        ) == (0u8, 0u8, 0u8),
        iterations != max_iterations ==> {
            let index = smooth_index as int % palette.len() as int;
            0 <= index < palette.len() && smooth_colour_spec(
                iterations,
                max_iterations,
                smooth_index,
                palette,
            ) == palette[index]
        },
{
}

/// The two built-in palette choices the explorer offers. The tables
/// themselves are this crate's own stand-ins: any ordered, non-empty list
/// of RGB entries serves the mapping policies.
#[derive(Clone, Copy, PartialEq, Eq, Structural, Debug)]
pub enum Colour {
    Default,
    Rainbow,
}

impl Colour {
    /// The entries of the chosen palette.
    pub open spec fn palette(self) -> Seq<(u8, u8, u8)> {
        match self {
            Colour::Default => seq![
                (25, 7, 26),
                (9, 1, 47),
                (4, 4, 73),
                (0, 7, 100),
                (12, 44, 138),
                (24, 82, 177),
                (57, 125, 209),
                (134, 181, 229),
                (211, 236, 248),
                (241, 233, 191),
                (248, 201, 95),
                (255, 170, 0),
                (204, 128, 0),
                (153, 87, 0),
                (106, 52, 3),
                (66, 30, 15),
            ],
            Colour::Rainbow => seq![
                (255, 0, 0),
                (255, 127, 0),
                (255, 255, 0),
                (0, 255, 0),
                (0, 0, 255),
                (75, 0, 130),
                (148, 0, 211),
            ],
        }
    }

    /// The palette table behind the choice: an ordered, non-empty list of
    /// RGB entries, shared read-only by every evaluator of a run.
    pub fn to_array(self) -> (palette: Vec<(u8, u8, u8)>)
        ensures
            palette@ == self.palette(),
            palette@.len() > 0,
    {
        let palette: Vec<(u8, u8, u8)> = match self {
            Colour::Default => vec![
                (25, 7, 26),
                (9, 1, 47),
                (4, 4, 73),
                (0, 7, 100),
                (12, 44, 138),
                (24, 82, 177),
                (57, 125, 209),
                (134, 181, 229),
                (211, 236, 248),
                (241, 233, 191),
                (248, 201, 95),
                (255, 170, 0),
                (204, 128, 0),
                (153, 87, 0),
                (106, 52, 3),
                (66, 30, 15),
            ],
            Colour::Rainbow => vec![
                (255, 0, 0),
                (255, 127, 0),
                (255, 255, 0),
                (0, 255, 0),
                (0, 0, 255),
                (75, 0, 130),
                (148, 0, 211),
            ],
        };
        proof {
            assert(palette@ =~= self.palette());
        }
        palette
    }
}

} // verus!
