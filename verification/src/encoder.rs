//! Turning a frame buffer into an indexed frame: every pixel becomes the
//! index of a palette color, and no frame has more than 256 colors.
use crate::clustering::{is_nearest, lemma_nearest_exists, nearest};
use crate::color::{unpacked, Color};
use crate::palette::nearest_index;
use std::collections::HashMap;
use vstd::prelude::*;

verus! {

broadcast use vstd::std_specs::hash::group_hash_axioms;

/// The time for which a frame is shown, in hundredths of a second.
pub const FRAME_DELAY: u16 = 10;

/// The most colors that the palette of a frame can hold.
pub const MAX_COLORS: usize = 256;

/// How a color that has no index yet gets one.
#[derive(Debug, Clone, Copy, PartialEq, Eq, Structural)]
pub enum PaletteMode {
    /// The palette is given and stays as it is: a new color gets the index
    /// of the palette color nearest to it.
    Precomputed,
    /// The palette grows: a new color is added to it and gets the next free
    /// index, as long as there is one.
    Adaptive,
}

/// The palette of an animation and the index of every color met so far.
#[derive(Debug)]
pub struct PaletteProvider {
    pub mode: PaletteMode,
    /// The palette, as the red, green and blue of each color in turn.
    pub color_map: Vec<u8>,
    /// The index of each pixel value met so far.
    pub color_to_index_map: HashMap<u32, u8>,
}

/// Why a frame could not be encoded.
#[derive(Debug, Clone, Copy, PartialEq, Eq, Structural)]
pub enum FrameError {
    /// The palette is not a whole number of colors, or has more than
    /// `MAX_COLORS` of them.
    MalformedPalette,
    /// A pixel has a color without an index and no index can be given to
    /// it: the palette is empty, or it is full and cannot grow.
    PaletteExhausted,
}

/// A frame as the animation holds it.
#[derive(Debug)]
pub struct IndexedFrame {
    pub width: u16,
    pub height: u16,
    /// The palette of the frame, as the red, green and blue of each color.
    pub palette: Vec<u8>,
    /// For each pixel the index of its color in the palette.
    pub buffer: Vec<u8>,
    /// The time for which the frame is shown, in hundredths of a second.
    pub delay: u16,
}

/// What a provider holds, as mathematical values.
pub struct Tables {
    pub palette: Seq<u8>,
    pub indices: Map<u32, u8>,
}

/// The index given to one pixel, and the tables after it.
pub struct Lookup {
    pub index: u8,
    pub tables: Tables,
}

/// The indices given to a run of pixels, and the tables after them.
pub struct Mapping {
    pub indices: Seq<u8>,
    pub tables: Tables,
}

/// The bytes are a palette: three for each color, `MAX_COLORS` colors at
/// most.
pub open spec fn is_palette(bytes: Seq<u8>) -> bool {
    bytes.len() % 3 == 0 && bytes.len() <= 3 * MAX_COLORS
}

/// The colors of a palette given as bytes.
pub open spec fn palette_colors(bytes: Seq<u8>) -> Seq<Color> {
    Seq::new(
        bytes.len() / 3,
        |i: int| Color { r: bytes[3 * i], g: bytes[3 * i + 1], b: bytes[3 * i + 2] },
    )
}

/// The red, green and blue of a pixel value, as three bytes.
pub open spec fn color_bytes(pixel: u32) -> Seq<u8> {
    let color = unpacked(pixel as int);
    seq![color.r, color.g, color.b]
}

/// The index of one pixel and the tables after it has been looked up, or
/// nothing where no index can be given.
///
/// A pixel value that the tables know, with an index inside the palette,
/// keeps that index. Any other is new. With a precomputed palette it gets
/// the index of the nearest palette color, which the tables then remember.
/// With an adaptive palette its color is added to the palette and gets the
/// index of the new entry. Nothing can be given where the precomputed
/// palette is empty or the adaptive one is full.
pub open spec fn looked_up(tables: Tables, mode: PaletteMode, pixel: u32) -> Option<Lookup> {
    let count = tables.palette.len() / 3;
    if tables.indices.contains_key(pixel) && tables.indices[pixel] < count {
        Some(Lookup { index: tables.indices[pixel], tables })
    } else {
        match mode {
            PaletteMode::Precomputed => if count == 0 {
                None
            } else {
                let index = nearest(palette_colors(tables.palette), unpacked(pixel as int)) as u8;
                Some(
                    Lookup {
                        index,
                        tables: Tables {
                            palette: tables.palette,
                            indices: tables.indices.insert(pixel, index),
                        },
                    },
                )
            },
            PaletteMode::Adaptive => if count >= MAX_COLORS {
                None
            } else {
                Some(
                    Lookup {
                        index: count as u8,
                        tables: Tables {
                            palette: tables.palette + color_bytes(pixel),
                            indices: tables.indices.insert(pixel, count as u8),
                        },
                    },
                )
            },
        }
    }
}

/// The indices of the first `n` pixels of a buffer, looked up one after the
/// other, and the tables after them; nothing where one of them can be given
/// no index.
pub open spec fn mapped(tables: Tables, mode: PaletteMode, buffer: Seq<u32>, n: int) -> Option<
    Mapping,
>
    decreases n,
{
    if n <= 0 {
        Some(Mapping { indices: Seq::empty(), tables })
    } else {
        match mapped(tables, mode, buffer, n - 1) {
            None => None,
            Some(before) => match looked_up(before.tables, mode, buffer[n - 1]) {
                None => None,
                Some(found) => Some(
                    Mapping { indices: before.indices.push(found.index), tables: found.tables },
                ),
            },
        }
    }
}

/// Mapping the buffer comes to a halt at pixel `n`: the pixels before it can
/// be mapped, which leaves the tables as `stuck`, and with them pixel `n`
/// can be given no index.
pub open spec fn stuck_at(
    tables: Tables,
    mode: PaletteMode,
    buffer: Seq<u32>,
    n: int,
    stuck: Tables,
) -> bool {
    &&& 0 <= n < buffer.len()
    &&& mapped(tables, mode, buffer, n) matches Some(before)
    &&& before.tables == stuck
    &&& looked_up(stuck, mode, buffer[n]) is None
}

/// Once a pixel can be given no index, no longer run of pixels can be
/// mapped.
pub proof fn lemma_mapped_fails_on(
    tables: Tables,
    mode: PaletteMode,
    buffer: Seq<u32>,
    n: int,
    m: int,
)
    requires
        n <= m,
        mapped(tables, mode, buffer, n) is None,
    ensures
        mapped(tables, mode, buffer, m) is None,
    decreases m - n,
{
    if n < m {
        lemma_mapped_fails_on(tables, mode, buffer, n, m - 1);
    }
}

/// Mapping keeps a palette a palette, and every index it gives names one of
/// its colors: no frame refers to a color it does not have.
pub proof fn lemma_mapped_indices_are_valid(
    tables: Tables,
    mode: PaletteMode,
    buffer: Seq<u32>,
    n: int,
)
    requires
        is_palette(tables.palette),
        0 <= n <= buffer.len(),
        mapped(tables, mode, buffer, n) is Some,
    ensures
        is_palette(mapped(tables, mode, buffer, n)->0.tables.palette),
        mapped(tables, mode, buffer, n)->0.tables.palette.len() >= tables.palette.len(),
        mapped(tables, mode, buffer, n)->0.indices.len() == n,
        forall|i: int|
            0 <= i < n ==> (#[trigger] mapped(tables, mode, buffer, n)->0.indices[i]) < mapped(
                tables,
                mode,
                buffer,
                n,
            )->0.tables.palette.len() / 3,
    decreases n,
{
    if n > 0 {
        lemma_mapped_indices_are_valid(tables, mode, buffer, n - 1);
        let before = mapped(tables, mode, buffer, n - 1)->0.tables;
        if !(before.indices.contains_key(buffer[n - 1]) && before.indices[buffer[n - 1]]
            < before.palette.len() / 3) && mode == PaletteMode::Precomputed {
            lemma_nearest_exists(palette_colors(before.palette), unpacked(buffer[n - 1] as int));
        }
    }
}

/// With a precomputed palette, a pixel that is new gets the index of the
/// palette color nearest to its own: no palette color is nearer, and none
/// before it is as near.
pub proof fn lemma_new_pixel_gets_nearest(tables: Tables, pixel: u32)
    requires
        is_palette(tables.palette),
        tables.palette.len() > 0,
        !tables.indices.contains_key(pixel),
    ensures
        looked_up(tables, PaletteMode::Precomputed, pixel) is Some,
        is_nearest(
            palette_colors(tables.palette),
            unpacked(pixel as int),
            looked_up(tables, PaletteMode::Precomputed, pixel)->0.index as int,
        ),
{
    lemma_nearest_exists(palette_colors(tables.palette), unpacked(pixel as int));
}

impl PaletteProvider {
    /// What the provider holds.
    pub open spec fn tables(&self) -> Tables {
        Tables { palette: self.color_map@, indices: self.color_to_index_map@ }
    }

    /// A provider over a palette that is given, with the indices known for
    /// it.
    pub fn precomputed(color_map: Vec<u8>, color_to_index_map: HashMap<u32, u8>) -> (provider: Self)
        ensures
            provider.mode == PaletteMode::Precomputed,
            provider.color_map == color_map,
            provider.color_to_index_map == color_to_index_map,
    {
        PaletteProvider { mode: PaletteMode::Precomputed, color_map, color_to_index_map }
    }

    /// The provider for a run: over the palette, with the indices known for
    /// it, where there is one, and adaptive where there is none.
    pub fn from_tables(
        color_map: Option<Vec<u8>>,
        color_to_index_map: Option<HashMap<u32, u8>>,
    ) -> (provider: Self)
        ensures
            match color_map {
                Some(bytes) => {
                    &&& provider.mode == PaletteMode::Precomputed
                    &&& provider.color_map == bytes
                    &&& provider.color_to_index_map@ == match color_to_index_map {
                        Some(indices) => indices@,
                        None => Map::<u32, u8>::empty(),
                    }
                },
                None => {
                    &&& provider.mode == PaletteMode::Adaptive
                    &&& provider.color_map@.len() == 0
                    &&& provider.color_to_index_map@ == Map::<u32, u8>::empty()
                },
            },
    {
        match color_map {
            Some(bytes) => {
                let indices = match color_to_index_map {
                    Some(indices) => indices,
                    None => HashMap::new(),
                };
                PaletteProvider::precomputed(bytes, indices)
            },
            None => PaletteProvider::adaptive(),
        }
    }

    /// A provider that starts without colors and takes in those it meets.
    pub fn adaptive() -> (provider: Self)
        ensures
            provider.mode == PaletteMode::Adaptive,
            provider.color_map@.len() == 0,
            provider.color_to_index_map@ == Map::<u32, u8>::empty(),
    {
        PaletteProvider {
            mode: PaletteMode::Adaptive,
            color_map: Vec::new(),
            color_to_index_map: HashMap::new(),
        }
    }
}

/// The colors of a palette given as bytes.
fn colors_of(color_map: &Vec<u8>) -> (colors: Vec<Color>)
    ensures
        colors@ == palette_colors(color_map@),
{
    let len = color_map.len();
    let count = len / 3;
    let mut colors: Vec<Color> = Vec::new();
    let mut i: usize = 0;
    while i < count
        invariant
            len == color_map@.len(),
            count == len / 3,
            i <= count,
            colors@.len() == i,
            forall|m: int| 0 <= m < i ==> #[trigger] colors@[m] == palette_colors(color_map@)[m],
        decreases count - i,
    {
        colors.push(Color { r: color_map[3 * i], g: color_map[3 * i + 1], b: color_map[3 * i + 2] });
        i += 1;
    }
    assert(colors@ =~= palette_colors(color_map@));
    colors
}

/// Looks one pixel up, and takes it into the tables if it is new.
fn lookup(provider: &mut PaletteProvider, colors: &Vec<Color>, pixel: u32) -> (index: Option<u8>)
    requires
        is_palette(old(provider).color_map@),
        old(provider).mode == PaletteMode::Precomputed ==> colors@ == palette_colors(
            old(provider).color_map@,
        ),
    ensures
        final(provider).mode == old(provider).mode,
        match looked_up(old(provider).tables(), old(provider).mode, pixel) {
            Some(found) => index == Some(found.index) && final(provider).tables()
                == found.tables,
            None => index is None && final(provider).tables() == old(provider).tables(),
        },
{
    let count = provider.color_map.len() / 3;
    match provider.color_to_index_map.get(&pixel) {
        Some(known) => {
            if (*known as usize) < count {
                return Some(*known);
            }
        },
        None => {},
    }
    match provider.mode {
        PaletteMode::Precomputed => {
            if count == 0 {
                return None;
            }
            let color = Color::from_packed(pixel);
            let index = nearest_index(colors.as_slice(), &color) as u8;
            provider.color_to_index_map.insert(pixel, index);
            Some(index)
        },
        PaletteMode::Adaptive => {
            if count >= MAX_COLORS {
                return None;
            }
            let color = Color::from_packed(pixel);
            let ghost before = provider.color_map@;
            provider.color_map.push(color.r);
            provider.color_map.push(color.g);
            provider.color_map.push(color.b);
            assert(provider.color_map@ =~= before + color_bytes(pixel));
            provider.color_to_index_map.insert(pixel, count as u8);
            Some(count as u8)
        },
    }
}

/// The index of every pixel of a buffer, in the order of the buffer. The
/// pixels are looked up one after the other, so a color that is new at one
/// pixel is known at the next.
pub fn map_pixels_to_indices(buffer: &[u32], provider: &mut PaletteProvider) -> (result: Result<
    Vec<u8>,
    FrameError,
>)
    ensures
        final(provider).mode == old(provider).mode,
        match result {
            Ok(indices) => {
                &&& is_palette(old(provider).color_map@)
                &&& mapped(old(provider).tables(), old(provider).mode, buffer@, buffer@.len() as int)
                    == Some(Mapping { indices: indices@, tables: final(provider).tables() })
            },
            Err(FrameError::MalformedPalette) => {
                &&& !is_palette(old(provider).color_map@)
                &&& final(provider).tables() == old(provider).tables()
            },
            Err(FrameError::PaletteExhausted) => {
                &&& is_palette(old(provider).color_map@)
                &&& mapped(
                    old(provider).tables(),
                    old(provider).mode,
                    buffer@,
                    buffer@.len() as int,
                ) is None
                &&& exists|n: int|
                    stuck_at(
                        old(provider).tables(),
                        old(provider).mode,
                        buffer@,
                        n,
                        final(provider).tables(),
                    )
                &&& is_palette(final(provider).color_map@)
            },
        },
{
    if provider.color_map.len() % 3 != 0 || provider.color_map.len() > 3 * MAX_COLORS {
        return Err(FrameError::MalformedPalette);
    }
    let colors = colors_of(&provider.color_map);
    let ghost start = provider.tables();
    let ghost mode = provider.mode;
    let mut indices: Vec<u8> = Vec::new();
    let mut i: usize = 0;
    while i < buffer.len()
        invariant
            i <= buffer@.len(),
            provider.mode == mode,
            mode == old(provider).mode,
            start == old(provider).tables(),
            is_palette(start.palette),
            is_palette(provider.color_map@),
            mode == PaletteMode::Precomputed ==> colors@ == palette_colors(provider.color_map@),
            mapped(start, mode, buffer@, i as int) == Some(
                Mapping { indices: indices@, tables: provider.tables() },
            ),
        decreases buffer@.len() - i,
    {
        let ghost before = provider.tables();
        match lookup(provider, &colors, buffer[i]) {
            Some(index) => {
                indices.push(index);
                proof {
                    lemma_mapped_indices_are_valid(start, mode, buffer@, i + 1);
                }
            },
            None => {
                proof {
                    lemma_mapped_fails_on(start, mode, buffer@, i + 1, buffer@.len() as int);
                    assert(stuck_at(start, mode, buffer@, i as int, provider.tables()));
                }
                return Err(FrameError::PaletteExhausted);
            },
        }
        i += 1;
    }
    Ok(indices)
}

/// Encodes the frame buffer as the next frame of the animation: the index
/// of every pixel, the palette as it stands after them, and the fixed
/// delay. The frame counter goes up by one. Where the frame cannot be
/// encoded the counter stays.
pub fn process_frame(
    window_buffer: &Vec<u32>,
    frame_count: &mut usize,
    provider: &mut PaletteProvider,
    width: u16,
    height: u16,
) -> (result: Result<IndexedFrame, FrameError>)
    requires
        *old(frame_count) < usize::MAX,
    ensures
        final(provider).mode == old(provider).mode,
        match result {
            Ok(frame) => {
                &&& is_palette(old(provider).color_map@)
                &&& mapped(
                    old(provider).tables(),
                    old(provider).mode,
                    window_buffer@,
                    window_buffer@.len() as int,
                ) == Some(Mapping { indices: frame.buffer@, tables: final(provider).tables() })
                &&& frame.palette@ == final(provider).color_map@
                &&& is_palette(frame.palette@)
                &&& forall|i: int|
                    0 <= i < frame.buffer@.len() ==> (#[trigger] frame.buffer@[i])
                        < frame.palette@.len() / 3
                &&& frame.buffer@.len() == window_buffer@.len()
                &&& frame.width == width
                &&& frame.height == height
                &&& frame.delay == FRAME_DELAY
                &&& *final(frame_count) == *old(frame_count) + 1
            },
            Err(FrameError::MalformedPalette) => {
                &&& !is_palette(old(provider).color_map@)
                &&& final(provider).tables() == old(provider).tables()
                &&& *final(frame_count) == *old(frame_count)
            },
            Err(FrameError::PaletteExhausted) => {
                &&& is_palette(old(provider).color_map@)
                &&& mapped(
                    old(provider).tables(),
                    old(provider).mode,
                    window_buffer@,
                    window_buffer@.len() as int,
                ) is None
                &&& exists|n: int|
                    stuck_at(
                        old(provider).tables(),
                        old(provider).mode,
                        window_buffer@,
                        n,
                        final(provider).tables(),
                    )
                &&& is_palette(final(provider).color_map@)
                &&& *final(frame_count) == *old(frame_count)
            },
        },
{
    let ghost start = provider.tables();
    let ghost mode = provider.mode;
    match map_pixels_to_indices(window_buffer.as_slice(), provider) {
        Ok(buffer) => {
            proof {
                lemma_mapped_indices_are_valid(
                    start,
                    mode,
                    window_buffer@,
                    window_buffer@.len() as int,
                );
            }
            let palette = provider.color_map.clone();
            assert(palette@ =~= provider.color_map@);
            *frame_count = *frame_count + 1;
            Ok(IndexedFrame { width, height, palette, buffer, delay: FRAME_DELAY })
        },
        Err(error) => Err(error),
    }
}

} // verus!
