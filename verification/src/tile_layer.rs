//! The on-disk `"tiles"` map layer: a key dictionary of tile configurations
//! plus base64-encoded chunks of little-endian `u16` keys.
use std::collections::BTreeMap;
use vstd::std_specs::btree::spec_btree_map_iter;
use vstd::std_specs::iter::IteratorSpec;
use vstd::prelude::*;

use crate::key_order::{layer_keys_ordered, lemma_layer_keys_ordered};
use crate::codec::{base64_decode, base64_decode_result, base64_decoding, base64_encode};
use crate::text::{decimal, decimal_nat, push_decimal, push_decimal_nat};
use crate::tiles::{GridView, IVec2, TileGrid, TileKind, lemma_row_major_index};

verus! {

broadcast use vstd::std_specs::btree::group_btree_axioms;

/// Per-tile configuration stored in the key dictionary.
#[derive(Debug, Clone, Copy, PartialEq, Eq, Structural)]
pub struct TileDef {
    pub kind: TileKind,
}

/// On-disk representation of the `"tiles"` map layer.
///
/// `keys` maps a `u16` key to a tile definition; `chunks` maps chunk
/// coordinates to the base64 text of `chunk_size * chunk_size` little-endian
/// `u16` keys in row-major order.
#[derive(Debug)]
pub struct TilesLayerData {
    pub chunk_size: u32,
    pub keys: BTreeMap<u16, TileDef>,
    pub chunks: BTreeMap<(i32, i32), String>,
}

/// Chunk size used when saving a grid.
pub const SAVE_CHUNK_SIZE: u32 = 32;

/// Why a tiles layer could not be loaded or saved.
#[derive(Debug, Clone, PartialEq, Eq)]
pub enum TilesLayerError {
    /// `chunk_size` is zero.
    ZeroChunkSize,
    /// `chunk_size²` does not fit in `usize`.
    ChunkAreaOverflow,
    /// `chunk_size² × 2` does not fit in `usize`.
    ChunkSizeTooLarge,
    /// A chunk has a negative coordinate.
    NegativeChunkCoordinate { x: i32, y: i32 },
    /// The map dimensions overflow `u32`.
    DimensionsOverflow,
    /// `chunk_size` exceeds the `i32` range.
    ChunkSizeExceedsI32,
    /// The map dimensions exceed the `i32` range.
    DimensionsExceedI32,
    /// The total tile count overflows `usize`.
    TileCountOverflow,
    /// A chunk is not valid base64; `detail` is the decoder's message.
    ChunkDecode { x: i32, y: i32, detail: String },
    /// A chunk decodes to the wrong number of bytes.
    ChunkLength { x: i32, y: i32, actual: usize, expected: usize, chunk_size: u32 },
    /// A chunk references a key missing from the dictionary.
    UnknownKey { x: i32, y: i32, key: u16 },
    /// More than 65536 distinct tile configurations.
    TooManyTileConfigurations,
}

/// The `i`-th little-endian `u16` of a byte string.
pub open spec fn le_key(bytes: Seq<u8>, i: int) -> int {
    bytes[2 * i] as int + 256 * (bytes[2 * i + 1] as int)
}

pub open spec fn has_negative_chunk(chunks: Map<(i32, i32), String>) -> bool {
    exists|k: (i32, i32)| #[trigger] chunks.contains_key(k) && (k.0 < 0 || k.1 < 0)
}

pub open spec fn is_max_chunk_x(chunks: Map<(i32, i32), String>, m: int) -> bool {
    &&& exists|k: (i32, i32)| #[trigger] chunks.contains_key(k) && k.0 == m
    &&& forall|k: (i32, i32)| #[trigger] chunks.contains_key(k) ==> k.0 <= m
}

pub open spec fn is_max_chunk_y(chunks: Map<(i32, i32), String>, m: int) -> bool {
    &&& exists|k: (i32, i32)| #[trigger] chunks.contains_key(k) && k.1 == m
    &&& forall|k: (i32, i32)| #[trigger] chunks.contains_key(k) ==> k.1 <= m
}

/// The largest chunk column.
pub open spec fn max_chunk_x(chunks: Map<(i32, i32), String>) -> int {
    choose|m: int| is_max_chunk_x(chunks, m)
}

/// The largest chunk row.
pub open spec fn max_chunk_y(chunks: Map<(i32, i32), String>) -> int {
    choose|m: int| is_max_chunk_y(chunks, m)
}

/// Width of the loaded map: one past the largest chunk column, in tiles.
pub open spec fn layer_width(layer: &TilesLayerData) -> int {
    (max_chunk_x(layer.chunks@) + 1) * layer.chunk_size
}

/// Height of the loaded map: one past the largest chunk row, in tiles.
pub open spec fn layer_height(layer: &TilesLayerData) -> int {
    (max_chunk_y(layer.chunks@) + 1) * layer.chunk_size
}

/// The chunk decodes to the right number of bytes and every key it holds
/// is in the dictionary.
pub open spec fn chunk_is_valid(layer: &TilesLayerData, k: (i32, i32)) -> bool {
    let cs = layer.chunk_size as int;
    match base64_decoding(layer.chunks@[k]@) {
        Some(b) => {
            &&& b.len() == 2 * (cs * cs)
            &&& forall|i: int|
                0 <= i < cs * cs ==> #[trigger] layer.keys@.contains_key(le_key(b, i) as u16)
        },
        None => false,
    }
}

/// Chunk size is usable: non-zero and `chunk_size² × 2` fits in `usize`.
pub open spec fn chunk_size_ok(layer: &TilesLayerData) -> bool {
    layer.chunk_size > 0 && 2 * (layer.chunk_size * layer.chunk_size) <= usize::MAX
}

/// Map dimensions derived from the chunk coordinates are representable.
pub open spec fn dimensions_ok(layer: &TilesLayerData) -> bool {
    &&& layer_width(layer) <= u32::MAX
    &&& layer_height(layer) <= u32::MAX
    &&& layer.chunk_size <= i32::MAX
    &&& layer_width(layer) <= i32::MAX
    &&& layer_height(layer) <= i32::MAX
    &&& layer_width(layer) * layer_height(layer) <= usize::MAX
}

/// Everything the loader checks holds.
pub open spec fn layer_valid(layer: &TilesLayerData) -> bool {
    &&& chunk_size_ok(layer)
    &&& (layer.chunks@.is_empty() || {
        &&& !has_negative_chunk(layer.chunks@)
        &&& dimensions_ok(layer)
        &&& forall|k: (i32, i32)| #[trigger]
            layer.chunks@.contains_key(k) ==> chunk_is_valid(layer, k)
    })
}

/// The tile kind that loading puts at `(x, y)`: the dictionary entry of the
/// key stored for it in its chunk, or `Floor` where no chunk covers it.
pub open spec fn loaded_kind(layer: &TilesLayerData, x: int, y: int) -> TileKind {
    let cs = layer.chunk_size as int;
    let k = ((x / cs) as i32, (y / cs) as i32);
    if layer.chunks@.contains_key(k) {
        layer.keys@[le_key(base64_decoding(layer.chunks@[k]@).unwrap(), (y % cs) * cs + x % cs) as u16].kind
    } else {
        TileKind::Floor
    }
}

/// `g` is the grid that loading a valid layer produces.
pub open spec fn loaded_grid_of(layer: &TilesLayerData, g: GridView<TileKind>) -> bool {
    &&& g.wf()
    &&& layer.chunks@.is_empty() ==> g.width == 0 && g.height == 0
    &&& !layer.chunks@.is_empty() ==> {
        &&& g.width == layer_width(layer)
        &&& g.height == layer_height(layer)
        &&& forall|x: int, y: int| #[trigger]
            g.in_bounds(x, y) ==> g.cell(x, y) == Some(loaded_kind(layer, x, y))
    }
}

/// What a reported chunk error says about its chunk.
pub open spec fn chunk_error_holds(layer: &TilesLayerData, e: TilesLayerError) -> bool {
    let cs = layer.chunk_size as int;
    match e {
        TilesLayerError::ChunkDecode { x, y, detail } => {
            &&& layer.chunks@.contains_key((x, y))
            &&& base64_decode_result(layer.chunks@[(x, y)]@) == Err::<Seq<u8>, Seq<char>>(detail@)
        },
        TilesLayerError::ChunkLength { x, y, actual, expected, chunk_size } => {
            &&& chunk_size == layer.chunk_size
            &&& layer.chunks@.contains_key((x, y))
            &&& base64_decoding(layer.chunks@[(x, y)]@) matches Some(b) && b.len() == actual
            &&& expected == 2 * (cs * cs)
            &&& actual != expected
        },
        TilesLayerError::UnknownKey { x, y, key } => {
            &&& layer.chunks@.contains_key((x, y))
            &&& base64_decoding(layer.chunks@[(x, y)]@) matches Some(b) && b.len() == 2 * (cs
                * cs) && exists|i: int|
                0 <= i < cs * cs && le_key(b, i) == key && !layer.keys@.contains_key(key)
        },
        _ => false,
    }
}

/// If `m` is a largest chunk column, it is the chosen one.
proof fn lemma_max_chunk_x_unique(chunks: Map<(i32, i32), String>, m: int)
    requires
        is_max_chunk_x(chunks, m),
    ensures
        max_chunk_x(chunks) == m,
{
    let c = max_chunk_x(chunks);
    assert(is_max_chunk_x(chunks, c));
    let kc = choose|k: (i32, i32)| #[trigger] chunks.contains_key(k) && k.0 == c;
    let km = choose|k: (i32, i32)| #[trigger] chunks.contains_key(k) && k.0 == m;
    assert(kc.0 <= m);
    assert(km.0 <= c);
}

/// If `m` is a largest chunk row, it is the chosen one.
proof fn lemma_max_chunk_y_unique(chunks: Map<(i32, i32), String>, m: int)
    requires
        is_max_chunk_y(chunks, m),
    ensures
        max_chunk_y(chunks) == m,
{
    let c = max_chunk_y(chunks);
    assert(is_max_chunk_y(chunks, c));
    let kc = choose|k: (i32, i32)| #[trigger] chunks.contains_key(k) && k.1 == c;
    let km = choose|k: (i32, i32)| #[trigger] chunks.contains_key(k) && k.1 == m;
    assert(kc.1 <= m);
    assert(km.1 <= c);
}

/// `i` is the first cell of a chunk of `n` cells, held as the bytes `b`,
/// whose key is missing from `keys`.
pub open spec fn first_unknown_cell(keys: Map<u16, TileDef>, b: Seq<u8>, n: int, i: int) -> bool {
    &&& 0 <= i < n
    &&& !keys.contains_key(le_key(b, i) as u16)
    &&& forall|j: int| 0 <= j < i ==> #[trigger] keys.contains_key(le_key(b, j) as u16)
}

/// Turns the decoded bytes of the chunk at `chunk` into the tile kinds of
/// its `chunk_size²` cells, in row-major order: cell `i` is the kind of the
/// dictionary entry for the `i`-th little-endian `u16` key.  Bytes of the
/// wrong length give `ChunkLength`; otherwise the first cell whose key is
/// not in the dictionary gives `UnknownKey` with that key.
pub fn chunk_kinds(
    keys: &BTreeMap<u16, TileDef>,
    chunk: (i32, i32),
    chunk_size: u32,
    bytes: &[u8],
) -> (r: Result<Vec<TileKind>, TilesLayerError>)
    requires
        2 * (chunk_size * chunk_size) <= usize::MAX,
    ensures
        ({
            let n = chunk_size * chunk_size;
            &&& (r is Ok) <==> (bytes@.len() == 2 * n && forall|i: int|
                0 <= i < n ==> #[trigger] keys@.contains_key(le_key(bytes@, i) as u16))
            &&& r matches Ok(v) ==> v@.len() == n && forall|i: int|
                0 <= i < n ==> #[trigger] v@[i] == keys@[le_key(bytes@, i) as u16].kind
            &&& (r == Err::<Vec<TileKind>, TilesLayerError>(
                TilesLayerError::ChunkLength {
                    x: chunk.0,
                    y: chunk.1,
                    actual: bytes@.len() as usize,
                    expected: (2 * n) as usize,
                    chunk_size,
                },
            )) <==> bytes@.len() != 2 * n
            &&& r matches Err(e) ==> (e is ChunkLength || e is UnknownKey)
            &&& r matches Err(TilesLayerError::ChunkLength { .. }) ==> bytes@.len() != 2 * n
            &&& r matches Err(TilesLayerError::UnknownKey { x, y, key }) ==> x == chunk.0 && y
                == chunk.1 && bytes@.len() == 2 * n && exists|i: int|
                first_unknown_cell(keys@, bytes@, n, i) && key == le_key(bytes@, i) as u16
        }),
{
    proof {
        lemma_layer_keys_ordered();
    }
    let tiles_per_chunk: usize = (chunk_size as usize) * (chunk_size as usize);
    let expected_bytes: usize = 2 * tiles_per_chunk;
    if bytes.len() != expected_bytes {
        return Err(
            TilesLayerError::ChunkLength {
                x: chunk.0,
                y: chunk.1,
                actual: bytes.len(),
                expected: expected_bytes,
                chunk_size,
            },
        );
    }
    let ghost b = bytes@;
    let mut kinds: Vec<TileKind> = Vec::with_capacity(tiles_per_chunk);
    let mut i: usize = 0;
    while i < tiles_per_chunk
        invariant
            b == bytes@,
            b.len() == expected_bytes,
            expected_bytes == 2 * tiles_per_chunk,
            tiles_per_chunk == chunk_size * chunk_size,
            i <= tiles_per_chunk,
            kinds.len() == i,
            forall|j: int| 0 <= j < i ==> #[trigger] keys@.contains_key(le_key(b, j) as u16),
            forall|j: int| 0 <= j < i ==> #[trigger] kinds@[j] == keys@[le_key(b, j) as u16].kind,
            layer_keys_ordered(),
        decreases tiles_per_chunk - i,
    {
        let off = 2 * i;
        let key: u16 = (bytes[off] as u16) + (bytes[off + 1] as u16) * 256;
        assert(key == le_key(b, i as int));
        match keys.get(&key) {
            Some(def) => {
                kinds.push(def.kind);
            },
            None => {
                assert(first_unknown_cell(keys@, b, tiles_per_chunk as int, i as int));
                return Err(TilesLayerError::UnknownKey { x: chunk.0, y: chunk.1, key });
            },
        }
        i = i + 1;
    }
    Ok(kinds)
}

/// Decodes one chunk into the tile kinds of its cells, in row-major order.
fn decode_chunk(
    layer: &TilesLayerData,
    k: (i32, i32),
    b64: &String,
) -> (r: Result<Vec<TileKind>, TilesLayerError>)
    requires
        layer.chunks@.contains_key(k),
        layer.chunks@[k] == *b64,
        chunk_size_ok(layer),
    ensures
        r is Ok <==> chunk_is_valid(layer, k),
        r matches Ok(v) ==> v.len() == layer.chunk_size * layer.chunk_size && forall|i: int|
            0 <= i < layer.chunk_size * layer.chunk_size ==> #[trigger] v@[i] == layer.keys@[le_key(
                base64_decoding(b64@).unwrap(),
                i,
            ) as u16].kind,
        r matches Err(e) ==> chunk_error_holds(layer, e) && match e {
            TilesLayerError::ChunkDecode { x, y, .. } => x == k.0 && y == k.1,
            TilesLayerError::ChunkLength { x, y, .. } => x == k.0 && y == k.1,
            TilesLayerError::UnknownKey { x, y, .. } => x == k.0 && y == k.1,
            _ => false,
        },
{
    let bytes = match base64_decode(b64.as_str()) {
        Ok(b) => b,
        Err(detail) => {
            return Err(TilesLayerError::ChunkDecode { x: k.0, y: k.1, detail });
        },
    };
    let r = chunk_kinds(&layer.keys, k, layer.chunk_size, bytes.as_slice());
    proof {
        assert(base64_decoding(layer.chunks@[(k.0, k.1)]@) == Some(bytes@));
        if let Err(TilesLayerError::UnknownKey { key, .. }) = &r {
            let n = layer.chunk_size * layer.chunk_size;
            let i = choose|i: int|
                first_unknown_cell(layer.keys@, bytes@, n, i) && *key == le_key(bytes@, i) as u16;
            assert(le_key(bytes@, i) == *key);
        }
    }
    r
}

/// Loads the tiles layer into a tile grid.  The map covers every chunk:
/// its width and height are one past the largest chunk column and row, in
/// tiles; cells that no chunk covers are `Floor`.  An empty chunk map gives
/// an empty grid.
pub fn load_tiles_layer(layer: &TilesLayerData) -> (r: Result<TileGrid<TileKind>, TilesLayerError>)
    ensures
        r is Ok <==> layer_valid(layer),
        r matches Ok(g) ==> loaded_grid_of(layer, g@),
        (r == Err::<TileGrid<TileKind>, TilesLayerError>(TilesLayerError::ZeroChunkSize)) <==> (
        layer.chunk_size == 0),
        (r == Err::<TileGrid<TileKind>, TilesLayerError>(TilesLayerError::ChunkAreaOverflow)) <==> (
        layer.chunk_size > 0 && layer.chunk_size * layer.chunk_size > usize::MAX),
        (r == Err::<TileGrid<TileKind>, TilesLayerError>(TilesLayerError::ChunkSizeTooLarge)) <==> (
        layer.chunk_size > 0 && layer.chunk_size * layer.chunk_size <= usize::MAX && !chunk_size_ok(
            layer,
        )),
        (r matches Err(TilesLayerError::NegativeChunkCoordinate { .. })) <==> (chunk_size_ok(layer)
            && !layer.chunks@.is_empty() && has_negative_chunk(layer.chunks@)),
        r matches Err(TilesLayerError::NegativeChunkCoordinate { x, y }) ==> layer.chunks@.contains_key(
            (x, y),
        ) && (x < 0 || y < 0),
        (r == Err::<TileGrid<TileKind>, TilesLayerError>(TilesLayerError::DimensionsOverflow)) <==> (
        chunk_size_ok(layer) && !layer.chunks@.is_empty() && !has_negative_chunk(layer.chunks@) && !(
        layer_width(layer) <= u32::MAX && layer_height(layer) <= u32::MAX)),
        (r == Err::<TileGrid<TileKind>, TilesLayerError>(TilesLayerError::ChunkSizeExceedsI32)) <==> (
        chunk_size_ok(layer) && !layer.chunks@.is_empty() && !has_negative_chunk(layer.chunks@)
            && layer_width(layer) <= u32::MAX && layer_height(layer) <= u32::MAX && layer.chunk_size
            > i32::MAX),
        (r == Err::<TileGrid<TileKind>, TilesLayerError>(TilesLayerError::DimensionsExceedI32)) <==> (
        chunk_size_ok(layer) && !layer.chunks@.is_empty() && !has_negative_chunk(layer.chunks@)
            && layer_width(layer) <= u32::MAX && layer_height(layer) <= u32::MAX && layer.chunk_size
            <= i32::MAX && !(layer_width(layer) <= i32::MAX && layer_height(layer) <= i32::MAX)),
        (r == Err::<TileGrid<TileKind>, TilesLayerError>(TilesLayerError::TileCountOverflow)) <==> (
        chunk_size_ok(layer) && !layer.chunks@.is_empty() && !has_negative_chunk(layer.chunks@)
            && layer.chunk_size <= i32::MAX && layer_width(layer) <= i32::MAX && layer_height(layer)
            <= i32::MAX && layer_width(layer) * layer_height(layer) > usize::MAX),
        (r matches Err(e) && chunk_error_holds(layer, e)) <==> (chunk_size_ok(layer)
            && !layer.chunks@.is_empty() && !has_negative_chunk(layer.chunks@) && dimensions_ok(layer)
            && !layer_valid(layer)),
{
    proof {
        lemma_layer_keys_ordered();
    }
    let chunk_size = layer.chunk_size;
    if chunk_size == 0 {
        return Err(TilesLayerError::ZeroChunkSize);
    }
    let tiles_per_chunk = match (chunk_size as usize).checked_mul(chunk_size as usize) {
        Some(t) => t,
        None => {
            return Err(TilesLayerError::ChunkAreaOverflow);
        },
    };
    let expected_bytes = match tiles_per_chunk.checked_mul(2) {
        Some(e) => e,
        None => {
            return Err(TilesLayerError::ChunkSizeTooLarge);
        },
    };
    if layer.chunks.is_empty() {
        let g = TileGrid::<TileKind>::new(0, 0);
        assert(g@.cells.len() == 0);
        return Ok(g);
    }
    // Largest chunk coordinates; negative coordinates are rejected.
    let mut max_x: i32 = 0;
    let mut max_y: i32 = 0;
    let mut seen: bool = false;
    let ghost all = spec_btree_map_iter(&layer.chunks).remaining();
    let ghost mut n: int = 0;
    for (k, _b64) in it: layer.chunks.iter()
        invariant
            layer_keys_ordered(),
            it.seq() == all,
            n == it.index(),
            n <= all.len(),
            chunk_size == layer.chunk_size,
            chunk_size_ok(layer),
            !layer.chunks@.is_empty(),
            seen == (it.index() > 0),
            forall|j: int|
                0 <= j < it.index() ==> (#[trigger] it.seq()[j]).0.0 >= 0 && it.seq()[j].0.1 >= 0,
            forall|j: int|
                0 <= j < it.index() ==> (#[trigger] it.seq()[j]).0.0 <= max_x && it.seq()[j].0.1
                    <= max_y,
            seen ==> exists|j: int| 0 <= j < it.index() && (#[trigger] it.seq()[j]).0.0 == max_x,
            seen ==> exists|j: int| 0 <= j < it.index() && (#[trigger] it.seq()[j]).0.1 == max_y,
    {
        if k.0 < 0 || k.1 < 0 {
            proof {
                assert(layer.chunks@.contains_key(*it.seq()[it.index() as int].0));
            }
            return Err(TilesLayerError::NegativeChunkCoordinate { x: k.0, y: k.1 });
        }
        proof {
            n = n + 1;
        }
        if !seen || k.0 > max_x {
            max_x = k.0;
        }
        if !seen || k.1 > max_y {
            max_y = k.1;
        }
        seen = true;
    }
    proof {
        assert(!has_negative_chunk(layer.chunks@));
        assert(n == all.len());
        let sx = choose|j: int| 0 <= j < n && (#[trigger] all[j]).0.0 == max_x;
        let sy = choose|j: int| 0 <= j < n && (#[trigger] all[j]).0.1 == max_y;
        assert(layer.chunks@.contains_key(*all[sx].0));
        assert(layer.chunks@.contains_key(*all[sy].0));
        assert(is_max_chunk_x(layer.chunks@, max_x as int));
        assert(is_max_chunk_y(layer.chunks@, max_y as int));
        lemma_max_chunk_x_unique(layer.chunks@, max_x as int);
        lemma_max_chunk_y_unique(layer.chunks@, max_y as int);
    }
    let width = match ((max_x as u32) + 1).checked_mul(chunk_size) {
        Some(w) => w,
        None => {
            return Err(TilesLayerError::DimensionsOverflow);
        },
    };
    let height = match ((max_y as u32) + 1).checked_mul(chunk_size) {
        Some(h) => h,
        None => {
            return Err(TilesLayerError::DimensionsOverflow);
        },
    };
    if chunk_size > 0x7fff_ffff {
        return Err(TilesLayerError::ChunkSizeExceedsI32);
    }
    if width > 0x7fff_ffff || height > 0x7fff_ffff {
        return Err(TilesLayerError::DimensionsExceedI32);
    }
    let total = match (width as usize).checked_mul(height as usize) {
        Some(t) => t,
        None => {
            return Err(TilesLayerError::TileCountOverflow);
        },
    };
    // Decode every chunk, in key order, into the kinds of its cells.
    let mut decoded: BTreeMap<(i32, i32), Vec<TileKind>> = BTreeMap::new();
    let ghost mut n: int = 0;
    for (k, b64) in it: layer.chunks.iter()
        invariant
            layer_keys_ordered(),
            it.seq() == all,
            n == it.index(),
            n <= all.len(),
            chunk_size_ok(layer),
            !layer.chunks@.is_empty(),
            !has_negative_chunk(layer.chunks@),
            dimensions_ok(layer),
            tiles_per_chunk == chunk_size * chunk_size,
            expected_bytes == 2 * tiles_per_chunk,
            chunk_size == layer.chunk_size,
            forall|j: int| 0 <= j < it.index() ==> chunk_is_valid(layer, *(#[trigger] it.seq()[j]).0),
            forall|kk: (i32, i32)| #[trigger]
                decoded@.contains_key(kk) <==> exists|j: int|
                    0 <= j < it.index() && *(#[trigger] it.seq()[j]).0 == kk,
            forall|kk: (i32, i32)| #[trigger]
                decoded@.contains_key(kk) ==> layer.chunks@.contains_key(kk) && decoded@[kk].len()
                    == tiles_per_chunk && forall|i: int|
                    0 <= i < tiles_per_chunk ==> #[trigger] decoded@[kk]@[i] == layer.keys@[le_key(
                        base64_decoding(layer.chunks@[kk]@).unwrap(),
                        i,
                    ) as u16].kind,
    {
        proof {
            assert(layer.chunks@.contains_key(*it.seq()[it.index() as int].0));
        }
        match decode_chunk(layer, *k, b64) {
            Ok(kinds) => {
                decoded.insert(*k, kinds);
                proof {
                    n = n + 1;
                }
            },
            Err(e) => {
                return Err(e);
            },
        }
    }
    proof {
        assert forall|kk: (i32, i32)| #[trigger]
            layer.chunks@.contains_key(kk) implies chunk_is_valid(layer, kk) && decoded@.contains_key(kk) by {
            assert(n == all.len());
            assert(all.contains((&kk, &layer.chunks@[kk])));
            let j = choose|j: int| 0 <= j < all.len() && all[j] == (&kk, &layer.chunks@[kk]);
            assert(*all[j].0 == kk);
        }
        assert(layer_valid(layer));
    }
    // Fill the grid row by row from the decoded chunks.
    let mut cells: Vec<TileKind> = Vec::with_capacity(total);
    let mut y: u32 = 0;
    while y < height
        invariant
            layer_keys_ordered(),
            chunk_size == layer.chunk_size,
            chunk_size > 0,
            tiles_per_chunk == chunk_size * chunk_size,
            width <= i32::MAX,
            height <= i32::MAX,
            y <= height,
            cells.len() == y * width,
            forall|kk: (i32, i32)| #[trigger]
                decoded@.contains_key(kk) <==> layer.chunks@.contains_key(kk),
            forall|kk: (i32, i32)| #[trigger]
                decoded@.contains_key(kk) ==> layer.chunks@.contains_key(kk) && decoded@[kk].len()
                    == tiles_per_chunk && forall|i: int|
                    0 <= i < tiles_per_chunk ==> #[trigger] decoded@[kk]@[i] == layer.keys@[le_key(
                        base64_decoding(layer.chunks@[kk]@).unwrap(),
                        i,
                    ) as u16].kind,
            forall|yy: int, xx: int|
                0 <= yy < y && 0 <= xx < width ==> #[trigger] cells@[yy * width + xx]
                    == loaded_kind(layer, xx, yy),
        decreases height - y,
    {
        let mut x: u32 = 0;
        while x < width
            invariant
                layer_keys_ordered(),
                chunk_size == layer.chunk_size,
                chunk_size > 0,
                tiles_per_chunk == chunk_size * chunk_size,
                width <= i32::MAX,
                height <= i32::MAX,
                y < height,
                x <= width,
                cells.len() == y * width + x,
                forall|kk: (i32, i32)| #[trigger]
                    decoded@.contains_key(kk) <==> layer.chunks@.contains_key(kk),
                forall|kk: (i32, i32)| #[trigger]
                    decoded@.contains_key(kk) ==> layer.chunks@.contains_key(kk) && decoded@[kk].len()
                        == tiles_per_chunk && forall|i: int|
                        0 <= i < tiles_per_chunk ==> #[trigger] decoded@[kk]@[i] == layer.keys@[le_key(
                            base64_decoding(layer.chunks@[kk]@).unwrap(),
                            i,
                        ) as u16].kind,
                forall|yy: int, xx: int|
                    (0 <= yy < y && 0 <= xx < width) || (yy == y && 0 <= xx < x) ==> #[trigger] cells@[yy
                        * width + xx] == loaded_kind(layer, xx, yy),
            decreases width - x,
        {
            let cx = x / chunk_size;
            let cy = y / chunk_size;
            let lx = x % chunk_size;
            let ly = y % chunk_size;
            let key: (i32, i32) = (cx as i32, cy as i32);
            proof {
                lemma_row_major_index(lx as int, ly as int, chunk_size as int, chunk_size as int);
            }
            let kind = match decoded.get(&key) {
                Some(kinds) => kinds[(ly as usize) * (chunk_size as usize) + (lx as usize)],
                None => TileKind::Floor,
            };
            assert(kind == loaded_kind(layer, x as int, y as int));
            let ghost before = cells@;
            cells.push(kind);
            proof {
                assert forall|yy: int, xx: int|
                    (0 <= yy < y && 0 <= xx < width) || (yy == y && 0 <= xx < x + 1) implies #[trigger] cells@[yy
                        * width + xx] == loaded_kind(layer, xx, yy) by {
                    if yy == y && xx == x {
                    } else {
                        lemma_row_major_index(xx, yy, width as int, y as int + 1);
                        if yy < y {
                            lemma_row_major_index(xx, yy, width as int, y as int);
                        }
                        assert(cells@[yy * width + xx] == before[yy * width + xx]);
                    }
                }
            }
            x = x + 1;
        }
        proof {
            assert((y + 1) * width == y * width + width) by (nonlinear_arith);
        }
        y = y + 1;
    }
    proof {
        assert(height * width == width * height) by (nonlinear_arith);
    }
    match TileGrid::from_cells(width, height, cells) {
        Ok(g) => {
            proof {
                assert forall|x: int, y: int| #[trigger] g@.in_bounds(x, y) implies g@.cell(x, y) == Some(
                    loaded_kind(layer, x, y),
                ) by {
                    assert(cells@[y * width + x] == loaded_kind(layer, x, y));
                }
            }
            Ok(g)
        },
        Err(_) => Err(TilesLayerError::TileCountOverflow),
    }
}

/// Number of save chunks needed to cover `n` tiles.
pub open spec fn chunk_count(n: int) -> int {
    (n + 31) / 32
}

/// The kind that saving writes for `(x, y)`: the grid cell, or `Floor`
/// padding outside the grid.
pub open spec fn saved_kind(g: GridView<TileKind>, x: int, y: int) -> TileKind {
    match g.cell(x, y) {
        Some(k) => k,
        None => TileKind::Floor,
    }
}

/// The saved chunk at `k` holds, for each of its cells, a key that the
/// dictionary maps to the kind saved for that cell.
pub open spec fn saved_chunk_ok(g: GridView<TileKind>, d: &TilesLayerData, k: (i32, i32)) -> bool {
    match base64_decoding(d.chunks@[k]@) {
        Some(b) => {
            &&& b.len() == 2048
            &&& forall|i: int|
                0 <= i < 1024 ==> {
                    &&& #[trigger] d.keys@.contains_key(le_key(b, i) as u16)
                    &&& d.keys@[le_key(b, i) as u16].kind == saved_kind(
                        g,
                        k.0 * 32 + i % 32,
                        k.1 * 32 + i / 32,
                    )
                }
        },
        None => false,
    }
}

/// Whether some cell of the saved chunks holds `kind`: a cell of the grid,
/// or `Floor` padding past its edge within the last chunks.
pub open spec fn kind_in_saved_cells(g: GridView<TileKind>, kind: TileKind) -> bool {
    exists|x: int, y: int|
        0 <= x < chunk_count(g.width as int) * 32 && 0 <= y < chunk_count(g.height as int) * 32
            && #[trigger] saved_kind(g, x, y) == kind
}

/// `d` is what saving `g` produces: chunks of 32×32 tiles covering the grid,
/// and a dictionary holding each configuration that the chunks use once,
/// and no other.
pub open spec fn saved_layer_of(g: GridView<TileKind>, d: &TilesLayerData) -> bool {
    &&& d.chunk_size == 32
    &&& forall|k: (i32, i32)| #[trigger]
        d.chunks@.contains_key(k) <==> (0 <= k.0 < chunk_count(g.width as int) && 0 <= k.1
            < chunk_count(g.height as int))
    &&& forall|k: (i32, i32)| #[trigger] d.chunks@.contains_key(k) ==> saved_chunk_ok(g, d, k)
    &&& forall|key: u16| #[trigger]
        d.keys@.contains_key(key) ==> kind_in_saved_cells(g, d.keys@[key].kind)
    &&& forall|k1: u16, k2: u16|
        #![trigger d.keys@[k1], d.keys@[k2]]
        d.keys@.contains_key(k1) && d.keys@.contains_key(k2) && k1 != k2 ==> d.keys@[k1]
            != d.keys@[k2]
}

/// Every definition met so far is used by some saved cell.
spec fn defs_used(g: GridView<TileKind>, defs: Seq<(TileDef, u16)>) -> bool {
    forall|i: int| 0 <= i < defs.len() ==> kind_in_saved_cells(g, (#[trigger] defs[i]).0.kind)
}

/// The dictionary under construction: key `i` belongs to the `i`-th distinct
/// definition met so far.
spec fn dict_ok(dict: Map<u16, TileDef>, defs: Seq<(TileDef, u16)>) -> bool {
    &&& defs.len() <= 2
    &&& forall|i: int| 0 <= i < defs.len() ==> #[trigger] defs[i].1 == i
    &&& forall|i: int, j: int| 0 <= i < j < defs.len() ==> defs[i].0 != defs[j].0
    &&& forall|kk: u16| #[trigger] dict.contains_key(kk) <==> kk < defs.len()
    &&& forall|i: int| 0 <= i < defs.len() ==> #[trigger] dict[i as u16] == defs[i].0
}

/// The first `n` keys of `b` name definitions in `defs` whose kinds are the
/// ones saved for the corresponding cells of chunk `(cx, cy)`.
spec fn buf_ok(
    g: GridView<TileKind>,
    b: Seq<u8>,
    n: int,
    cx: int,
    cy: int,
    defs: Seq<(TileDef, u16)>,
) -> bool {
    forall|i: int|
        0 <= i < n ==> {
            &&& 0 <= #[trigger] le_key(b, i) < defs.len()
            &&& defs[le_key(b, i)].0.kind == saved_kind(g, cx * 32 + i % 32, cy * 32 + i / 32)
        }
}

/// The chunk text decodes to a full chunk whose keys satisfy [`buf_ok`].
spec fn saved_text_ok(
    g: GridView<TileKind>,
    text: Seq<char>,
    cx: int,
    cy: int,
    defs: Seq<(TileDef, u16)>,
) -> bool {
    match base64_decoding(text) {
        Some(b) => b.len() == 2048 && buf_ok(g, b, 1024, cx, cy, defs),
        None => false,
    }
}

/// Keys that were valid stay valid when the definition list grows.
proof fn lemma_buf_ok_grows(
    g: GridView<TileKind>,
    b: Seq<u8>,
    n: int,
    cx: int,
    cy: int,
    defs: Seq<(TileDef, u16)>,
    defs2: Seq<(TileDef, u16)>,
)
    requires
        buf_ok(g, b, n, cx, cy, defs),
        defs.len() <= defs2.len(),
        forall|i: int| 0 <= i < defs.len() ==> #[trigger] defs2[i] == defs[i],
    ensures
        buf_ok(g, b, n, cx, cy, defs2),
{
    assert forall|i: int| 0 <= i < n implies {
        &&& 0 <= #[trigger] le_key(b, i) < defs2.len()
        &&& defs2[le_key(b, i)].0.kind == saved_kind(g, cx * 32 + i % 32, cy * 32 + i / 32)
    } by {
        assert(defs2[le_key(b, i)] == defs[le_key(b, i)]);
    }
}

/// Returns the dictionary key of `def`, assigning the next free key the first
/// time a definition is met.
fn key_for_def(
    def: TileDef,
    key_dict: &mut BTreeMap<u16, TileDef>,
    def_to_key: &mut Vec<(TileDef, u16)>,
) -> (r: Result<u16, TilesLayerError>)
    requires
        dict_ok(old(key_dict)@, old(def_to_key)@),
    ensures
        r matches Ok(k) && dict_ok(final(key_dict)@, final(def_to_key)@) && k < final(def_to_key)@.len() && final(def_to_key)@[k as int].0 == def && old(def_to_key)@.len() <= final(def_to_key)@.len() && forall|i: int|
            0 <= i < old(def_to_key)@.len() ==> #[trigger] final(def_to_key)@[i] == old(def_to_key)@[i],
        final(def_to_key)@.len() <= old(def_to_key)@.len() + 1,
        final(def_to_key)@.len() > old(def_to_key)@.len()
            ==> final(def_to_key)@[old(def_to_key)@.len() as int].0 == def,
{
    proof {
        lemma_layer_keys_ordered();
    }
    let mut j: usize = 0;
    while j < def_to_key.len()
        invariant
            key_dict@ == old(key_dict)@,
            def_to_key@ == old(def_to_key)@,
            dict_ok(key_dict@, def_to_key@),
            j <= def_to_key.len(),
            forall|jj: int| 0 <= jj < j ==> (#[trigger] def_to_key@[jj]).0 != def,
        decreases def_to_key.len() - j,
    {
        if def_to_key[j].0 == def {
            return Ok(def_to_key[j].1);
        }
        j = j + 1;
    }
    let next_key = def_to_key.len();
    if next_key > 65535 {
        return Err(TilesLayerError::TooManyTileConfigurations);
    }
    proof {
        if next_key == 2 {
            assert(def_to_key@[0].0 != def_to_key@[1].0);
            assert(def_to_key@[0].0 != def);
            assert(def_to_key@[1].0 != def);
            assert(false);
        }
    }
    let k = next_key as u16;
    key_dict.insert(k, def);
    def_to_key.push((def, k));
    Ok(k)
}

/// Encodes chunk `(chunk_x, chunk_y)` of the grid as little-endian keys.
fn encode_chunk(
    grid: &TileGrid<TileKind>,
    chunk_x: u32,
    chunk_y: u32,
    key_dict: &mut BTreeMap<u16, TileDef>,
    def_to_key: &mut Vec<(TileDef, u16)>,
) -> (r: Result<Vec<u8>, TilesLayerError>)
    requires
        grid@.width <= i32::MAX,
        grid@.height <= i32::MAX,
        chunk_x < chunk_count(grid@.width as int),
        chunk_y < chunk_count(grid@.height as int),
        dict_ok(old(key_dict)@, old(def_to_key)@),
        defs_used(grid@, old(def_to_key)@),
    ensures
        defs_used(grid@, final(def_to_key)@),
        r matches Ok(buf) && buf.len() == 2048 && buf_ok(
            grid@,
            buf@,
            1024,
            chunk_x as int,
            chunk_y as int,
            final(def_to_key)@,
        ),
        dict_ok(final(key_dict)@, final(def_to_key)@),
        old(def_to_key)@.len() <= final(def_to_key)@.len(),
        forall|i: int|
            0 <= i < old(def_to_key)@.len() ==> #[trigger] final(def_to_key)@[i] == old(def_to_key)@[i],
{
    proof {
        use_type_invariant(grid);
    }
    let width = grid.width();
    let height = grid.height();
    let mut buf: Vec<u8> = Vec::with_capacity(2048);
    let ghost defs0 = def_to_key@;
    let mut local_y: u32 = 0;
    while local_y < 32
        invariant
            grid@.wf(),
            width == grid@.width,
            height == grid@.height,
            width <= i32::MAX,
            height <= i32::MAX,
            chunk_x < chunk_count(width as int),
            chunk_y < chunk_count(height as int),
            local_y <= 32,
            buf.len() == 2 * (local_y * 32),
            dict_ok(key_dict@, def_to_key@),
            defs_used(grid@, def_to_key@),
            defs0.len() <= def_to_key@.len(),
            forall|i: int| 0 <= i < defs0.len() ==> #[trigger] def_to_key@[i] == defs0[i],
            buf_ok(grid@, buf@, local_y * 32, chunk_x as int, chunk_y as int, def_to_key@),
        decreases 32 - local_y,
    {
        let mut local_x: u32 = 0;
        while local_x < 32
            invariant
                grid@.wf(),
                width == grid@.width,
                height == grid@.height,
                width <= i32::MAX,
                height <= i32::MAX,
                chunk_x < chunk_count(width as int),
                chunk_y < chunk_count(height as int),
                local_y < 32,
                local_x <= 32,
                buf.len() == 2 * (local_y * 32 + local_x),
                dict_ok(key_dict@, def_to_key@),
                defs_used(grid@, def_to_key@),
                defs0.len() <= def_to_key@.len(),
                forall|i: int| 0 <= i < defs0.len() ==> #[trigger] def_to_key@[i] == defs0[i],
                buf_ok(
                    grid@,
                    buf@,
                    local_y * 32 + local_x,
                    chunk_x as int,
                    chunk_y as int,
                    def_to_key@,
                ),
            decreases 32 - local_x,
        {
            let x = chunk_x * 32 + local_x;
            let y = chunk_y * 32 + local_y;
            // Positions outside the grid are padded with Floor.
            let kind = if x <= 0x7fff_ffff && y <= 0x7fff_ffff {
                match grid.get_copy(IVec2::new(x as i32, y as i32)) {
                    Some(k) => k,
                    None => TileKind::Floor,
                }
            } else {
                TileKind::Floor
            };
            assert(kind == saved_kind(grid@, x as int, y as int));
            let ghost defs_before = def_to_key@;
            let ghost buf_before = buf@;
            let key = key_for_def(TileDef { kind }, key_dict, def_to_key)?;
            proof {
                assert(0 <= x < chunk_count(width as int) * 32);
                assert(0 <= y < chunk_count(height as int) * 32);
                assert(kind_in_saved_cells(grid@, kind));
                assert forall|ii: int| 0 <= ii < def_to_key@.len() implies kind_in_saved_cells(
                    grid@,
                    (#[trigger] def_to_key@[ii]).0.kind,
                ) by {
                    if ii < defs_before.len() {
                        assert(def_to_key@[ii] == defs_before[ii]);
                    }
                }
                lemma_buf_ok_grows(
                    grid@,
                    buf_before,
                    local_y * 32 + local_x,
                    chunk_x as int,
                    chunk_y as int,
                    defs_before,
                    def_to_key@,
                );
            }
            buf.push((key % 256) as u8);
            buf.push((key / 256) as u8);
            proof {
                let i = local_y * 32 + local_x;
                assert(le_key(buf@, i as int) == key);
                assert forall|ii: int| 0 <= ii < i + 1 implies {
                    &&& 0 <= #[trigger] le_key(buf@, ii) < def_to_key@.len()
                    &&& def_to_key@[le_key(buf@, ii)].0.kind == saved_kind(
                        grid@,
                        chunk_x * 32 + ii % 32,
                        chunk_y * 32 + ii / 32,
                    )
                } by {
                    if ii < i {
                        assert(buf@[2 * ii] == buf_before[2 * ii]);
                        assert(buf@[2 * ii + 1] == buf_before[2 * ii + 1]);
                        assert(le_key(buf@, ii) == le_key(buf_before, ii));
                    } else {
                        assert(ii % 32 == local_x);
                        assert(ii / 32 == local_y);
                    }
                }
            }
            local_x = local_x + 1;
        }
        local_y = local_y + 1;
    }
    Ok(buf)
}

/// Saves a grid as a tiles layer of 32×32 chunks.  Every chunk that
/// overlaps the grid is written; cells past the grid's edge are padded with
/// `Floor`.  Grids wider or taller than `i32::MAX` are refused.
pub fn save_tiles_layer(grid: &TileGrid<TileKind>) -> (r: Result<TilesLayerData, TilesLayerError>)
    ensures
        r is Ok <==> (grid@.width <= i32::MAX && grid@.height <= i32::MAX),
        !(grid@.width <= i32::MAX && grid@.height <= i32::MAX) ==> r == Err::<
            TilesLayerData,
            TilesLayerError,
        >(TilesLayerError::DimensionsExceedI32),
        r matches Ok(d) ==> saved_layer_of(grid@, &d),
{
    proof {
        use_type_invariant(grid);
    }
    proof {
        lemma_layer_keys_ordered();
    }
    let chunk_size = SAVE_CHUNK_SIZE;
    let width = grid.width();
    let height = grid.height();
    if width > 0x7fff_ffff || height > 0x7fff_ffff {
        return Err(TilesLayerError::DimensionsExceedI32);
    }
    let num_chunks_x = (width + 31) / 32;
    let num_chunks_y = (height + 31) / 32;
    let mut key_dict: BTreeMap<u16, TileDef> = BTreeMap::new();
    let mut def_to_key: Vec<(TileDef, u16)> = Vec::new();
    let mut chunks: BTreeMap<(i32, i32), String> = BTreeMap::new();
    let mut chunk_y: u32 = 0;
    while chunk_y < num_chunks_y
        invariant
            layer_keys_ordered(),
            grid@.wf(),
            width == grid@.width,
            height == grid@.height,
            width <= i32::MAX,
            height <= i32::MAX,
            num_chunks_x == chunk_count(width as int),
            num_chunks_y == chunk_count(height as int),
            chunk_y <= num_chunks_y,
            dict_ok(key_dict@, def_to_key@),
            defs_used(grid@, def_to_key@),
            forall|k: (i32, i32)| #[trigger]
                chunks@.contains_key(k) <==> (0 <= k.0 < num_chunks_x && 0 <= k.1 < chunk_y),
            forall|k: (i32, i32)| #[trigger]
                chunks@.contains_key(k) ==> saved_text_ok(grid@, chunks@[k]@, k.0 as int, k.1 as int, def_to_key@),
        decreases num_chunks_y - chunk_y,
    {
        let mut chunk_x: u32 = 0;
        while chunk_x < num_chunks_x
            invariant
                layer_keys_ordered(),
                grid@.wf(),
                width == grid@.width,
                height == grid@.height,
                width <= i32::MAX,
                height <= i32::MAX,
                num_chunks_x == chunk_count(width as int),
                num_chunks_y == chunk_count(height as int),
                chunk_y < num_chunks_y,
                chunk_x <= num_chunks_x,
                dict_ok(key_dict@, def_to_key@),
                defs_used(grid@, def_to_key@),
                forall|k: (i32, i32)| #[trigger]
                    chunks@.contains_key(k) <==> (0 <= k.0 < num_chunks_x && 0 <= k.1 < chunk_y) || (
                    k.1 == chunk_y && 0 <= k.0 < chunk_x),
                forall|k: (i32, i32)| #[trigger]
                    chunks@.contains_key(k) ==> saved_text_ok(grid@, chunks@[k]@, k.0 as int, k.1 as int, def_to_key@),
            decreases num_chunks_x - chunk_x,
        {
            let ghost defs_before = def_to_key@;
            let buf = encode_chunk(grid, chunk_x, chunk_y, &mut key_dict, &mut def_to_key)?;
            let text = base64_encode(buf.as_slice());
            let ghost chunks_before = chunks@;
            chunks.insert((chunk_x as i32, chunk_y as i32), text);
            proof {
                assert forall|k: (i32, i32)| #[trigger]
                    chunks@.contains_key(k) implies saved_text_ok(grid@, chunks@[k]@, k.0 as int, k.1 as int, def_to_key@) by {
                    if k != (chunk_x as i32, chunk_y as i32) {
                        let b = base64_decoding(chunks_before[k]@).unwrap();
                        lemma_buf_ok_grows(grid@, b, 1024, k.0 as int, k.1 as int, defs_before, def_to_key@);
                    }
                }
            }
            chunk_x = chunk_x + 1;
        }
        chunk_y = chunk_y + 1;
    }
    let data = TilesLayerData { chunk_size, keys: key_dict, chunks };
    proof {
        assert forall|key: u16| #[trigger] data.keys@.contains_key(key) implies kind_in_saved_cells(
            grid@,
            data.keys@[key].kind,
        ) by {
            let i = key as int;
            assert(i < def_to_key@.len());
            assert(i as u16 == key);
            assert(data.keys@[i as u16] == def_to_key@[i].0);
        }
        assert forall|k1: u16, k2: u16|
            #![trigger data.keys@[k1], data.keys@[k2]]
            data.keys@.contains_key(k1) && data.keys@.contains_key(k2) && k1 != k2 implies data.keys@[k1]
                != data.keys@[k2] by {
            let i1 = k1 as int;
            let i2 = k2 as int;
            assert(i1 < def_to_key@.len() && i2 < def_to_key@.len());
            assert(i1 as u16 == k1 && i2 as u16 == k2);
            assert(data.keys@[i1 as u16] == def_to_key@[i1].0);
            assert(data.keys@[i2 as u16] == def_to_key@[i2].0);
            if i1 < i2 {
                assert(def_to_key@[i1].0 != def_to_key@[i2].0);
            } else {
                assert(def_to_key@[i2].0 != def_to_key@[i1].0);
            }
        }
        assert forall|k: (i32, i32)| #[trigger] data.chunks@.contains_key(k) implies saved_chunk_ok(
            grid@,
            &data,
            k,
        ) by {
            let b = base64_decoding(data.chunks@[k]@).unwrap();
            assert forall|i: int| 0 <= i < 1024 implies {
                &&& #[trigger] data.keys@.contains_key(le_key(b, i) as u16)
                &&& data.keys@[le_key(b, i) as u16].kind == saved_kind(
                    grid@,
                    k.0 * 32 + i % 32,
                    k.1 * 32 + i / 32,
                )
            } by {
                let kk = le_key(b, i);
                assert(0 <= kk < def_to_key@.len());
                assert(data.keys@[kk as u16] == def_to_key@[kk].0);
            }
        }
    }
    Ok(data)
}

/// What loading `d` gives back of `g`: a grid padded with `Floor` to whole
/// 32×32 chunks (empty when `g` has no cells), in which every cell of `g`
/// reads the same.
pub open spec fn loads_back(g: GridView<TileKind>, d: &TilesLayerData, g2: GridView<TileKind>) -> bool {
    &&& (g.width > 0 && g.height > 0 ==> g2.width == chunk_count(g.width as int) * 32 && g2.height
        == chunk_count(g.height as int) * 32)
    &&& (!(g.width > 0 && g.height > 0) ==> g2.width == 0 && g2.height == 0)
    &&& forall|x: int, y: int| #[trigger] g.in_bounds(x, y) ==> g2.cell(x, y) == g.cell(x, y)
    &&& forall|x: int, y: int|
        #[trigger] g2.in_bounds(x, y) && !g.in_bounds(x, y) ==> g2.cell(x, y) == Some(
            TileKind::Floor,
        )
}

/// Loading what saving a grid produced gives the grid back: the saved layer
/// is valid, so loading it succeeds (`load_tiles_layer` succeeds exactly on
/// valid layers), and the grid it loads is the saved grid padded with
/// `Floor` to whole 32×32 chunks, every cell of the saved grid reading the
/// same.  (A grid with no cells saves to no chunks and loads as an empty
/// map.)  The padded size must stay within `i32` and its tile count within
/// `usize`, as the loader checks.
pub proof fn lemma_tiles_layer_round_trip(g: GridView<TileKind>, d: &TilesLayerData)
    requires
        g.wf(),
        saved_layer_of(g, d),
        chunk_count(g.width as int) * 32 <= i32::MAX,
        chunk_count(g.height as int) * 32 <= i32::MAX,
        (chunk_count(g.width as int) * 32) * (chunk_count(g.height as int) * 32) <= usize::MAX,
    ensures
        layer_valid(d),
        forall|g2: GridView<TileKind>| #[trigger] loaded_grid_of(d, g2) ==> loads_back(g, d, g2),
{
    let ncx = chunk_count(g.width as int);
    let ncy = chunk_count(g.height as int);
    if g.width > 0 && g.height > 0 {
        assert(d.chunks@.contains_key((0i32, 0i32)));
        assert(d.chunks@.contains_key(((ncx - 1) as i32, 0i32)));
        assert(d.chunks@.contains_key((0i32, (ncy - 1) as i32)));
        assert(is_max_chunk_x(d.chunks@, ncx - 1));
        assert(is_max_chunk_y(d.chunks@, ncy - 1));
        lemma_max_chunk_x_unique(d.chunks@, ncx - 1);
        lemma_max_chunk_y_unique(d.chunks@, ncy - 1);
        assert(!d.chunks@.is_empty());
        assert forall|k: (i32, i32)| #[trigger] d.chunks@.contains_key(k) implies chunk_is_valid(
            d,
            k,
        ) by {
            assert(saved_chunk_ok(g, d, k));
            let b = base64_decoding(d.chunks@[k]@).unwrap();
            assert forall|i: int| 0 <= i < 32 * 32 implies #[trigger] d.keys@.contains_key(
                le_key(b, i) as u16,
            ) by {
                assert(d.keys@.contains_key(le_key(b, i) as u16));
            }
        }
        assert(!has_negative_chunk(d.chunks@));
        assert(layer_valid(d));
        assert forall|g2: GridView<TileKind>| #[trigger] loaded_grid_of(d, g2) implies loads_back(
            g,
            d,
            g2,
        ) by {
            assert forall|x: int, y: int| #[trigger] g2.in_bounds(x, y) implies g2.cell(x, y)
                == Some(saved_kind(g, x, y)) by {
                let k = ((x / 32) as i32, (y / 32) as i32);
                assert(d.chunks@.contains_key(k));
                assert(saved_chunk_ok(g, d, k));
                let b = base64_decoding(d.chunks@[k]@).unwrap();
                let i = (y % 32) * 32 + x % 32;
                assert(0 <= i < 1024);
                assert(i % 32 == x % 32);
                assert(i / 32 == y % 32);
                assert(k.0 * 32 + i % 32 == x);
                assert(k.1 * 32 + i / 32 == y);
                assert(d.keys@.contains_key(le_key(b, i) as u16));
                assert(d.keys@[le_key(b, i) as u16].kind == saved_kind(g, x, y));
                assert(g2.cell(x, y) == Some(loaded_kind(d, x, y)));
            }
            assert forall|x: int, y: int| #[trigger] g.in_bounds(x, y) implies g2.cell(x, y)
                == g.cell(x, y) by {
                assert(g2.in_bounds(x, y));
            }
        }
    } else {
        assert forall|k: (i32, i32)| !#[trigger] d.chunks@.contains_key(k) by {}
        assert(d.chunks@.dom() =~= Set::empty());
        assert forall|g2: GridView<TileKind>| #[trigger] loaded_grid_of(d, g2) implies loads_back(
            g,
            d,
            g2,
        ) by {
            assert forall|x: int, y: int| #[trigger] g.in_bounds(x, y) implies g2.cell(x, y)
                == g.cell(x, y) by {}
        }
    }
}

impl TilesLayerError {
    /// The error as text.
    pub fn message(&self) -> (r: String)
        ensures
            r@ == tiles_error_text(*self),
    {
        match self {
            TilesLayerError::ZeroChunkSize => String::from_str(
                "tiles layer: chunk_size must be greater than 0",
            ),
            TilesLayerError::ChunkAreaOverflow => String::from_str(
                "tiles layer: chunk_size is too large (chunk_size² overflows usize)",
            ),
            TilesLayerError::ChunkSizeTooLarge => String::from_str(
                "tiles layer: chunk_size is too large (chunk_size² × 2 overflows usize)",
            ),
            TilesLayerError::NegativeChunkCoordinate { x, y } => {
                let mut s = String::from_str("tiles layer: negative chunk coordinate (");
                push_decimal(&mut s, *x as i64);
                s.append(",");
                push_decimal(&mut s, *y as i64);
                s.append(") is not supported");
                s
            },
            TilesLayerError::DimensionsOverflow => String::from_str(
                "tiles layer: map dimensions overflow u32",
            ),
            TilesLayerError::ChunkSizeExceedsI32 => String::from_str(
                "tiles layer: chunk_size exceeds i32 range",
            ),
            TilesLayerError::DimensionsExceedI32 => String::from_str(
                "tiles layer: map dimensions exceed i32 range",
            ),
            TilesLayerError::TileCountOverflow => String::from_str(
                "tiles layer: total tile count overflows usize",
            ),
            TilesLayerError::ChunkDecode { x, y, detail } => {
                let mut s = String::from_str("tiles layer: chunk (");
                push_decimal(&mut s, *x as i64);
                s.append(",");
                push_decimal(&mut s, *y as i64);
                s.append(") base64 decode failed: ");
                s.append(detail.as_str());
                s
            },
            TilesLayerError::ChunkLength { x, y, actual, expected, chunk_size } => {
                let mut s = String::from_str("tiles layer: chunk (");
                push_decimal(&mut s, *x as i64);
                s.append(",");
                push_decimal(&mut s, *y as i64);
                s.append(") has ");
                push_decimal_nat(&mut s, *actual as u64);
                s.append(" bytes, expected ");
                push_decimal_nat(&mut s, *expected as u64);
                s.append(" (chunk_size=");
                push_decimal(&mut s, *chunk_size as i64);
                s.append(")");
                s
            },
            TilesLayerError::UnknownKey { x, y, key } => {
                let mut s = String::from_str("tiles layer: chunk (");
                push_decimal(&mut s, *x as i64);
                s.append(",");
                push_decimal(&mut s, *y as i64);
                s.append(") references unknown key ");
                push_decimal(&mut s, *key as i64);
                s
            },
            TilesLayerError::TooManyTileConfigurations => String::from_str(
                "tiles layer: too many unique tile configurations (limit: 65536)",
            ),
        }
    }
}

/// The text of a tiles-layer error.
pub open spec fn tiles_error_text(e: TilesLayerError) -> Seq<char> {
    match e {
        TilesLayerError::ZeroChunkSize => "tiles layer: chunk_size must be greater than 0"@,
        TilesLayerError::ChunkAreaOverflow =>
            "tiles layer: chunk_size is too large (chunk_size² overflows usize)"@,
        TilesLayerError::ChunkSizeTooLarge =>
            "tiles layer: chunk_size is too large (chunk_size² × 2 overflows usize)"@,
        TilesLayerError::NegativeChunkCoordinate { x, y } => "tiles layer: negative chunk coordinate ("@
            + decimal(x as int) + ","@ + decimal(y as int) + ") is not supported"@,
        TilesLayerError::DimensionsOverflow => "tiles layer: map dimensions overflow u32"@,
        TilesLayerError::ChunkSizeExceedsI32 => "tiles layer: chunk_size exceeds i32 range"@,
        TilesLayerError::DimensionsExceedI32 => "tiles layer: map dimensions exceed i32 range"@,
        TilesLayerError::TileCountOverflow => "tiles layer: total tile count overflows usize"@,
        TilesLayerError::ChunkDecode { x, y, detail } => "tiles layer: chunk ("@ + decimal(x as int)
            + ","@ + decimal(y as int) + ") base64 decode failed: "@ + detail@,
        TilesLayerError::ChunkLength { x, y, actual, expected, chunk_size } =>
            "tiles layer: chunk ("@ + decimal(x as int) + ","@ + decimal(y as int) + ") has "@
            + decimal_nat(actual as nat) + " bytes, expected "@ + decimal_nat(expected as nat)
            + " (chunk_size="@ + decimal(chunk_size as int) + ")"@,
        TilesLayerError::UnknownKey { x, y, key } => "tiles layer: chunk ("@ + decimal(x as int)
            + ","@ + decimal(y as int) + ") references unknown key "@ + decimal(key as int),
        TilesLayerError::TooManyTileConfigurations =>
            "tiles layer: too many unique tile configurations (limit: 65536)"@,
    }
}

} // verus!
