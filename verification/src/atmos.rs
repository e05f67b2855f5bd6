//! Atmosphere map layer: regions of tiles that are pressurised or in
//! vacuum, how they resolve into per-tile overrides, which tiles start with
//! gas, and which tiles a saved layer lists as vacuum.  The gas simulation
//! itself works on floating-point amounts and lives with the caller.
use std::collections::BTreeMap;
use vstd::prelude::*;

use crate::codec::{base64_decode, base64_decode_result, base64_decoding};
use crate::key_order::{layer_keys_ordered, lemma_layer_keys_ordered};
use crate::text::{decimal_nat, push_decimal_nat};
use crate::tiles::{GridView, IVec2, TileGrid, TileKind};
use vstd::arithmetic::div_mod::lemma_fundamental_div_mod_converse;

verus! {

broadcast use vstd::std_specs::btree::group_btree_axioms;

/// Stream tag of the server-to-client atmospherics stream.
pub const ATMOS_STREAM_TAG: u8 = 2;

/// Atmosphere state of a tile.
#[derive(Debug, Clone, Copy, PartialEq, Eq, Hash, Structural)]
pub enum Atmo {
    Pressurised,
    Vacuum,
}

/// A set of tiles that share one atmosphere state.
#[derive(Debug)]
pub enum AtmosRegion {
    /// Every tile from `min` to `max`, both inclusive.
    Rect { min: (i32, i32), max: (i32, i32) },
    /// The listed tiles.
    Cells(Vec<(i32, i32)>),
    /// A square of `size` by `size` tiles from `origin`, one bit per tile in
    /// base64 text: row-major, least significant bit first in each byte.
    Bitmap { origin: (i32, i32), size: u32, data: String },
}

/// The atmosphere layer of a map: the regions of each state.  Regions
/// apply in order, pressurised ones first, so a tile in both ends up in
/// vacuum.
#[derive(Debug)]
pub struct AtmosLayerData {
    pub pressurised: Vec<AtmosRegion>,
    pub vacuum: Vec<AtmosRegion>,
}

/// Why the atmosphere layer could not be read.
#[derive(Debug, Clone, PartialEq, Eq)]
pub enum AtmosLayerError {
    /// A bitmap is not valid base64; `detail` is the decoder's message.
    BitmapDecode { detail: String },
    /// A bitmap decodes to the wrong number of bytes.
    BitmapLength { actual: usize, expected: u64 },
}

/// An atmosphere-layer error as specifications see it: texts by their
/// characters.
pub enum AtmosErrorView {
    BitmapDecode(Seq<char>),
    BitmapLength { actual: usize, expected: u64 },
}

impl View for AtmosLayerError {
    type V = AtmosErrorView;

    open spec fn view(&self) -> AtmosErrorView {
        match self {
            AtmosLayerError::BitmapDecode { detail } => AtmosErrorView::BitmapDecode(detail@),
            AtmosLayerError::BitmapLength { actual, expected } => AtmosErrorView::BitmapLength {
                actual: *actual,
                expected: *expected,
            },
        }
    }
}

/// The bytes a `size` by `size` bitmap takes.
pub open spec fn bitmap_bytes(size: u32) -> int {
    (size * size + 7) / 8
}

/// Whether bit `idx` of `bytes` is set, least significant bit first.
pub open spec fn bit_is_set(bytes: Seq<u8>, idx: int) -> bool {
    bytes[idx / 8] & (1u8 << ((idx % 8) as u8)) != 0
}

/// Whether `k` lies in the rectangle from `min` to `max`.
pub open spec fn in_rect(k: (i32, i32), min: (i32, i32), max: (i32, i32)) -> bool {
    min.0 <= k.0 <= max.0 && min.1 <= k.1 <= max.1
}

/// Whether the bitmap at `origin` marks `k`.
pub open spec fn in_bitmap(k: (i32, i32), origin: (i32, i32), size: u32, bytes: Seq<u8>) -> bool {
    let lx = k.0 - origin.0;
    let ly = k.1 - origin.1;
    0 <= lx < size && 0 <= ly < size && bit_is_set(bytes, ly * size + lx)
}

/// `m` with every tile of the rectangle set to `state`.
pub open spec fn paint_rect(
    m: Map<(i32, i32), Atmo>,
    min: (i32, i32),
    max: (i32, i32),
    state: Atmo,
) -> Map<(i32, i32), Atmo> {
    Map::new(
        |k: (i32, i32)| m.contains_key(k) || in_rect(k, min, max),
        |k: (i32, i32)| if in_rect(k, min, max) { state } else { m[k] },
    )
}

/// `m` with every tile the bitmap marks set to `state`.
pub open spec fn paint_bitmap(
    m: Map<(i32, i32), Atmo>,
    origin: (i32, i32),
    size: u32,
    bytes: Seq<u8>,
    state: Atmo,
) -> Map<(i32, i32), Atmo> {
    Map::new(
        |k: (i32, i32)| m.contains_key(k) || in_bitmap(k, origin, size, bytes),
        |k: (i32, i32)| if in_bitmap(k, origin, size, bytes) { state } else { m[k] },
    )
}

/// `m` with each listed tile set to `state`.
pub open spec fn paint_cells(m: Map<(i32, i32), Atmo>, cs: Seq<(i32, i32)>, state: Atmo) -> Map<
    (i32, i32),
    Atmo,
>
    decreases cs.len(),
{
    if cs.len() == 0 {
        m
    } else {
        paint_cells(m, cs.drop_last(), state).insert(cs.last(), state)
    }
}

/// `m` after one region of `state`, or why the region is unreadable.
pub open spec fn apply_region(m: Map<(i32, i32), Atmo>, state: Atmo, r: AtmosRegion) -> Result<
    Map<(i32, i32), Atmo>,
    AtmosErrorView,
> {
    match r {
        AtmosRegion::Rect { min, max } => Ok(paint_rect(m, min, max, state)),
        AtmosRegion::Cells(cs) => Ok(paint_cells(m, cs@, state)),
        AtmosRegion::Bitmap { origin, size, data } => match base64_decode_result(data@) {
            Err(msg) => Err(AtmosErrorView::BitmapDecode(msg)),
            Ok(b) => if b.len() != bitmap_bytes(size) {
                Err(
                    AtmosErrorView::BitmapLength {
                        actual: b.len() as usize,
                        expected: bitmap_bytes(size) as u64,
                    },
                )
            } else {
                Ok(paint_bitmap(m, origin, size, b, state))
            },
        },
    }
}

/// `m` after the regions `rs` of `state`, in order.
pub open spec fn apply_regions(m: Map<(i32, i32), Atmo>, state: Atmo, rs: Seq<AtmosRegion>) -> Result<
    Map<(i32, i32), Atmo>,
    AtmosErrorView,
>
    decreases rs.len(),
{
    if rs.len() == 0 {
        Ok(m)
    } else {
        match apply_regions(m, state, rs.drop_last()) {
            Err(e) => Err(e),
            Ok(m1) => apply_region(m1, state, rs.last()),
        }
    }
}

/// The per-tile overrides a layer describes: pressurised regions first,
/// then vacuum ones.
pub open spec fn overrides_of(data: AtmosLayerData) -> Result<Map<(i32, i32), Atmo>, AtmosErrorView> {
    match apply_regions(Map::empty(), Atmo::Pressurised, data.pressurised@) {
        Err(e) => Err(e),
        Ok(m) => apply_regions(m, Atmo::Vacuum, data.vacuum@),
    }
}

/// Whether the bit of local tile `(lx, ly)` of a `size`-wide bitmap is set.
pub open spec fn pixel_set(bytes: Seq<u8>, size: u32, lx: int, ly: int) -> bool {
    bit_is_set(bytes, ly * size + lx)
}

/// Every tile the bitmap at `origin` marks has `i32` coordinates.
pub open spec fn bitmap_fits(origin: (i32, i32), size: u32, bytes: Seq<u8>) -> bool {
    forall|lx: int, ly: int|
        0 <= lx < size && 0 <= ly < size && #[trigger] pixel_set(bytes, size, lx, ly) ==> origin.0 + lx
            <= i32::MAX && origin.1 + ly <= i32::MAX
}

/// The bytes of a bitmap's text, when it is valid base64 of the right
/// length.
pub open spec fn decoded_bitmap(size: u32, data: String) -> Option<Seq<u8>> {
    match base64_decoding(data@) {
        Some(b) => if b.len() == bitmap_bytes(size) {
            Some(b)
        } else {
            None
        },
        None => None,
    }
}

/// Whether a region can be read: every region but a bitmap with bad text.
pub open spec fn region_readable(r: AtmosRegion) -> bool {
    match r {
        AtmosRegion::Bitmap { size, data, .. } => decoded_bitmap(size, data) is Some,
        _ => true,
    }
}

/// Whether painting a region stays within `i32` coordinates: a readable
/// bitmap marks no tile beyond them.
pub open spec fn region_fits(r: AtmosRegion) -> bool {
    match r {
        AtmosRegion::Bitmap { origin, size, data } => match decoded_bitmap(size, data) {
            Some(b) => bitmap_fits(origin, size, b),
            None => true,
        },
        _ => true,
    }
}

/// Whether every region of `rs` can be read.
pub open spec fn all_readable(rs: Seq<AtmosRegion>) -> bool
    decreases rs.len(),
{
    rs.len() == 0 || (all_readable(rs.drop_last()) && region_readable(rs.last()))
}

/// Whether applying `rs` in order stays within `i32` coordinates: every
/// region reached (all before it readable) fits.
pub open spec fn regions_fit(rs: Seq<AtmosRegion>) -> bool
    decreases rs.len(),
{
    rs.len() == 0 || (regions_fit(rs.drop_last()) && (all_readable(rs.drop_last()) ==> region_fits(
        rs.last(),
    )))
}

/// Whether reading the layer stays within `i32` coordinates: the
/// pressurised regions, and the vacuum ones if the pressurised ones all
/// read.
pub open spec fn layer_fits(data: AtmosLayerData) -> bool {
    regions_fit(data.pressurised@) && (all_readable(data.pressurised@) ==> regions_fit(data.vacuum@))
}

/// Sets every tile of the rectangle to `state`.
fn paint_rect_into(m: &mut BTreeMap<(i32, i32), Atmo>, min: (i32, i32), max: (i32, i32), state: Atmo)
    requires
        layer_keys_ordered(),
    ensures
        final(m)@ == paint_rect(old(m)@, min, max, state),
{
    let ghost m0 = m@;
    let mut y: i64 = min.1 as i64;
    while y <= max.1 as i64
        invariant
            layer_keys_ordered(),
            min.1 <= y,
            forall|k: (i32, i32)| #[trigger]
                m@.contains_key(k) == (m0.contains_key(k) || (in_rect(k, min, max) && k.1 < y)),
            forall|k: (i32, i32)|
                #[trigger] m@.contains_key(k) ==> m@[k] == if in_rect(k, min, max) && k.1 < y {
                    state
                } else {
                    m0[k]
                },
        decreases max.1 as i64 + 1 - y,
    {
        let mut x: i64 = min.0 as i64;
        while x <= max.0 as i64
            invariant
                layer_keys_ordered(),
                min.1 <= y <= max.1,
                min.0 <= x,
                forall|k: (i32, i32)| #[trigger]
                    m@.contains_key(k) == (m0.contains_key(k) || (in_rect(k, min, max) && (k.1 < y
                        || (k.1 == y && k.0 < x)))),
                forall|k: (i32, i32)|
                    #[trigger] m@.contains_key(k) ==> m@[k] == if in_rect(k, min, max) && (k.1 < y
                        || (k.1 == y && k.0 < x)) {
                        state
                    } else {
                        m0[k]
                    },
            decreases max.0 as i64 + 1 - x,
        {
            m.insert((x as i32, y as i32), state);
            x = x + 1;
        }
        y = y + 1;
    }
    assert(m@ =~= paint_rect(m0, min, max, state));
}

/// Sets each listed tile to `state`, in order.
fn paint_cells_into(m: &mut BTreeMap<(i32, i32), Atmo>, cells: &Vec<(i32, i32)>, state: Atmo)
    requires
        layer_keys_ordered(),
    ensures
        final(m)@ == paint_cells(old(m)@, cells@, state),
{
    let ghost m0 = m@;
    let mut i: usize = 0;
    while i < cells.len()
        invariant
            layer_keys_ordered(),
            i <= cells@.len(),
            m@ == paint_cells(m0, cells@.take(i as int), state),
        decreases cells@.len() - i,
    {
        m.insert(cells[i], state);
        proof {
            let t = cells@.take(i as int + 1);
            assert(t.drop_last() =~= cells@.take(i as int));
            assert(t.last() == cells@[i as int]);
        }
        i = i + 1;
    }
    assert(cells@.take(i as int) =~= cells@);
}

/// Bit `idx` of `bytes`.
fn bit_at(bytes: &Vec<u8>, idx: u64) -> (r: bool)
    requires
        idx / 8 < bytes@.len(),
    ensures
        r == bit_is_set(bytes@, idx as int),
{
    let len: usize = bytes.len();
    assert(idx / 8 < len);
    let byte_idx = (idx / 8) as usize;
    let bit_off: u8 = (idx % 8) as u8;
    assert(byte_idx as int == idx as int / 8);
    assert(bit_off == ((idx as int % 8) as u8));
    let byte: u8 = bytes[byte_idx];
    assert(byte == bytes@[idx as int / 8]);
    byte & (1u8 << bit_off) != 0
}

/// Sets every tile the bitmap marks to `state`.
fn paint_bitmap_into(
    m: &mut BTreeMap<(i32, i32), Atmo>,
    origin: (i32, i32),
    size: u32,
    bytes: &Vec<u8>,
    state: Atmo,
)
    requires
        layer_keys_ordered(),
        bytes@.len() == bitmap_bytes(size),
        bitmap_fits(origin, size, bytes@),
    ensures
        final(m)@ == paint_bitmap(old(m)@, origin, size, bytes@, state),
{
    let ghost m0 = m@;
    let ghost b = bytes@;
    let n: u64 = size as u64;
    let mut ly: u64 = 0;
    while ly < n
        invariant
            layer_keys_ordered(),
            b == bytes@,
            n == size,
            bytes@.len() == bitmap_bytes(size),
            bitmap_fits(origin, size, b),
            ly <= n,
            forall|k: (i32, i32)| #[trigger]
                m@.contains_key(k) == (m0.contains_key(k) || (in_bitmap(k, origin, size, b) && k.1
                    - origin.1 < ly)),
            forall|k: (i32, i32)|
                #[trigger] m@.contains_key(k) ==> m@[k] == if in_bitmap(k, origin, size, b) && k.1
                    - origin.1 < ly {
                    state
                } else {
                    m0[k]
                },
        decreases n - ly,
    {
        let mut lx: u64 = 0;
        while lx < n
            invariant
                layer_keys_ordered(),
                b == bytes@,
                n == size,
                bytes@.len() == bitmap_bytes(size),
                bitmap_fits(origin, size, b),
                ly < n,
                lx <= n,
                forall|k: (i32, i32)| #[trigger]
                    m@.contains_key(k) == (m0.contains_key(k) || (in_bitmap(k, origin, size, b) && (k.1
                        - origin.1 < ly || (k.1 - origin.1 == ly && k.0 - origin.0 < lx)))),
                forall|k: (i32, i32)|
                    #[trigger] m@.contains_key(k) ==> m@[k] == if in_bitmap(k, origin, size, b) && (
                    k.1 - origin.1 < ly || (k.1 - origin.1 == ly && k.0 - origin.0 < lx)) {
                        state
                    } else {
                        m0[k]
                    },
            decreases n - lx,
        {
            assert(ly * n + lx < n * n) by (nonlinear_arith)
                requires
                    ly < n,
                    lx < n,
            ;
            assert(n * n <= 0xffff_fffe_0000_0001) by (nonlinear_arith)
                requires
                    n <= 0xffff_ffff,
            ;
            let idx: u64 = ly * n + lx;
            assert(idx / 8 < (n * n + 7) / 8) by (nonlinear_arith)
                requires
                    idx < n * n,
            ;
            if bit_at(bytes, idx) {
                assert(pixel_set(b, size, lx as int, ly as int));
                let k: (i32, i32) = ((origin.0 as i64 + lx as i64) as i32, (origin.1 as i64
                    + ly as i64) as i32);
                m.insert(k, state);
                proof {
                    assert(k.0 - origin.0 == lx && k.1 - origin.1 == ly);
                    assert(in_bitmap(k, origin, size, b));
                }
            } else {
                proof {
                    assert forall|k: (i32, i32)|
                        k.0 - origin.0 == lx && k.1 - origin.1 == ly implies !#[trigger] in_bitmap(
                        k,
                        origin,
                        size,
                        b,
                    ) by {
                        assert((k.1 - origin.1) * size + (k.0 - origin.0) == idx);
                    }
                }
            }
            lx = lx + 1;
        }
        ly = ly + 1;
    }
    assert(m@ =~= paint_bitmap(m0, origin, size, b, state));
}

/// Applies one region of `state` to `m`.
fn apply_region_into(m: &mut BTreeMap<(i32, i32), Atmo>, state: Atmo, r: &AtmosRegion) -> (res: Result<
    (),
    AtmosLayerError,
>)
    requires
        layer_keys_ordered(),
        region_fits(*r),
    ensures
        match res {
            Ok(()) => apply_region(old(m)@, state, *r) == Ok::<Map<(i32, i32), Atmo>, AtmosErrorView>(final(m)@),
            Err(e) => apply_region(old(m)@, state, *r) == Err::<Map<(i32, i32), Atmo>, AtmosErrorView>(e@),
        },
{
    match r {
        AtmosRegion::Rect { min, max } => {
            paint_rect_into(m, *min, *max, state);
            Ok(())
        },
        AtmosRegion::Cells(cells) => {
            paint_cells_into(m, cells, state);
            Ok(())
        },
        AtmosRegion::Bitmap { origin, size, data } => {
            let bytes = match base64_decode(data.as_str()) {
                Ok(b) => b,
                Err(detail) => {
                    return Err(AtmosLayerError::BitmapDecode { detail });
                },
            };
            apply_bitmap_bytes(m, *origin, *size, &bytes, state)
        },
    }
}

/// Applies a bitmap region of `state` to `m` from the bytes its text
/// decodes to: bytes of the wrong length for a `size` by `size` bitmap are
/// `BitmapLength` and leave `m` as it was; otherwise every tile the bitmap
/// marks is set to `state`.
pub fn apply_bitmap_bytes(
    m: &mut BTreeMap<(i32, i32), Atmo>,
    origin: (i32, i32),
    size: u32,
    bytes: &Vec<u8>,
    state: Atmo,
) -> (res: Result<(), AtmosLayerError>)
    requires
        bytes@.len() == bitmap_bytes(size) ==> bitmap_fits(origin, size, bytes@),
    ensures
        (res is Err) <==> bytes@.len() != bitmap_bytes(size),
        res matches Err(e) ==> (e == AtmosLayerError::BitmapLength {
            actual: bytes@.len() as usize,
            expected: bitmap_bytes(size) as u64,
        }) && final(m)@ == old(m)@,
        res is Ok ==> final(m)@ == paint_bitmap(old(m)@, origin, size, bytes@, state),
{
    proof {
        lemma_layer_keys_ordered();
    }
    let n: u64 = size as u64;
    assert(n * n <= 0xffff_fffe_0000_0001) by (nonlinear_arith)
        requires
            n <= 0xffff_ffff,
    ;
    let expected: u64 = (n * n + 7) / 8;
    if bytes.len() as u64 != expected {
        return Err(AtmosLayerError::BitmapLength { actual: bytes.len(), expected });
    }
    paint_bitmap_into(m, origin, size, bytes, state);
    Ok(())
}

/// Applies the regions of `state` to `m`, in order, stopping at the first
/// unreadable one.
fn apply_regions_into(m: &mut BTreeMap<(i32, i32), Atmo>, state: Atmo, rs: &Vec<AtmosRegion>) -> (res:
    Result<(), AtmosLayerError>)
    requires
        layer_keys_ordered(),
        regions_fit(rs@),
    ensures
        match res {
            Ok(()) => apply_regions(old(m)@, state, rs@) == Ok::<Map<(i32, i32), Atmo>, AtmosErrorView>(final(m)@),
            Err(e) => apply_regions(old(m)@, state, rs@) == Err::<Map<(i32, i32), Atmo>, AtmosErrorView>(e@),
        },
{
    let ghost m0 = m@;
    let mut i: usize = 0;
    while i < rs.len()
        invariant
            layer_keys_ordered(),
            regions_fit(rs@),
            m0 == old(m)@,
            i <= rs@.len(),
            apply_regions(m0, state, rs@.take(i as int)) == Ok::<Map<(i32, i32), Atmo>, AtmosErrorView>(m@),
        decreases rs@.len() - i,
    {
        proof {
            let t = rs@.take(i as int + 1);
            assert(t.drop_last() =~= rs@.take(i as int));
            assert(t.last() == rs@[i as int]);
            lemma_applied_regions_readable(m0, state, rs@.take(i as int));
            lemma_regions_fit_at(rs@, i as int);
        }
        let ghost before = m@;
        match apply_region_into(m, state, &rs[i]) {
            Ok(()) => {},
            Err(e) => {
                proof {
                    let t = rs@.take(i as int + 1);
                    assert(apply_regions(m0, state, t.drop_last()) == Ok::<Map<(i32, i32), Atmo>, AtmosErrorView>(before));
                    assert(apply_regions(m0, state, t) == Err::<Map<(i32, i32), Atmo>, AtmosErrorView>(e@));
                    lemma_apply_regions_err_stays(m0, state, rs@, i as int + 1);
                }
                return Err(e);
            },
        }
        i = i + 1;
    }
    assert(rs@.take(i as int) =~= rs@);
    Ok(())
}

/// Once a prefix of the regions is unreadable, so is the whole list, with
/// the same error.
proof fn lemma_apply_regions_err_stays(m: Map<(i32, i32), Atmo>, state: Atmo, rs: Seq<AtmosRegion>, n: int)
    requires
        0 <= n <= rs.len(),
        apply_regions(m, state, rs.take(n)) is Err,
    ensures
        apply_regions(m, state, rs) == apply_regions(m, state, rs.take(n)),
    decreases rs.len() - n,
{
    if n < rs.len() {
        let t = rs.take(n + 1);
        assert(t.drop_last() =~= rs.take(n));
        lemma_apply_regions_err_stays(m, state, rs, n + 1);
    } else {
        assert(rs.take(n) =~= rs);
    }
}

/// A region reached after readable ones fits when the list fits.
proof fn lemma_regions_fit_at(rs: Seq<AtmosRegion>, i: int)
    requires
        0 <= i < rs.len(),
        regions_fit(rs),
        all_readable(rs.take(i)),
    ensures
        region_fits(rs[i]),
    decreases rs.len(),
{
    if i == rs.len() - 1 {
        assert(rs.take(i) =~= rs.drop_last());
    } else {
        let init = rs.drop_last();
        assert(init.take(i) =~= rs.take(i));
        assert(init[i] == rs[i]);
        lemma_regions_fit_at(init, i);
    }
}

/// Regions that apply without error are all readable.
proof fn lemma_applied_regions_readable(m: Map<(i32, i32), Atmo>, state: Atmo, rs: Seq<AtmosRegion>)
    requires
        apply_regions(m, state, rs) is Ok,
    ensures
        all_readable(rs),
    decreases rs.len(),
{
    if rs.len() > 0 {
        lemma_applied_regions_readable(m, state, rs.drop_last());
    }
}

/// Whether every tile the bitmap marks has `i32` coordinates.
fn bitmap_fits_check(origin: (i32, i32), size: u32, bytes: &Vec<u8>) -> (r: bool)
    requires
        bytes@.len() == bitmap_bytes(size),
    ensures
        r == bitmap_fits(origin, size, bytes@),
{
    let ghost b = bytes@;
    if origin.0 as i64 + size as i64 <= 0x8000_0000 && origin.1 as i64 + size as i64 <= 0x8000_0000 {
        return true;
    }
    let n: u64 = size as u64;
    let mut ly: u64 = 0;
    while ly < n
        invariant
            b == bytes@,
            n == size,
            bytes@.len() == bitmap_bytes(size),
            ly <= n,
            forall|lx: int, y: int|
                0 <= lx < size && 0 <= y < ly && #[trigger] pixel_set(b, size, lx, y) ==> origin.0 + lx
                    <= i32::MAX && origin.1 + y <= i32::MAX,
        decreases n - ly,
    {
        let mut lx: u64 = 0;
        while lx < n
            invariant
                b == bytes@,
                n == size,
                bytes@.len() == bitmap_bytes(size),
                ly < n,
                lx <= n,
                forall|x: int, y: int|
                    0 <= x < size && 0 <= y < size && (y < ly || (y == ly && x < lx)) && #[trigger] pixel_set(
                        b,
                        size,
                        x,
                        y,
                    ) ==> origin.0 + x <= i32::MAX && origin.1 + y <= i32::MAX,
            decreases n - lx,
        {
            assert(ly * n + lx < n * n) by (nonlinear_arith)
                requires
                    ly < n,
                    lx < n,
            ;
            assert(n * n <= 0xffff_fffe_0000_0001) by (nonlinear_arith)
                requires
                    n <= 0xffff_ffff,
            ;
            let idx: u64 = ly * n + lx;
            assert(idx / 8 < (n * n + 7) / 8) by (nonlinear_arith)
                requires
                    idx < n * n,
            ;
            if bit_at(bytes, idx) {
                assert(pixel_set(b, size, lx as int, ly as int));
                if origin.0 as i64 + lx as i64 > 0x7fff_ffff || origin.1 as i64 + ly as i64 > 0x7fff_ffff {
                    return false;
                }
            }
            lx = lx + 1;
        }
        ly = ly + 1;
    }
    true
}

/// Whether a region can be read, and whether it fits.
fn region_check(r: &AtmosRegion) -> (res: (bool, bool))
    ensures
        res.0 == region_readable(*r),
        res.1 == region_fits(*r),
{
    match r {
        AtmosRegion::Bitmap { origin, size, data } => {
            let bytes = match base64_decode(data.as_str()) {
                Ok(b) => b,
                Err(_) => {
                    return (false, true);
                },
            };
            let n: u64 = *size as u64;
            assert(n * n <= 0xffff_fffe_0000_0001) by (nonlinear_arith)
                requires
                    n <= 0xffff_ffff,
            ;
            let expected: u64 = (n * n + 7) / 8;
            if bytes.len() as u64 != expected {
                return (false, true);
            }
            (true, bitmap_fits_check(*origin, *size, &bytes))
        },
        _ => (true, true),
    }
}

/// Whether the regions all read, and whether applying them fits.
fn regions_check(rs: &Vec<AtmosRegion>) -> (res: (bool, bool))
    ensures
        res.0 == all_readable(rs@),
        res.1 == regions_fit(rs@),
{
    let mut readable = true;
    let mut fits = true;
    let mut i: usize = 0;
    while i < rs.len()
        invariant
            i <= rs@.len(),
            readable == all_readable(rs@.take(i as int)),
            fits == regions_fit(rs@.take(i as int)),
        decreases rs@.len() - i,
    {
        let (r_readable, r_fits) = region_check(&rs[i]);
        proof {
            let t = rs@.take(i as int + 1);
            assert(t.drop_last() =~= rs@.take(i as int));
            assert(t.last() == rs@[i as int]);
        }
        fits = fits && (!readable || r_fits);
        readable = readable && r_readable;
        i = i + 1;
    }
    assert(rs@.take(rs@.len() as int) =~= rs@);
    (readable, fits)
}

/// Whether reading the layer stays within `i32` coordinates.
pub fn layer_fits_check(data: &AtmosLayerData) -> (r: bool)
    ensures
        r == layer_fits(*data),
{
    let (p_readable, p_fits) = regions_check(&data.pressurised);
    if !p_fits {
        return false;
    }
    if !p_readable {
        return true;
    }
    let (_, v_fits) = regions_check(&data.vacuum);
    v_fits
}

/// Resolves a layer's regions into per-tile overrides: pressurised regions
/// first, then vacuum ones, so later regions win.  Fails on the first
/// bitmap that is not valid base64 or has the wrong length.
pub fn resolve_overrides(data: &AtmosLayerData) -> (r: Result<BTreeMap<(i32, i32), Atmo>, AtmosLayerError>)
    requires
        layer_fits(*data),
    ensures
        match r {
            Ok(m) => overrides_of(*data) == Ok::<Map<(i32, i32), Atmo>, AtmosErrorView>(m@),
            Err(e) => overrides_of(*data) == Err::<Map<(i32, i32), Atmo>, AtmosErrorView>(e@),
        },
{
    proof {
        lemma_layer_keys_ordered();
    }
    let mut m: BTreeMap<(i32, i32), Atmo> = BTreeMap::new();
    match apply_regions_into(&mut m, Atmo::Pressurised, &data.pressurised) {
        Ok(()) => {},
        Err(e) => {
            return Err(e);
        },
    }
    proof {
        lemma_applied_regions_readable(Map::empty(), Atmo::Pressurised, data.pressurised@);
    }
    match apply_regions_into(&mut m, Atmo::Vacuum, &data.vacuum) {
        Ok(()) => Ok(m),
        Err(e) => Err(e),
    }
}

/// Reads a layer's overrides when doing so stays within `i32` coordinates,
/// and gives `None` for a layer whose bitmaps mark tiles beyond them.
pub fn read_atmos_overrides(data: &AtmosLayerData) -> (r: Option<
    Result<BTreeMap<(i32, i32), Atmo>, AtmosLayerError>,
>)
    ensures
        r is None <==> !layer_fits(*data),
        r matches Some(res) ==> match res {
            Ok(m) => overrides_of(*data) == Ok::<Map<(i32, i32), Atmo>, AtmosErrorView>(m@),
            Err(e) => overrides_of(*data) == Err::<Map<(i32, i32), Atmo>, AtmosErrorView>(e@),
        },
{
    if layer_fits_check(data) {
        Some(resolve_overrides(data))
    } else {
        None
    }
}

/// The atmosphere tile `(x, y)` starts with: its override if it has one,
/// otherwise pressurised when it can be walked on, otherwise none.
pub open spec fn starting_atmo(g: GridView<TileKind>, m: Map<(i32, i32), Atmo>, x: int, y: int) -> Option<
    Atmo,
> {
    if m.contains_key((x as i32, y as i32)) {
        Some(m[(x as i32, y as i32)])
    } else if (match g.cell(x, y) {
        Some(k) => k,
        None => TileKind::Floor,
    }) == TileKind::Floor {
        Some(Atmo::Pressurised)
    } else {
        None
    }
}

/// The atmosphere every tile starts with, in row-major order: the override
/// where one is given (looked up at the `i32` values of the coordinates),
/// pressurised on walkable tiles and where the tile cannot be read, none on
/// walls.  Tiles
/// that come out pressurised start at standard pressure.
pub fn initial_atmosphere(grid: &TileGrid<TileKind>, overrides: &BTreeMap<(i32, i32), Atmo>) -> (r: Vec<
    Option<Atmo>,
>)
    ensures
        r@.len() == grid@.width * grid@.height,
        forall|i: int|
            0 <= i < r@.len() ==> #[trigger] r@[i] == starting_atmo(
                grid@,
                overrides@,
                i % grid@.width as int,
                i / grid@.width as int,
            ),
{
    proof {
        use_type_invariant(grid);
    }
    proof {
        lemma_layer_keys_ordered();
    }
    let w = grid.width();
    let h = grid.height();
    let ghost g = grid@;
    let mut out: Vec<Option<Atmo>> = Vec::new();
    let mut y: u32 = 0;
    while y < h
        invariant
            layer_keys_ordered(),
            g == grid@,
            g.wf(),
            w == g.width,
            h == g.height,
            y <= h,
            out@.len() == y * w,
            forall|i: int|
                0 <= i < out@.len() ==> #[trigger] out@[i] == starting_atmo(
                    g,
                    overrides@,
                    i % w as int,
                    i / w as int,
                ),
        decreases h - y,
    {
        let mut x: u32 = 0;
        while x < w
            invariant
                layer_keys_ordered(),
                g == grid@,
                g.wf(),
                w == g.width,
                h == g.height,
                y < h,
                x <= w,
                out@.len() == y * w + x,
                forall|i: int|
                    0 <= i < out@.len() ==> #[trigger] out@[i] == starting_atmo(
                        g,
                        overrides@,
                        i % w as int,
                        i / w as int,
                    ),
            decreases w - x,
        {
            let pos = IVec2 { x: x as i32, y: y as i32 };
            let kind = match grid.get_copy(pos) {
                Some(k) => k,
                None => TileKind::Floor,
            };
            let eff = match overrides.get(&(x as i32, y as i32)) {
                Some(a) => Some(*a),
                None => if kind.is_walkable() {
                    Some(Atmo::Pressurised)
                } else {
                    None
                },
            };
            proof {
                let n = y * w + x;
                lemma_fundamental_div_mod_converse(n, w as int, y as int, x as int);
            }
            out.push(eff);
            x = x + 1;
        }
        proof {
            assert(y * w + w == (y + 1) * w) by (nonlinear_arith);
        }
        y = y + 1;
    }
    assert(y * w == w * h) by (nonlinear_arith)
        requires
            y == h,
    ;
    out
}

/// The kind read at the `i`-th tile in row-major order: `Floor` where the
/// grid finds no cell there.
pub open spec fn kind_read(g: GridView<TileKind>, i: int) -> TileKind {
    match g.cell(i % g.width as int, i / g.width as int) {
        Some(k) => k,
        None => TileKind::Floor,
    }
}

/// The tiles, among the first `n` in row-major order, that read as
/// walkable and are marked evacuated, as `i32` coordinates, in that order.
pub open spec fn vacuum_list(g: GridView<TileKind>, evacuated: Seq<bool>, n: int) -> Seq<(i32, i32)>
    decreases n,
{
    if n <= 0 {
        Seq::empty()
    } else {
        let prev = vacuum_list(g, evacuated, n - 1);
        let i = n - 1;
        if evacuated[i] && kind_read(g, i) == TileKind::Floor {
            prev.push(((i % g.width as int) as i32, (i / g.width as int) as i32))
        } else {
            prev
        }
    }
}

/// The walkable tiles that are marked evacuated, in row-major order: what a
/// saved atmosphere layer lists as vacuum cells.  Whether a tile counts as
/// evacuated (its gas amount is below a small threshold) is decided by the
/// caller.
pub fn vacuum_cells(grid: &TileGrid<TileKind>, evacuated: &Vec<bool>) -> (r: Vec<(i32, i32)>)
    requires
        evacuated@.len() == grid@.width * grid@.height,
    ensures
        r@ == vacuum_list(grid@, evacuated@, (grid@.width * grid@.height) as int),
{
    proof {
        use_type_invariant(grid);
    }
    let w = grid.width();
    let h = grid.height();
    let ghost g = grid@;
    let len: usize = evacuated.len();
    let mut out: Vec<(i32, i32)> = Vec::new();
    let mut y: u32 = 0;
    while y < h
        invariant
            len == evacuated@.len(),
            g == grid@,
            g.wf(),
            w == g.width,
            h == g.height,
            evacuated@.len() == w * h,
            y <= h,
            out@ == vacuum_list(g, evacuated@, y * w),
        decreases h - y,
    {
        let mut x: u32 = 0;
        while x < w
            invariant
                len == evacuated@.len(),
                g == grid@,
                g.wf(),
                w == g.width,
                h == g.height,
                evacuated@.len() == w * h,
                y < h,
                x <= w,
                out@ == vacuum_list(g, evacuated@, y * w + x),
            decreases w - x,
        {
            let pos = IVec2 { x: x as i32, y: y as i32 };
            proof {
                let n = y * w + x;
                lemma_fundamental_div_mod_converse(n, w as int, y as int, x as int);
                assert(n < w * h) by (nonlinear_arith)
                    requires
                        n == y * w + x,
                        x < w,
                        y < h,
                ;
                assert(0 <= y * w <= n) by (nonlinear_arith)
                    requires
                        n == y * w + x,
                        x >= 0,
                        y >= 0,
                        w >= 0,
                ;
            }
            let idx: usize = (y as usize) * (w as usize) + (x as usize);
            let walkable = match grid.get_copy(pos) {
                Some(k) => k.is_walkable(),
                None => true,
            };
            if evacuated[idx] && walkable {
                out.push((x as i32, y as i32));
            }
            x = x + 1;
        }
        proof {
            assert(y * w + w == (y + 1) * w) by (nonlinear_arith);
        }
        y = y + 1;
    }
    assert(y * w == w * h) by (nonlinear_arith)
        requires
            y == h,
    ;
    out
}

/// The atmosphere layer saved for a grid: one vacuum entry listing the
/// evacuated walkable tiles, or no regions at all when there are none.
pub fn save_atmos_layer(grid: &TileGrid<TileKind>, evacuated: &Vec<bool>) -> (r: AtmosLayerData)
    requires
        evacuated@.len() == grid@.width * grid@.height,
    ensures
        r.pressurised@.len() == 0,
        ({
            let cells = vacuum_list(grid@, evacuated@, (grid@.width * grid@.height) as int);
            if cells.len() == 0 {
                r.vacuum@.len() == 0
            } else {
                r.vacuum@.len() == 1 && (r.vacuum@[0] matches AtmosRegion::Cells(cs) && cs@ == cells)
            }
        }),
{
    proof {
        use_type_invariant(grid);
    }
    let cells = vacuum_cells(grid, evacuated);
    if cells.len() == 0 {
        AtmosLayerData { pressurised: Vec::new(), vacuum: Vec::new() }
    } else {
        AtmosLayerData { pressurised: Vec::new(), vacuum: vec![AtmosRegion::Cells(cells)] }
    }
}

/// Painting listed tiles onto an empty map marks exactly the listed tiles.
proof fn lemma_paint_cells_empty(cs: Seq<(i32, i32)>, state: Atmo, k: (i32, i32))
    ensures
        paint_cells(Map::empty(), cs, state).contains_key(k) == cs.contains(k),
        paint_cells(Map::empty(), cs, state).contains_key(k) ==> paint_cells(Map::empty(), cs, state)[k]
            == state,
    decreases cs.len(),
{
    if cs.len() > 0 {
        lemma_paint_cells_empty(cs.drop_last(), state, k);
        if cs.drop_last().contains(k) {
            let j = choose|j: int| 0 <= j < cs.drop_last().len() && cs.drop_last()[j] == k;
            assert(cs[j] == k);
        }
        if cs.contains(k) && k != cs.last() {
            let j = choose|j: int| 0 <= j < cs.len() && cs[j] == k;
            assert(cs.drop_last()[j] == k);
        }
    }
}

/// The vacuum list holds a tile exactly when some cell before `n` is that
/// tile, walkable and evacuated.
proof fn lemma_vacuum_list_contains(g: GridView<TileKind>, ev: Seq<bool>, n: int, k: (i32, i32))
    requires
        g.width > 0,
    ensures
        vacuum_list(g, ev, n).contains(k) <==> exists|i: int|
            0 <= i < n && ev[i] && kind_read(g, i) == TileKind::Floor && k == ((i % g.width as int) as i32, (
            i / g.width as int) as i32),
    decreases n,
{
    if n > 0 {
        lemma_vacuum_list_contains(g, ev, n - 1, k);
        let prev = vacuum_list(g, ev, n - 1);
        let i = n - 1;
        let pk = ((i % g.width as int) as i32, (i / g.width as int) as i32);
        if ev[i] && kind_read(g, i) == TileKind::Floor {
            let cur = prev.push(pk);
            if cur.contains(k) && k != pk {
                let j = choose|j: int| 0 <= j < cur.len() && cur[j] == k;
                assert(prev[j] == k);
            }
            if prev.contains(k) {
                let j = choose|j: int| 0 <= j < prev.len() && prev[j] == k;
                assert(cur[j] == k);
            }
            if k == pk {
                assert(cur[prev.len() as int] == k);
            }
        }
    }
}

/// Inside a grid whose sides fit `i32`, the kind read at a tile is the
/// tile's cell.
proof fn lemma_kind_read_in_grid(g: GridView<TileKind>, i: int)
    requires
        g.wf(),
        g.width <= i32::MAX,
        g.height <= i32::MAX,
        0 <= i < g.width * g.height,
    ensures
        kind_read(g, i) == g.cells[i],
{
    let w = g.width as int;
    assert(w > 0) by (nonlinear_arith)
        requires
            0 <= i < g.width * g.height,
            w == g.width,
    ;
    let q = i / w;
    let r = i % w;
    vstd::arithmetic::div_mod::lemma_fundamental_div_mod(i, w);
    vstd::arithmetic::div_mod::lemma_mod_pos_bound(i, w);
    assert(0 <= q < g.height) by (nonlinear_arith)
        requires
            i == w * q + r,
            0 <= r < w,
            0 <= i < w * g.height,
            w > 0,
    ;
    assert(q * w + r == i) by (nonlinear_arith)
        requires
            i == w * q + r,
    ;
}

/// Saving the atmosphere layer of a grid and loading it back gives every
/// walkable tile the state it was saved in, vacuum where it was evacuated
/// and pressurised otherwise, and walls no atmosphere.
pub proof fn lemma_atmos_save_then_load(
    grid: GridView<TileKind>,
    evacuated: Seq<bool>,
    saved: AtmosLayerData,
    x: int,
    y: int,
)
    requires
        grid.wf(),
        grid.width <= i32::MAX,
        grid.height <= i32::MAX,
        evacuated.len() == grid.width * grid.height,
        saved.pressurised@.len() == 0,
        ({
            let cells = vacuum_list(grid, evacuated, (grid.width * grid.height) as int);
            if cells.len() == 0 {
                saved.vacuum@.len() == 0
            } else {
                saved.vacuum@.len() == 1 && (saved.vacuum@[0] matches AtmosRegion::Cells(cs) && cs@
                    == cells)
            }
        }),
        0 <= x < grid.width,
        0 <= y < grid.height,
    ensures
        layer_fits(saved),
        overrides_of(saved) is Ok,
        starting_atmo(grid, overrides_of(saved)->Ok_0, x, y) == if grid.cells[y * grid.width + x]
            == TileKind::Floor {
            Some(
                if evacuated[y * grid.width + x] {
                    Atmo::Vacuum
                } else {
                    Atmo::Pressurised
                },
            )
        } else {
            None::<Atmo>
        },
{
    let w = grid.width as int;
    let n = (grid.width * grid.height) as int;
    let cells = vacuum_list(grid, evacuated, n);
    if saved.vacuum@.len() == 1 {
        assert(saved.vacuum@.drop_last().len() == 0);
        assert(regions_fit(saved.vacuum@.drop_last()));
        assert(region_fits(saved.vacuum@.last()));
    }
    assert(layer_fits(saved));
    assert forall|i: int| 0 <= i < n implies #[trigger] kind_read(grid, i) == grid.cells[i] by {
        lemma_kind_read_in_grid(grid, i);
    }
    let k = (x as i32, y as i32);
    let i0 = y * w + x;
    lemma_fundamental_div_mod_converse(i0, w, y, x);
    crate::tiles::lemma_row_major_index(x, y, w, grid.height as int);
    assert(apply_regions(Map::empty(), Atmo::Pressurised, saved.pressurised@) == Ok::<
        Map<(i32, i32), Atmo>,
        AtmosErrorView,
    >(Map::empty()));
    let m = if cells.len() == 0 {
        Map::<(i32, i32), Atmo>::empty()
    } else {
        paint_cells(Map::empty(), cells, Atmo::Vacuum)
    };
    if cells.len() == 0 {
        assert(overrides_of(saved) == Ok::<Map<(i32, i32), Atmo>, AtmosErrorView>(m));
    } else {
        assert(saved.vacuum@.drop_last() =~= Seq::<AtmosRegion>::empty());
        assert(apply_regions(Map::empty(), Atmo::Vacuum, saved.vacuum@.drop_last()) == Ok::<
            Map<(i32, i32), Atmo>,
            AtmosErrorView,
        >(Map::empty()));
        assert(saved.vacuum@.last() == saved.vacuum@[0]);
        assert(apply_regions(Map::empty(), Atmo::Vacuum, saved.vacuum@) == Ok::<
            Map<(i32, i32), Atmo>,
            AtmosErrorView,
        >(m));
        assert(overrides_of(saved) == Ok::<Map<(i32, i32), Atmo>, AtmosErrorView>(m));
    }
    lemma_paint_cells_empty(cells, Atmo::Vacuum, k);
    lemma_vacuum_list_contains(grid, evacuated, n, k);
    assert(kind_read(grid, i0) == grid.cells[i0]);
    if evacuated[i0] && grid.cells[i0] == TileKind::Floor {
        assert(cells.contains(k));
    }
    if cells.contains(k) {
        let i = choose|i: int|
            0 <= i < n && evacuated[i] && kind_read(grid, i) == TileKind::Floor && k == ((i % w) as i32, (i
                / w) as i32);
        let q = i / w;
        let r = i % w;
        vstd::arithmetic::div_mod::lemma_fundamental_div_mod(i, w);
        vstd::arithmetic::div_mod::lemma_mod_pos_bound(i, w);
        assert(0 <= q < grid.height) by (nonlinear_arith)
            requires
                i == w * q + r,
                0 <= r < w,
                0 <= i < w * grid.height,
                w > 0,
        ;
        assert(r == x && q == y);
        assert(w * q + r == y * w + x) by (nonlinear_arith)
            requires
                r == x,
                q == y,
        ;
        assert(i == i0);
    }
}

/// The text of an atmosphere-layer error.
pub open spec fn atmos_error_text(e: AtmosErrorView) -> Seq<char> {
    match e {
        AtmosErrorView::BitmapDecode(detail) => "atmosphere layer: bitmap decode failed: "@ + detail,
        AtmosErrorView::BitmapLength { actual, expected } => "atmosphere layer: bitmap has "@
            + decimal_nat(actual as nat) + " bytes, expected "@ + decimal_nat(expected as nat),
    }
}

impl AtmosLayerError {
    /// The error as text.
    pub fn message(&self) -> (r: String)
        ensures
            r@ == atmos_error_text(self@),
    {
        match self {
            AtmosLayerError::BitmapDecode { detail } => {
                let mut s = String::from_str("atmosphere layer: bitmap decode failed: ");
                s.append(detail.as_str());
                s
            },
            AtmosLayerError::BitmapLength { actual, expected } => {
                let mut s = String::from_str("atmosphere layer: bitmap has ");
                push_decimal_nat(&mut s, *actual as u64);
                s.append(" bytes, expected ");
                push_decimal_nat(&mut s, *expected);
                s
            },
        }
    }
}

/// Why a gas-grid snapshot cannot be rebuilt.
#[derive(Debug, Clone, Copy, PartialEq, Eq, Structural)]
pub enum GasSnapshotError {
    /// `width * height` does not fit in `u32`.
    DimensionsOverflow { width: u32, height: u32 },
    /// The moles list does not have one entry per tile.
    MolesLength { expected: usize, actual: usize },
    /// The passability mask does not have one entry per tile.
    PassableLength { expected: usize, actual: usize },
}

/// The verdict on a gas-grid snapshot of `width` by `height` tiles with
/// `moles_len` mole amounts and `passable_len` passability flags: the tile
/// count when both lists have one entry per tile, else the first problem.
pub open spec fn gas_snapshot_verdict(width: u32, height: u32, moles_len: usize, passable_len: usize) -> Result<
    usize,
    GasSnapshotError,
> {
    let n = width * height;
    if n > u32::MAX {
        Err(GasSnapshotError::DimensionsOverflow { width, height })
    } else if moles_len != n {
        Err(GasSnapshotError::MolesLength { expected: n as usize, actual: moles_len })
    } else if passable_len != n {
        Err(GasSnapshotError::PassableLength { expected: n as usize, actual: passable_len })
    } else {
        Ok(n as usize)
    }
}

/// Checks the sizes of a gas-grid snapshot before the grid is rebuilt from
/// it (see `gas_snapshot_verdict`).
pub fn check_gas_snapshot(width: u32, height: u32, moles_len: usize, passable_len: usize) -> (r: Result<
    usize,
    GasSnapshotError,
>)
    ensures
        r == gas_snapshot_verdict(width, height, moles_len, passable_len),
{
    let n = match width.checked_mul(height) {
        Some(n) => n,
        None => {
            return Err(GasSnapshotError::DimensionsOverflow { width, height });
        },
    };
    let expected = n as usize;
    if moles_len != expected {
        return Err(GasSnapshotError::MolesLength { expected, actual: moles_len });
    }
    if passable_len != expected {
        return Err(GasSnapshotError::PassableLength { expected, actual: passable_len });
    }
    Ok(expected)
}

/// The text of a gas-grid snapshot error.
pub open spec fn gas_snapshot_error_text(e: GasSnapshotError) -> Seq<char> {
    match e {
        GasSnapshotError::DimensionsOverflow { width, height } => "GasGrid dimensions "@
            + decimal_nat(width as nat) + "×"@ + decimal_nat(height as nat) + " overflow"@,
        GasSnapshotError::MolesLength { expected, actual } => "gas_moles length mismatch: expected "@
            + decimal_nat(expected as nat) + ", got "@ + decimal_nat(actual as nat),
        GasSnapshotError::PassableLength { expected, actual } =>
            "passable length mismatch: expected "@ + decimal_nat(expected as nat) + ", got "@
            + decimal_nat(actual as nat),
    }
}

impl GasSnapshotError {
    /// The error as text.
    pub fn message(&self) -> (r: String)
        ensures
            r@ == gas_snapshot_error_text(*self),
    {
        match self {
            GasSnapshotError::DimensionsOverflow { width, height } => {
                let mut s = String::from_str("GasGrid dimensions ");
                push_decimal_nat(&mut s, *width as u64);
                s.append("×");
                push_decimal_nat(&mut s, *height as u64);
                s.append(" overflow");
                s
            },
            GasSnapshotError::MolesLength { expected, actual } => {
                let mut s = String::from_str("gas_moles length mismatch: expected ");
                push_decimal_nat(&mut s, *expected as u64);
                s.append(", got ");
                push_decimal_nat(&mut s, *actual as u64);
                s
            },
            GasSnapshotError::PassableLength { expected, actual } => {
                let mut s = String::from_str("passable length mismatch: expected ");
                push_decimal_nat(&mut s, *expected as u64);
                s.append(", got ");
                push_decimal_nat(&mut s, *actual as u64);
                s
            },
        }
    }
}

} // verus!
