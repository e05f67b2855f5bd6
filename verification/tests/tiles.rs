use std::collections::BTreeMap;

use base64::Engine as _;
use geostationary::tile_layer::{
    chunk_kinds, load_tiles_layer, save_tiles_layer, TileDef, TilesLayerData, TilesLayerError, SAVE_CHUNK_SIZE,
};
use geostationary::tiles::{
    handle_tiles_stream, IVec2, TileFlag, TileFlags, TileGrid, TileGridError, TileKind,
    TileMutated, TilemapMessageError, TilesStreamMessage,
};

#[test]
fn test_tile_kind_walkability() {
    assert!(TileKind::Floor.is_walkable());
    assert!(!TileKind::Wall.is_walkable());
}

#[test]
fn test_grid_creation() {
    let grid = TileGrid::<TileKind>::new_fill(10, 10, TileKind::Floor);
    assert_eq!(grid.width(), 10);
    assert_eq!(grid.height(), 10);
}

#[test]
fn test_grid_get_set() {
    let mut grid = TileGrid::<TileKind>::new_fill(5, 5, TileKind::Floor);

    assert_eq!(grid.get_copy(IVec2::new(0, 0)), Some(TileKind::Floor));
    assert_eq!(grid.get_copy(IVec2::new(4, 4)), Some(TileKind::Floor));

    assert!(grid.set(IVec2::new(2, 2), TileKind::Wall));
    assert_eq!(grid.get_copy(IVec2::new(2, 2)), Some(TileKind::Wall));

    assert_eq!(grid.get_copy(IVec2::new(-1, 0)), None);
    assert_eq!(grid.get_copy(IVec2::new(0, -1)), None);
    assert_eq!(grid.get_copy(IVec2::new(5, 0)), None);
    assert_eq!(grid.get_copy(IVec2::new(0, 5)), None);
    assert!(!grid.set(IVec2::new(-1, 0), TileKind::Wall));
    assert!(!grid.set(IVec2::new(10, 10), TileKind::Wall));
}

#[test]
fn test_grid_is_walkable() {
    let mut grid = TileGrid::<TileKind>::new_fill(5, 5, TileKind::Floor);

    assert!(grid
        .get_copy(IVec2::new(0, 0))
        .is_some_and(|k| k.is_walkable()));
    assert!(grid
        .get_copy(IVec2::new(4, 4))
        .is_some_and(|k| k.is_walkable()));

    grid.set(IVec2::new(2, 2), TileKind::Wall);
    assert!(!grid
        .get_copy(IVec2::new(2, 2))
        .is_some_and(|k| k.is_walkable()));

    assert!(!grid
        .get_copy(IVec2::new(-1, 0))
        .is_some_and(|k| k.is_walkable()));
    assert!(!grid
        .get_copy(IVec2::new(5, 0))
        .is_some_and(|k| k.is_walkable()));
    assert!(!grid
        .get_copy(IVec2::new(0, 5))
        .is_some_and(|k| k.is_walkable()));
}

#[test]
fn test_grid_coordinates() {
    let mut grid = TileGrid::<TileKind>::new_fill(3, 3, TileKind::Floor);

    grid.set(IVec2::new(0, 0), TileKind::Wall);
    grid.set(IVec2::new(1, 1), TileKind::Wall);
    grid.set(IVec2::new(2, 2), TileKind::Wall);

    assert_eq!(grid.get_copy(IVec2::new(0, 0)), Some(TileKind::Wall));
    assert_eq!(grid.get_copy(IVec2::new(1, 0)), Some(TileKind::Floor));
    assert_eq!(grid.get_copy(IVec2::new(2, 0)), Some(TileKind::Floor));
    assert_eq!(grid.get_copy(IVec2::new(0, 1)), Some(TileKind::Floor));
    assert_eq!(grid.get_copy(IVec2::new(1, 1)), Some(TileKind::Wall));
    assert_eq!(grid.get_copy(IVec2::new(2, 1)), Some(TileKind::Floor));
    assert_eq!(grid.get_copy(IVec2::new(0, 2)), Some(TileKind::Floor));
    assert_eq!(grid.get_copy(IVec2::new(1, 2)), Some(TileKind::Floor));
    assert_eq!(grid.get_copy(IVec2::new(2, 2)), Some(TileKind::Wall));
}

#[test]
fn test_grid_iter() {
    let mut grid = TileGrid::<TileKind>::new_fill(2, 2, TileKind::Floor);
    grid.set(IVec2::new(1, 1), TileKind::Wall);

    let tiles: Vec<_> = grid.iter().into_iter().map(|(pos, &kind)| (pos, kind)).collect();
    assert_eq!(tiles.len(), 4);

    assert_eq!(tiles[0], (IVec2::new(0, 0), TileKind::Floor));
    assert_eq!(tiles[1], (IVec2::new(1, 0), TileKind::Floor));
    assert_eq!(tiles[2], (IVec2::new(0, 1), TileKind::Floor));
    assert_eq!(tiles[3], (IVec2::new(1, 1), TileKind::Wall));
}

#[test]
fn test_try_from_dimension_mismatch() {
    let msg = TilesStreamMessage::TilemapData {
        width: u32::MAX,
        height: 2,
        tiles: vec![TileKind::Floor; 4],
    };
    let result = TileGrid::<TileKind>::try_from_message(msg);
    assert!(result.is_err(), "should reject mismatched dimensions");
}

#[test]
fn test_try_from_tile_mutated_returns_error() {
    let msg = TilesStreamMessage::TileMutated {
        position: [2, 3],
        kind: TileKind::Floor,
    };
    let result = TileGrid::<TileKind>::try_from_message(msg);
    assert!(
        result.is_err(),
        "TileMutated should not convert to a TileGrid"
    );
}

/// A 2×2 grid survives a save→load round-trip through the tiles layer.
#[test]
fn tiles_layer_roundtrip_small() {
    let mut saved_grid = TileGrid::<TileKind>::new_fill(2, 2, TileKind::Floor);
    saved_grid.set(IVec2::new(0, 0), TileKind::Wall);
    saved_grid.set(IVec2::new(1, 1), TileKind::Wall);

    let raw = save_tiles_layer(&saved_grid).expect("save must succeed");
    let loaded = load_tiles_layer(&raw).expect("load must succeed");

    for (pos, &kind) in saved_grid.iter() {
        assert_eq!(
            loaded.get_copy(pos),
            Some(kind),
            "tile at {pos:?} must match after round-trip"
        );
    }
}

/// A grid with only Floor tiles serializes to a single key and
/// round-trips correctly.
#[test]
fn tiles_layer_all_floor() {
    let saved_grid = TileGrid::<TileKind>::new_fill(4, 4, TileKind::Floor);

    let data = save_tiles_layer(&saved_grid).expect("save must succeed");
    assert_eq!(data.keys.len(), 1, "only one unique tile def (Floor)");
    assert_eq!(data.chunk_size, SAVE_CHUNK_SIZE);

    let loaded = load_tiles_layer(&data).expect("load must succeed");
    for (pos, &kind) in saved_grid.iter() {
        assert_eq!(loaded.get_copy(pos), Some(kind));
    }
}

/// A grid with Floor and Wall tiles produces exactly two keys.
#[test]
fn tiles_layer_two_kinds_produce_two_keys() {
    let mut saved_grid = TileGrid::<TileKind>::new_fill(3, 3, TileKind::Floor);
    saved_grid.set(IVec2::new(0, 0), TileKind::Wall);

    let data = save_tiles_layer(&saved_grid).expect("save must succeed");
    assert_eq!(data.keys.len(), 2, "Floor and Wall → two keys");
}

fn floor_keys() -> BTreeMap<u16, TileDef> {
    let mut m = BTreeMap::new();
    m.insert(
        0,
        TileDef {
            kind: TileKind::Floor,
        },
    );
    m
}

/// Loading corrupt base64 returns an error.
#[test]
fn tiles_layer_load_invalid_base64_errors() {
    let data = TilesLayerData {
        chunk_size: 4,
        keys: floor_keys(),
        chunks: {
            let mut m = BTreeMap::new();
            m.insert((0, 0), "!!!not-valid-base64!!!".to_owned());
            m
        },
    };
    let result = load_tiles_layer(&data);
    assert!(result.is_err(), "corrupt base64 must cause a load error");
}

/// Loading a chunk with the wrong byte count returns an error.
#[test]
fn tiles_layer_load_wrong_chunk_length_errors() {
    let data = TilesLayerData {
        chunk_size: 4,
        keys: floor_keys(),
        chunks: {
            let mut m = BTreeMap::new();
            // 4×4 chunk needs 32 bytes; give it 2
            let short = base64::engine::general_purpose::STANDARD.encode([0u8, 0u8]);
            m.insert((0, 0), short);
            m
        },
    };
    let result = load_tiles_layer(&data);
    assert!(result.is_err(), "wrong byte count must cause a load error");
}

/// Loading a chunk that references an unknown key returns an error.
#[test]
fn tiles_layer_load_unknown_key_errors() {
    let chunk_size: u32 = 2;
    let tiles = chunk_size * chunk_size;
    // Encode all tiles with key=5, which is not in the dictionary.
    let bytes: Vec<u8> = (0..tiles).flat_map(|_| 5u16.to_le_bytes()).collect();
    let encoded = base64::engine::general_purpose::STANDARD.encode(&bytes);

    let data = TilesLayerData {
        chunk_size,
        keys: floor_keys(),
        chunks: {
            let mut m = BTreeMap::new();
            m.insert((0, 0), encoded);
            m
        },
    };
    let result = load_tiles_layer(&data);
    assert!(result.is_err(), "unknown key must cause a load error");
}

/// An empty chunks map loads as an empty grid (0×0).
#[test]
fn tiles_layer_load_empty_chunks_gives_empty_grid() {
    let data = TilesLayerData {
        chunk_size: 32,
        keys: BTreeMap::new(),
        chunks: BTreeMap::new(),
    };
    let grid = load_tiles_layer(&data).expect("empty map must load without error");
    assert_eq!(grid.width(), 0);
    assert_eq!(grid.height(), 0);
}

/// chunk_size: 0 is rejected with an error.
#[test]
fn tiles_layer_load_zero_chunk_size_errors() {
    let data = TilesLayerData {
        chunk_size: 0,
        keys: BTreeMap::new(),
        chunks: BTreeMap::new(),
    };
    let result = load_tiles_layer(&data);
    assert!(result.is_err(), "chunk_size 0 must be rejected");
}

/// A chunk with a negative x coordinate is rejected with an error.
#[test]
fn tiles_layer_load_negative_chunk_coord_errors() {
    let chunk_size: u32 = 2;
    let tile_count = (chunk_size * chunk_size) as usize;
    let bytes: Vec<u8> = (0..tile_count).flat_map(|_| 0u16.to_le_bytes()).collect();
    let encoded = base64::engine::general_purpose::STANDARD.encode(&bytes);

    let data = TilesLayerData {
        chunk_size,
        keys: floor_keys(),
        chunks: {
            let mut m = BTreeMap::new();
            // chunk_x = -1 is negative
            m.insert((-1, 0), encoded);
            m
        },
    };
    let result = load_tiles_layer(&data);
    assert!(
        result.is_err(),
        "negative chunk coordinate must cause a load error"
    );
    let msg = result.unwrap_err().message();
    assert!(
        msg.contains("negative chunk coordinate"),
        "error message should mention 'negative chunk coordinate', got: {msg}"
    );
}

// ── Further checks of the library's own ──────────────────────────────────────

#[test]
fn tiles_layer_error_variants_and_messages() {
    let encoded = base64::engine::general_purpose::STANDARD.encode([0u8, 0u8]);
    let data = TilesLayerData {
        chunk_size: 4,
        keys: floor_keys(),
        chunks: {
            let mut m = BTreeMap::new();
            m.insert((1, 2), encoded);
            m
        },
    };
    let err = load_tiles_layer(&data).unwrap_err();
    assert_eq!(
        err,
        TilesLayerError::ChunkLength {
            x: 1,
            y: 2,
            actual: 2,
            expected: 32,
            chunk_size: 4
        }
    );
    assert_eq!(
        err.message(),
        "tiles layer: chunk (1,2) has 2 bytes, expected 32 (chunk_size=4)"
    );

    let bad = TilesLayerData {
        chunk_size: 2,
        keys: floor_keys(),
        chunks: {
            let mut m = BTreeMap::new();
            m.insert((0, 0), "???".to_owned());
            m
        },
    };
    let detail = base64::engine::general_purpose::STANDARD
        .decode("???")
        .unwrap_err()
        .to_string();
    let err = load_tiles_layer(&bad).unwrap_err();
    assert_eq!(
        err,
        TilesLayerError::ChunkDecode {
            x: 0,
            y: 0,
            detail: detail.clone()
        }
    );
    assert_eq!(
        err.message(),
        format!("tiles layer: chunk (0,0) base64 decode failed: {detail}")
    );

    let neg = TilesLayerError::NegativeChunkCoordinate { x: -1, y: 0 };
    assert_eq!(
        neg.message(),
        "tiles layer: negative chunk coordinate (-1,0) is not supported"
    );
    assert_eq!(
        TilesLayerError::ZeroChunkSize.message(),
        "tiles layer: chunk_size must be greater than 0"
    );
}

#[test]
fn tiles_layer_unknown_key_is_reported() {
    let bytes: Vec<u8> = (0..4).flat_map(|_| 5u16.to_le_bytes()).collect();
    let encoded = base64::engine::general_purpose::STANDARD.encode(&bytes);
    let data = TilesLayerData {
        chunk_size: 2,
        keys: floor_keys(),
        chunks: {
            let mut m = BTreeMap::new();
            m.insert((0, 0), encoded);
            m
        },
    };
    let err = load_tiles_layer(&data).unwrap_err();
    assert_eq!(err, TilesLayerError::UnknownKey { x: 0, y: 0, key: 5 });
    assert_eq!(
        err.message(),
        "tiles layer: chunk (0,0) references unknown key 5"
    );
}

/// Saving and loading pads the grid to whole chunks: every saved tile
/// comes back, and the padding is floor.
#[test]
fn tiles_layer_roundtrip_pads_to_chunks() {
    let mut saved_grid = TileGrid::<TileKind>::new_fill(3, 2, TileKind::Floor);
    saved_grid.set(IVec2::new(2, 1), TileKind::Wall);
    let data = save_tiles_layer(&saved_grid).unwrap();
    assert_eq!(data.chunks.len(), 1);
    let loaded = load_tiles_layer(&data).unwrap();
    assert_eq!(loaded.width(), SAVE_CHUNK_SIZE);
    assert_eq!(loaded.height(), SAVE_CHUNK_SIZE);
    assert_eq!(loaded.get_copy(IVec2::new(2, 1)), Some(TileKind::Wall));
    assert_eq!(loaded.get_copy(IVec2::new(1, 1)), Some(TileKind::Floor));
    assert_eq!(loaded.get_copy(IVec2::new(31, 31)), Some(TileKind::Floor));
}

#[test]
fn from_cells_reports_length_and_overflow() {
    let e = TileGrid::<TileKind>::from_cells(2, 2, vec![TileKind::Floor; 3]).unwrap_err();
    assert_eq!(
        e,
        TileGridError::LengthMismatch {
            expected: 4,
            actual: 3
        }
    );
    let g = TileGrid::<TileKind>::from_cells(2, 1, vec![TileKind::Wall, TileKind::Floor]).unwrap();
    assert_eq!(g.get_copy(IVec2::new(0, 0)), Some(TileKind::Wall));
    assert_eq!(g.get_copy(IVec2::new(1, 0)), Some(TileKind::Floor));
    let m = TileGrid::<TileKind>::try_from_message(TilesStreamMessage::TileMutated {
        position: [0, 0],
        kind: TileKind::Wall,
    });
    assert_eq!(m.unwrap_err(), TilemapMessageError::NotASnapshot);
}

#[test]
fn snapshot_message_round_trip() {
    let mut g = TileGrid::<TileKind>::new_fill(3, 2, TileKind::Floor);
    g.set(IVec2::new(1, 0), TileKind::Wall);
    let msg = TilesStreamMessage::from_grid(&g);
    let back = TileGrid::<TileKind>::try_from_message(msg).unwrap();
    assert_eq!(back.width(), 3);
    assert_eq!(back.height(), 2);
    assert_eq!(back.get_copy(IVec2::new(1, 0)), Some(TileKind::Wall));
    assert_eq!(back.get_copy(IVec2::new(0, 1)), Some(TileKind::Floor));
}

#[test]
fn tile_flags_follow_the_grid() {
    let mut g = TileGrid::<TileKind>::new_fill(2, 2, TileKind::Floor);
    g.set(IVec2::new(1, 0), TileKind::Wall);
    let flags = TileFlags::from_grid(&g);
    assert!(flags.is_walkable(IVec2::new(0, 0)));
    assert!(flags.is_gas_passable(IVec2::new(0, 0)));
    assert!(!flags.is_walkable(IVec2::new(1, 0)));
    assert!(!flags.is_gas_passable(IVec2::new(1, 0)));
    assert!(!flags.is_walkable(IVec2::new(5, 5)));
    assert_eq!(flags.get(IVec2::new(1, 0)), Some(TileFlag::empty()));
    assert_eq!(
        flags.get(IVec2::new(0, 1)),
        Some(TileFlag::walkable().union(TileFlag::gas_pass()))
    );
}

/// Mutations apply to the grid in use and are raised; a snapshot replaces
/// the grid once the batch is done.
#[test]
fn tiles_stream_mutations_and_snapshot() {
    let mut grid = Some(TileGrid::<TileKind>::new_fill(2, 2, TileKind::Floor));
    let msgs = vec![
        TilesStreamMessage::TileMutated {
            position: [1, 1],
            kind: TileKind::Wall,
        },
        TilesStreamMessage::TileMutated {
            position: [9, 9],
            kind: TileKind::Wall,
        },
    ];
    let raised = handle_tiles_stream(&mut grid, &msgs);
    assert_eq!(raised.len(), 2);
    assert_eq!(
        raised[0],
        TileMutated {
            position: IVec2::new(1, 1),
            kind: TileKind::Wall
        }
    );
    let g = grid.as_ref().unwrap();
    assert_eq!(g.get_copy(IVec2::new(1, 1)), Some(TileKind::Wall));

    let snapshot = vec![TilesStreamMessage::TilemapData {
        width: 1,
        height: 1,
        tiles: vec![TileKind::Wall],
    }];
    let raised = handle_tiles_stream(&mut grid, &snapshot);
    assert!(raised.is_empty());
    let g = grid.as_ref().unwrap();
    assert_eq!(g.width(), 1);
    assert_eq!(g.get_copy(IVec2::new(0, 0)), Some(TileKind::Wall));

    let mut none: Option<TileGrid<TileKind>> = None;
    let raised = handle_tiles_stream(&mut none, &msgs);
    assert!(raised.is_empty());
    assert!(none.is_none());
}

#[test]
fn tiles_layer_huge_chunk_size_is_refused() {
    let data = TilesLayerData {
        chunk_size: u32::MAX,
        keys: floor_keys(),
        chunks: BTreeMap::new(),
    };
    let err = load_tiles_layer(&data).unwrap_err();
    assert_eq!(err, TilesLayerError::ChunkSizeTooLarge);
    assert_eq!(
        err.message(),
        "tiles layer: chunk_size is too large (chunk_size\u{b2} \u{d7} 2 overflows usize)"
    );
    assert_eq!(
        TilesLayerError::ChunkAreaOverflow.message(),
        "tiles layer: chunk_size is too large (chunk_size\u{b2} overflows usize)"
    );
}

#[test]
fn tile_grid_errors_read_as_text() {
    let e = geostationary::tiles::TileGrid::<geostationary::tiles::TileKind>::from_cells(2, 2, vec![])
        .unwrap_err();
    assert_eq!(e.message(), "cell data length mismatch: expected 4, got 0");
}

fn wall_floor_keys() -> BTreeMap<u16, TileDef> {
    let mut keys = BTreeMap::new();
    keys.insert(0u16, TileDef { kind: TileKind::Floor });
    keys.insert(1u16, TileDef { kind: TileKind::Wall });
    keys
}

/// A chunk's decoded bytes are little-endian keys, one per cell, in
/// row-major order.
#[test]
fn chunk_bytes_give_cell_kinds_in_row_major_order() {
    let keys = wall_floor_keys();
    let bytes = [1u8, 0, 0, 0, 0, 0, 1, 0];
    let kinds = chunk_kinds(&keys, (3, 4), 2, &bytes).expect("valid chunk");
    assert_eq!(kinds, vec![TileKind::Wall, TileKind::Floor, TileKind::Floor, TileKind::Wall]);
}

#[test]
fn chunk_bytes_of_wrong_length_are_refused() {
    let keys = wall_floor_keys();
    let r = chunk_kinds(&keys, (3, 4), 2, &[0u8, 0, 0]);
    assert_eq!(
        r,
        Err(TilesLayerError::ChunkLength { x: 3, y: 4, actual: 3, expected: 8, chunk_size: 2 })
    );
}

/// The first cell whose key is missing from the dictionary is reported.
#[test]
fn chunk_bytes_report_first_unknown_key() {
    let keys = wall_floor_keys();
    let bytes = [1u8, 0, 0, 0, 5, 0, 7, 0];
    let r = chunk_kinds(&keys, (0, 1), 2, &bytes);
    assert_eq!(r, Err(TilesLayerError::UnknownKey { x: 0, y: 1, key: 5 }));
}
