use cwinui::map::{GameMap, HEADER_BYTES};

fn image(height: u32, width: u32, cells: &[u8]) -> Vec<u8> {
    let mut bytes = Vec::new();
    bytes.extend_from_slice(&height.to_le_bytes());
    bytes.extend_from_slice(&width.to_le_bytes());
    bytes.extend_from_slice(&[0u8; 16]);
    bytes.extend_from_slice(cells);
    bytes
}

#[test]
fn map_parses_header_and_cells() {
    let bytes = image(2, 3, b"abcdef");
    let m = GameMap::from_bytes(&bytes).unwrap();
    assert_eq!(m.height(), 2);
    assert_eq!(m.width(), 3);
    assert_eq!(m.grid.len(), 6);
    assert_eq!(m.grid[0].0, b'a');
    assert_eq!(m.grid[5].0, b'f');
}

#[test]
fn map_little_endian_header() {
    // 0x0102 rows: the low byte comes first.
    let mut bytes = vec![0x02, 0x01, 0, 0, 0, 0, 0, 0];
    bytes.extend_from_slice(&[0u8; 16]);
    bytes.resize(HEADER_BYTES + 0x0102 * 0, 0);
    let mut m = GameMap::new(0, 0);
    // Zero columns: no cell bytes needed.
    assert!(m.load(&bytes).is_ok());
    assert_eq!(m.height(), 0x0102);
    assert_eq!(m.width(), 0);
}

#[test]
fn map_rejects_short_header() {
    assert!(GameMap::from_bytes(&[1, 2, 3]).is_err());
    assert!(GameMap::from_bytes(&[]).is_err());
}

#[test]
fn map_rejects_missing_cells() {
    // Header promises 2x3 cells but only five follow.
    let bytes = image(2, 3, b"abcde");
    assert!(GameMap::from_bytes(&bytes).is_err());
    // A failed load leaves the map unchanged.
    let mut m = GameMap::new(1, 1);
    assert!(m.load(&bytes).is_err());
    assert_eq!((m.height(), m.width()), (1, 1));
}
