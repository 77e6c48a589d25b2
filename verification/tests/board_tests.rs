use life::board::Board;
use life::board::CellPosition;

#[test]
fn board_new_rejects_bad_dims() {
    assert!(Board::new(0, 5).is_none());
    assert!(Board::new(5, 0).is_none());
    assert!(Board::new(-3, 4).is_none());
    assert!(Board::new(4, -1).is_none());
    assert!(Board::new(1 << 20, 1 << 20).is_none());
    assert!(Board::new(1, 1).is_some());
    assert!(Board::new(64, 64).is_some());
}

#[test]
fn length_is_width_times_height() {
    let b = Board::new(7, 5).unwrap();
    assert_eq!(b.length(), 35);
    let one = Board::new(1, 1).unwrap();
    assert_eq!(one.length(), 1);
}

#[test]
fn coords_roundtrip_on_every_cell() {
    let b = Board::new(4, 3).unwrap();
    for y in 0..3 {
        for x in 0..4 {
            let idx = b.vec2idx(CellPosition::from((x, y)));
            assert!(0 <= idx && idx < 12);
            let pos = b.idx2vec(idx);
            assert_eq!(pos.x, x);
            assert_eq!(pos.y, y);
        }
    }
}

#[test]
fn idx2vec_exact_values() {
    let b = Board::new(4, 3).unwrap();
    let p = b.idx2vec(7);
    assert_eq!(p.x, 3);
    assert_eq!(p.y, 1);
    assert_eq!(b.vec2idx(CellPosition::from((3, 1))), 7);
    let origin = b.idx2vec(0);
    assert_eq!(origin.x, 0);
    assert_eq!(origin.y, 0);
    let last = b.idx2vec(11);
    assert_eq!(last.x, 3);
    assert_eq!(last.y, 2);
}

#[test]
fn cellposition_add_components() {
    let p = CellPosition::from((2, 3)).add(CellPosition::from((-1, 1)));
    assert_eq!(p.x, 1);
    assert_eq!(p.y, 4);
}
