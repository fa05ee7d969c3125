use rose_map::extremes::ElevationExtremes;
use rose_map::grid::Grid;

#[test]
fn filled_grid_holds_the_value_everywhere() {
    let g = Grid::filled(3, 2, 7).unwrap();
    assert_eq!((g.width(), g.height()), (3, 2));
    for y in 0..2 {
        for x in 0..3 {
            assert_eq!(g.get(x, y), Some(7));
        }
    }
    assert_eq!(g.get(3, 0), None);
    assert_eq!(g.get(0, 2), None);
    assert!(Grid::filled(usize::MAX, 2, 0).is_none());
    assert!(Grid::filled(isize::MAX as usize / 4 + 1, 1, 0).is_none());
    assert!(Grid::filled(1, isize::MAX as usize, 0).is_none());
}

#[test]
fn grid_from_cells_is_row_major() {
    let g = Grid::from_cells(3, 2, vec![1, 2, 3, 4, 5, 6]).unwrap();
    assert_eq!(g.get(0, 0), Some(1));
    assert_eq!(g.get(2, 0), Some(3));
    assert_eq!(g.get(0, 1), Some(4));
    assert_eq!(g.get(2, 1), Some(6));
    assert_eq!(g.to_rows(), vec![vec![1, 2, 3], vec![4, 5, 6]]);
    assert!(Grid::from_cells(3, 2, vec![1, 2, 3, 4, 5]).is_none());
    assert!(Grid::from_cells(usize::MAX, 2, vec![1]).is_none());
}

#[test]
fn set_changes_one_cell_only() {
    let mut g = Grid::filled(2, 2, 0).unwrap();
    assert!(g.set(1, 0, 9));
    assert!(!g.set(2, 0, 9));
    assert!(!g.set(0, 2, 9));
    assert_eq!(g.to_rows(), vec![vec![0, 9], vec![0, 0]]);
}

#[test]
fn paste_copies_a_block() {
    let mut g = Grid::filled(4, 3, 0).unwrap();
    let block = Grid::from_cells(2, 2, vec![1, 2, 3, 4]).unwrap();
    assert!(g.paste(2, 1, &block));
    assert_eq!(g.to_rows(), vec![vec![0, 0, 0, 0], vec![0, 0, 1, 2], vec![0, 0, 3, 4]]);
    assert!(!g.paste(3, 1, &block));
    assert!(!g.paste(2, 2, &block));
    assert!(!g.paste(usize::MAX, 0, &block));
    assert_eq!(g.to_rows(), vec![vec![0, 0, 0, 0], vec![0, 0, 1, 2], vec![0, 0, 3, 4]]);
}

#[test]
fn empty_grid_has_no_rows() {
    let g = Grid::filled(5, 0, 1).unwrap();
    assert_eq!(g.to_rows(), Vec::<Vec<i32>>::new());
    let h = Grid::filled(0, 2, 1).unwrap();
    assert_eq!(h.to_rows(), vec![Vec::<i32>::new(), Vec::new()]);
}

#[test]
fn first_sample_becomes_both_extremes() {
    let mut e = ElevationExtremes::new();
    assert_eq!(e.range(), None);
    e.observe(-17);
    assert_eq!(e.range(), Some((-17, -17)));
    e.observe(4);
    e.observe(-20);
    e.observe(0);
    assert_eq!(e.range(), Some((-20, 4)));
}

#[test]
fn merging_extremes_is_order_independent() {
    let mut a = ElevationExtremes::new();
    a.observe(3);
    a.observe(10);
    let mut b = ElevationExtremes::new();
    b.observe(-5);
    b.observe(4);
    let mut c = ElevationExtremes::new();
    c.observe(50);
    let empty = ElevationExtremes::new();
    assert_eq!(a.merge(&b).range(), Some((-5, 10)));
    assert_eq!(b.merge(&a).range(), Some((-5, 10)));
    assert_eq!(a.merge(&b).merge(&c).range(), a.merge(&b.merge(&c)).range());
    assert_eq!(a.merge(&b).merge(&c).range(), Some((-5, 50)));
    assert_eq!(a.merge(&empty).range(), Some((3, 10)));
    assert_eq!(empty.merge(&a).range(), Some((3, 10)));
    assert_eq!(empty.merge(&empty).range(), None);
}

#[test]
fn extremes_of_a_region() {
    let g = Grid::from_cells(3, 2, vec![5, 1, 9, -4, 7, 100]).unwrap();
    assert_eq!(ElevationExtremes::of_region(&g, 3, 2).range(), Some((-4, 100)));
    assert_eq!(ElevationExtremes::of_region(&g, 2, 2).range(), Some((-4, 7)));
    assert_eq!(ElevationExtremes::of_region(&g, 2, 1).range(), Some((1, 5)));
    assert_eq!(ElevationExtremes::of_region(&g, 10, 10).range(), Some((-4, 100)));
    assert_eq!(ElevationExtremes::of_region(&g, 0, 2).range(), None);
    assert_eq!(ElevationExtremes::of_region(&g, 3, 0).range(), None);
}
