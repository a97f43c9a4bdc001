use raytracer::array2d::Array2d;

fn grid_3x2() -> Array2d<u32> {
    // row 0: 0 1 2 ; row 1: 10 11 12
    Array2d::from_cells(3, 2, vec![0, 1, 2, 10, 11, 12])
}

#[test]
fn new_is_empty() {
    let a: Array2d<u32> = Array2d::new();
    assert_eq!(a.width(), 0);
    assert_eq!(a.height(), 0);
    assert_eq!(a.size(), 0);
    assert!(a.as_slice().is_empty());
}

#[test]
fn default_is_empty() {
    let a: Array2d<u32> = Array2d::default();
    assert_eq!(a.size_x(), 0);
    assert_eq!(a.size_y(), 0);
}

#[test]
fn with_size_fills_every_cell() {
    let a = Array2d::with_size(4, 3, 7u32);
    assert_eq!(a.width(), 4);
    assert_eq!(a.height(), 3);
    assert_eq!(a.size(), 12);
    assert_eq!(a.as_slice().len(), 12);
    assert!(a.as_slice().iter().all(|v| *v == 7));
}

#[test]
fn at_reads_row_major() {
    let a = grid_3x2();
    assert_eq!(*a.at(0, 0), 0);
    assert_eq!(*a.at(2, 0), 2);
    assert_eq!(*a.at(0, 1), 10);
    assert_eq!(*a.at(2, 1), 12);
}

#[test]
fn write_then_read() {
    let mut a = grid_3x2();
    *a.at_mut(1, 1) = 99;
    assert_eq!(*a.at(1, 1), 99);
    assert_eq!(a.as_slice(), &[0, 1, 2, 10, 99, 12]);
}

#[test]
fn index_1d_and_2d() {
    let a = grid_3x2();
    assert_eq!(a.get_index_1d(2, 1), 5);
    assert_eq!(a.get_index_1d(0, 1), 3);
    assert_eq!(a.get_index_2d(5), (2, 1));
    assert_eq!(a.get_index_2d(3), (0, 1));
    for x in 0..3u32 {
        for y in 0..2u32 {
            let i = a.get_index_1d(x, y) as u32;
            assert_eq!(a.get_index_2d(i), (x, y));
        }
    }
}

#[test]
fn flip_vertically_reverses_rows() {
    let mut a = grid_3x2();
    a.flip_vertically();
    assert_eq!(a.as_slice(), &[10, 11, 12, 0, 1, 2]);
    assert_eq!(a.width(), 3);
    assert_eq!(a.height(), 2);
}

#[test]
fn flip_vertically_odd_height_keeps_middle_row() {
    let mut a = Array2d::from_cells(2, 3, vec![1u32, 2, 3, 4, 5, 6]);
    a.flip_vertically();
    assert_eq!(a.as_slice(), &[5, 6, 3, 4, 1, 2]);
}

#[test]
fn flip_twice_is_identity() {
    let mut a = Array2d::from_cells(2, 3, vec![1u32, 2, 3, 4, 5, 6]);
    a.flip_vertically();
    a.flip_vertically();
    assert_eq!(a.as_slice(), &[1, 2, 3, 4, 5, 6]);
}

#[test]
fn flip_empty_grid() {
    let mut a: Array2d<u32> = Array2d::new();
    a.flip_vertically();
    assert_eq!(a.size(), 0);
}

#[test]
fn reset_sets_every_cell() {
    let mut a = grid_3x2();
    a.reset(4);
    assert_eq!(a.as_slice(), &[4, 4, 4, 4, 4, 4]);
    assert_eq!(a.width(), 3);
}

#[test]
fn set_size_same_dimensions_keeps_cells() {
    let mut a = grid_3x2();
    a.set_size(3, 2, 0);
    assert_eq!(a.as_slice(), &[0, 1, 2, 10, 11, 12]);
}

#[test]
fn set_size_grows_with_value() {
    let mut a = grid_3x2();
    a.set_size(4, 2, 7);
    assert_eq!(a.width(), 4);
    assert_eq!(a.height(), 2);
    assert_eq!(a.as_slice(), &[0, 1, 2, 10, 11, 12, 7, 7]);
}

#[test]
fn set_size_shrinks_keeping_prefix() {
    let mut a = grid_3x2();
    a.set_size(2, 2, 7);
    assert_eq!(a.as_slice(), &[0, 1, 2, 10]);
    assert_eq!(a.size(), 4);
}

#[test]
fn copy_from_copies_cells_and_dimensions() {
    let a = grid_3x2();
    let b = Array2d::copy_from(&a);
    assert_eq!(b.width(), 3);
    assert_eq!(b.height(), 2);
    assert_eq!(b.as_slice(), a.as_slice());
}
