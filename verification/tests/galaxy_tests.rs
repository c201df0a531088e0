use engine::galaxy::{same_sector, sectors_adjacent, sectors_around};
use engine::spatial_hash::cells_in_box;

#[test]
fn sector_adjacency() {
    assert!(sectors_adjacent((1, -2, 3), (2, -1, 3)));
    assert!(sectors_adjacent((5, 5, 5), (5, 5, 5)));
    assert!(!sectors_adjacent((0, 0, 0), (2, 0, 0)));
    assert!(!sectors_adjacent((0, 0, 0), (0, 0, -2)));
    assert!(sectors_adjacent((i32::MAX, 0, 0), (i32::MAX - 1, 1, -1)));
}

#[test]
fn same_sector_compares_all_axes() {
    assert!(same_sector((1, -2, 3), (1, -2, 3)));
    assert!(!same_sector((1, -2, 3), (1, -2, 4)));
}

#[test]
fn sectors_around_the_camera() {
    let sectors = sectors_around((10, 0, -3), 1);
    assert_eq!(sectors.len(), 27);
    assert_eq!(sectors[0], (9, -1, -4));
    assert_eq!(sectors[1], (9, -1, -3));
    assert_eq!(sectors[26], (11, 1, -2));
    assert!(sectors.contains(&(10, 0, -3)));
    assert!(sectors_around((0, 0, 0), -1).is_empty());
    assert_eq!(sectors_around((0, 0, 0), 0), vec![(0, 0, 0)]);
}

#[test]
fn cells_of_a_box_in_x_major_order() {
    assert_eq!(
        cells_in_box((0, 0, 0), (1, 1, 0)),
        vec![(0, 0, 0), (0, 1, 0), (1, 0, 0), (1, 1, 0)]
    );
    assert!(cells_in_box((1, 0, 0), (0, 0, 0)).is_empty());
}
