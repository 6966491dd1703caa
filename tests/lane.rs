use univsrg::lane::{column_from_x, x_from_column};

#[test]
fn lanes_survive_the_trip_through_pixel_columns() {
    for column_count in 1u32..=18 {
        for column in 0..column_count {
            let x = x_from_column(column, column_count);
            assert!(x < 512);
            assert_eq!(column_from_x(x as u32, column_count), column as u64);
        }
    }
}

#[test]
fn seven_lane_centres() {
    let xs: Vec<u64> = (0..7).map(|c| x_from_column(c, 7)).collect();
    assert_eq!(xs, vec![36, 109, 182, 256, 329, 402, 475]);
    assert_eq!(x_from_column(0, 4), 64);
    assert_eq!(x_from_column(3, 4), 448);
}

#[test]
fn column_of_pixel_columns() {
    assert_eq!(column_from_x(0, 4), 0);
    assert_eq!(column_from_x(127, 4), 0);
    assert_eq!(column_from_x(128, 4), 1);
    assert_eq!(column_from_x(511, 4), 3);
    assert_eq!(column_from_x(512, 4), 4);
}
