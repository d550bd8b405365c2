use mapgen::kernel::Kernel;

#[test]
fn valid_radius_bounds_size_five() {
    assert_eq!(Kernel::get_valid_radius_bounds(5), (4, 8));
}

#[test]
fn valid_radius_bounds_size_three() {
    assert_eq!(Kernel::get_valid_radius_bounds(3), (1, 2));
}

#[test]
fn valid_radius_bounds_size_seven() {
    assert_eq!(Kernel::get_valid_radius_bounds(7), (9, 18));
}

#[test]
fn is_valid_radius_boundaries() {
    assert!(!Kernel::is_valid_radius(5, 3));
    assert!(Kernel::is_valid_radius(5, 4));
    assert!(Kernel::is_valid_radius(5, 8));
    assert!(!Kernel::is_valid_radius(5, 9));
}

#[test]
fn unique_radii_size_three() {
    assert_eq!(Kernel::get_unique_radii_sqr(3), vec![1, 2]);
}

#[test]
fn unique_radii_size_five() {
    assert_eq!(Kernel::get_unique_radii_sqr(5), vec![4, 5, 8]);
}

#[test]
fn unique_radii_size_seven() {
    // offsets 0..=3, half quadrant x <= y, min radius 9:
    // (0,3)=9, (1,3)=10, (2,3)=13, (3,3)=18, (2,2) is below 9? 8 < 9 skipped.
    assert_eq!(Kernel::get_unique_radii_sqr(7), vec![9, 10, 13, 18]);
}

#[test]
fn kernel_size_three_radius_one_is_plus_shape() {
    let k = Kernel::new(3, 1);
    let expected = [
        [false, true, false],
        [true, true, true],
        [false, true, false],
    ];
    for x in 0..3 {
        for y in 0..3 {
            assert_eq!(k.is_active(x, y), expected[x][y], "cell ({}, {})", x, y);
        }
    }
}

#[test]
fn kernel_max_radius_fills_square() {
    let k = Kernel::new(3, 2);
    for x in 0..3 {
        for y in 0..3 {
            assert!(k.is_active(x, y));
        }
    }
}

/// Every mask over the valid radius range contains its center and is
/// invariant under horizontal, vertical and diagonal reflection.
#[test]
fn kernel_mask_center_active_and_symmetric() {
    for size in [3usize, 5, 7, 9] {
        let (min_r, max_r) = Kernel::get_valid_radius_bounds(size);
        for radius in min_r..=max_r {
            let k = Kernel::new(size, radius);
            let c = (size - 1) / 2;
            assert!(k.is_active(c, c), "center inactive for size {} radius {}", size, radius);
            for x in 0..size {
                for y in 0..size {
                    let v = k.is_active(x, y);
                    assert_eq!(v, k.is_active(size - 1 - x, y));
                    assert_eq!(v, k.is_active(x, size - 1 - y));
                    assert_eq!(v, k.is_active(y, x));
                }
            }
        }
    }
}
