use led_matrix::mapping::calculate_led_index;

#[test]
fn serpentine_bottom_of_first_column_is_index_zero() {
    // row 7 is the visual bottom; column 0 runs bottom-to-top.
    assert_eq!(calculate_led_index(7, 0, 8), 0);
}

#[test]
fn serpentine_top_of_first_column_is_index_seven() {
    assert_eq!(calculate_led_index(0, 0, 8), 7);
}

#[test]
fn serpentine_second_column_runs_top_to_bottom() {
    // Column 1 is odd, so the visual top continues the strip at index 8.
    assert_eq!(calculate_led_index(0, 1, 8), 8);
}

#[test]
fn serpentine_mapping_is_a_permutation_for_22_by_8() {
    let width = 22usize;
    let height = 8usize;
    let mut seen = vec![0u32; width * height];
    for row in 0..height {
        for col in 0..width {
            let idx = calculate_led_index(row, col, height);
            assert!(idx < width * height);
            seen[idx] += 1;
        }
    }
    for count in seen {
        assert_eq!(count, 1);
    }
}

#[test]
fn serpentine_mapping_is_a_permutation_for_odd_sizes() {
    let width = 5usize;
    let height = 3usize;
    let mut seen = vec![0u32; width * height];
    for row in 0..height {
        for col in 0..width {
            seen[calculate_led_index(row, col, height)] += 1;
        }
    }
    for count in seen {
        assert_eq!(count, 1);
    }
}
