use rtgraph::frame::flip_vertical;

#[test]
fn flip_reverses_row_order() {
    // A 2x2 RGBA capture: 16 bytes, two rows of 8.
    let pixels: Vec<u8> = (0..16).collect();
    let flipped = flip_vertical(&pixels, 2, 2);
    assert_eq!(flipped.len(), pixels.len());
    let expected: Vec<u8> = (8..16).chain(0..8).collect();
    assert_eq!(flipped, expected);
}

#[test]
fn flip_keeps_rows_intact() {
    // 1x3: three rows of 4 bytes end up in reverse row order.
    let pixels: Vec<u8> = vec![0, 1, 2, 3, 10, 11, 12, 13, 20, 21, 22, 23];
    let flipped = flip_vertical(&pixels, 1, 3);
    assert_eq!(flipped, vec![20, 21, 22, 23, 10, 11, 12, 13, 0, 1, 2, 3]);
}

#[test]
fn flip_twice_is_identity() {
    let pixels: Vec<u8> = (0..64).map(|i| (i * 7) as u8).collect();
    let once = flip_vertical(&pixels, 4, 4);
    let twice = flip_vertical(&once, 4, 4);
    assert_eq!(twice, pixels);
}

#[test]
fn flip_single_row_is_identity() {
    let pixels: Vec<u8> = vec![9, 8, 7, 6];
    assert_eq!(flip_vertical(&pixels, 1, 1), pixels);
}
