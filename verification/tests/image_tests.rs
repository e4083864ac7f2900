use assembler::image::binary_image;

#[test]
fn empty_segments() {
    assert_eq!(binary_image(&[], &[]), Ok(vec![0, 0, 0, 0]));
}

#[test]
fn header_then_data_then_code() {
    assert_eq!(
        binary_image(&[5, 0x41, 0x42], &[0xFF, 0xFF]),
        Ok(vec![3, 0, 0, 0, 5, 0x41, 0x42, 0xFF, 0xFF])
    );
}

#[test]
fn header_counts_the_data_only() {
    assert_eq!(
        binary_image(&[], &[1, 2, 3, 4, 5]),
        Ok(vec![0, 0, 0, 0, 1, 2, 3, 4, 5])
    );
}

#[test]
fn header_is_little_endian() {
    let data = vec![7u8; 0x0123];
    let image = binary_image(&data, &[9]).unwrap();
    assert_eq!(&image[..4], &[0x23, 0x01, 0x00, 0x00]);
    assert_eq!(image.len(), 4 + 0x0123 + 1);
    assert_eq!(&image[4..4 + 0x0123], &data[..]);
    assert_eq!(image[4 + 0x0123], 9);

    let data = vec![1u8; 0x01_02_03];
    let image = binary_image(&data, &[]).unwrap();
    assert_eq!(&image[..4], &[0x03, 0x02, 0x01, 0x00]);
    assert_eq!(image.len(), 4 + 0x01_02_03);
}
