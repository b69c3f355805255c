use image_picker::decode::decode_image;

// A valid 1x1 RGBA PNG file.
const ONE_PIXEL_PNG: [u8; 70] = [
    137, 80, 78, 71, 13, 10, 26, 10, 0, 0, 0, 13, 73, 72, 68, 82, 0, 0, 0, 1, 0, 0, 0, 1, 8, 6,
    0, 0, 0, 31, 21, 196, 137, 0, 0, 0, 13, 73, 68, 65, 84, 120, 218, 99, 100, 96, 248, 95, 15,
    0, 2, 135, 1, 128, 235, 71, 186, 146, 0, 0, 0, 0, 73, 69, 78, 68, 174, 66, 96, 130,
];

#[test]
fn valid_png_bytes_decode() {
    let item = decode_image("one.png".to_string(), &ONE_PIXEL_PNG);
    assert_eq!(item.source, "one.png");
    assert!(item.buffer.is_ok());
}

#[test]
fn garbage_bytes_fail_to_decode() {
    let item = decode_image("junk.bin".to_string(), &[1, 2, 3, 4]);
    assert_eq!(item.source, "junk.bin");
    assert!(item.buffer.is_err());
}

#[test]
fn empty_bytes_fail_to_decode() {
    let item = decode_image("empty".to_string(), &[]);
    assert!(item.buffer.is_err());
}
