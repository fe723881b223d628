use chip8::video_buffer::{VideoBuffer, CHIP8_HEIGHT, CHIP8_WIDTH};

#[test]
fn test_set_pixel() {
    let mut buffer = VideoBuffer::default();
    buffer.set_pixel(0, 0, true);
    assert!(buffer.get_pixel(0, 0));
    assert!(!buffer.get_pixel(1, 0));
}

#[test]
fn test_all_pixels() {
    let mut buffer = VideoBuffer::default();

    for x in 0..CHIP8_WIDTH {
        for y in 0..CHIP8_HEIGHT {
            buffer.set_pixel(x, y, true);
            assert!(buffer.get_pixel(x, y));
        }
    }

    for x in 0..CHIP8_WIDTH {
        for y in 0..CHIP8_HEIGHT {
            buffer.toggle_pixel(x, y);
            assert!(!buffer.get_pixel(x, y));
        }
    }
}

#[test]
fn xor_pixel_is_its_own_inverse() {
    let mut buffer = VideoBuffer::default();
    buffer.set_pixel(10, 20, true);

    // First XOR with true: erases the pixel and reports it was set.
    let was_on = buffer.xor_pixel(10, 20, true);
    assert!(was_on);
    assert!(!buffer.get_pixel(10, 20));

    // Second identical XOR: restores the original bit, and reports the value
    // the first call left behind.
    let was_on = buffer.xor_pixel(10, 20, true);
    assert!(!was_on);
    assert!(buffer.get_pixel(10, 20));

    // XOR with false never changes the pixel.
    let was_on = buffer.xor_pixel(10, 20, false);
    assert!(was_on);
    assert!(buffer.get_pixel(10, 20));
}

#[test]
fn clear_makes_every_pixel_false() {
    let mut buffer = VideoBuffer::default();
    buffer.set_pixel(0, 0, true);
    buffer.set_pixel(63, 31, true);
    buffer.set_pixel(7, 13, true);
    buffer.clear();
    for x in 0..CHIP8_WIDTH {
        for y in 0..CHIP8_HEIGHT {
            assert!(!buffer.get_pixel(x, y));
        }
    }
}

#[test]
fn as_bytes_wire_format() {
    let mut buffer = VideoBuffer::default();
    let bytes = buffer.as_bytes();
    assert_eq!(bytes.len(), 256);
    assert!(bytes.iter().all(|&b| b == 0));

    // Bit k of byte j is the pixel at flat index 8 * j + k.
    buffer.set_pixel(0, 0, true); // flat 0: byte 0, bit 0
    buffer.set_pixel(9, 0, true); // flat 9: byte 1, bit 1
    buffer.set_pixel(0, 1, true); // flat 64: byte 8, bit 0
    buffer.set_pixel(63, 31, true); // flat 2047: byte 255, bit 7
    let bytes = buffer.as_bytes();
    assert_eq!(bytes[0], 0x01);
    assert_eq!(bytes[1], 0x02);
    assert_eq!(bytes[8], 0x01);
    assert_eq!(bytes[255], 0x80);
    assert_eq!(bytes.iter().filter(|&&b| b != 0).count(), 4);
}
