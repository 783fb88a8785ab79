use brookshear::display::{
    clear_display, display_memory_to_rgba_image, display_pixel, load_display_memory, pixel_value,
    rgba_image_to_display_memory, toggle_display_pixel, RgbaImage,
};
use brookshear::machine::{memory_image_from_bytes, BrookshearMachine};

#[test]
fn display_image_round_trips() {
    let mut bytes = [0u8; 128];
    for (i, b) in bytes.iter_mut().enumerate() {
        *b = if (i / 16) % 2 == 0 { 0b0000_1111 } else { 0b1111_0000 };
    }
    let image = display_memory_to_rgba_image(&bytes);
    assert_eq!((image.width, image.height, image.pixels.len()), (32, 32, 1024));
    // Row 0, columns 0..4 are dark and 4..8 lit.
    assert_eq!(image.pixels[0], [0, 0, 0, 255]);
    assert_eq!(image.pixels[4], [255, 255, 255, 255]);
    assert_eq!(rgba_image_to_display_memory(&image).unwrap(), bytes);
}

#[test]
fn brighter_colour_is_on() {
    let mut pixels = vec![[10u8, 20, 30, 255]; 1024];
    pixels[9] = [200, 5, 5, 255];
    let image = RgbaImage { width: 32, height: 32, pixels };
    let bytes = rgba_image_to_display_memory(&image).unwrap();
    assert_eq!(bytes[1], 0b0100_0000);
    assert_eq!(bytes.iter().filter(|b| **b != 0).count(), 1);
    assert_eq!(pixel_value(&[1, 9, 3, 0]), 9);
}

#[test]
fn wrong_size_is_refused() {
    let image = RgbaImage { width: 2, height: 1, pixels: vec![[0, 0, 0, 255]; 2] };
    assert_eq!(
        rgba_image_to_display_memory(&image).unwrap_err(),
        "Display images must be exactly 32x32 pixels, but this image is 2x1."
    );
}

#[test]
fn one_colour_is_refused() {
    let image = display_memory_to_rgba_image(&[0u8; 128]);
    assert_eq!(
        rgba_image_to_display_memory(&image).unwrap_err(),
        "Display image must contain exactly two colors so the on/off pixels can be determined."
    );
}

#[test]
fn third_colour_is_refused() {
    let mut pixels = vec![[0u8, 0, 0, 255]; 1024];
    pixels[1] = [255, 255, 255, 255];
    pixels[33] = [7, 7, 7, 255];
    let image = RgbaImage { width: 32, height: 32, pixels };
    assert_eq!(
        rgba_image_to_display_memory(&image).unwrap_err(),
        "Encountered a third pixel value (7) at (1, 1); only two colors are supported."
    );
}

#[test]
fn clicking_a_pixel_toggles_its_bit() {
    let mut m = BrookshearMachine::new();
    m.set_memory(0x85, 0b0101_0000);
    assert!(!display_pixel(&m, 1, 8));
    assert!(display_pixel(&m, 1, 9));
    toggle_display_pixel(&mut m, 1, 8);
    assert_eq!(m.get_memory(0x85), 0b1101_0000);
    assert!(display_pixel(&m, 1, 8));
    toggle_display_pixel(&mut m, 1, 9);
    assert_eq!(m.get_memory(0x85), 0b1001_0000);
    toggle_display_pixel(&mut m, 31, 31);
    assert_eq!(m.get_memory(0xFF), 0b0000_0001);
    toggle_display_pixel(&mut m, 31, 31);
    assert_eq!(m.get_memory(0xFF), 0);
    toggle_display_pixel(&mut m, 0, 0);
    assert_eq!(m.get_memory(0x80), 0b1000_0000);
    for a in 0..0x80u8 {
        assert_eq!(m.get_memory(a), 0);
    }
}

#[test]
fn clear_button_fills_only_the_display() {
    let mut m = BrookshearMachine::new();
    m.set_memory(0x10, 0x42);
    m.set_memory(0x90, 0x0F);
    clear_display(&mut m, true);
    assert_eq!(m.get_memory(0x10), 0x42);
    for a in 0x80..=0xFFu8 {
        assert_eq!(m.get_memory(a), 0xFF);
    }
    clear_display(&mut m, false);
    assert_eq!(m.get_memory(0x10), 0x42);
    for a in 0x80..=0xFFu8 {
        assert_eq!(m.get_memory(a), 0);
    }
}

#[test]
fn display_image_loads_into_display_memory() {
    let mut m = BrookshearMachine::new();
    m.set_memory(0x7F, 9);
    let mut display = [0u8; 128];
    display[0] = 0xAA;
    display[127] = 0x55;
    load_display_memory(&mut m, &display);
    assert_eq!(m.get_memory(0x7F), 9);
    assert_eq!(m.get_memory(0x80), 0xAA);
    assert_eq!(m.get_memory(0xFF), 0x55);
    assert_eq!(m.get_memory(0x90), 0);
}

#[test]
fn memory_files_must_hold_256_bytes() {
    let bytes: Vec<u8> = (0..=255u8).collect();
    let image = memory_image_from_bytes(&bytes).unwrap();
    assert_eq!(image[0x10], 0x10);
    assert_eq!(image[0xFF], 0xFF);
    assert_eq!(
        memory_image_from_bytes(&bytes[..100]).unwrap_err(),
        "File is the wrong size. Expected 256 bytes, got: 100"
    );
}
