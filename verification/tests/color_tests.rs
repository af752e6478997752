use led_matrix::color::Rgb;
use led_matrix::color::led_order_pixels;
use led_matrix::color::pixels_to_led_buffer;
use led_matrix::gamma::GAMMA_LUT;
use led_matrix::mapping::calculate_led_index;

fn solid(width: usize, height: usize, r: u8, g: u8, b: u8) -> Vec<Rgb> {
    vec![Rgb { r, g, b }; width * height]
}

#[test]
fn pixels_to_led_buffer_yields_one_entry_per_led() {
    let width = 22usize;
    let height = 8usize;
    let out = pixels_to_led_buffer(&solid(width, height, 10, 20, 30), width, height);
    assert_eq!(out.len(), width * height);
}

#[test]
fn pixels_to_led_buffer_yields_one_entry_per_led_for_small_matrix() {
    let out = pixels_to_led_buffer(&solid(3, 2, 0, 0, 0), 3, 2);
    assert_eq!(out.len(), 6);
}

#[test]
fn pixels_to_led_buffer_uses_each_index_exactly_once() {
    let width = 22usize;
    let height = 8usize;
    let out = pixels_to_led_buffer(&solid(width, height, 1, 2, 3), width, height);
    let mut seen = vec![0u32; width * height];
    for entry in &out {
        assert!(entry.index < width * height);
        seen[entry.index] += 1;
    }
    for count in seen {
        assert_eq!(count, 1);
    }
}

#[test]
fn pixels_to_led_buffer_gamma_corrects_each_channel() {
    let width = 2usize;
    let height = 2usize;
    let pixels = vec![
        Rgb { r: 200, g: 128, b: 255 },
        Rgb { r: 0, g: 28, b: 27 },
        Rgb { r: 5, g: 6, b: 7 },
        Rgb { r: 100, g: 101, b: 102 },
    ];
    let out = pixels_to_led_buffer(&pixels, width, height);
    // Entry order is row-major over pixels: (x=0,y=0) first.
    let first = out[0];
    assert_eq!(first.index, calculate_led_index(0, 0, height));
    assert_eq!(first.color.r, GAMMA_LUT[200]);
    assert_eq!(first.color.g, GAMMA_LUT[128]);
    assert_eq!(first.color.b, GAMMA_LUT[255]);
    let second = out[1];
    assert_eq!(second.index, calculate_led_index(0, 1, height));
    assert_eq!(second.color.g, GAMMA_LUT[28]);
}

#[test]
fn led_order_pixels_places_pixels_at_their_led_index() {
    let width = 3usize;
    let height = 2usize;
    let mut pixels = solid(width, height, 0, 0, 0);
    // Mark the pixel at (x=1, y=0) with a distinctive raw value.
    pixels[0 * width + 1] = Rgb { r: 255, g: 255, b: 255 };
    let out = led_order_pixels(&pixels, width, height);
    assert_eq!(out.len(), width * height);
    let idx = calculate_led_index(0, 1, height);
    assert_eq!(out[idx], Rgb { r: 255, g: 255, b: 255 });
    for (i, c) in out.iter().enumerate() {
        if i != idx {
            assert_eq!(*c, Rgb { r: 0, g: 0, b: 0 });
        }
    }
}
