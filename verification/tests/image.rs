use purepic::image::{create_demo_image, preview_dimensions, DEMO_HEIGHT, DEMO_WIDTH};

fn demo_colors() -> Vec<(u8, u8, u8)> {
    let mut colors = Vec::new();
    for y in 0..DEMO_HEIGHT {
        for x in 0..DEMO_WIDTH {
            colors.push(((x % 256) as u8, (y % 256) as u8, ((x + y) % 256) as u8));
        }
    }
    colors
}

#[test]
fn demo_image_has_valid_bgra_storage() {
    let image = create_demo_image(&demo_colors());
    assert_eq!((image.width, image.height), (DEMO_WIDTH, DEMO_HEIGHT));
    assert_eq!(image.stride, DEMO_WIDTH * 4);
    assert_eq!(image.pixels.len(), (image.stride * DEMO_HEIGHT) as usize);
    assert!(image.pixels.chunks_exact(4).all(|pixel| pixel[3] == 255));
}

#[test]
fn demo_image_stores_each_colour_as_blue_green_red() {
    let colors = demo_colors();
    let image = create_demo_image(&colors);
    assert_eq!((image.width, image.height), (1280, 720));
    assert_eq!(image.file_name, "PurePic 演示图");
    assert_eq!(image.file_size, 0);
    assert_eq!((image.original_width, image.original_height), (1280, 720));
    let index = 721 * 1280 / 2 + 17;
    let (red, green, blue) = colors[index];
    assert_eq!(&image.pixels[index * 4..index * 4 + 4], &[blue, green, red, 255]);
}

#[test]
fn preview_keeps_small_images_at_original_size() {
    assert_eq!(preview_dimensions(800, 600, 1920, 1080), (800, 600));
}

#[test]
fn preview_preserves_aspect_ratio() {
    assert_eq!(preview_dimensions(3840, 2160, 1280, 700), (1244, 700));
    assert_eq!(preview_dimensions(2160, 3840, 1280, 700), (394, 700));
}

#[test]
fn preview_of_a_wide_image_fills_the_target_width() {
    assert_eq!(preview_dimensions(4000, 1000, 1000, 1000), (1000, 250));
}

#[test]
fn preview_never_shrinks_below_one_pixel() {
    assert_eq!(preview_dimensions(10000, 1, 100, 100), (100, 1));
    assert_eq!(preview_dimensions(1, 10000, 100, 100), (1, 100));
}

#[test]
fn preview_keeps_an_image_exactly_the_target_size() {
    assert_eq!(preview_dimensions(1280, 700, 1280, 700), (1280, 700));
}

#[test]
fn the_demo_picture_depends_only_on_its_colours() {
    let colors = demo_colors();
    let first = create_demo_image(&colors);
    let second = create_demo_image(&colors);
    assert_eq!(first.pixels, second.pixels);
    assert_eq!(first.file_name, second.file_name);
    assert_eq!((first.width, first.height), (first.original_width, first.original_height));
    assert_eq!(first.file_size, 0);
}
