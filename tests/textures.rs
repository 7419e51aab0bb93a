use raytracer::raster::Raster;
use raytracer::texture::{wrap_coordinate, PngFrame, Texture, TextureError};

fn checker() -> Texture {
    // 2 x 2: red, green / blue, white
    Texture::from_rgb(2, 2, vec![255, 0, 0, 0, 255, 0, 0, 0, 255, 255, 255, 255]).unwrap()
}

#[test]
fn wrap_is_the_euclidean_remainder() {
    assert_eq!(wrap_coordinate(0, 5), 0);
    assert_eq!(wrap_coordinate(7, 5), 2);
    assert_eq!(wrap_coordinate(-1, 5), 4);
    assert_eq!(wrap_coordinate(-5, 5), 0);
    assert_eq!(wrap_coordinate(-6, 5), 4);
    assert_eq!(wrap_coordinate(i64::MIN, 3), 1);
    assert_eq!(wrap_coordinate(i64::MIN, 7), 6);
    assert_eq!(wrap_coordinate(i64::MAX, 1), 0);
}

#[test]
fn texels_are_read_row_by_row() {
    let t = checker();
    assert_eq!(t.width(), 2);
    assert_eq!(t.height(), 2);
    assert_eq!(t.texel(0, 0), (255, 0, 0));
    assert_eq!(t.texel(1, 0), (0, 255, 0));
    assert_eq!(t.texel(0, 1), (0, 0, 255));
    assert_eq!(t.texel(1, 1), (255, 255, 255));
}

#[test]
fn coordinates_outside_the_image_wrap_around() {
    let t = checker();
    assert_eq!(t.texel(2, 0), (255, 0, 0));
    assert_eq!(t.texel(-1, 0), (0, 255, 0));
    assert_eq!(t.texel(-1, -1), (255, 255, 255));
    assert_eq!(t.texel(4, 3), (0, 0, 255));
}

#[test]
fn rgb_layout_must_fit() {
    assert!(Texture::from_rgb(0, 2, vec![]).is_none());
    assert!(Texture::from_rgb(2, 0, vec![]).is_none());
    assert!(Texture::from_rgb(2, 2, vec![0; 11]).is_none());
    assert!(Texture::from_rgb(usize::MAX, 2, vec![0; 12]).is_none());
    assert!(Texture::from_rgb(1, 1, vec![1, 2, 3, 4]).is_some());
}

#[test]
fn rgba_frame_drops_alpha_and_honours_row_length() {
    let frame = PngFrame {
        width: 1,
        height: 2,
        color_type: 6,
        bit_depth: 8,
        line_size: 5,
        data: vec![10, 20, 30, 40, 0, 50, 60, 70, 80, 0],
    };
    let t = Texture::from_frame(frame).unwrap();
    assert_eq!(t.texel(0, 0), (10, 20, 30));
    assert_eq!(t.texel(0, 1), (50, 60, 70));
}

#[test]
fn unsupported_or_short_frames_are_refused() {
    let frame = |color_type: u8, bit_depth: u8, width: u32, line_size: usize, len: usize| PngFrame {
        width,
        height: 1,
        color_type,
        bit_depth,
        line_size,
        data: vec![0; len],
    };
    assert_eq!(Texture::from_frame(frame(0, 8, 1, 1, 1)).err(), Some(TextureError::UnsupportedFormat));
    assert_eq!(Texture::from_frame(frame(3, 8, 1, 1, 1)).err(), Some(TextureError::UnsupportedFormat));
    assert_eq!(Texture::from_frame(frame(2, 16, 1, 6, 6)).err(), Some(TextureError::UnsupportedFormat));
    assert_eq!(Texture::from_frame(frame(2, 8, 0, 0, 0)).err(), Some(TextureError::Empty));
    assert_eq!(Texture::from_frame(frame(2, 8, 2, 5, 6)).err(), Some(TextureError::Truncated));
    assert_eq!(Texture::from_frame(frame(2, 8, 2, 6, 5)).err(), Some(TextureError::Truncated));
    assert!(Texture::from_frame(frame(2, 8, 2, 6, 6)).is_ok());
}

#[test]
fn garbage_is_not_a_png() {
    assert_eq!(Texture::from_png(b"not a png file").err(), Some(TextureError::Decode));
    assert_eq!(Texture::from_png(&[]).err(), Some(TextureError::Decode));
}

#[test]
fn encoded_raster_decodes_to_the_same_texels() {
    let mut raster = Raster::new(3, 2);
    let pixels = [(1, 2, 3), (4, 5, 6), (7, 8, 9), (200, 100, 50), (0, 0, 0), (255, 255, 255)];
    for (r, g, b) in pixels {
        raster.push_pixel(r, g, b);
    }
    let png = raster.to_png().unwrap();
    let t = Texture::from_png(&png).unwrap();
    assert_eq!((t.width(), t.height()), (3, 2));
    for (k, p) in pixels.iter().enumerate() {
        assert_eq!(t.texel((k % 3) as i64, (k / 3) as i64), *p);
    }
}
