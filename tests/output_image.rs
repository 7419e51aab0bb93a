use raytracer::raster::{Raster, RasterError};

#[test]
fn raster_collects_pixels_in_order() {
    let mut raster = Raster::new(2, 1);
    assert!(!raster.is_complete());
    raster.push_pixel(1, 2, 3);
    assert!(!raster.is_complete());
    raster.push_pixel(4, 5, 6);
    assert!(raster.is_complete());
    assert_eq!(raster.samples(), &vec![1, 2, 3, 4, 5, 6]);
}

#[test]
fn incomplete_raster_is_not_encoded() {
    let mut raster = Raster::new(2, 2);
    raster.push_pixel(0, 0, 0);
    assert_eq!(raster.to_png().err(), Some(RasterError::Incomplete));
}

#[test]
fn encoded_raster_is_a_png_file() {
    let mut raster = Raster::new(1, 1);
    raster.push_pixel(255, 0, 0);
    let png = raster.to_png().unwrap();
    assert_eq!(&png[..8], &[137, 80, 78, 71, 13, 10, 26, 10]);
    // the source chromaticities chunk is written
    assert!(png.windows(4).any(|w| w == b"cHRM"));
}

#[test]
fn raster_without_pixels_is_refused() {
    let raster = Raster::new(0, 0);
    assert!(raster.is_complete());
    assert_eq!(raster.to_png().err(), Some(RasterError::Empty));
    assert_eq!(Raster::new(3, 0).to_png().err(), Some(RasterError::Empty));
}

#[test]
fn pixels_are_handed_out_from_the_top_row_down() {
    let mut raster = Raster::new(2, 3);
    let mut order = Vec::new();
    while let Some(p) = raster.next_pixel() {
        order.push(p);
        raster.push_pixel(0, 0, 0);
    }
    assert_eq!(order, vec![(0, 2), (1, 2), (0, 1), (1, 1), (0, 0), (1, 0)]);
    assert!(raster.is_complete());
    assert_eq!(Raster::new(0, 5).next_pixel(), None);
}
