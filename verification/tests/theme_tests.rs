use audira::theme::{accent_samples, sample_grid};

fn png(w: u32, h: u32) -> Vec<u8> {
    let img = image::RgbaImage::from_fn(w, h, |x, y| image::Rgba([x as u8, y as u8, 7, 255]));
    let mut out = std::io::Cursor::new(Vec::new());
    image::DynamicImage::ImageRgba8(img).write_to(&mut out, image::ImageFormat::Png).unwrap();
    out.into_inner()
}

#[test]
fn undecodable_bytes_give_none() {
    assert!(accent_samples(&[]).is_none());
    assert!(accent_samples(b"not an image").is_none());
}

#[test]
fn samples_every_pixel_of_a_small_image() {
    let rows = accent_samples(&png(3, 2)).unwrap();
    assert_eq!(rows.len(), 2);
    assert_eq!(rows[0], vec![(0, 0, 7), (1, 0, 7), (2, 0, 7)]);
    assert_eq!(rows[1][2], (2, 1, 7));
}

#[test]
fn samples_a_grid_on_a_large_image() {
    let rows = accent_samples(&png(100, 70)).unwrap();
    assert_eq!(rows.len(), 35);
    assert_eq!(rows[0].len(), 34);
    assert_eq!(rows[1][1], (3, 2, 7));
    assert_eq!(rows[34][33], (99, 68, 7));
}

#[test]
fn grid_of_raw_pixels() {
    let px = vec![10u8, 20, 30, 255, 40, 50, 60, 255];
    assert_eq!(sample_grid(2, 1, &px), vec![vec![(10, 20, 30), (40, 50, 60)]]);
    assert!(sample_grid(0, 5, &Vec::new()).len() == 5);
    assert!(sample_grid(0, 5, &Vec::new())[0].is_empty());
    assert!(sample_grid(4, 0, &Vec::new()).is_empty());
}
