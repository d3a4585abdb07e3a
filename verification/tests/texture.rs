use rust_raytracer::texture::ImageTexture;

/// A 3 by 2 image whose sample in column i of row j is (10 i, 20 j, i + j).
fn sample_image() -> ImageTexture {
    let mut data = Vec::new();
    for j in 0..2u8 {
        for i in 0..3u8 {
            data.extend_from_slice(&[10 * i, 20 * j, i + j]);
        }
    }
    ImageTexture::from_rgb8(data, 3, 2).unwrap()
}

#[test]
fn size_is_kept() {
    let t = sample_image();
    assert_eq!((t.width(), t.height()), (3, 2));
}

#[test]
fn texel_inside_the_grid() {
    let t = sample_image();
    assert_eq!(t.texel(0, 0), (0, 0, 0));
    assert_eq!(t.texel(2, 0), (20, 0, 2));
    assert_eq!(t.texel(1, 1), (10, 20, 2));
    assert_eq!(t.texel(2, 1), (20, 20, 3));
}

#[test]
fn texel_beyond_the_last_column_reads_the_last_column() {
    let t = sample_image();
    assert_eq!(t.texel(3, 0), (20, 0, 2));
    assert_eq!(t.texel(u32::MAX, 1), (20, 20, 3));
}

#[test]
fn texel_beyond_the_last_row_reads_the_last_row() {
    let t = sample_image();
    assert_eq!(t.texel(0, 2), (0, 20, 1));
    assert_eq!(t.texel(7, 9), (20, 20, 3));
}

#[test]
fn single_sample_image() {
    let t = ImageTexture::from_rgb8(vec![1, 2, 3], 1, 1).unwrap();
    assert_eq!(t.texel(0, 0), (1, 2, 3));
    assert_eq!(t.texel(5, 5), (1, 2, 3));
}

#[test]
fn empty_image_is_refused() {
    assert!(ImageTexture::from_rgb8(vec![], 0, 0).is_none());
    assert!(ImageTexture::from_rgb8(vec![], 0, 4).is_none());
    assert!(ImageTexture::from_rgb8(vec![], 4, 0).is_none());
}

#[test]
fn data_of_another_length_is_refused() {
    assert!(ImageTexture::from_rgb8(vec![0; 17], 3, 2).is_none());
    assert!(ImageTexture::from_rgb8(vec![0; 19], 3, 2).is_none());
    assert!(ImageTexture::from_rgb8(vec![0; 6], 3, 2).is_none());
    assert!(ImageTexture::from_rgb8(vec![0; 18], 3, 2).is_some());
}

#[test]
fn image_too_large_for_any_buffer_is_refused() {
    assert!(ImageTexture::from_rgb8(vec![0; 3], u32::MAX, u32::MAX).is_none());
}
