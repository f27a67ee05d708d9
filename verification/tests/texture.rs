use pathtracer::texture::{checker_odd, ImageTexture, ALPHA_THRESHOLD};

fn checker(width: u32, height: u32) -> Vec<u8> {
    let mut bytes = Vec::new();
    for y in 0..height {
        for x in 0..width {
            bytes.push(x as u8);
            bytes.push(y as u8);
            bytes.push((x + y) as u8);
            bytes.push((10 * x + y) as u8);
        }
    }
    bytes
}

#[test]
fn new_wants_four_bytes_for_each_texel() {
    assert!(ImageTexture::new(2, 2, vec![0; 16]).is_some());
    assert!(ImageTexture::new(2, 2, vec![0; 15]).is_none());
    assert!(ImageTexture::new(2, 2, vec![0; 17]).is_some());
    assert!(ImageTexture::new(0, 0, Vec::new()).is_some());
    assert!(ImageTexture::new(u32::MAX, u32::MAX, vec![0; 16]).is_none());
}

#[test]
fn width_and_height_are_those_given() {
    let texture = ImageTexture::new(3, 2, checker(3, 2)).unwrap();
    assert_eq!(texture.width(), 3);
    assert_eq!(texture.height(), 2);
}

#[test]
fn texel_reads_column_and_row() {
    let texture = ImageTexture::new(3, 2, checker(3, 2)).unwrap();
    assert_eq!(texture.texel(0, 0), Some([0, 0, 0, 0]));
    assert_eq!(texture.texel(2, 0), Some([2, 0, 2, 20]));
    assert_eq!(texture.texel(1, 1), Some([1, 1, 2, 11]));
    assert_eq!(texture.texel(2, 1), Some([2, 1, 3, 21]));
}

#[test]
fn texel_beyond_the_raster_is_the_last_one() {
    let texture = ImageTexture::new(3, 2, checker(3, 2)).unwrap();
    assert_eq!(texture.texel(3, 0), Some([2, 0, 2, 20]));
    assert_eq!(texture.texel(0, 2), Some([0, 1, 1, 1]));
    assert_eq!(texture.texel(u32::MAX, u32::MAX), Some([2, 1, 3, 21]));
}

#[test]
fn texel_of_a_raster_without_texels_is_none() {
    assert_eq!(ImageTexture::new(0, 0, Vec::new()).unwrap().texel(0, 0), None);
    assert_eq!(ImageTexture::new(0, 4, Vec::new()).unwrap().texel(0, 0), None);
    assert_eq!(ImageTexture::new(4, 0, Vec::new()).unwrap().texel(1, 1), None);
}

#[test]
fn solid_above_the_threshold() {
    assert_eq!(ALPHA_THRESHOLD, 10);
    assert!(!ImageTexture::solid(&[255, 255, 255, 0]));
    assert!(!ImageTexture::solid(&[255, 255, 255, 10]));
    assert!(ImageTexture::solid(&[0, 0, 0, 11]));
    assert!(ImageTexture::solid(&[0, 0, 0, 255]));
}

#[test]
fn checker_is_odd_below_zero() {
    assert!(checker_odd((-0.25f32).to_bits()));
    assert!(!checker_odd(0.25f32.to_bits()));
    assert!(!checker_odd(0.0f32.to_bits()));
    assert!(!checker_odd((-0.0f32).to_bits()));
    assert!(!checker_odd(f32::NAN.to_bits()));
}

#[test]
fn a_clone_holds_the_same_texels() {
    let texture = ImageTexture::new(3, 2, checker(3, 2)).unwrap();
    let copy = texture.clone();
    assert_eq!(copy.width(), 3);
    assert_eq!(copy.height(), 2);
    for row in 0..3 {
        for column in 0..4 {
            assert_eq!(copy.texel(column, row), texture.texel(column, row));
        }
    }
    assert_eq!(copy.texel(2, 1), Some([2, 1, 3, 21]));
}
