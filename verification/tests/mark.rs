use dns_ai::mark::{blend, dib, ico, ico_sizes, pixels, Rgb, Rgba};

const RED: Rgb = Rgb { r: 200, g: 0, b: 0 };

#[test]
fn a_pixel_is_the_mean_of_what_is_drawn_in_it() {
    assert_eq!(blend(&vec![None; 16]), Rgba { r: 0, g: 0, b: 0, a: 0 });
    assert_eq!(blend(&vec![Some(RED); 16]), Rgba { r: 200, g: 0, b: 0, a: 255 });
    let mut half = vec![None; 8];
    half.extend_from_slice(&[Some(RED); 8]);
    assert_eq!(blend(&half), Rgba { r: 200, g: 0, b: 0, a: 128 });
    let mut two = vec![None; 16];
    two[0] = Some(Rgb { r: 1, g: 2, b: 3 });
    two[9] = Some(Rgb { r: 2, g: 4, b: 3 });
    assert_eq!(blend(&two), Rgba { r: 2, g: 3, b: 3, a: 32 });
}

fn le(b: &[u8]) -> usize {
    b.iter().rev().fold(0usize, |n, &x| n * 256 + x as usize)
}

/// Four pixels: transparent, red, green, blue.
fn square() -> Vec<u8> {
    vec![0, 0, 0, 0, 255, 0, 0, 255, 0, 255, 0, 255, 0, 0, 255, 255]
}

#[test]
fn an_image_is_stored_from_the_lowest_row_up() {
    let d = dib(&square(), 2);
    assert_eq!(d.len(), 40 + 16 + 8);
    assert_eq!((le(&d[0..4]), le(&d[4..8]), le(&d[8..12])), (40, 2, 4));
    assert_eq!((le(&d[12..14]), le(&d[14..16]), le(&d[16..20]), le(&d[20..24])), (1, 32, 0, 24));
    assert_eq!(&d[24..40], &[0u8; 16]);
    assert_eq!(&d[40..48], &[0, 255, 0, 255, 255, 0, 0, 255]);
    assert_eq!(&d[48..56], &[0, 0, 0, 0, 0, 0, 255, 255]);
    assert_eq!(&d[56..64], &[0, 0, 0, 0, 0x80, 0, 0, 0]);
}

#[test]
fn the_mask_takes_whole_groups_of_four_bytes() {
    let clear = vec![0u8; 33 * 33 * 4];
    let d = dib(&clear, 33);
    assert_eq!(d.len(), 40 + 33 * 33 * 4 + 8 * 33);
    let row = &d[40 + 33 * 33 * 4..40 + 33 * 33 * 4 + 8];
    assert_eq!(row, &[0xff, 0xff, 0xff, 0xff, 0x80, 0, 0, 0]);
}

#[test]
fn every_entry_leads_to_its_image() {
    let sizes = vec![2usize, 256];
    let pixels = vec![square(), vec![7u8; 256 * 256 * 4]];
    let file = ico(&sizes, &pixels);
    assert_eq!(&file[0..6], &[0, 0, 1, 0, 2, 0]);
    assert_eq!((file[6], file[7]), (2, 2));
    assert_eq!((file[22], file[23]), (0, 0));
    for i in 0..2 {
        let entry = &file[6 + 16 * i..22 + 16 * i];
        assert_eq!((le(&entry[4..6]), le(&entry[6..8])), (1, 32));
        let (len, at) = (le(&entry[8..12]), le(&entry[12..16]));
        assert_eq!(&file[at..at + len], &dib(&pixels[i], sizes[i])[..]);
    }
    assert_eq!(ico_sizes(), vec![16, 32, 48, 64, 128, 256]);
}

#[test]
fn a_picture_is_its_pixels_row_by_row() {
    let blue = Rgb { r: 0, g: 0, b: 90 };
    let mut samples = vec![None; 16];
    samples.extend_from_slice(&[Some(RED); 16]);
    samples.extend_from_slice(&[None; 8]);
    samples.extend_from_slice(&[Some(blue); 8]);
    samples.extend_from_slice(&[Some(blue); 16]);
    assert_eq!(
        pixels(2, &samples),
        vec![0, 0, 0, 0, 200, 0, 0, 255, 0, 0, 90, 128, 0, 0, 90, 255]
    );
    assert!(pixels(0, &vec![]).is_empty());
}
