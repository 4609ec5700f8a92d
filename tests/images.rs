use mask_my_name::image::{Image, MASK_BYTE};
use mask_my_name::region::Rect;

fn gradient(rows: usize, cols: usize, channels: usize) -> Image {
    let data: Vec<u8> = (0..rows * cols * channels).map(|i| (i % 251) as u8).collect();
    Image::new(rows, cols, channels, data).unwrap()
}

#[test]
fn new_checks_buffer_length() {
    assert!(Image::new(2, 3, 3, vec![0; 18]).is_some());
    assert!(Image::new(2, 3, 3, vec![0; 17]).is_none());
    assert!(Image::new(2, 3, 0, vec![]).is_none());
    assert!(Image::new(0, 0, 4, vec![]).is_some());
    assert!(Image::new(0, usize::MAX, 2, vec![]).is_none());
}

#[test]
fn crop_copies_the_sub_rectangle() {
    let img = gradient(4, 5, 2);
    let region = Rect { x: 1, y: 2, width: 3, height: 2 };
    let part = img.crop(region);
    assert_eq!((part.rows, part.cols, part.channels), (2, 3, 2));
    let stride = 5 * 2;
    let mut expected = Vec::new();
    for r in 2..4 {
        expected.extend_from_slice(&img.data[r * stride + 2..r * stride + 8]);
    }
    assert_eq!(part.data, expected);
}

#[test]
fn redaction_is_localized() {
    let before = gradient(6, 7, 3);
    let mut after = before.clone();
    let region = Rect { x: 2, y: 1, width: 3, height: 4 };
    after.redact(region);
    assert_eq!((after.rows, after.cols, after.channels), (6, 7, 3));
    assert_eq!(after.data.len(), before.data.len());
    for i in 0..before.data.len() {
        let row = i / 21;
        let col = (i % 21) / 3;
        let inside = (1..5).contains(&row) && (2..5).contains(&col);
        if inside {
            assert_eq!(after.data[i], MASK_BYTE);
        } else {
            assert_eq!(after.data[i], before.data[i]);
        }
    }
}

#[test]
fn redaction_of_whole_single_pixel_image() {
    let mut img = Image::new(1, 1, 4, vec![1, 2, 3, 4]).unwrap();
    img.redact(Rect { x: 0, y: 0, width: 1, height: 1 });
    assert_eq!(img.data, vec![255, 255, 255, 255]);
}
