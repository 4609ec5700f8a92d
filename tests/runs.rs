use mask_my_name::image::{Image, MASK_BYTE};
use mask_my_name::pipeline::{MaskMyNameError, MaskRun};
use mask_my_name::region::Rect;

fn sample() -> Image {
    let data: Vec<u8> = (0..8 * 10 * 3).map(|i| (i % 200) as u8).collect();
    Image::new(8, 10, 3, data).unwrap()
}

fn region() -> Rect {
    Rect { x: 2, y: 3, width: 4, height: 2 }
}

#[test]
fn matching_region_is_redacted_and_run_succeeds() {
    let before = sample();
    let mut image = before.clone();
    let mut run = MaskRun::new(&"alice".to_string());
    assert_eq!(run.on_recognized(&mut image, region(), Some("ALICE".to_string())), Ok(()));
    assert!(run.matched);
    let out = run.finish(image).unwrap();
    for i in 0..out.data.len() {
        let row = i / 30;
        let col = (i % 30) / 3;
        if (3..5).contains(&row) && (2..6).contains(&col) {
            assert_eq!(out.data[i], MASK_BYTE);
        } else {
            assert_eq!(out.data[i], before.data[i]);
        }
    }
}

#[test]
fn other_target_reports_no_match() {
    let before = sample();
    let mut image = before.clone();
    let mut run = MaskRun::new(&"bob".to_string());
    assert_eq!(run.on_recognized(&mut image, region(), Some("ALICE".to_string())), Ok(()));
    assert_eq!(image, before);
    assert_eq!(run.finish(image), Err(MaskMyNameError::NoMatchingString()));
}

#[test]
fn recognition_failure_aborts() {
    let before = sample();
    let mut image = before.clone();
    let mut run = MaskRun::new(&"alice".to_string());
    assert_eq!(run.on_recognized(&mut image, region(), None), Err(MaskMyNameError::TessGetTextError()));
    assert_eq!(image, before);
    assert!(!run.matched);
}

#[test]
fn one_match_among_several_regions_is_enough() {
    let mut image = sample();
    let mut run = MaskRun::new(&"john_doe".to_string());
    let other = Rect { x: 0, y: 0, width: 3, height: 1 };
    assert_eq!(run.on_recognized(&mut image, other, Some("nothing here".to_string())), Ok(()));
    assert_eq!(run.on_recognized(&mut image, region(), Some("John Doe,".to_string())), Ok(()));
    assert!(run.finish(image).is_ok());
}

#[test]
fn error_messages() {
    assert_eq!(MaskMyNameError::NoMatchingString().message(), "No matching string found.");
    assert_eq!(MaskMyNameError::TessInitError().message(), "Failed to initialize Tesseract.");
    assert_eq!(MaskMyNameError::ImageReadError().message(), "Read image failed.");
}
