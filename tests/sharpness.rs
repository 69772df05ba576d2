use image_metrics::errors::{InputError, ProcessError};
use image_metrics::image::{split_planes, BgrImage, Plane};
use image_metrics::sharpness::{center_crop, center_crop_rect, Rect, CROP_SIZE};

#[test]
fn all_zero_four_by_four_image_is_too_small() {
    let img = BgrImage::new(4, 4, vec![0; 48]).unwrap();
    let gray = &split_planes(&img)[0];
    let e = center_crop(gray).unwrap_err();
    assert!(matches!(e, ProcessError::Input(InputError::ImageTooSmall)));
}

#[test]
fn crop_rect_is_centered() {
    assert_eq!(center_crop_rect(200, 200).unwrap(), Rect { x: 0, y: 0, width: 200, height: 200 });
    assert_eq!(center_crop_rect(640, 480).unwrap(), Rect { x: 220, y: 140, width: 200, height: 200 });
    assert_eq!(center_crop_rect(201, 301).unwrap(), Rect { x: 0, y: 50, width: 200, height: 200 });
}

#[test]
fn crop_rect_refuses_small_images() {
    assert!(center_crop_rect(199, 500).unwrap_err().is_input(InputError::ImageTooSmall));
    assert!(center_crop_rect(500, 199).unwrap_err().is_input(InputError::ImageTooSmall));
    assert!(center_crop_rect(0, 0).unwrap_err().is_input(InputError::ImageTooSmall));
}

#[test]
fn crop_copies_the_central_square() {
    let (w, h) = (210usize, 204usize);
    let data: Vec<u8> = (0..w * h).map(|i| ((i % w) as u8) ^ ((i / w) as u8)).collect();
    let p = Plane::new(w, h, data).unwrap();
    let c = center_crop(&p).unwrap();
    assert_eq!((c.width, c.height, c.data.len()), (CROP_SIZE, CROP_SIZE, 40000));
    // corner at (5, 2)
    for (k, v) in c.data.iter().enumerate() {
        let (x, y) = (k % 200 + 5, k / 200 + 2);
        assert_eq!(*v, (x as u8) ^ (y as u8));
    }
}
