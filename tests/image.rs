use image_metrics::errors::{InputError, ProcessError};
use image_metrics::image::{split_planes, BgrImage, Plane};

#[test]
fn plane_checks_its_buffer_length() {
    let p = Plane::new(3, 2, vec![0; 6]).unwrap();
    assert_eq!((p.width, p.height, p.data.len()), (3, 2, 6));
    assert!(Plane::new(3, 2, vec![0; 5]).unwrap_err().is_input(InputError::SizeMismatch));
    assert!(Plane::new(usize::MAX, 2, vec![]).is_err());
}

#[test]
fn image_checks_its_buffer_length() {
    assert!(BgrImage::new(2, 2, vec![0; 12]).is_ok());
    assert!(BgrImage::new(2, 2, vec![0; 4]).unwrap_err().is_input(InputError::SizeMismatch));
    assert!(BgrImage::new(usize::MAX, usize::MAX, vec![]).is_err());
}

#[test]
fn split_separates_interleaved_components() {
    let img = BgrImage::new(2, 1, vec![1, 2, 3, 4, 5, 6]).unwrap();
    let planes = split_planes(&img);
    assert_eq!(planes.len(), 3);
    assert_eq!(planes[0].data, vec![1, 4]);
    assert_eq!(planes[1].data, vec![2, 5]);
    assert_eq!(planes[2].data, vec![3, 6]);
    assert_eq!((planes[2].width, planes[2].height), (2, 1));
}

#[test]
fn image_library_errors_keep_their_message() {
    let e = ProcessError::from_image_message("bad file".to_string());
    assert!(matches!(&e, ProcessError::Image(m) if m == "bad file"));
    assert!(!e.is_input(InputError::SizeMismatch));
}
