use image_metrics::faces::{
    annotate_detections, face_annotations, face_shapes, Detections, FaceBox, Shape,
};
use image_metrics::image::{Color, Point};

fn record(len: usize) -> Vec<i32> {
    (0..len as i32).map(|i| 10 * i).collect()
}

#[test]
fn short_records_are_left_out() {
    let records = vec![record(14), record(15), record(3), record(16)];
    let a = face_annotations(&records);
    assert_eq!(a.len(), 2);
    assert_eq!(a[0].record, 1);
    assert_eq!(a[1].record, 3);
    assert_eq!(a[0].face, FaceBox { x: 0, y: 10, width: 20, height: 30 });
    assert_eq!(a[0].eye_l, Point { x: 40, y: 50 });
    assert_eq!(a[0].eye_r, Point { x: 60, y: 70 });
    assert_eq!(a[0].nose, Point { x: 80, y: 90 });
}

#[test]
fn record_of_exactly_fifteen_fields_is_kept() {
    let a = face_annotations(&vec![record(15)]);
    assert_eq!(a.len(), 1);
    assert!(face_annotations(&vec![record(14)]).is_empty());
}

#[test]
fn outcomes_tell_empty_from_malformed() {
    assert!(matches!(annotate_detections(&vec![]), Detections::NoDetections));
    assert!(matches!(annotate_detections(&vec![record(10), record(0)]), Detections::OnlyMalformed));
    match annotate_detections(&vec![record(10), record(15)]) {
        Detections::Faces(v) => {
            assert_eq!(v.len(), 1);
            assert_eq!(v[0].record, 1);
        }
        _ => panic!("expected faces"),
    }
}

#[test]
fn face_markers_are_three_circles_and_a_box() {
    let a = face_annotations(&vec![record(15)])[0];
    let s = face_shapes(&a);
    assert_eq!(s.len(), 4);
    assert_eq!(
        s[0],
        Shape::Circle { center: Point { x: 80, y: 90 }, radius: 1, color: Color { b: 255, g: 255, r: 0 }, thickness: 2 }
    );
    assert_eq!(
        s[1],
        Shape::Circle { center: Point { x: 40, y: 50 }, radius: 1, color: Color { b: 0, g: 255, r: 255 }, thickness: 2 }
    );
    assert_eq!(
        s[3],
        Shape::Rectangle {
            frame: FaceBox { x: 0, y: 10, width: 20, height: 30 },
            color: Color { b: 0, g: 255, r: 20 },
            thickness: 1
        }
    );
}
