use vstd::prelude::*;

use crate::image::{Color, Point};

verus! {

/// Number of fields of a complete detection record: bounding box (4),
/// five landmark points (10) and the confidence score (1).
pub const FACE_FIELDS: usize = 15;

/// A face bounding box; a detector may place it partly outside the image.
#[derive(Clone, Copy, Debug, PartialEq, Eq, Structural)]
pub struct FaceBox {
    pub x: i64,
    pub y: i64,
    pub width: i64,
    pub height: i64,
}

/// What is drawn for one detected face. `record` is the position of the
/// detection record it came from, where its confidence score can be read.
#[derive(Clone, Copy, Debug, PartialEq, Eq, Structural)]
pub struct FaceAnnotation {
    pub record: usize,
    pub face: FaceBox,
    pub eye_l: Point,
    pub eye_r: Point,
    pub nose: Point,
}

/// The annotation of record `rec`, found at position `k`: bounding box in
/// fields 0 to 3, then the two eyes and the nose as (x, y) pairs in fields 4 to 9.
pub open spec fn annotation_of(rec: Seq<i32>, k: int) -> FaceAnnotation {
    FaceAnnotation {
        record: k as usize,
        face: FaceBox { x: rec[0] as i64, y: rec[1] as i64, width: rec[2] as i64, height: rec[3] as i64 },
        eye_l: Point { x: rec[4] as i64, y: rec[5] as i64 },
        eye_r: Point { x: rec[6] as i64, y: rec[7] as i64 },
        nose: Point { x: rec[8] as i64, y: rec[9] as i64 },
    }
}

/// The annotations of the complete records among the first `n`, in order.
pub open spec fn annotations_upto(records: Seq<Vec<i32>>, n: int) -> Seq<FaceAnnotation>
    decreases n,
{
    if n <= 0 {
        Seq::empty()
    } else if records[n - 1]@.len() >= FACE_FIELDS {
        annotations_upto(records, n - 1).push(annotation_of(records[n - 1]@, n - 1))
    } else {
        annotations_upto(records, n - 1)
    }
}

/// The annotations of all complete records, in order.
pub open spec fn annotations(records: Seq<Vec<i32>>) -> Seq<FaceAnnotation> {
    annotations_upto(records, records.len() as int)
}

/// Builds the annotations of the records that have at least `FACE_FIELDS`
/// fields, in order; shorter records are left out.
pub fn face_annotations(records: &Vec<Vec<i32>>) -> (r: Vec<FaceAnnotation>)
    ensures
        r@ == annotations(records@),
{
    let mut r: Vec<FaceAnnotation> = Vec::new();
    let mut i: usize = 0;
    while i < records.len()
        invariant
            i <= records@.len(),
            r@ == annotations_upto(records@, i as int),
        decreases records@.len() - i,
    {
        let rec = &records[i];
        if rec.len() >= FACE_FIELDS {
            let a = FaceAnnotation {
                record: i,
                face: FaceBox { x: rec[0] as i64, y: rec[1] as i64, width: rec[2] as i64, height: rec[3] as i64 },
                eye_l: Point { x: rec[4] as i64, y: rec[5] as i64 },
                eye_r: Point { x: rec[6] as i64, y: rec[7] as i64 },
                nose: Point { x: rec[8] as i64, y: rec[9] as i64 },
            };
            r.push(a);
        }
        i = i + 1;
    }
    r
}

proof fn lemma_annotations_upto(records: Seq<Vec<i32>>, n: int)
    requires
        0 <= n <= records.len(),
        n <= usize::MAX,
    ensures
        forall|j: int|
            0 <= j < annotations_upto(records, n).len() ==> {
                let a = #[trigger] annotations_upto(records, n)[j];
                &&& 0 <= a.record < n
                &&& records[a.record as int]@.len() >= FACE_FIELDS
                &&& a == annotation_of(records[a.record as int]@, a.record as int)
            },
        forall|k: int|
            0 <= k < n && records[k]@.len() >= FACE_FIELDS ==> exists|j: int|
                0 <= j < annotations_upto(records, n).len() && (#[trigger] annotations_upto(
                    records,
                    n,
                )[j]).record == k,
    decreases n,
{
    if n > 0 {
        lemma_annotations_upto(records, n - 1);
        let prev = annotations_upto(records, n - 1);
        let cur = annotations_upto(records, n);
        if records[n - 1]@.len() >= FACE_FIELDS {
            assert(cur == prev.push(annotation_of(records[n - 1]@, n - 1)));
            assert forall|k: int|
                0 <= k < n && records[k]@.len() >= FACE_FIELDS implies exists|j: int|
                    0 <= j < cur.len() && (#[trigger] cur[j]).record == k by {
                if k == n - 1 {
                    assert(cur[prev.len() as int].record == k);
                } else {
                    let j = choose|j: int| 0 <= j < prev.len() && (#[trigger] prev[j]).record == k;
                    assert(cur[j] == prev[j]);
                }
            }
        }
    }
}

/// A detection record appears in the annotations exactly when it has at
/// least `FACE_FIELDS` fields: shorter records are always left out, and a
/// record of exactly `FACE_FIELDS` fields is always kept.
pub proof fn lemma_annotation_kept_iff_complete(records: Seq<Vec<i32>>, k: int)
    requires
        0 <= k < records.len(),
        records.len() <= usize::MAX,
    ensures
        (exists|j: int|
            0 <= j < annotations(records).len() && (#[trigger] annotations(records)[j]).record
                == k) <==> records[k]@.len() >= FACE_FIELDS,
{
    lemma_annotations_upto(records, records.len() as int);
    let ann = annotations(records);
    if exists|j: int| 0 <= j < ann.len() && (#[trigger] ann[j]).record == k {
        let j = choose|j: int| 0 <= j < ann.len() && (#[trigger] ann[j]).record == k;
        assert(records[ann[j].record as int]@.len() >= FACE_FIELDS);
    }
}

/// The outcome of running a detector over an image: nothing reported,
/// reports that were all incomplete, or the faces to draw.
#[derive(Clone, Debug)]
pub enum Detections {
    NoDetections,
    OnlyMalformed,
    Faces(Vec<FaceAnnotation>),
}

/// Sorts raw detection records into an outcome, telling apart a detector
/// that reported nothing from one whose every record was incomplete.
pub fn annotate_detections(records: &Vec<Vec<i32>>) -> (d: Detections)
    ensures
        records@.len() == 0 <==> d is NoDetections,
        (records@.len() > 0 && annotations(records@).len() == 0) <==> d is OnlyMalformed,
        d matches Detections::Faces(v) ==> v@ == annotations(records@) && v@.len() > 0,
{
    if records.len() == 0 {
        return Detections::NoDetections;
    }
    let faces = face_annotations(records);
    if faces.len() == 0 {
        Detections::OnlyMalformed
    } else {
        Detections::Faces(faces)
    }
}

/// A marker to draw over an image.
#[derive(Clone, Copy, Debug, PartialEq, Eq, Structural)]
pub enum Shape {
    Circle { center: Point, radius: i64, color: Color, thickness: i64 },
    Rectangle { frame: FaceBox, color: Color, thickness: i64 },
}

/// The markers of one face: the nose, the left eye and the right eye as small
/// circles, then the bounding box.
pub open spec fn shapes_of(a: FaceAnnotation) -> Seq<Shape> {
    seq![
        Shape::Circle { center: a.nose, radius: 1, color: Color { b: 255, g: 255, r: 0 }, thickness: 2 },
        Shape::Circle { center: a.eye_l, radius: 1, color: Color { b: 0, g: 255, r: 255 }, thickness: 2 },
        Shape::Circle { center: a.eye_r, radius: 1, color: Color { b: 0, g: 255, r: 255 }, thickness: 2 },
        Shape::Rectangle { frame: a.face, color: Color { b: 0, g: 255, r: 20 }, thickness: 1 },
    ]
}

/// The markers to draw for one face annotation.
pub fn face_shapes(a: &FaceAnnotation) -> (s: Vec<Shape>)
    ensures
        s@ == shapes_of(*a),
{
    let landmark = Color { b: 255, g: 255, r: 0 };
    let eye = Color { b: 0, g: 255, r: 255 };
    let frame = Color { b: 0, g: 255, r: 20 };
    let mut s: Vec<Shape> = Vec::new();
    s.push(Shape::Circle { center: a.nose, radius: 1, color: landmark, thickness: 2 });
    s.push(Shape::Circle { center: a.eye_l, radius: 1, color: eye, thickness: 2 });
    s.push(Shape::Circle { center: a.eye_r, radius: 1, color: eye, thickness: 2 });
    s.push(Shape::Rectangle { frame: a.face, color: frame, thickness: 1 });
    assert(s@ =~= shapes_of(*a));
    s
}

} // verus!
