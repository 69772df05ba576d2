use image_metrics::errors::InputError;
use image_metrics::histogram::{
    calculate_histogram, histogram_segments, normalize_histogram, Segment, BINS, PLOT_HEIGHT,
};
use image_metrics::image::{Color, Plane, Point};

#[test]
fn histogram_counts_each_intensity() {
    let p = Plane::new(3, 2, vec![0, 5, 5, 255, 5, 0]).unwrap();
    let h = calculate_histogram(&p);
    assert_eq!(h.len(), BINS);
    assert_eq!(h[0], 2);
    assert_eq!(h[5], 3);
    assert_eq!(h[255], 1);
    assert_eq!(h.iter().sum::<usize>(), 6);
    assert_eq!(h.iter().filter(|c| **c > 0).count(), 3);
}

#[test]
fn normalization_spans_the_target_range() {
    assert_eq!(normalize_histogram(&vec![2, 4, 6, 3], 400), vec![0, 200, 400, 100]);
    assert_eq!(normalize_histogram(&vec![0, 1, 2], 400), vec![0, 200, 400]);
    assert_eq!(normalize_histogram(&vec![0, 1, 3], 400), vec![0, 133, 400]);
}

#[test]
fn normalization_of_flat_or_empty_histograms() {
    assert_eq!(normalize_histogram(&vec![7, 7, 7], 400), vec![0, 0, 0]);
    assert_eq!(normalize_histogram(&vec![], 400), Vec::<usize>::new());
    assert_eq!(normalize_histogram(&vec![usize::MAX, 0], usize::MAX), vec![usize::MAX, 0]);
}

#[test]
fn normalization_is_idempotent() {
    let h = vec![3, 90, 17, 41, 3, 250];
    let once = normalize_histogram(&h, 400);
    let twice = normalize_histogram(&once, 400);
    assert_eq!(once, twice);
    assert_eq!(once, vec![0, 140, 22, 61, 0, 400]);
}

#[test]
fn segments_join_adjacent_bins() {
    let b = vec![0, 10, 5, 10];
    let g = vec![1, 1, 1, 1];
    let r = vec![4, 0, 0, 2];
    let segs = histogram_segments(&b, &g, &r, 4).unwrap();
    assert_eq!(segs.len(), 9);
    assert_eq!(
        segs[0],
        Segment {
            from: Point { x: 0, y: 400 },
            to: Point { x: 128, y: 0 },
            color: Color { b: 255, g: 0, r: 0 }
        }
    );
    assert_eq!(
        segs[4],
        Segment {
            from: Point { x: 128, y: 400 },
            to: Point { x: 256, y: 400 },
            color: Color { b: 0, g: 255, r: 0 }
        }
    );
    assert_eq!(
        segs[8],
        Segment {
            from: Point { x: 256, y: 400 },
            to: Point { x: 384, y: 200 },
            color: Color { b: 0, g: 0, r: 255 }
        }
    );
    assert!(segs.iter().all(|s| s.from.y >= 0 && s.to.y <= PLOT_HEIGHT as i64));
}

#[test]
fn full_size_plot_has_bins_two_pixels_apart() {
    let h: Vec<usize> = (0..256).collect();
    let segs = histogram_segments(&h, &h, &h, 256).unwrap();
    assert_eq!(segs.len(), 765);
    assert_eq!(segs[3 * 254].from, Point { x: 508, y: 2 });
    assert_eq!(segs[3 * 254].to, Point { x: 510, y: 0 });
}

#[test]
fn segments_refuse_mismatched_histograms() {
    let h = vec![1, 2, 3];
    assert!(histogram_segments(&h, &h, &vec![1, 2], 3).unwrap_err().is_input(InputError::HistogramShape));
    assert!(histogram_segments(&h, &h, &h, 4).unwrap_err().is_input(InputError::HistogramShape));
    assert!(histogram_segments(&vec![], &vec![], &vec![], 0).unwrap_err().is_input(InputError::HistogramShape));
    assert_eq!(histogram_segments(&vec![5], &vec![5], &vec![5], 1).unwrap().len(), 0);
}

#[test]
fn longer_histograms_are_normalized_over_all_bins() {
    let b = vec![0, 5, 10, 20, 0];
    let g = vec![1, 1, 1, 1];
    let r = vec![2, 0, 2];
    let segs = histogram_segments(&b, &g, &r, 3).unwrap();
    assert_eq!(segs.len(), 6);
    // b normalizes to 0, 100, 200, 400, 0; bins are 170 pixels apart
    assert_eq!(segs[0].from, Point { x: 0, y: 400 });
    assert_eq!(segs[0].to, Point { x: 170, y: 300 });
    assert_eq!(segs[3].from, Point { x: 170, y: 300 });
    assert_eq!(segs[3].to, Point { x: 340, y: 200 });
    assert_eq!(segs[5].to, Point { x: 340, y: 0 });
}
