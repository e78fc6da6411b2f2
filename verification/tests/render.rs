use raytracer::render::{column_range, write_color, Picture, ThreadTemp};

#[test]
fn workers_share_the_columns_without_gaps() {
    for &(width, workers) in [(1000u32, 1u32), (1000, 2), (1000, 3), (7, 10), (0, 4), (u32::MAX, 7), (u32::MAX, u32::MAX)].iter() {
        let mut next = 0;
        let samples: Vec<u32> = if workers > 100 { vec![0, 1, workers / 2, workers - 1] } else { (0..workers).collect() };
        for &i in samples.iter() {
            let (start, end) = column_range(i, width, workers);
            assert!(start <= end && end <= width);
            assert_eq!(start as u64, i as u64 * width as u64 / workers as u64);
            assert_eq!(end as u64, (i as u64 + 1) * width as u64 / workers as u64);
            if workers <= 100 {
                assert_eq!(start, next);
                next = end;
            }
        }
        if workers <= 100 {
            assert_eq!(next, width);
        }
        assert_eq!(column_range(0, width, workers).0, 0);
        assert_eq!(column_range(workers - 1, width, workers).1, width);
    }
}

#[test]
fn two_workers_split_a_thousand_columns_in_halves() {
    assert_eq!(column_range(0, 1000, 2), (0, 500));
    assert_eq!(column_range(1, 1000, 2), (500, 1000));
    assert_eq!(column_range(1, 10, 3), (3, 6));
}

#[test]
fn a_new_picture_is_black() {
    let p = Picture::new(4, 3).unwrap();
    assert_eq!(p.width(), 4);
    assert_eq!(p.height(), 3);
    for x in 0..4 {
        for y in 0..3 {
            assert_eq!(p.get_pixel(x, y), Some([0, 0, 0]));
        }
    }
    assert_eq!(p.get_pixel(4, 0), None);
    assert_eq!(p.get_pixel(0, 3), None);
}

#[test]
fn a_picture_too_large_for_memory_is_refused() {
    assert!(Picture::new(u32::MAX, u32::MAX).is_none());
    assert!(Picture::new(0, u32::MAX).is_some());
}

#[test]
fn write_color_sets_one_pixel() {
    let mut p = Picture::new(3, 2).unwrap();
    assert!(write_color([1, 2, 3], &mut p, 2, 1));
    assert!(write_color([4, 5, 6], &mut p, 0, 0));
    assert!(!write_color([7, 7, 7], &mut p, 3, 0));
    assert!(!write_color([7, 7, 7], &mut p, 0, 2));
    assert_eq!(p.get_pixel(2, 1), Some([1, 2, 3]));
    assert_eq!(p.get_pixel(0, 0), Some([4, 5, 6]));
    assert_eq!(p.get_pixel(1, 1), Some([0, 0, 0]));
    assert_eq!(p.into_raw(), vec![4, 5, 6, 0, 0, 0, 0, 0, 0, 0, 0, 0, 0, 0, 0, 1, 2, 3]);
}

#[test]
fn a_column_is_stored_row_by_row() {
    let mut p = Picture::new(3, 4).unwrap();
    let column = ThreadTemp { x: 1, color: vec![[10, 11, 12], [20, 21, 22], [30, 31, 32], [40, 41, 42], [99, 99, 99]] };
    assert!(p.store_column(&column));
    for y in 0..4u32 {
        assert_eq!(p.get_pixel(1, y), Some([(10 * (y + 1)) as u8, (10 * (y + 1) + 1) as u8, (10 * (y + 1) + 2) as u8]));
        assert_eq!(p.get_pixel(0, y), Some([0, 0, 0]));
        assert_eq!(p.get_pixel(2, y), Some([0, 0, 0]));
    }
    let raw = p.into_raw();
    assert_eq!(raw.len(), 36);
    assert_eq!(&raw[3..6], &[10, 11, 12]);
    assert_eq!(&raw[3 * (3 * 3 + 1)..3 * (3 * 3 + 1) + 3], &[40, 41, 42]);
}

#[test]
fn a_column_that_does_not_fit_is_not_stored() {
    let mut p = Picture::new(3, 4).unwrap();
    let outside = ThreadTemp { x: 3, color: vec![[1, 1, 1]; 4] };
    assert!(!p.store_column(&outside));
    let short = ThreadTemp { x: 1, color: vec![[1, 1, 1]; 3] };
    assert!(!p.store_column(&short));
    assert_eq!(p.into_raw(), vec![0u8; 36]);
}
