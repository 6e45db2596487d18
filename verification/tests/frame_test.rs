use fluxcut::playback::{coalesce_seeks, push_bounded, push_preview_samples};
use std::collections::VecDeque;
use fluxcut::thumbnail::pack_rows;

#[test]
fn packs_visible_rows_of_a_strided_plane() {
    let plane: Vec<u8> = (0u8..20).collect();
    assert_eq!(pack_rows(&plane, 8, 4, 2), vec![0, 1, 2, 3, 8, 9, 10, 11]);
    assert_eq!(pack_rows(&plane, 8, 4, 3), vec![0, 1, 2, 3, 8, 9, 10, 11, 16, 17, 18, 19]);
    assert_eq!(pack_rows(&plane, 8, 6, 3), vec![0, 1, 2, 3, 4, 5, 8, 9, 10, 11, 12, 13]);
    assert!(pack_rows(&plane, 8, 4, 0).is_empty());
}

#[test]
fn audio_preview_buffer_stays_bounded() {
    // One second of mono audio at 4 Hz: four samples.
    let mut q: VecDeque<u32> = VecDeque::from(vec![1, 2, 3]);
    push_preview_samples(&mut q, &[4, 5], 4, 1);
    assert_eq!(q, VecDeque::from(vec![2, 3, 4, 5]));
    // A push longer than a second keeps only its newest second.
    push_preview_samples(&mut q, &[6, 7, 8, 9, 10, 11], 2, 2);
    assert_eq!(q, VecDeque::from(vec![8, 9, 10, 11]));
    // Under the capacity nothing is dropped.
    let mut r: VecDeque<f32> = VecDeque::new();
    push_preview_samples(&mut r, &[0.5, -0.5], 48000, 2);
    assert_eq!(r.len(), 2);
}

#[test]
fn bounded_push_keeps_the_newest() {
    let mut q: VecDeque<u8> = VecDeque::from(vec![1, 2, 3, 4]);
    push_bounded(&mut q, &[5, 6], 5);
    assert_eq!(q, VecDeque::from(vec![2, 3, 4, 5, 6]));
    push_bounded(&mut q, &[], 0);
    assert!(q.is_empty());
}

#[test]
fn queued_seeks_coalesce_into_the_last() {
    assert_eq!(coalesce_seeks(1.0, &[Some(2.0), Some(3.5), None, Some(9.0)]), (3.5, 2));
    assert_eq!(coalesce_seeks(1.0, &[None, Some(2.0)]), (1.0, 0));
    assert_eq!(coalesce_seeks(4u32, &[]), (4, 0));
}
