use mv_toolkit::video_layout::{
    combined_layout, distinct_frames, frame_caption, frames_preview_text, last_combined_frame, last_frame_over,
    progress_due, vectors_caption, Segment, SegmentContent,
};

fn seg(x: i32, content: SegmentContent, divider: bool) -> Segment {
    Segment { x_offset: x, content, divider }
}

#[test]
fn video_after_the_datasets_by_default() {
    let l = combined_layout(2, None, 640);
    assert_eq!(l.width, 1920);
    assert_eq!(
        l.segments,
        vec![
            seg(0, SegmentContent::Vectors(0), false),
            seg(640, SegmentContent::Vectors(1), true),
            seg(1280, SegmentContent::Video, true),
        ]
    );
}

#[test]
fn video_segment_can_be_placed_first_or_outside() {
    let l = combined_layout(2, Some(0), 100);
    assert_eq!(
        l.segments,
        vec![
            seg(0, SegmentContent::Video, false),
            seg(100, SegmentContent::Vectors(0), true),
            seg(200, SegmentContent::Vectors(1), true),
        ]
    );
    let l = combined_layout(1, Some(5), 10);
    assert_eq!(l.segments, vec![seg(0, SegmentContent::Vectors(0), false), seg(10, SegmentContent::Blank, true)]);
    let l = combined_layout(0, None, 10);
    assert_eq!(l.width, 10);
    assert_eq!(l.segments, vec![seg(0, SegmentContent::Video, false)]);
}

#[test]
fn frames_drawn_and_progress() {
    assert_eq!(last_frame_over(&vec![vec![3, 9, 2], vec![], vec![7]]), 9);
    assert_eq!(last_frame_over(&vec![vec![-4]]), -4);
    assert_eq!(last_frame_over(&Vec::new()), 0);
    assert_eq!(last_combined_frame(120, 100, 1000), 120);
    assert_eq!(last_combined_frame(120, 300, 50), 50);
    assert_eq!(last_combined_frame(0, 0, 10), 0);
    assert!(progress_due(30, 300));
    assert!(!progress_due(31, 300));
    assert!(!progress_due(5, 10));
}

#[test]
fn distinct_frames_in_order() {
    assert_eq!(distinct_frames(&vec![5, 1, 5, 3, 1, -2]), vec![-2, 1, 3, 5]);
    assert_eq!(distinct_frames(&Vec::new()), Vec::<i32>::new());
}

#[test]
fn frame_texts() {
    assert_eq!(frame_caption(12), "Frame: 12");
    assert_eq!(vectors_caption(15000), "Vectors: 15000");
    assert_eq!(frames_preview_text(&vec![1, 2, 3]), "Frames in data: 1, 2, 3");
    let many: Vec<i32> = (1..=12).collect();
    assert_eq!(frames_preview_text(&many), "Frames in data: 1, 2, 3, 4, 5, 6, 7, 8, 9, 10...");
    assert_eq!(frames_preview_text(&Vec::new()), "Frames in data: ");
}
