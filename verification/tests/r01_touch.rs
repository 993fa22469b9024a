use localtools::r01::touch::{flush_rows, TouchEvent, TouchInput, TouchState};

#[test]
fn a_tap_is_a_press_then_a_release() {
    let mut s = TouchState::new();
    assert_eq!(s.step(TouchInput::AbsX(120)), None);
    assert_eq!(s.step(TouchInput::AbsY(40)), None);
    assert_eq!(s.step(TouchInput::Touch(1)), Some(TouchEvent::Down { x: 120, y: 40 }));
    assert_eq!(s.step(TouchInput::Sync), Some(TouchEvent::Move { x: 120, y: 40 }));
    assert_eq!(s.step(TouchInput::Sync), None);
    assert_eq!(s.step(TouchInput::AbsX(130)), None);
    assert_eq!(s.step(TouchInput::Sync), Some(TouchEvent::Move { x: 130, y: 40 }));
    assert_eq!(s.step(TouchInput::Touch(1)), None);
    assert_eq!(s.step(TouchInput::Touch(0)), Some(TouchEvent::Up { x: 130, y: 40 }));
    assert_eq!(s.step(TouchInput::Touch(0)), None);
    assert_eq!(s.step(TouchInput::Other), None);
}

#[test]
fn moves_without_touch_are_not_reported() {
    let mut s = TouchState::new();
    s.step(TouchInput::AbsX(5));
    assert_eq!(s.step(TouchInput::Sync), None);
    assert!(!s.had_move);
}

#[test]
fn frame_copied_whole_when_rows_match() {
    let src: Vec<u8> = (1..=8).collect();
    let mut frame = vec![0u8; 6];
    flush_rows(&src, &mut frame, 2, 2, 2);
    assert_eq!(frame, vec![1, 2, 3, 4, 5, 6]);
    let mut big = vec![9u8; 10];
    flush_rows(&src, &mut big, 2, 2, 2);
    assert_eq!(big, vec![1, 2, 3, 4, 5, 6, 7, 8, 9, 9]);
}

#[test]
fn frame_copied_row_by_row_with_a_wider_stride() {
    let src: Vec<u8> = vec![1, 2, 3, 4, 5, 6, 7, 8];
    let mut frame = vec![0u8; 12];
    flush_rows(&src, &mut frame, 2, 2, 3);
    assert_eq!(frame, vec![1, 2, 3, 4, 0, 0, 5, 6, 7, 8, 0, 0]);
    let mut short = vec![0u8; 8];
    flush_rows(&src, &mut short, 2, 2, 3);
    assert_eq!(short, vec![1, 2, 3, 4, 0, 0, 0, 0]);
}
