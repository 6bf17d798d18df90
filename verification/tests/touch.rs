use havi::touch::{TouchEventType, TouchHandler};

#[test]
fn a_single_finger_drag_moves_from_its_last_point() {
    let mut h: TouchHandler<(f32, f32)> = TouchHandler::new();
    assert_eq!(h.on_touch_event(1, TouchEventType::Down, (10.0, 10.0)), None);
    assert_eq!(h.on_touch_event(1, TouchEventType::Move, (10.0, 30.0)), Some(((10.0, 10.0), (10.0, 30.0))));
    assert_eq!(h.on_touch_event(1, TouchEventType::Move, (12.0, 35.0)), Some(((10.0, 30.0), (12.0, 35.0))));
    assert_eq!(h.on_touch_event(1, TouchEventType::Up, (12.0, 35.0)), None);
    assert_eq!(h.on_touch_event(1, TouchEventType::Move, (0.0, 0.0)), None);
}

#[test]
fn multi_touch_and_unknown_touches_do_not_drag() {
    let mut h: TouchHandler<(f32, f32)> = TouchHandler::new();
    h.on_touch_event(1, TouchEventType::Down, (0.0, 0.0));
    h.on_touch_event(2, TouchEventType::Down, (50.0, 0.0));
    assert_eq!(h.on_touch_event(1, TouchEventType::Move, (5.0, 5.0)), None);
    assert_eq!(h.on_touch_event(2, TouchEventType::Cancel, (50.0, 0.0)), None);
    // The first touch kept its point while the second was down.
    assert_eq!(h.on_touch_event(1, TouchEventType::Move, (6.0, 9.0)), Some(((5.0, 5.0), (6.0, 9.0))));
    assert_eq!(h.on_touch_event(7, TouchEventType::Move, (1.0, 1.0)), None);
}
