use havi::animation::{AnimationState, AnimationStateTracker, AnimationUpdate, PipelineAnimationState};

const TEST_WEBVIEW_ID: u64 = 7;
const TEST_PIPELINE_ID: u64 = 11;

#[test]
fn tracker_marks_webview_animating_for_css_animation_state() {
    let mut tracker = AnimationStateTracker::default();

    let update =
        tracker.change_running_animations_state(TEST_WEBVIEW_ID, TEST_PIPELINE_ID, AnimationState::AnimationsPresent);

    assert_eq!(update, AnimationUpdate { started_animating: true, is_animating: true });
    assert_eq!(tracker.animating_webviews(), vec![TEST_WEBVIEW_ID]);
}

#[test]
fn tracker_clears_webview_when_animation_state_ends() {
    let mut tracker = AnimationStateTracker::default();
    tracker.change_running_animations_state(TEST_WEBVIEW_ID, TEST_PIPELINE_ID, AnimationState::AnimationsPresent);

    let update =
        tracker.change_running_animations_state(TEST_WEBVIEW_ID, TEST_PIPELINE_ID, AnimationState::NoAnimationsPresent);

    assert_eq!(update, AnimationUpdate { started_animating: false, is_animating: false });
    assert!(tracker.animating_webviews().is_empty());
}

#[test]
fn throttling_stops_animation_without_losing_state() {
    let mut tracker = AnimationStateTracker::default();
    tracker.change_running_animations_state(TEST_WEBVIEW_ID, TEST_PIPELINE_ID, AnimationState::AnimationsPresent);

    let throttled = tracker.set_throttled(TEST_WEBVIEW_ID, TEST_PIPELINE_ID, true);
    assert_eq!(throttled, AnimationUpdate { started_animating: false, is_animating: false });
    assert!(tracker.animating_webviews().is_empty());

    let unthrottled = tracker.set_throttled(TEST_WEBVIEW_ID, TEST_PIPELINE_ID, false);
    assert_eq!(unthrottled, AnimationUpdate { started_animating: true, is_animating: true });
    assert_eq!(tracker.animating_webviews(), vec![TEST_WEBVIEW_ID]);
}

#[test]
fn removing_pipeline_clears_animation_state() {
    let mut tracker = AnimationStateTracker::default();
    tracker.change_running_animations_state(
        TEST_WEBVIEW_ID,
        TEST_PIPELINE_ID,
        AnimationState::AnimationCallbacksPresent,
    );

    let update = tracker.remove_pipeline(TEST_WEBVIEW_ID, TEST_PIPELINE_ID);

    assert_eq!(update, AnimationUpdate { started_animating: false, is_animating: false });
    assert!(tracker.animating_webviews().is_empty());
}

#[test]
fn webview_keeps_animating_while_another_pipeline_animates() {
    let mut tracker = AnimationStateTracker::new();
    tracker.change_running_animations_state(TEST_WEBVIEW_ID, 1, AnimationState::AnimationsPresent);
    let second = tracker.change_running_animations_state(TEST_WEBVIEW_ID, 2, AnimationState::AnimationCallbacksPresent);
    assert_eq!(second, AnimationUpdate { started_animating: true, is_animating: true });

    let removed = tracker.remove_pipeline(TEST_WEBVIEW_ID, 1);
    assert_eq!(removed, AnimationUpdate { started_animating: false, is_animating: true });
    assert_eq!(tracker.animating_webviews(), vec![TEST_WEBVIEW_ID]);

    let stopped =
        tracker.change_running_animations_state(TEST_WEBVIEW_ID, 2, AnimationState::NoAnimationCallbacksPresent);
    assert_eq!(stopped, AnimationUpdate { started_animating: false, is_animating: false });
}

#[test]
fn callbacks_and_animations_are_tracked_apart() {
    let mut tracker = AnimationStateTracker::new();
    tracker.change_running_animations_state(TEST_WEBVIEW_ID, TEST_PIPELINE_ID, AnimationState::AnimationsPresent);
    let again =
        tracker.change_running_animations_state(TEST_WEBVIEW_ID, TEST_PIPELINE_ID, AnimationState::AnimationCallbacksPresent);
    assert_eq!(again, AnimationUpdate { started_animating: false, is_animating: true });
    let no_callbacks = tracker.change_running_animations_state(
        TEST_WEBVIEW_ID,
        TEST_PIPELINE_ID,
        AnimationState::NoAnimationCallbacksPresent,
    );
    assert_eq!(no_callbacks, AnimationUpdate { started_animating: false, is_animating: true });
}

#[test]
fn removing_webview_and_unknown_pipelines() {
    let mut tracker = AnimationStateTracker::new();
    assert_eq!(tracker.remove_pipeline(3, 4), AnimationUpdate { started_animating: false, is_animating: false });
    tracker.change_running_animations_state(1, 10, AnimationState::AnimationsPresent);
    tracker.change_running_animations_state(2, 20, AnimationState::AnimationsPresent);
    let mut animating = tracker.animating_webviews();
    animating.sort();
    assert_eq!(animating, vec![1, 2]);
    tracker.remove_webview(1);
    assert_eq!(tracker.animating_webviews(), vec![2]);
}

#[test]
fn throttling_an_unknown_pipeline_records_it() {
    let mut tracker = AnimationStateTracker::new();
    let update = tracker.set_throttled(TEST_WEBVIEW_ID, TEST_PIPELINE_ID, true);
    assert_eq!(update, AnimationUpdate { started_animating: false, is_animating: false });
    let started =
        tracker.change_running_animations_state(TEST_WEBVIEW_ID, TEST_PIPELINE_ID, AnimationState::AnimationsPresent);
    assert_eq!(started, AnimationUpdate { started_animating: false, is_animating: false });
}

#[test]
fn pipeline_state_animates_only_unthrottled() {
    let running = PipelineAnimationState { animations_running: true, animation_callbacks_running: false, throttled: false };
    assert!(running.animating());
    assert!(!PipelineAnimationState { throttled: true, ..running }.animating());
    assert!(!PipelineAnimationState::default().animating());
}
