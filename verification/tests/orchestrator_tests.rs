use egui_multiwin::multi_window::{
    reconcile_viewports, repaint_delay_ms, should_close, may_destroy_ui, MultiWindow,
    NewWindowRequest, RedrawResponse,
};
use egui_multiwin::tracked_window::TrackedWindowOptions;
use egui_multiwin::Events;

const ROOT_VIEWPORT: u64 = 1;

#[test]
fn two_roots_one_nonroot_shutdown_first_order() {
    // Scenario: two root windows and one non-root window. Closing both
    // roots resolves the root aggregator even though the non-root task is
    // still pending and is never driven to completion.
    let mut events: Events<&'static str> = Events::new();
    events.register_window_task(true, "root-1");
    events.register_window_task(true, "root-2");
    events.register_window_task(false, "popup");
    // Root 1 closes first, then root 2.
    assert!(events.window_close.poll_step(&vec![true, false], vec![()]).is_none());
    let done = events.window_close.poll_step(&vec![true], vec![()]);
    assert_eq!(done, Some(vec![(), ()]));
    // The non-root task is still registered and was never awaited.
    assert_eq!(events.non_root_windows.get().len(), 1);
}

#[test]
fn two_roots_one_nonroot_shutdown_second_order() {
    let mut events: Events<&'static str> = Events::new();
    events.register_window_task(true, "root-1");
    events.register_window_task(true, "root-2");
    events.register_window_task(false, "popup");
    // Root 2 closes first, then root 1.
    assert!(events.window_close.poll_step(&vec![false, true], vec![()]).is_none());
    let done = events.window_close.poll_step(&vec![true], vec![()]);
    assert_eq!(done, Some(vec![(), ()]));
    assert_eq!(events.non_root_windows.get().len(), 1);
}

#[test]
fn nonroot_completions_are_drained_without_gating_shutdown() {
    let mut events: Events<u8> = Events::new();
    events.register_window_task(true, 1);
    events.register_window_task(false, 2);
    // The non-root window closes; its completion is simply discarded.
    assert_eq!(events.non_root_windows.poll_next_step(0, Some(())), Some(()));
    assert_eq!(events.non_root_windows.get().len(), 0);
    // The root aggregator still pends until the root closes.
    assert!(events.window_close.poll_step(&vec![false], vec![]).is_none());
    assert_eq!(events.window_close.poll_step(&vec![true], vec![()]), Some(vec![()]));
}

#[test]
fn reconcile_drops_abandoned_and_spawns_new_viewports() {
    let mut set = vec![10, 20];
    let frame = vec![20, 30];
    let out = reconcile_viewports(&mut set, 999, false, ROOT_VIEWPORT, &frame);
    assert!(!out.quit);
    // Id 10 was abandoned by the frame; 30 is newly referenced.
    assert_eq!(set, vec![20, 30]);
    assert_eq!(out.new_viewport_ids, vec![30]);
}

#[test]
fn reconcile_is_idempotent_for_unchanged_frame_output() {
    let mut set = vec![10, 20];
    let frame = vec![20, 30];
    let _ = reconcile_viewports(&mut set, 999, false, ROOT_VIEWPORT, &frame);
    let snapshot = set.clone();
    // Re-running with the same frame output changes nothing and spawns
    // nothing.
    let out = reconcile_viewports(&mut set, 999, false, ROOT_VIEWPORT, &frame);
    assert_eq!(set, snapshot);
    assert!(out.new_viewport_ids.is_empty());
    assert!(!out.quit);
}

#[test]
fn reconcile_never_spawns_the_root_viewport() {
    let mut set: Vec<u64> = Vec::new();
    let frame = vec![ROOT_VIEWPORT, 7];
    let out = reconcile_viewports(&mut set, 999, false, ROOT_VIEWPORT, &frame);
    assert_eq!(out.new_viewport_ids, vec![7]);
    assert_eq!(set, vec![7]);
}

#[test]
fn viewport_window_quits_when_its_id_is_dropped() {
    let mut set = vec![10];
    let frame = vec![10];
    let out = reconcile_viewports(&mut set, 42, true, ROOT_VIEWPORT, &frame);
    assert!(out.quit);
    // A viewport window drops nothing from the shared set.
    assert_eq!(set, vec![10]);
}

#[test]
fn viewport_window_stays_while_its_id_is_kept() {
    let mut set = vec![42];
    let frame = vec![42];
    let out = reconcile_viewports(&mut set, 42, true, ROOT_VIEWPORT, &frame);
    assert!(!out.quit);
    assert_eq!(set, vec![42]);
}

#[test]
fn reconcile_with_empty_frame_abandons_everything() {
    let mut set = vec![5, 6, 7];
    let frame: Vec<u64> = Vec::new();
    let out = reconcile_viewports(&mut set, 999, false, ROOT_VIEWPORT, &frame);
    assert!(set.is_empty());
    assert!(out.new_viewport_ids.is_empty());
    assert!(!out.quit);
}

#[test]
fn registration_returns_fresh_handles_per_aggregator() {
    let mut events: Events<u8> = Events::new();
    let r1 = events.register_window_task(true, 1);
    let r2 = events.register_window_task(true, 2);
    let n1 = events.register_window_task(false, 3);
    assert_ne!(r1, r2);
    // The two aggregators have separate handle spaces.
    assert_eq!(events.window_close.get().len(), 2);
    assert_eq!(events.non_root_windows.get().len(), 1);
    let _ = n1;
}

#[test]
fn pending_requests_queue_and_drain() {
    let mut mw: MultiWindow<&'static str, u8, Vec<u8>> = MultiWindow::new();
    let options = TrackedWindowOptions { vsync: false, shader: None };
    mw.add(NewWindowRequest::new("one", 1, options));
    mw.add(NewWindowRequest::new_viewport(2, options, 77));
    let popped = mw.next_pending().expect("two pending");
    assert!(popped.window_state.is_none());
    assert_eq!(popped.viewport_id, Some(77));
    assert!(popped.is_viewport());
    let popped2 = mw.next_pending().expect("one pending");
    assert_eq!(popped2.window_state, Some("one"));
    assert_eq!(popped2.viewport_id, None);
    assert!(!popped2.is_viewport());
    assert!(mw.next_pending().is_none());
}

#[test]
fn fonts_replace_by_name() {
    let mut mw: MultiWindow<u8, u8, &'static [u8]> = MultiWindow::new();
    mw.add_font("body".to_string(), b"aaaa".as_slice());
    mw.add_font("mono".to_string(), b"bbbb".as_slice());
    assert_eq!(mw.font_count(), 2);
    // Re-adding a name replaces its payload instead of duplicating it.
    mw.add_font("body".to_string(), b"cccc".as_slice());
    assert_eq!(mw.font_count(), 2);
}

#[test]
fn redraw_response_defaults_to_not_quitting() {
    let r: RedrawResponse<u8> = Default::default();
    assert!(!r.quit);
    assert!(r.new_windows.is_empty());
}

#[test]
fn close_triggers_are_equivalent() {
    assert!(!should_close(false, false, false));
    assert!(should_close(true, false, false));
    assert!(should_close(false, true, false));
    assert!(should_close(false, false, true));
}

#[test]
fn viewport_windows_have_no_quit_veto() {
    assert!(may_destroy_ui(true, false));
    assert!(may_destroy_ui(true, true));
    assert!(may_destroy_ui(false, true));
    assert!(!may_destroy_ui(false, false));
}

#[test]
fn repaint_delay_falls_back_to_one_second() {
    assert_eq!(repaint_delay_ms(Some(16)), 16);
    assert_eq!(repaint_delay_ms(None), 1000);
}
