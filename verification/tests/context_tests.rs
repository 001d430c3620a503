use egui_multiwin::tracked_window::{
    clamp_surface_size, config_try_order, new_container_id, swap_interval_for, CommonWindowData,
    IndeterminateWindowedContext, PlainWindowContainer, SurfaceSize, SwapIntervalKind,
    TrackedWindowContainer, ViewportWindowContainer,
};

#[test]
fn resize_floor_clamps_zero_area_to_one_pixel() {
    // A (0,0) request becomes a (1,1) surface, never a zero-area one.
    let eff = clamp_surface_size(SurfaceSize { width: 0, height: 0 });
    assert_eq!(eff, SurfaceSize { width: 1, height: 1 });
}

#[test]
fn resize_floor_clamps_each_dimension_independently() {
    assert_eq!(
        clamp_surface_size(SurfaceSize { width: 0, height: 5 }),
        SurfaceSize { width: 1, height: 5 }
    );
    assert_eq!(
        clamp_surface_size(SurfaceSize { width: 7, height: 0 }),
        SurfaceSize { width: 7, height: 1 }
    );
    assert_eq!(
        clamp_surface_size(SurfaceSize { width: 640, height: 480 }),
        SurfaceSize { width: 640, height: 480 }
    );
}

#[test]
fn vsync_selects_the_blocking_swap_interval() {
    assert_eq!(swap_interval_for(true), SwapIntervalKind::WaitOne);
    assert_eq!(swap_interval_for(false), SwapIntervalKind::DontWait);
}

#[test]
fn configs_are_tried_cheapest_first_and_stably() {
    // Multisample counts in enumeration order; the try order prefers the
    // cheapest and keeps ties in enumeration order.
    let samples: Vec<u8> = vec![4, 0, 2, 0];
    let order = config_try_order(&samples);
    assert_eq!(order, vec![1, 3, 2, 0]);
}

#[test]
fn config_order_handles_empty_and_uniform_lists() {
    let order = config_try_order(&Vec::new());
    assert!(order.is_empty());
    let order = config_try_order(&vec![8, 8, 8]);
    assert_eq!(order, vec![0, 1, 2]);
}

#[test]
fn viewport_containers_tear_down_without_veto() {
    let common: CommonWindowData<u8, &'static str> = CommonWindowData {
        gl_window: IndeterminateWindowedContext::Taken,
        egui: Some("ui"),
        viewportid: 9,
        shader: None,
        has_viewport_cb: true,
        id: 5,
    };
    let mut container: TrackedWindowContainer<u8, u8, &'static str> =
        TrackedWindowContainer::Viewport(ViewportWindowContainer { common });
    assert!(container.is_viewport());
    assert!(container.ready_for_events());
    // A viewport window may always quit, and its UI instance is dropped.
    assert!(container.try_quit(false));
    assert!(!container.ready_for_events());
    assert_eq!(container.common().viewportid, 9);
    assert_eq!(container.common().id, 5);
}

#[test]
fn plain_containers_honor_the_quit_veto() {
    let common: CommonWindowData<u8, &'static str> = CommonWindowData {
        gl_window: IndeterminateWindowedContext::Taken,
        egui: Some("ui"),
        viewportid: 0,
        shader: None,
        has_viewport_cb: false,
        id: 1,
    };
    let mut container: TrackedWindowContainer<&'static str, u8, &'static str> =
        TrackedWindowContainer::PlainWindow(PlainWindowContainer { common, window: "content" });
    assert!(!container.is_viewport());
    assert_eq!(container.window_data(), Some(&"content"));
    // The content's veto holds the teardown back...
    assert!(!container.try_quit(false));
    assert!(container.ready_for_events());
    // ...until the content allows it.
    assert!(container.try_quit(true));
}

#[test]
fn container_ids_are_generated() {
    let a = new_container_id();
    let b = new_container_id();
    // Nothing is promised of random values; this only exercises the call.
    let _ = (a, b);
}
