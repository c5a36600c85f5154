use anodium_shell::edge::ResizeEdge;
use anodium_shell::events::{Commit, LayerShellRequest, ShellAction, ShellEvent, XdgRequest};
use anodium_shell::geometry::{Point, Rect, Size};
use anodium_shell::registry::{Layer, PendingRegistry, PopupEntry, Registry, Window};
use anodium_shell::seat::{KeyState, SeatState};
use anodium_shell::shell::ShellManager;

fn rect(x: i32, y: i32, w: i32, h: i32) -> Rect {
    Rect { loc: Point { x, y }, size: Size { w, h } }
}

fn commit(surface: u64, geometry: Option<Rect>) -> Commit {
    Commit { surface, sync_subsurface: false, subtree: vec![surface], geometry }
}

fn surface_commit(surface: u64) -> ShellAction {
    ShellAction::Notify(ShellEvent::SurfaceCommit { surface })
}

#[test]
fn promotion_succeeds_at_most_once() {
    let mut p = PendingRegistry::new();
    p.insert(1);
    p.insert(2);
    assert_eq!(p.try_promote(1, None), None);
    assert!(p.contains(1));
    let w = p.try_promote(1, Some(rect(0, 0, 10, 10)));
    assert_eq!(w, Some(Window { surface: 1, geometry: rect(0, 0, 10, 10) }));
    assert!(!p.contains(1));
    assert!(p.contains(2));
    assert_eq!(p.try_promote(1, Some(rect(0, 0, 10, 10))), None);
    assert_eq!(p.try_promote(1, Some(rect(0, 0, 20, 20))), None);
}

#[test]
fn toplevel_maps_on_first_commit_with_buffer() {
    let mut m = ShellManager::init_shell();
    assert_eq!(m.xdg_shell_request(XdgRequest::NewToplevel { surface: 7 }), None);
    assert!(m.is_pending(7));
    assert_eq!(m.surface_commit(&commit(7, None)), vec![surface_commit(7)]);
    assert!(m.is_pending(7));
    assert_eq!(m.window(7), None);
    let g = rect(1, 2, 300, 200);
    let window = Window { surface: 7, geometry: g };
    assert_eq!(
        m.surface_commit(&commit(7, Some(g))),
        vec![ShellAction::Notify(ShellEvent::WindowCreated { window }), surface_commit(7)]
    );
    assert!(!m.is_pending(7));
    assert_eq!(m.window(7), Some(window));
    assert_eq!(m.surface_commit(&commit(7, Some(g))), vec![surface_commit(7)]);
}

#[test]
fn pending_and_mapped_never_overlap() {
    let mut m = ShellManager::init_shell();
    for s in 1..5u64 {
        m.xdg_shell_request(XdgRequest::NewToplevel { surface: s });
    }
    m.surface_commit(&commit(2, Some(rect(0, 0, 5, 5))));
    m.surface_commit(&commit(4, Some(rect(0, 0, 5, 5))));
    for s in 1..5u64 {
        assert!(!(m.is_pending(s) && m.window(s).is_some()));
        assert!(m.is_pending(s) || m.window(s).is_some());
    }
    // a second role for a surface is ignored
    m.xdg_shell_request(XdgRequest::NewToplevel { surface: 2 });
    assert!(!m.is_pending(2));
    let r = m.wlr_layer_shell_request(LayerShellRequest::NewLayerSurface {
        surface: 1,
        output: None,
        layer: Layer::Top,
        namespace: String::from("panel"),
    });
    assert_eq!(r, None);
}

#[test]
fn interactive_resize_reports_location_through_commits() {
    let mut m = ShellManager::init_shell();
    m.xdg_shell_request(XdgRequest::NewToplevel { surface: 3 });
    let g = rect(10, 20, 100, 50);
    m.surface_commit(&commit(3, Some(g)));
    let window = Window { surface: 3, geometry: g };
    assert_eq!(
        m.xdg_shell_request(XdgRequest::Resize { surface: 3, edges: ResizeEdge::Left, serial: 9 }),
        Some(ShellEvent::WindowResize { window, edges: ResizeEdge::Left, serial: 9 })
    );
    m.start_resize(3, ResizeEdge::Left, Point { x: 10, y: 20 }, Size { w: 100, h: 50 });
    let moved = ShellAction::Notify(ShellEvent::WindowGotResized {
        window,
        new_location_x: Some(30),
        new_location_y: None,
    });
    assert_eq!(m.surface_commit(&commit(3, Some(rect(0, 0, 80, 50)))), vec![moved.clone(), surface_commit(3)]);
    m.resize_released(3, 11);
    m.xdg_shell_request(XdgRequest::AckConfigure { surface: 3, serial: 11 });
    m.queue_move_after_resize(3, Point { x: -5, y: 6 });
    let last = ShellAction::Notify(ShellEvent::WindowGotResized {
        window,
        new_location_x: Some(-5),
        new_location_y: Some(6),
    });
    assert_eq!(m.surface_commit(&commit(3, Some(rect(0, 0, 80, 50)))), vec![last, surface_commit(3)]);
    assert_eq!(m.surface_commit(&commit(3, Some(rect(0, 0, 60, 50)))), vec![surface_commit(3)]);
}

#[test]
fn layer_initial_configure_is_sent_once() {
    let mut m = ShellManager::init_shell();
    let r = m.wlr_layer_shell_request(LayerShellRequest::NewLayerSurface {
        surface: 5,
        output: Some(1),
        layer: Layer::Overlay,
        namespace: String::from("bar"),
    });
    assert_eq!(
        r,
        Some(ShellEvent::LayerCreated {
            surface: 5,
            output: Some(1),
            layer: Layer::Overlay,
            namespace: String::from("bar"),
        })
    );
    assert_eq!(
        m.surface_commit(&commit(5, None)),
        vec![ShellAction::SendConfigure(5), surface_commit(5)]
    );
    for _ in 0..10 {
        assert_eq!(m.surface_commit(&commit(5, None)), vec![surface_commit(5)]);
    }
    assert_eq!(
        m.wlr_layer_shell_request(LayerShellRequest::AckConfigure { surface: 5, serial: 4 }),
        Some(ShellEvent::LayerAckConfigure { surface: 5, serial: 4 })
    );
}

#[test]
fn popup_initial_configure_is_sent_once() {
    let mut m = ShellManager::init_shell();
    let popup = PopupEntry { surface: 8, parent: 3, geometry: rect(1, 1, 4, 4), initial_configure_sent: false };
    assert_eq!(
        m.xdg_shell_request(XdgRequest::NewPopup { surface: 8, parent: 3, geometry: rect(1, 1, 4, 4) }),
        Some(ShellEvent::PopupCreated { popup })
    );
    assert_eq!(
        m.surface_commit(&commit(8, Some(rect(1, 1, 4, 4)))),
        vec![ShellAction::SendConfigure(8), surface_commit(8)]
    );
    assert_eq!(m.surface_commit(&commit(8, Some(rect(1, 1, 4, 4)))), vec![surface_commit(8)]);
    let sent = PopupEntry { initial_configure_sent: true, ..popup };
    assert_eq!(
        m.xdg_shell_request(XdgRequest::Grab { surface: 8, serial: 2 }),
        Some(ShellEvent::PopupGrab { popup: sent, serial: 2 })
    );
}

#[test]
fn requests_about_unknown_surfaces_are_ignored() {
    let mut m = ShellManager::init_shell();
    assert_eq!(m.xdg_shell_request(XdgRequest::Maximize { surface: 1 }), None);
    assert_eq!(m.xdg_shell_request(XdgRequest::Grab { surface: 1, serial: 1 }), None);
    assert_eq!(m.xdg_shell_request(XdgRequest::AckConfigure { surface: 1, serial: 1 }), None);
    assert_eq!(m.surface_commit(&commit(1, Some(rect(0, 0, 1, 1)))), vec![surface_commit(1)]);
}

#[test]
fn window_requests_carry_the_window() {
    let mut m = ShellManager::init_shell();
    m.xdg_shell_request(XdgRequest::NewToplevel { surface: 4 });
    let g = rect(0, 0, 9, 9);
    m.surface_commit(&commit(4, Some(g)));
    let window = Window { surface: 4, geometry: g };
    assert_eq!(m.xdg_shell_request(XdgRequest::Maximize { surface: 4 }), Some(ShellEvent::WindowMaximize { window }));
    assert_eq!(m.xdg_shell_request(XdgRequest::UnMaximize { surface: 4 }), Some(ShellEvent::WindowUnMaximize { window }));
    assert_eq!(
        m.xdg_shell_request(XdgRequest::Fullscreen { surface: 4, output: Some(2) }),
        Some(ShellEvent::WindowFullscreen { window, output: Some(2) })
    );
    assert_eq!(m.xdg_shell_request(XdgRequest::UnFullscreen { surface: 4 }), Some(ShellEvent::WindowUnFullscreen { window }));
    assert_eq!(m.xdg_shell_request(XdgRequest::Minimize { surface: 4 }), Some(ShellEvent::WindowMinimize { window }));
    assert_eq!(m.xdg_shell_request(XdgRequest::Move { surface: 4, serial: 3 }), Some(ShellEvent::WindowMove { window, serial: 3 }));
    assert_eq!(
        m.xdg_shell_request(XdgRequest::ShowWindowMenu { surface: 4, serial: 3, location: Point { x: 1, y: 2 } }),
        Some(ShellEvent::ShowWindowMenu { window, serial: 3, location: Point { x: 1, y: 2 } })
    );
}

#[test]
fn refresh_removes_exactly_the_dead_and_keeps_order() {
    let mut r: Registry<Window> = Registry::new();
    for s in 1..7u64 {
        r.push(Window { surface: s, geometry: rect(0, 0, s as i32, 1) });
    }
    r.refresh(&vec![2, 5, 42]);
    let left: Vec<u64> = (0..r.len()).map(|i| r.get(i).surface).collect();
    assert_eq!(left, vec![1, 3, 4, 6]);
    assert_eq!(r.find(5), None);
    assert_eq!(r.find(4).map(|w| w.geometry.size.w), Some(4));
}

#[test]
fn shell_refresh_forgets_destroyed_surfaces() {
    let mut m = ShellManager::init_shell();
    for s in 1..4u64 {
        m.xdg_shell_request(XdgRequest::NewToplevel { surface: s });
    }
    m.surface_commit(&commit(1, Some(rect(0, 0, 5, 5))));
    m.start_resize(1, ResizeEdge::Top, Point { x: 0, y: 0 }, Size { w: 5, h: 5 });
    m.refresh(&vec![1, 2]);
    assert_eq!(m.window(1), None);
    assert!(!m.is_pending(2));
    assert!(m.is_pending(3));
    assert_eq!(m.surface_data(1), anodium_shell::surface_data::SurfaceData::new());
}

#[test]
fn synchronized_subsurface_still_commits() {
    let mut m = ShellManager::init_shell();
    let c = Commit { surface: 9, sync_subsurface: true, subtree: vec![9, 10], geometry: None };
    assert_eq!(m.surface_commit(&c), vec![surface_commit(9)]);
}

#[test]
fn pressed_keys_follow_key_events() {
    let mut s = SeatState::new();
    s.update_pressed_keys(30, KeyState::Pressed);
    s.update_pressed_keys(31, KeyState::Pressed);
    s.update_pressed_keys(30, KeyState::Pressed);
    assert!(s.is_pressed(30) && s.is_pressed(31));
    s.update_pressed_keys(30, KeyState::Released);
    assert!(!s.is_pressed(30));
    assert!(s.is_pressed(31));
    s.update_pressed_keys(99, KeyState::Released);
    assert!(!s.is_pressed(99));
}
