use anodium_shell::edge::ResizeEdge;
use anodium_shell::geometry::{Point, Size};
use anodium_shell::surface_data::{
    MoveAfterResizeState, ResizeData, ResizeState, SurfaceData,
};

fn resizing(edges: ResizeEdge, x: i32, y: i32, w: i32, h: i32) -> SurfaceData {
    let mut d = SurfaceData::new();
    d.start_resize(edges, Point { x, y }, Size { w, h });
    d
}

#[test]
fn left_edge_moves_x_only() {
    let mut d = resizing(ResizeEdge::Left, 10, 20, 100, 50);
    assert_eq!(d.on_commit(Size { w: 80, h: 50 }), (Some(30), None));
}

#[test]
fn top_left_corner_moves_both_axes() {
    let mut d = resizing(ResizeEdge::TopLeft, 0, 0, 200, 200);
    assert_eq!(d.on_commit(Size { w: 150, h: 150 }), (Some(50), Some(50)));
}

#[test]
fn right_and_bottom_edges_move_nothing() {
    for e in [ResizeEdge::Right, ResizeEdge::Bottom, ResizeEdge::BottomRight] {
        let mut d = resizing(e, 5, 5, 100, 100);
        assert_eq!(d.on_commit(Size { w: 10, h: 10 }), (None, None));
    }
}

#[test]
fn top_right_and_bottom_left_move_one_axis() {
    let mut d = resizing(ResizeEdge::TopRight, 0, 0, 100, 100);
    assert_eq!(d.on_commit(Size { w: 60, h: 70 }), (None, Some(30)));
    let mut d = resizing(ResizeEdge::BottomLeft, 0, 0, 100, 100);
    assert_eq!(d.on_commit(Size { w: 60, h: 70 }), (Some(40), None));
}

#[test]
fn growing_to_the_left_gives_negative_offset() {
    let mut d = resizing(ResizeEdge::Left, 0, 0, 100, 100);
    assert_eq!(d.on_commit(Size { w: 130, h: 100 }), (Some(-30), None));
}

#[test]
fn extreme_coordinates_do_not_overflow() {
    let mut d = resizing(ResizeEdge::TopLeft, i32::MAX, i32::MIN, i32::MAX, i32::MAX);
    assert_eq!(
        d.on_commit(Size { w: i32::MIN, h: 0 }),
        (Some(i32::MAX as i64 + i32::MAX as i64 - i32::MIN as i64), Some(i32::MIN as i64 + i32::MAX as i64))
    );
}

#[test]
fn resize_walks_through_its_phases() {
    let mut d = resizing(ResizeEdge::Left, 10, 20, 100, 50);
    d.resize_released(7);
    let data = ResizeData {
        edges: ResizeEdge::Left,
        initial_window_location: Point { x: 10, y: 20 },
        initial_window_size: Size { w: 100, h: 50 },
    };
    assert_eq!(d.resize_state, ResizeState::WaitingForFinalAck(data, 7));
    d.ack_configure(6);
    assert_eq!(d.resize_state, ResizeState::WaitingForFinalAck(data, 7));
    d.ack_configure(7);
    assert_eq!(d.resize_state, ResizeState::WaitingForCommit(data));
}

#[test]
fn completed_resize_reports_nothing_afterwards() {
    let mut d = resizing(ResizeEdge::Left, 10, 20, 100, 50);
    d.resize_released(1);
    d.ack_configure(1);
    assert_eq!(d.on_commit(Size { w: 80, h: 50 }), (Some(30), None));
    assert_eq!(d.resize_state, ResizeState::NotResizing);
    assert_eq!(d.on_commit(Size { w: 70, h: 50 }), (None, None));
    assert_eq!(d.on_commit(Size { w: 70, h: 50 }), (None, None));
}

#[test]
fn move_after_resize_applies_on_next_commit_only() {
    let mut d = resizing(ResizeEdge::TopLeft, 0, 0, 200, 200);
    d.resize_released(3);
    d.ack_configure(3);
    d.queue_move_after_resize(Point { x: 400, y: 500 });
    assert_eq!(d.on_commit(Size { w: 150, h: 150 }), (Some(400), Some(500)));
    assert_eq!(d.resize_state, ResizeState::NotResizing);
    assert_eq!(d.move_after_resize_state, MoveAfterResizeState::Current(Point { x: 400, y: 500 }));
    assert_eq!(d.on_commit(Size { w: 150, h: 150 }), (None, None));
}

#[test]
fn edge_wire_values_round_trip() {
    for bits in 0u32..16 {
        match ResizeEdge::from_bits(bits) {
            Some(e) => assert_eq!(e.bits(), bits),
            None => assert!(![1, 2, 4, 5, 6, 8, 9, 10].contains(&bits)),
        }
    }
    assert_eq!(ResizeEdge::from_bits(5), Some(ResizeEdge::TopLeft));
    assert_eq!(ResizeEdge::from_bits(3), None);
    assert_eq!(ResizeEdge::from_bits(0), None);
    assert!(ResizeEdge::TopLeft.has_left() && ResizeEdge::TopLeft.has_top());
    assert!(!ResizeEdge::Right.has_left() && !ResizeEdge::Bottom.has_top());
}
