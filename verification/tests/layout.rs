use nalu::view::get_overlay_rect;
use nalu::tui_layout::list::{
    find_next_pos, get_children_rectangles, list_border, orientation_scalar, resize_step, Border,
    Direction, Resize, ResizeStep,
};
use nalu::tui_layout::pos::{ComponentPos, Rect};
use nalu::widgets::waveform::{push_merged, SpanStyle, ValueInfo, ValueKind, Logic, WaveformQuery};

#[test]
fn next_position_across_borders() {
    let pos = ComponentPos { x: 3, y: 4 };
    assert_eq!(find_next_pos(pos, Border::Top, 5, 6, 20, 20), Some(ComponentPos { x: 3, y: 3 }));
    assert_eq!(find_next_pos(pos, Border::Bottom, 5, 6, 20, 20), Some(ComponentPos { x: 3, y: 10 }));
    assert_eq!(find_next_pos(pos, Border::Bottom, 5, 16, 20, 20), None);
    assert_eq!(find_next_pos(pos, Border::Left, 5, 6, 20, 20), Some(ComponentPos { x: 2, y: 4 }));
    assert_eq!(find_next_pos(pos, Border::Right, 17, 6, 20, 20), None);
    assert_eq!(find_next_pos(ComponentPos { x: 0, y: 0 }, Border::Top, 5, 6, 20, 20), None);
    assert_eq!(orientation_scalar(Direction::Vertical, 3, 9), 9);
}

#[test]
fn resize_starts_only_between_children() {
    assert_eq!(Resize::new(7, Border::Left, 0, 3), Resize::Idle);
    assert_eq!(Resize::new(7, Border::Left, 1, 3), Resize::LeftTop { mouse_offset: 7, child_index: 1 });
    assert_eq!(Resize::new(7, Border::Bottom, 2, 3), Resize::Idle);
    assert_eq!(
        Resize::new(7, Border::Right, 1, 3),
        Resize::RightBottom { mouse_offset: 7, child_index: 1 }
    );
}

#[test]
fn resize_moves_the_shared_border() {
    let sizes = vec![(10u16, 5u16), (20, 5), (30, 5)];
    let drag = Resize::RightBottom { mouse_offset: 10, child_index: 0 };
    // Dragging right by 3: the second child shrinks first.
    assert_eq!(
        resize_step(true, true, drag, 13, Direction::Horizontal, &sizes),
        ResizeStep::Apply { shrink: (1, 17, 5), grow: (0, 13, 5) }
    );
    // Dragging left by 2: the first child shrinks first.
    assert_eq!(
        resize_step(true, true, drag, 8, Direction::Horizontal, &sizes),
        ResizeStep::Apply { shrink: (0, 8, 5), grow: (1, 22, 5) }
    );
    // No move, a child that would vanish, or no drag.
    assert_eq!(resize_step(true, true, drag, 10, Direction::Horizontal, &sizes), ResizeStep::Keep);
    assert_eq!(resize_step(true, true, drag, 0, Direction::Horizontal, &sizes), ResizeStep::Keep);
    assert_eq!(resize_step(true, false, drag, 13, Direction::Horizontal, &sizes), ResizeStep::Stop);
    assert_eq!(resize_step(false, true, drag, 13, Direction::Horizontal, &sizes), ResizeStep::Stop);
    assert_eq!(resize_step(true, true, Resize::Idle, 13, Direction::Horizontal, &sizes), ResizeStep::Keep);
    let up = Resize::LeftTop { mouse_offset: 5, child_index: 2 };
    assert_eq!(
        resize_step(true, true, up, 4, Direction::Vertical, &vec![(1, 1), (4, 6), (4, 6)]),
        ResizeStep::Apply { shrink: (1, 4, 5), grow: (2, 4, 7) }
    );
}

#[test]
fn children_rectangles_follow_each_other() {
    let rects = get_children_rectangles(Direction::Vertical, &vec![(10, 3), (10, 4), (10, 5)]);
    assert_eq!(
        rects,
        vec![Rect::new(0, 0, 10, 3), Rect::new(0, 3, 10, 4), Rect::new(0, 7, 10, 5)]
    );
    assert_eq!(list_border(Direction::Horizontal, Border::Left, false, true), None);
    assert_eq!(list_border(Direction::Horizontal, Border::Right, false, true), Some(Border::Right));
    assert_eq!(list_border(Direction::Vertical, Border::Left, false, false), Some(Border::Left));
}

fn value(text: &str, width: usize) -> ValueInfo {
    ValueInfo {
        kind: ValueKind::Vector { bit_width: width, first_bit: Logic::One, text: text.to_string() },
        timestamp_index: 0,
        unknown: false,
        high_impedance: false,
    }
}

#[test]
fn waveform_spans_and_merging() {
    let mut merged = Vec::new();
    push_merged(&mut merged, WaveformQuery::Blank(1));
    push_merged(&mut merged, WaveformQuery::Blank(1));
    push_merged(&mut merged, WaveformQuery::SingleEdge(value("a5", 8), 1));
    push_merged(&mut merged, WaveformQuery::Static(value("a5", 8), 1));
    push_merged(&mut merged, WaveformQuery::Static(value("a5", 8), 1));
    push_merged(&mut merged, WaveformQuery::MultipleEdge(1));
    assert_eq!(merged.len(), 3);
    assert_eq!(merged[0].get_span(), (String::from("  "), SpanStyle::Normal));
    assert_eq!(merged[1].get_span(), (String::from("|a5"), SpanStyle::Normal));
    assert_eq!(merged[2].get_span(), (String::from("#"), SpanStyle::Edges));
    let bit = WaveformQuery::StaticVoid(value("1", 1), 3);
    assert_eq!(bit.get_span(), (String::from("███"), SpanStyle::Void));
    let long = WaveformQuery::Static(value("deadbeef", 32), 4);
    assert_eq!(long.get_span(), (String::from("dead"), SpanStyle::Normal));
}

#[test]
fn overlay_rect_is_centred() {
    assert_eq!(get_overlay_rect(Rect::new(0, 0, 80, 24), 3), Rect::new(1, 10, 78, 3));
    assert_eq!(get_overlay_rect(Rect::new(0, 0, 4, 2), 3), Rect::new(0, 0, 4, 2));
    assert_eq!(get_overlay_rect(Rect::new(0, 0, 40, 10), 10), Rect::new(1, 0, 38, 10));
}

#[test]
fn layout_drag_keeps_total_and_minimum() {
    let mut layout = nalu::resize::LayoutResize::new([10u16, 20, 30], 5);
    layout.handle_mouse_down(10, 1);
    layout.handle_mouse_drag(13);
    assert_eq!(layout.lengths(), [13, 17, 30]);
    assert_eq!(layout.get_container_length(), 60);
    // Past the minimum of the right part: nothing moves.
    layout.handle_mouse_drag(40);
    assert_eq!(layout.lengths(), [13, 17, 30]);
    // The drag goes on from where the pointer was last.
    layout.handle_mouse_drag(38);
    assert_eq!(layout.lengths(), [11, 19, 30]);
    layout.handle_mouse_done();
    layout.handle_mouse_drag(20);
    assert_eq!(layout.lengths(), [11, 19, 30]);
    assert_eq!(layout.get_container_length(), 60);
}
