use photo_engine::canvas_input::{canvas_pointer_step, CanvasCommand, PointerAction, PointerInput, PointerState};
use photo_engine::tools::PhotoTool;

fn quiet() -> PointerInput {
    PointerInput {
        pressed: false,
        down: false,
        released: false,
        clicked: false,
        click_over_canvas: false,
        pointer_known: true,
        pointer_over_canvas: true,
        alt: false,
        shift: false,
        space_down: false,
        middle_down: false,
        handle_dragging: false,
        selection_dragging: false,
        dragged: false,
        pointer_moved: false,
    }
}

const IDLE: PointerState = PointerState { was_down: false, action: PointerAction::Idle };

#[test]
fn marquee_press_drag_release() {
    let (s, c) = canvas_pointer_step(IDLE, PhotoTool::Marquee, PointerInput { pressed: true, down: true, ..quiet() });
    assert_eq!(s, PointerState { was_down: true, action: PointerAction::Marquee });
    assert_eq!(c, vec![CanvasCommand::BeginSelection, CanvasCommand::UpdateSelection { square: false }]);
    let (s, c) = canvas_pointer_step(
        s,
        PhotoTool::Marquee,
        PointerInput { down: true, shift: true, selection_dragging: true, ..quiet() },
    );
    assert_eq!(s.action, PointerAction::Marquee);
    assert_eq!(c, vec![CanvasCommand::UpdateSelection { square: true }]);
    let (s, c) = canvas_pointer_step(s, PhotoTool::Marquee, PointerInput { released: true, selection_dragging: true, ..quiet() });
    assert_eq!(s, IDLE);
    assert_eq!(
        c,
        vec![CanvasCommand::UpdateSelection { square: false }, CanvasCommand::FinishSelection(PhotoTool::Marquee)]
    );
}

#[test]
fn alt_swaps_dodge_and_burn_for_strokes() {
    let (s, c) = canvas_pointer_step(IDLE, PhotoTool::Dodge, PointerInput { pressed: true, down: true, alt: true, ..quiet() });
    assert_eq!(s.action, PointerAction::Paint);
    assert_eq!(c, vec![CanvasCommand::BeginStroke(PhotoTool::Burn), CanvasCommand::UpdateStroke(PhotoTool::Burn)]);
    let (_, c) = canvas_pointer_step(s, PhotoTool::Dodge, PointerInput { down: true, pointer_over_canvas: false, ..quiet() });
    assert!(c.is_empty());
    let (s, c) = canvas_pointer_step(s, PhotoTool::Dodge, quiet());
    assert_eq!(s, IDLE);
    assert_eq!(c, vec![CanvasCommand::UpdateStroke(PhotoTool::Dodge), CanvasCommand::FinishStroke]);
}

#[test]
fn camera_drag_blocks_the_tools() {
    let (s, c) = canvas_pointer_step(IDLE, PhotoTool::Brush, PointerInput { pressed: true, down: true, space_down: true, ..quiet() });
    assert_eq!(s, PointerState { was_down: true, action: PointerAction::Idle });
    assert!(c.is_empty());
    let (_, c) = canvas_pointer_step(IDLE, PhotoTool::Hand, PointerInput { pressed: true, down: true, clicked: true, click_over_canvas: true, ..quiet() });
    assert!(c.is_empty());
}

#[test]
fn move_tool_selects_duplicates_and_drags() {
    let (s, c) = canvas_pointer_step(IDLE, PhotoTool::Move, PointerInput { pressed: true, down: true, alt: true, dragged: true, pointer_moved: true, ..quiet() });
    assert_eq!(s.action, PointerAction::Idle);
    assert_eq!(
        c,
        vec![
            CanvasCommand::PushUndo,
            CanvasCommand::SelectHitLayer { duplicate: true },
            CanvasCommand::MoveSelectedLayer { axis_lock: false },
        ]
    );
    let (_, c) = canvas_pointer_step(IDLE, PhotoTool::Move, PointerInput { pressed: true, down: true, handle_dragging: true, ..quiet() });
    assert!(c.is_empty());
    let (_, c) = canvas_pointer_step(IDLE, PhotoTool::Eyedropper, PointerInput { clicked: true, click_over_canvas: true, ..quiet() });
    assert_eq!(c, vec![CanvasCommand::PickColor]);
}

#[test]
fn a_missed_release_still_finishes_the_crop() {
    let state = PointerState { was_down: true, action: PointerAction::Crop };
    let (s, c) = canvas_pointer_step(state, PhotoTool::Crop, PointerInput { pointer_known: false, selection_dragging: true, ..quiet() });
    assert_eq!(s, IDLE);
    assert_eq!(c, vec![CanvasCommand::FinishSelection(PhotoTool::Crop)]);
}
