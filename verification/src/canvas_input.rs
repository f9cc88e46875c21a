use vstd::prelude::*;
use crate::tools::PhotoTool;

verus! {

/// What a primary-button drag on the canvas is doing.
#[derive(Clone, Copy, Debug, PartialEq, Eq, Structural)]
pub enum PointerAction {
    Idle,
    Marquee,
    Crop,
    Paint,
}

/// What the canvas remembers between frames: whether the primary button was down in the
/// previous frame, and the drag in progress.
#[derive(Clone, Copy, Debug, PartialEq, Eq, Structural)]
pub struct PointerState {
    pub was_down: bool,
    pub action: PointerAction,
}

/// The pointer and keyboard facts of one frame that the canvas decides on.
/// - `pressed`, `down`, `released`: the primary button was pressed, is held, was released;
/// - `clicked`: the canvas was clicked, and `click_over_canvas`: at a point of the image;
/// - `pointer_known`: the pointer position is known, and `pointer_over_canvas`: it lies on
///   the image;
/// - `alt`, `shift`, `space_down`, `middle_down`: modifiers, the space bar, the middle button;
/// - `handle_dragging`: a transform handle of the selected layer is being dragged;
/// - `selection_dragging`: a selection rectangle is being drawn (from earlier frames);
/// - `dragged`, `pointer_moved`: the canvas is dragged by the primary button and the pointer
///   moved this frame.
#[derive(Clone, Copy, Debug)]
pub struct PointerInput {
    pub pressed: bool,
    pub down: bool,
    pub released: bool,
    pub clicked: bool,
    pub click_over_canvas: bool,
    pub pointer_known: bool,
    pub pointer_over_canvas: bool,
    pub alt: bool,
    pub shift: bool,
    pub space_down: bool,
    pub middle_down: bool,
    pub handle_dragging: bool,
    pub selection_dragging: bool,
    pub dragged: bool,
    pub pointer_moved: bool,
}

/// What the canvas asks the editor to do, in order.
#[derive(Clone, Copy, Debug, PartialEq, Eq, Structural)]
pub enum CanvasCommand {
    /// Select the top layer under the click, or none when there is none.
    SelectLayerUnderPointer,
    /// Take the brush colour from the visible layers under the pointer.
    PickColor,
    /// Record an undo checkpoint.
    PushUndo,
    /// Select the top layer under the pointer, if there is one, and then duplicate it in
    /// place when `duplicate` holds.
    SelectHitLayer { duplicate: bool },
    /// Start a selection rectangle at the pointer.
    BeginSelection,
    /// Move the selection rectangle's corner to the pointer (`square`: keep it square).
    UpdateSelection { square: bool },
    /// End the selection rectangle drawn with `tool` (marquee or crop).
    FinishSelection(PhotoTool),
    /// Start a stroke of `tool` at the pointer.
    BeginStroke(PhotoTool),
    /// Continue the stroke of `tool` to the pointer.
    UpdateStroke(PhotoTool),
    /// End the stroke.
    FinishStroke,
    /// Move the selected layer with the pointer (`axis_lock`: along its main axis only).
    MoveSelectedLayer { axis_lock: bool },
}

/// The tool in effect: Alt swaps dodge and burn.
pub open spec fn effective_tool(tool: PhotoTool, alt: bool) -> PhotoTool {
    if alt && tool == PhotoTool::Dodge {
        PhotoTool::Burn
    } else if alt && tool == PhotoTool::Burn {
        PhotoTool::Dodge
    } else {
        tool
    }
}

/// The six tools that paint on pixels.
pub open spec fn paints(t: PhotoTool) -> bool {
    t == PhotoTool::Brush || t == PhotoTool::Eraser || t == PhotoTool::Dodge || t == PhotoTool::Burn || t
        == PhotoTool::Blur || t == PhotoTool::Sharpen
}

/// The view is being panned (space, middle button or the hand tool): the canvas does
/// nothing else.
pub open spec fn camera_dragging(t: PhotoTool, i: PointerInput) -> bool {
    i.space_down || i.middle_down || t == PhotoTool::Hand
}

/// A transform handle is being dragged (only the move tool shows handles).
pub open spec fn handle_drag(t: PhotoTool, i: PointerInput) -> bool {
    t == PhotoTool::Move && i.handle_dragging
}

/// Commands of a click on the image: move selects the layer under it, the eyedropper
/// picks a colour.
pub open spec fn click_commands(t: PhotoTool, i: PointerInput) -> Seq<CanvasCommand> {
    if i.clicked && !camera_dragging(t, i) && i.click_over_canvas {
        if t == PhotoTool::Move {
            seq![CanvasCommand::SelectLayerUnderPointer]
        } else if t == PhotoTool::Eyedropper {
            seq![CanvasCommand::PickColor]
        } else {
            seq![]
        }
    } else {
        seq![]
    }
}

/// A press of the primary button on the image starts the tool's action.
pub open spec fn press_applies(t: PhotoTool, i: PointerInput) -> bool {
    i.pressed && !camera_dragging(t, i) && !handle_drag(t, i) && i.pointer_known && i.pointer_over_canvas
}

pub open spec fn press_commands(t: PhotoTool, i: PointerInput) -> Seq<CanvasCommand> {
    if !press_applies(t, i) {
        seq![]
    } else if t == PhotoTool::Move {
        seq![CanvasCommand::PushUndo, CanvasCommand::SelectHitLayer { duplicate: i.alt }]
    } else if t == PhotoTool::Marquee || t == PhotoTool::Crop {
        seq![CanvasCommand::BeginSelection]
    } else if paints(t) {
        seq![CanvasCommand::BeginStroke(t)]
    } else if t == PhotoTool::Eyedropper {
        seq![CanvasCommand::PickColor]
    } else {
        seq![]
    }
}

/// The drag in progress after the press: marquee, crop and the paint tools start one,
/// the other tools end any.
pub open spec fn action_after_press(a: PointerAction, t: PhotoTool, i: PointerInput) -> PointerAction {
    if !press_applies(t, i) {
        a
    } else if t == PhotoTool::Marquee {
        PointerAction::Marquee
    } else if t == PhotoTool::Crop {
        PointerAction::Crop
    } else if paints(t) {
        PointerAction::Paint
    } else {
        PointerAction::Idle
    }
}

/// A selection rectangle is being drawn after the press.
pub open spec fn selecting_after_press(t: PhotoTool, i: PointerInput) -> bool {
    i.selection_dragging || (press_applies(t, i) && (t == PhotoTool::Marquee || t == PhotoTool::Crop))
}

/// The follow-up of the drag `a` at the pointer: the rectangle's corner moves (while one
/// is being drawn) or the stroke continues (`over`: only when the pointer is on the image).
pub open spec fn follow_up(a: PointerAction, t: PhotoTool, square: bool, selecting: bool, over: bool) -> Seq<CanvasCommand> {
    match a {
        PointerAction::Marquee | PointerAction::Crop => if selecting {
            seq![CanvasCommand::UpdateSelection { square }]
        } else {
            seq![]
        },
        PointerAction::Paint => if over {
            seq![CanvasCommand::UpdateStroke(t)]
        } else {
            seq![]
        },
        PointerAction::Idle => seq![],
    }
}

/// Commands while the primary button is held.
pub open spec fn down_commands(a: PointerAction, t: PhotoTool, i: PointerInput) -> Seq<CanvasCommand> {
    if i.down && !camera_dragging(t, i) && !handle_drag(t, i) && i.pointer_known {
        if a == PointerAction::Idle {
            if t == PhotoTool::Move && i.dragged && i.pointer_moved {
                seq![CanvasCommand::MoveSelectedLayer { axis_lock: i.shift }]
            } else {
                seq![]
            }
        } else {
            follow_up(a, t, i.shift, selecting_after_press(t, i), i.pointer_over_canvas)
        }
    } else {
        seq![]
    }
}

/// The drag ends: the button was released, or was down last frame and no longer is, or is
/// up while a drag is still recorded.
pub open spec fn release_applies(s: PointerState, a: PointerAction, i: PointerInput) -> bool {
    i.released || (s.was_down && !i.down) || (!i.down && a != PointerAction::Idle)
}

/// Commands when the drag ends: a last follow-up at the pointer (wherever it is), then the
/// drag is finished.
pub open spec fn release_commands(s: PointerState, a: PointerAction, t: PhotoTool, i: PointerInput) -> Seq<CanvasCommand> {
    if !release_applies(s, a, i) {
        seq![]
    } else {
        let last = if i.pointer_known {
            follow_up(a, t, i.shift, selecting_after_press(t, i), true)
        } else {
            seq![]
        };
        let finish = match a {
            PointerAction::Marquee => seq![CanvasCommand::FinishSelection(PhotoTool::Marquee)],
            PointerAction::Crop => seq![CanvasCommand::FinishSelection(PhotoTool::Crop)],
            PointerAction::Paint => seq![CanvasCommand::FinishStroke],
            PointerAction::Idle => seq![],
        };
        last + finish
    }
}

/// The canvas state after a frame with `tool` selected in the editor.
pub open spec fn next_pointer_state(s: PointerState, tool: PhotoTool, i: PointerInput) -> PointerState {
    let t = effective_tool(tool, i.alt);
    let a = action_after_press(s.action, t, i);
    PointerState { was_down: i.down, action: if release_applies(s, a, i) { PointerAction::Idle } else { a } }
}

/// The commands of a frame with `tool` selected in the editor, in order.
pub open spec fn pointer_commands(s: PointerState, tool: PhotoTool, i: PointerInput) -> Seq<CanvasCommand> {
    let t = effective_tool(tool, i.alt);
    let a = action_after_press(s.action, t, i);
    click_commands(t, i) + press_commands(t, i) + down_commands(a, t, i) + release_commands(s, a, t, i)
}

/// Appends the follow-up of the drag `a` (see `follow_up`).
fn push_follow_up(cmds: &mut Vec<CanvasCommand>, a: PointerAction, t: PhotoTool, shift: bool, selecting: bool, over: bool)
    ensures
        final(cmds)@ == old(cmds)@ + follow_up(a, t, shift, selecting, over),
{
    match a {
        PointerAction::Marquee | PointerAction::Crop => {
            if selecting {
                cmds.push(CanvasCommand::UpdateSelection { square: shift });
            }
        },
        PointerAction::Paint => {
            if over {
                cmds.push(CanvasCommand::UpdateStroke(t));
            }
        },
        PointerAction::Idle => {},
    }
    proof {
        let f = follow_up(a, t, shift, selecting, over);
        assert(final(cmds)@ =~= old(cmds)@ + f);
    }
}

/// A press on the image with one of the six paint tools (brush, eraser, dodge, burn, blur,
/// sharpen, after Alt's dodge/burn swap) starts a stroke of that tool: the first command
/// of the frame begins it, and while the button stays held the canvas is painting.
pub proof fn lemma_paint_press_starts_stroke(s: PointerState, tool: PhotoTool, i: PointerInput)
    requires
        tool == PhotoTool::Brush || tool == PhotoTool::Eraser || tool == PhotoTool::Dodge || tool == PhotoTool::Burn
            || tool == PhotoTool::Blur || tool == PhotoTool::Sharpen,
        i.pressed,
        i.pointer_known,
        i.pointer_over_canvas,
        !i.space_down,
        !i.middle_down,
    ensures
        ({
            let t = effective_tool(tool, i.alt);
            let cmds = pointer_commands(s, tool, i);
            &&& cmds.len() >= 1
            &&& cmds[0] == CanvasCommand::BeginStroke(t)
            &&& (i.down && !i.released ==> next_pointer_state(s, tool, i) == PointerState {
                was_down: true,
                action: PointerAction::Paint,
            })
            &&& (i.down && !i.released && i.pointer_over_canvas ==> cmds.len() == 2 && cmds[1]
                == CanvasCommand::UpdateStroke(t))
        }),
{
    let t = effective_tool(tool, i.alt);
    assert(t == PhotoTool::Brush || t == PhotoTool::Eraser || t == PhotoTool::Dodge || t == PhotoTool::Burn || t
        == PhotoTool::Blur || t == PhotoTool::Sharpen);
    assert(click_commands(t, i) =~= seq![]);
    assert(press_commands(t, i) =~= seq![CanvasCommand::BeginStroke(t)]);
    let a = action_after_press(s.action, t, i);
    assert(a == PointerAction::Paint);
    let cmds = pointer_commands(s, tool, i);
    assert(cmds[0] == CanvasCommand::BeginStroke(t));
    if i.down && !i.released {
        assert(!release_applies(s, a, i));
        assert(down_commands(a, t, i) =~= seq![CanvasCommand::UpdateStroke(t)]);
        assert(release_commands(s, a, t, i) =~= seq![]);
    }
}

/// A press on the image with the marquee or crop tool starts a selection rectangle, and
/// while the button stays held the canvas is drawing it with that tool.
pub proof fn lemma_selection_press_starts_rectangle(s: PointerState, tool: PhotoTool, i: PointerInput)
    requires
        tool == PhotoTool::Marquee || tool == PhotoTool::Crop,
        i.pressed,
        i.down,
        !i.released,
        i.pointer_known,
        i.pointer_over_canvas,
        !i.space_down,
        !i.middle_down,
    ensures
        pointer_commands(s, tool, i) == seq![
            CanvasCommand::BeginSelection,
            CanvasCommand::UpdateSelection { square: i.shift },
        ],
        next_pointer_state(s, tool, i) == (PointerState {
            was_down: true,
            action: if tool == PhotoTool::Marquee { PointerAction::Marquee } else { PointerAction::Crop },
        }),
{
    let t = effective_tool(tool, i.alt);
    assert(t == tool);
    assert(click_commands(t, i) =~= seq![]);
    let a = action_after_press(s.action, t, i);
    assert(!release_applies(s, a, i));
    assert(release_commands(s, a, t, i) =~= seq![]);
    assert(pointer_commands(s, tool, i) =~= seq![
        CanvasCommand::BeginSelection,
        CanvasCommand::UpdateSelection { square: i.shift },
    ]);
}

/// While the view is being panned (space, middle button or the hand tool) the canvas starts
/// and continues nothing: the only commands of the frame finish a drag already under way.
pub proof fn lemma_panning_starts_nothing(s: PointerState, tool: PhotoTool, i: PointerInput)
    requires
        i.space_down || i.middle_down || tool == PhotoTool::Hand,
    ensures
        pointer_commands(s, tool, i) == release_commands(s, s.action, effective_tool(tool, i.alt), i),
        next_pointer_state(s, tool, i).action == s.action || next_pointer_state(s, tool, i).action
            == PointerAction::Idle,
{
    let t = effective_tool(tool, i.alt);
    assert(click_commands(t, i) =~= seq![]);
    assert(press_commands(t, i) =~= seq![]);
    assert(down_commands(s.action, t, i) =~= seq![]);
    assert(pointer_commands(s, tool, i) =~= release_commands(s, s.action, t, i));
}

/// The tool in effect (see `effective_tool`).
fn tool_in_effect(tool: PhotoTool, alt: bool) -> (t: PhotoTool)
    ensures
        t == effective_tool(tool, alt),
{
    match tool {
        PhotoTool::Dodge => if alt { PhotoTool::Burn } else { PhotoTool::Dodge },
        PhotoTool::Burn => if alt { PhotoTool::Dodge } else { PhotoTool::Burn },
        other => other,
    }
}

/// Appends the commands of a click (see `click_commands`).
fn push_click(cmds: &mut Vec<CanvasCommand>, t: PhotoTool, i: PointerInput)
    ensures
        final(cmds)@ == old(cmds)@ + click_commands(t, i),
{
    let camera = i.space_down || i.middle_down || t == PhotoTool::Hand;
    if i.clicked && !camera && i.click_over_canvas {
        if t == PhotoTool::Move {
            cmds.push(CanvasCommand::SelectLayerUnderPointer);
        } else if t == PhotoTool::Eyedropper {
            cmds.push(CanvasCommand::PickColor);
        }
    }
    assert(final(cmds)@ =~= old(cmds)@ + click_commands(t, i));
}

/// Appends the commands of a press and returns the drag after it (see `press_commands`
/// and `action_after_press`).
fn push_press(cmds: &mut Vec<CanvasCommand>, a: PointerAction, t: PhotoTool, i: PointerInput) -> (r: PointerAction)
    ensures
        final(cmds)@ == old(cmds)@ + press_commands(t, i),
        r == action_after_press(a, t, i),
{
    let camera = i.space_down || i.middle_down || t == PhotoTool::Hand;
    let handle = t == PhotoTool::Move && i.handle_dragging;
    let paint = match t {
        PhotoTool::Brush | PhotoTool::Eraser | PhotoTool::Dodge | PhotoTool::Burn | PhotoTool::Blur | PhotoTool::Sharpen => true,
        _ => false,
    };
    let mut r = a;
    if i.pressed && !camera && !handle && i.pointer_known && i.pointer_over_canvas {
        if t == PhotoTool::Move {
            cmds.push(CanvasCommand::PushUndo);
            cmds.push(CanvasCommand::SelectHitLayer { duplicate: i.alt });
            r = PointerAction::Idle;
        } else if t == PhotoTool::Marquee {
            cmds.push(CanvasCommand::BeginSelection);
            r = PointerAction::Marquee;
        } else if t == PhotoTool::Crop {
            cmds.push(CanvasCommand::BeginSelection);
            r = PointerAction::Crop;
        } else if paint {
            cmds.push(CanvasCommand::BeginStroke(t));
            r = PointerAction::Paint;
        } else if t == PhotoTool::Eyedropper {
            cmds.push(CanvasCommand::PickColor);
            r = PointerAction::Idle;
        } else {
            r = PointerAction::Idle;
        }
    }
    assert(final(cmds)@ =~= old(cmds)@ + press_commands(t, i));
    r
}

/// Appends the commands while the button is held (see `down_commands`).
fn push_down(cmds: &mut Vec<CanvasCommand>, a: PointerAction, t: PhotoTool, i: PointerInput, selecting: bool)
    requires
        selecting == selecting_after_press(t, i),
    ensures
        final(cmds)@ == old(cmds)@ + down_commands(a, t, i),
{
    let camera = i.space_down || i.middle_down || t == PhotoTool::Hand;
    let handle = t == PhotoTool::Move && i.handle_dragging;
    if i.down && !camera && !handle && i.pointer_known {
        if a == PointerAction::Idle {
            if t == PhotoTool::Move && i.dragged && i.pointer_moved {
                cmds.push(CanvasCommand::MoveSelectedLayer { axis_lock: i.shift });
            }
        } else {
            push_follow_up(cmds, a, t, i.shift, selecting, i.pointer_over_canvas);
        }
    }
    assert(final(cmds)@ =~= old(cmds)@ + down_commands(a, t, i));
}

/// Appends the commands when the drag ends, and tells whether it ended (see
/// `release_applies` and `release_commands`).
fn push_release(cmds: &mut Vec<CanvasCommand>, s: PointerState, a: PointerAction, t: PhotoTool, i: PointerInput, selecting: bool) -> (r: bool)
    requires
        selecting == selecting_after_press(t, i),
    ensures
        final(cmds)@ == old(cmds)@ + release_commands(s, a, t, i),
        r == release_applies(s, a, i),
{
    let release = i.released || (s.was_down && !i.down) || (!i.down && a != PointerAction::Idle);
    if release {
        if i.pointer_known {
            push_follow_up(cmds, a, t, i.shift, selecting, true);
        }
        let ghost c4 = cmds@;
        match a {
            PointerAction::Marquee => cmds.push(CanvasCommand::FinishSelection(PhotoTool::Marquee)),
            PointerAction::Crop => cmds.push(CanvasCommand::FinishSelection(PhotoTool::Crop)),
            PointerAction::Paint => cmds.push(CanvasCommand::FinishStroke),
            PointerAction::Idle => {},
        }
        proof {
            let last = if i.pointer_known {
                follow_up(a, t, i.shift, selecting, true)
            } else {
                seq![]
            };
            assert(c4 =~= old(cmds)@ + last);
        }
    }
    assert(final(cmds)@ =~= old(cmds)@ + release_commands(s, a, t, i));
    release
}

/// One frame of the canvas's pointer handling with `tool` selected in the editor: the next
/// state and the commands for the editor to carry out, in order (see `next_pointer_state`
/// and `pointer_commands`).
pub fn canvas_pointer_step(s: PointerState, tool: PhotoTool, i: PointerInput) -> (r: (PointerState, Vec<CanvasCommand>))
    ensures
        r.0 == next_pointer_state(s, tool, i),
        r.1@ == pointer_commands(s, tool, i),
{
    let t = tool_in_effect(tool, i.alt);
    let mut cmds: Vec<CanvasCommand> = Vec::new();
    push_click(&mut cmds, t, i);
    let a = push_press(&mut cmds, s.action, t, i);
    let camera = i.space_down || i.middle_down || t == PhotoTool::Hand;
    let handle = t == PhotoTool::Move && i.handle_dragging;
    let press = i.pressed && !camera && !handle && i.pointer_known && i.pointer_over_canvas;
    let selecting = i.selection_dragging || (press && (t == PhotoTool::Marquee || t == PhotoTool::Crop));
    push_down(&mut cmds, a, t, i, selecting);
    let ended = push_release(&mut cmds, s, a, t, i, selecting);
    proof {
        assert(cmds@ =~= pointer_commands(s, tool, i));
    }
    (PointerState { was_down: i.down, action: if ended { PointerAction::Idle } else { a } }, cmds)
}

} // verus!
