use vstd::prelude::*;
use crate::tools::{PhotoTool, is_paint_tool};

verus! {

/// The keys the editor reacts to.
#[derive(Clone, Copy, Debug, PartialEq, Eq, Structural)]
pub enum ShortcutKey {
    A,
    B,
    C,
    D,
    E,
    G,
    H,
    I,
    J,
    M,
    O,
    T,
    U,
    V,
    X,
    Z,
    Enter,
    Escape,
    Delete,
    Backspace,
    ArrowUp,
    ArrowDown,
    ArrowLeft,
    ArrowRight,
}

/// The keyboard input of one frame: modifiers (`command` stands for command or control),
/// the keys pressed, and the one-character text events in the order they came.
pub struct ShortcutInput {
    pub command: bool,
    pub shift: bool,
    pub alt: bool,
    pub keys: Vec<ShortcutKey>,
    pub text: Vec<char>,
}

/// What one frame of keyboard input asks the editor to do, in the order the editor does
/// it: first switch to `tool`, then undo or redo (and nothing else), then the remaining
/// actions from top to bottom. Brush size changes by a factor 1.1 per step, hardness by
/// 0.1 per step, opacity becomes the given number of tenths; the nudge is in pixels.
#[derive(Clone, Copy, Debug)]
pub struct ShortcutPlan {
    pub tool: Option<PhotoTool>,
    pub undo: bool,
    pub redo: bool,
    pub copy_layer: bool,
    pub cut_layer: bool,
    pub paste_layer: bool,
    pub select_all: bool,
    pub invert_image: bool,
    pub desaturate_image: bool,
    pub gradient_fill: bool,
    pub merge_down: bool,
    pub flatten_visible: bool,
    pub reset_brush_colors: bool,
    pub brush_opacity_tenths: Option<u8>,
    pub brush_size_steps: i64,
    pub brush_hardness_steps: i64,
    pub deselect: bool,
    pub apply_crop: bool,
    pub delete_layer: bool,
    pub duplicate_layer: bool,
    pub reset_transform: bool,
    pub new_text: bool,
    pub new_image: bool,
    pub scale_up: bool,
    pub scale_down: bool,
    pub rotate_left: bool,
    pub rotate_right: bool,
    pub nudge_x: i32,
    pub nudge_y: i32,
}

/// The tool a frame switches to: without `command`, the last of V (move), H (hand),
/// M (marquee), C (crop), B (brush), E (eraser), I (eyedropper) and O pressed wins; O
/// chooses dodge, or with shift toggles between dodge and burn (burn from any other tool).
pub open spec fn chosen_tool(command: bool, shift: bool, keys: Seq<ShortcutKey>, active: PhotoTool) -> Option<PhotoTool> {
    if command {
        None
    } else if keys.contains(ShortcutKey::O) {
        Some(
            if !shift {
                PhotoTool::Dodge
            } else if active == PhotoTool::Dodge {
                PhotoTool::Burn
            } else if active == PhotoTool::Burn {
                PhotoTool::Dodge
            } else {
                PhotoTool::Burn
            },
        )
    } else if keys.contains(ShortcutKey::I) {
        Some(PhotoTool::Eyedropper)
    } else if keys.contains(ShortcutKey::E) {
        Some(PhotoTool::Eraser)
    } else if keys.contains(ShortcutKey::B) {
        Some(PhotoTool::Brush)
    } else if keys.contains(ShortcutKey::C) {
        Some(PhotoTool::Crop)
    } else if keys.contains(ShortcutKey::M) {
        Some(PhotoTool::Marquee)
    } else if keys.contains(ShortcutKey::H) {
        Some(PhotoTool::Hand)
    } else if keys.contains(ShortcutKey::V) {
        Some(PhotoTool::Move)
    } else {
        None
    }
}

/// Number of occurrences of `c` in `s`.
pub open spec fn count_char(s: Seq<char>, c: char) -> int
    decreases s.len(),
{
    if s.len() == 0 {
        0
    } else {
        count_char(s.drop_last(), c) + if s.last() == c { 1int } else { 0int }
    }
}

/// Brush opacity, in tenths, that a digit sets: `1` to `9` that many tenths, `0` full.
pub open spec fn digit_tenths(c: char) -> Option<u8> {
    if '1' <= c <= '9' {
        Some((c as u32 - '0' as u32) as u8)
    } else if c == '0' {
        Some(10u8)
    } else {
        None
    }
}

/// The opacity set by the last digit of `s`, if any.
pub open spec fn last_digit_tenths(s: Seq<char>) -> Option<u8>
    decreases s.len(),
{
    if s.len() == 0 {
        None
    } else if digit_tenths(s.last()) is Some {
        digit_tenths(s.last())
    } else {
        last_digit_tenths(s.drop_last())
    }
}

/// The plan for a frame of input while `active` is the current tool.
pub open spec fn shortcut_plan(
    command: bool,
    shift: bool,
    alt: bool,
    keys: Seq<ShortcutKey>,
    text: Seq<char>,
    active: PhotoTool,
) -> ShortcutPlan {
    let k = |key: ShortcutKey| keys.contains(key);
    let undo = command && !shift && k(ShortcutKey::Z);
    let redo = command && shift && k(ShortcutKey::Z);
    let go = !undo && !redo;
    let tool = chosen_tool(command, shift, keys, active);
    let current = match tool {
        Some(t) => t,
        None => active,
    };
    let paint = active == PhotoTool::Brush || active == PhotoTool::Eraser || active == PhotoTool::Dodge || active
        == PhotoTool::Burn || active == PhotoTool::Blur || active == PhotoTool::Sharpen;
    let steps = count_char(text, ']') - count_char(text, '[');
    let scale_up = go && command && k(ShortcutKey::ArrowUp);
    let scale_down = go && command && k(ShortcutKey::ArrowDown);
    let rotate_left = go && command && k(ShortcutKey::ArrowLeft);
    let rotate_right = go && command && k(ShortcutKey::ArrowRight);
    let dx = (if k(ShortcutKey::ArrowRight) { 1int } else { 0int }) - (if k(ShortcutKey::ArrowLeft) { 1int } else { 0int });
    let dy = (if k(ShortcutKey::ArrowDown) { 1int } else { 0int }) - (if k(ShortcutKey::ArrowUp) { 1int } else { 0int });
    let step = if shift { 10int } else { 1int };
    let nudge = go && (dx != 0 || dy != 0) && !scale_up && !scale_down && !rotate_left && !rotate_right;
    ShortcutPlan {
        tool,
        undo,
        redo,
        copy_layer: go && command && k(ShortcutKey::C),
        cut_layer: go && command && k(ShortcutKey::X),
        paste_layer: go && command && k(ShortcutKey::V),
        select_all: go && command && k(ShortcutKey::A),
        invert_image: go && command && k(ShortcutKey::I),
        desaturate_image: go && command && shift && k(ShortcutKey::U),
        gradient_fill: go && command && alt && k(ShortcutKey::G),
        merge_down: go && command && !shift && k(ShortcutKey::E),
        flatten_visible: go && command && shift && k(ShortcutKey::E),
        reset_brush_colors: go && !command && k(ShortcutKey::D),
        brush_opacity_tenths: if go && !command && paint { last_digit_tenths(text) } else { None },
        brush_size_steps: (if go && !command && !shift { steps } else { 0 }) as i64,
        brush_hardness_steps: (if go && !command && shift { steps } else { 0 }) as i64,
        deselect: go && ((!command && k(ShortcutKey::Escape)) || (command && k(ShortcutKey::D))),
        apply_crop: go && !command && k(ShortcutKey::Enter) && current == PhotoTool::Crop,
        delete_layer: go && (k(ShortcutKey::Delete) || k(ShortcutKey::Backspace)),
        duplicate_layer: go && command && k(ShortcutKey::J),
        reset_transform: go && command && k(ShortcutKey::T),
        new_text: go && command && shift && k(ShortcutKey::T),
        new_image: go && command && alt && k(ShortcutKey::I),
        scale_up,
        scale_down,
        rotate_left,
        rotate_right,
        nudge_x: (if nudge { dx * step } else { 0 }) as i32,
        nudge_y: (if nudge { dy * step } else { 0 }) as i32,
    }
}

/// Whether `key` is among `keys`.
fn pressed(keys: &Vec<ShortcutKey>, key: ShortcutKey) -> (r: bool)
    ensures
        r == keys@.contains(key),
{
    let mut i: usize = 0;
    while i < keys.len()
        invariant
            i <= keys.len(),
            forall|j: int| 0 <= j < i ==> keys@[j] != key,
        decreases keys.len() - i,
    {
        if keys[i] == key {
            assert(keys@[i as int] == key);
            return true;
        }
        i += 1;
    }
    false
}

/// The opacity a digit character sets (see `digit_tenths`).
fn digit_value(c: char) -> (r: Option<u8>)
    ensures
        r == digit_tenths(c),
{
    if '1' <= c && c <= '9' {
        Some((c as u32 - '0' as u32) as u8)
    } else if c == '0' {
        Some(10u8)
    } else {
        None
    }
}

/// Net `]` minus `[` count of `text`, and the opacity set by its last digit.
fn scan_text(text: &Vec<char>) -> (r: (i64, Option<u8>))
    requires
        text@.len() <= i64::MAX,
    ensures
        r.0 == count_char(text@, ']') - count_char(text@, '['),
        r.1 == last_digit_tenths(text@),
{
    let mut steps: i64 = 0;
    let mut last: Option<u8> = None;
    let mut i: usize = 0;
    while i < text.len()
        invariant
            i <= text.len(),
            text@.len() <= i64::MAX,
            steps == count_char(text@.take(i as int), ']') - count_char(text@.take(i as int), '['),
            -(i as int) <= steps <= i,
            last == last_digit_tenths(text@.take(i as int)),
        decreases text.len() - i,
    {
        let c = text[i];
        proof {
            assert(text@.take(i + 1).drop_last() =~= text@.take(i as int));
            assert(text@.take(i + 1).last() == c);
        }
        if c == ']' {
            steps = steps + 1;
        } else if c == '[' {
            steps = steps - 1;
        }
        let d = digit_value(c);
        if d.is_some() {
            last = d;
        }
        i += 1;
    }
    proof {
        assert(text@.take(text@.len() as int) =~= text@);
    }
    (steps, last)
}

/// What a frame of keyboard input asks for while `active` is the current tool (see
/// `shortcut_plan`).
pub fn plan_shortcuts(input: &ShortcutInput, active: PhotoTool) -> (r: ShortcutPlan)
    requires
        input.text@.len() <= i64::MAX,
    ensures
        r == shortcut_plan(input.command, input.shift, input.alt, input.keys@, input.text@, active),
{
    let command = input.command;
    let shift = input.shift;
    let alt = input.alt;
    let keys = &input.keys;
    let z = pressed(keys, ShortcutKey::Z);
    let undo = command && !shift && z;
    let redo = command && shift && z;
    let go = !undo && !redo;
    let tool = if command {
        None
    } else if pressed(keys, ShortcutKey::O) {
        Some(
            if !shift {
                PhotoTool::Dodge
            } else {
                match active {
                    PhotoTool::Dodge => PhotoTool::Burn,
                    PhotoTool::Burn => PhotoTool::Dodge,
                    _ => PhotoTool::Burn,
                }
            },
        )
    } else if pressed(keys, ShortcutKey::I) {
        Some(PhotoTool::Eyedropper)
    } else if pressed(keys, ShortcutKey::E) {
        Some(PhotoTool::Eraser)
    } else if pressed(keys, ShortcutKey::B) {
        Some(PhotoTool::Brush)
    } else if pressed(keys, ShortcutKey::C) {
        Some(PhotoTool::Crop)
    } else if pressed(keys, ShortcutKey::M) {
        Some(PhotoTool::Marquee)
    } else if pressed(keys, ShortcutKey::H) {
        Some(PhotoTool::Hand)
    } else if pressed(keys, ShortcutKey::V) {
        Some(PhotoTool::Move)
    } else {
        None
    };
    let current = match tool {
        Some(t) => t,
        None => active,
    };
    let paint = is_paint_tool(active);
    let (steps, last_digit) = scan_text(&input.text);
    let up = pressed(keys, ShortcutKey::ArrowUp);
    let down = pressed(keys, ShortcutKey::ArrowDown);
    let left = pressed(keys, ShortcutKey::ArrowLeft);
    let right = pressed(keys, ShortcutKey::ArrowRight);
    let scale_up = go && command && up;
    let scale_down = go && command && down;
    let rotate_left = go && command && left;
    let rotate_right = go && command && right;
    let dx: i32 = (if right { 1i32 } else { 0i32 }) - (if left { 1i32 } else { 0i32 });
    let dy: i32 = (if down { 1i32 } else { 0i32 }) - (if up { 1i32 } else { 0i32 });
    let step: i32 = if shift { 10 } else { 1 };
    let nudge = go && (dx != 0 || dy != 0) && !scale_up && !scale_down && !rotate_left && !rotate_right;
    ShortcutPlan {
        tool,
        undo,
        redo,
        copy_layer: go && command && pressed(keys, ShortcutKey::C),
        cut_layer: go && command && pressed(keys, ShortcutKey::X),
        paste_layer: go && command && pressed(keys, ShortcutKey::V),
        select_all: go && command && pressed(keys, ShortcutKey::A),
        invert_image: go && command && pressed(keys, ShortcutKey::I),
        desaturate_image: go && command && shift && pressed(keys, ShortcutKey::U),
        gradient_fill: go && command && alt && pressed(keys, ShortcutKey::G),
        merge_down: go && command && !shift && pressed(keys, ShortcutKey::E),
        flatten_visible: go && command && shift && pressed(keys, ShortcutKey::E),
        reset_brush_colors: go && !command && pressed(keys, ShortcutKey::D),
        brush_opacity_tenths: if go && !command && paint { last_digit } else { None },
        brush_size_steps: if go && !command && !shift { steps } else { 0 },
        brush_hardness_steps: if go && !command && shift { steps } else { 0 },
        deselect: go && ((!command && pressed(keys, ShortcutKey::Escape)) || (command && pressed(keys, ShortcutKey::D))),
        apply_crop: go && !command && pressed(keys, ShortcutKey::Enter) && current == PhotoTool::Crop,
        delete_layer: go && (pressed(keys, ShortcutKey::Delete) || pressed(keys, ShortcutKey::Backspace)),
        duplicate_layer: go && command && pressed(keys, ShortcutKey::J),
        reset_transform: go && command && pressed(keys, ShortcutKey::T),
        new_text: go && command && shift && pressed(keys, ShortcutKey::T),
        new_image: go && command && alt && pressed(keys, ShortcutKey::I),
        scale_up,
        scale_down,
        rotate_left,
        rotate_right,
        nudge_x: if nudge { dx * step } else { 0 },
        nudge_y: if nudge { dy * step } else { 0 },
    }
}

/// The arrow keys nudge the selected layer one pixel (ten with shift) in their own
/// direction: up towards smaller `y`, down towards larger `y`, left towards smaller `x`,
/// right towards larger `x`; opposite arrows cancel. This holds without command, when no
/// scale or rotate shortcut takes the arrows.
pub proof fn lemma_arrow_nudges(shift: bool, alt: bool, keys: Seq<ShortcutKey>, text: Seq<char>, active: PhotoTool)
    ensures
        ({
            let p = shortcut_plan(false, shift, alt, keys, text, active);
            let step: int = if shift { 10 } else { 1 };
            let up = keys.contains(ShortcutKey::ArrowUp);
            let down = keys.contains(ShortcutKey::ArrowDown);
            let left = keys.contains(ShortcutKey::ArrowLeft);
            let right = keys.contains(ShortcutKey::ArrowRight);
            &&& (up && !down ==> p.nudge_y == -step)
            &&& (down && !up ==> p.nudge_y == step)
            &&& (up == down ==> p.nudge_y == 0)
            &&& (left && !right ==> p.nudge_x == -step)
            &&& (right && !left ==> p.nudge_x == step)
            &&& (left == right ==> p.nudge_x == 0)
            &&& !p.scale_up && !p.scale_down && !p.rotate_left && !p.rotate_right
        }),
{
}

/// With command held, the arrows scale (up bigger, down smaller) and rotate (left, right)
/// instead of nudging, unless the frame is an undo or redo.
pub proof fn lemma_command_arrows_transform(shift: bool, alt: bool, keys: Seq<ShortcutKey>, text: Seq<char>, active: PhotoTool)
    requires
        !keys.contains(ShortcutKey::Z),
    ensures
        ({
            let p = shortcut_plan(true, shift, alt, keys, text, active);
            &&& p.scale_up == keys.contains(ShortcutKey::ArrowUp)
            &&& p.scale_down == keys.contains(ShortcutKey::ArrowDown)
            &&& p.rotate_left == keys.contains(ShortcutKey::ArrowLeft)
            &&& p.rotate_right == keys.contains(ShortcutKey::ArrowRight)
            &&& (p.scale_up || p.scale_down || p.rotate_left || p.rotate_right ==> p.nudge_x == 0 && p.nudge_y == 0)
        }),
{
}

/// Pressing a single letter without command picks the tool it names: V move, H hand,
/// M marquee, C crop, B brush, E eraser, I eyedropper, O dodge.
pub proof fn lemma_tool_letters(k: ShortcutKey, text: Seq<char>, active: PhotoTool)
    ensures
        ({
            let p = shortcut_plan(false, false, false, seq![k], text, active);
            &&& (k == ShortcutKey::V ==> p.tool == Some(PhotoTool::Move))
            &&& (k == ShortcutKey::H ==> p.tool == Some(PhotoTool::Hand))
            &&& (k == ShortcutKey::M ==> p.tool == Some(PhotoTool::Marquee))
            &&& (k == ShortcutKey::C ==> p.tool == Some(PhotoTool::Crop))
            &&& (k == ShortcutKey::B ==> p.tool == Some(PhotoTool::Brush))
            &&& (k == ShortcutKey::E ==> p.tool == Some(PhotoTool::Eraser))
            &&& (k == ShortcutKey::I ==> p.tool == Some(PhotoTool::Eyedropper))
            &&& (k == ShortcutKey::O ==> p.tool == Some(PhotoTool::Dodge))
        }),
{
    let keys = seq![k];
    assert(keys[0] == k);
    assert forall|q: ShortcutKey| keys.contains(q) <==> q == k by {
        if keys.contains(q) {
            let j = choose|j: int| 0 <= j < keys.len() && keys[j] == q;
        }
    }
}

/// Pressing a single letter with command runs the edit it names: Z undo (with shift redo),
/// C copy, X cut, V paste, A select all, J duplicate, D deselect; and no tool changes.
pub proof fn lemma_command_letters(k: ShortcutKey, shift: bool, text: Seq<char>, active: PhotoTool)
    ensures
        ({
            let p = shortcut_plan(true, shift, false, seq![k], text, active);
            &&& p.tool is None
            &&& p.undo == (k == ShortcutKey::Z && !shift)
            &&& p.redo == (k == ShortcutKey::Z && shift)
            &&& p.copy_layer == (k == ShortcutKey::C)
            &&& p.cut_layer == (k == ShortcutKey::X)
            &&& p.paste_layer == (k == ShortcutKey::V)
            &&& p.select_all == (k == ShortcutKey::A)
            &&& p.duplicate_layer == (k == ShortcutKey::J)
            &&& p.deselect == (k == ShortcutKey::D)
        }),
{
    let keys = seq![k];
    assert(keys[0] == k);
    assert forall|q: ShortcutKey| keys.contains(q) <==> q == k by {
        if keys.contains(q) {
            let j = choose|j: int| 0 <= j < keys.len() && keys[j] == q;
        }
    }
}

} // verus!
