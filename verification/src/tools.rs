use vstd::prelude::*;

verus! {

/// The editor's tools.
#[derive(Clone, Copy, Debug, PartialEq, Eq, Structural)]
pub enum PhotoTool {
    Move,
    Hand,
    Marquee,
    Crop,
    Brush,
    Eraser,
    Dodge,
    Burn,
    Blur,
    Sharpen,
    Eyedropper,
}

/// The label the editor shows for a tool.
pub open spec fn tool_label(tool: PhotoTool) -> Seq<char> {
    match tool {
        PhotoTool::Move => "Перемещение"@,
        PhotoTool::Hand => "Рука / панорама"@,
        PhotoTool::Marquee => "Прямоугольное выделение"@,
        PhotoTool::Crop => "Кадрирование"@,
        PhotoTool::Brush => "Кисть"@,
        PhotoTool::Eraser => "Ластик"@,
        PhotoTool::Dodge => "Осветлитель"@,
        PhotoTool::Burn => "Затемнитель"@,
        PhotoTool::Blur => "Локальное размытие"@,
        PhotoTool::Sharpen => "Шакализатор"@,
        PhotoTool::Eyedropper => "Пипетка"@,
    }
}

impl PhotoTool {
    /// The tool's label (see `tool_label`).
    pub fn label(self) -> (r: &'static str)
        ensures
            r@ == tool_label(self),
    {
        match self {
            PhotoTool::Move => "Перемещение",
            PhotoTool::Hand => "Рука / панорама",
            PhotoTool::Marquee => "Прямоугольное выделение",
            PhotoTool::Crop => "Кадрирование",
            PhotoTool::Brush => "Кисть",
            PhotoTool::Eraser => "Ластик",
            PhotoTool::Dodge => "Осветлитель",
            PhotoTool::Burn => "Затемнитель",
            PhotoTool::Blur => "Локальное размытие",
            PhotoTool::Sharpen => "Шакализатор",
            PhotoTool::Eyedropper => "Пипетка",
        }
    }
}

/// The tool paints on pixels: brush, eraser, dodge, burn, blur or sharpen.
pub fn is_paint_tool(tool: PhotoTool) -> (r: bool)
    ensures
        r <==> (tool == PhotoTool::Brush || tool == PhotoTool::Eraser || tool == PhotoTool::Dodge || tool
            == PhotoTool::Burn || tool == PhotoTool::Blur || tool == PhotoTool::Sharpen),
{
    match tool {
        PhotoTool::Brush | PhotoTool::Eraser | PhotoTool::Dodge | PhotoTool::Burn | PhotoTool::Blur | PhotoTool::Sharpen => true,
        _ => false,
    }
}

/// The tonal range the dodge and burn tools work on.
#[derive(Clone, Copy, Debug, PartialEq, Eq, Structural)]
pub enum RetouchToneRange {
    Shadows,
    Midtones,
    Highlights,
}

/// The label the editor shows for a tonal range.
pub open spec fn tone_label(range: RetouchToneRange) -> Seq<char> {
    match range {
        RetouchToneRange::Shadows => "Тени"@,
        RetouchToneRange::Midtones => "Средние тона"@,
        RetouchToneRange::Highlights => "Света"@,
    }
}

impl RetouchToneRange {
    /// The range's label (see `tone_label`).
    pub fn label(self) -> (r: &'static str)
        ensures
            r@ == tone_label(self),
    {
        match self {
            RetouchToneRange::Shadows => "Тени",
            RetouchToneRange::Midtones => "Средние тона",
            RetouchToneRange::Highlights => "Света",
        }
    }
}

} // verus!
