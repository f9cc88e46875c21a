use vstd::prelude::*;
use crate::masks::Mask;
use crate::pixels::PixelBuffer;

verus! {

/// A colour channel, or a group of them.
#[derive(Clone, Copy, Debug, PartialEq, Eq, Structural)]
pub enum Channel {
    Red,
    Green,
    Blue,
    Alpha,
    Rgb,
    Rgba,
}

/// How a layer is combined with what lies below it.
#[derive(Clone, Copy, Debug, PartialEq, Eq, Structural)]
pub enum BlendMode {
    Normal,
    Dissolve,
    Darken,
    Multiply,
    ColorBurn,
    LinearBurn,
    DarkerColor,
    Lighten,
    Screen,
    ColorDodge,
    LinearDodge,
    LighterColor,
    Overlay,
    SoftLight,
    HardLight,
    VividLight,
    LinearLight,
    PinLight,
    HardMix,
    Difference,
    Exclusion,
    Subtract,
    Divide,
    Hue,
    Saturation,
    Color,
    Luminosity,
}

/// How a new selection combines with the current one.
#[derive(Clone, Copy, Debug, PartialEq, Eq, Structural)]
pub enum SelectionMode {
    Replace,
    Add,
    Subtract,
    Intersect,
}

/// Resampling filter for resizing.
#[derive(Clone, Copy, Debug, PartialEq, Eq, Structural)]
pub enum ResampleMethod {
    Nearest,
    Bilinear,
}

/// Kinds of free transform.
#[derive(Clone, Copy, Debug, PartialEq, Eq, Structural)]
pub enum TransformKind {
    Scale,
    Rotate,
    Skew,
    Distort,
    Perspective,
    Warp,
    FlipHorizontal,
    FlipVertical,
}

/// Edge or centre a layer is aligned to.
#[derive(Clone, Copy, Debug, PartialEq, Eq, Structural)]
pub enum Alignment {
    Left,
    CenterX,
    Right,
    Top,
    CenterY,
    Bottom,
}

/// Kinds of layer style.
#[derive(Clone, Copy, Debug, PartialEq, Eq, Structural)]
pub enum LayerEffectKind {
    DropShadow,
    InnerShadow,
    OuterGlow,
    InnerGlow,
    Stroke,
    ColorOverlay,
    GradientOverlay,
}

/// Bit pattern of the single-precision number 1.0.
pub const F32_ONE: u32 = 0x3f80_0000;

/// Bit pattern of the single-precision number 0.0.
pub const F32_ZERO: u32 = 0;

/// A layer style. The real-valued parameters are single-precision numbers held as their
/// IEEE-754 bit patterns; this library stores and copies them and never computes with them.
#[derive(Clone, Copy, Debug)]
pub struct LayerEffect {
    pub kind: LayerEffectKind,
    pub enabled: bool,
    pub color: [u8; 4],
    pub opacity: u32,
    pub size: u32,
    pub distance: u32,
    pub angle_degrees: u32,
}

impl Default for LayerEffect {
    /// An enabled drop shadow: colour (0, 0, 0, 180), opacity 0.7, size 12, distance 8, angle 135.
    fn default() -> (r: Self)
        ensures
            r.kind == LayerEffectKind::DropShadow,
            r.enabled,
            r.color@ == seq![0u8, 0u8, 0u8, 180u8],
            r.opacity == 0x3f33_3333,
            r.size == 0x4140_0000,
            r.distance == 0x4100_0000,
            r.angle_degrees == 0x4307_0000,
    {
        let r = LayerEffect {
            kind: LayerEffectKind::DropShadow,
            enabled: true,
            color: [0, 0, 0, 180],
            opacity: 0x3f33_3333,
            size: 0x4140_0000,
            distance: 0x4100_0000,
            angle_degrees: 0x4307_0000,
        };
        assert(r.color@ =~= seq![0u8, 0u8, 0u8, 180u8]);
        r
    }
}

/// What a layer holds. `TextPlaceholder::size` is a single-precision bit pattern.
#[derive(Clone, Debug)]
pub enum LayerKind {
    Raster(PixelBuffer),
    TextPlaceholder { text: String, size: u32, color: [u8; 4] },
    ShapeRect { width: u32, height: u32, fill: [u8; 4], stroke: [u8; 4], stroke_width: u32 },
    ShapeEllipse { width: u32, height: u32, fill: [u8; 4], stroke: [u8; 4], stroke_width: u32 },
}

/// A mask as plain values: width, height, cells.
pub type MaskView = (u32, u32, Seq<u8>);

/// The contents of a layer as plain values.
pub enum KindView {
    Raster(u32, u32, Seq<u8>),
    TextPlaceholder(Seq<char>, u32, [u8; 4]),
    ShapeRect(u32, u32, [u8; 4], [u8; 4], u32),
    ShapeEllipse(u32, u32, [u8; 4], [u8; 4], u32),
}

/// A layer as plain values.
pub struct LayerView {
    pub id: Seq<char>,
    pub name: Seq<char>,
    pub visible: bool,
    pub locked: bool,
    pub opacity: u32,
    pub blend_mode: BlendMode,
    pub x: u32,
    pub y: u32,
    pub scale_x: u32,
    pub scale_y: u32,
    pub rotation_degrees: u32,
    pub skew_x: u32,
    pub skew_y: u32,
    pub mask: Option<MaskView>,
    pub clip_to_below: bool,
    pub effects: Seq<LayerEffect>,
    pub kind: KindView,
}

pub open spec fn mask_view(m: Mask) -> MaskView {
    (m.width, m.height, m.data@)
}

pub open spec fn opt_mask_view(m: Option<Mask>) -> Option<MaskView> {
    match m {
        Some(m) => Some(mask_view(m)),
        None => None,
    }
}

/// A copy of an optional mask.
pub fn duplicate_mask(m: &Option<Mask>) -> (r: Option<Mask>)
    ensures
        opt_mask_view(r) == opt_mask_view(*m),
        r matches Some(q) ==> q.wf() == m->0.wf(),
{
    match m {
        Some(m) => Some(m.duplicate()),
        None => None,
    }
}

impl LayerKind {
    pub open spec fn view(&self) -> KindView {
        match self {
            LayerKind::Raster(p) => KindView::Raster(p.width, p.height, p.data@),
            LayerKind::TextPlaceholder { text, size, color } => KindView::TextPlaceholder(text@, *size, *color),
            LayerKind::ShapeRect { width, height, fill, stroke, stroke_width } => KindView::ShapeRect(
                *width,
                *height,
                *fill,
                *stroke,
                *stroke_width,
            ),
            LayerKind::ShapeEllipse { width, height, fill, stroke, stroke_width } => KindView::ShapeEllipse(
                *width,
                *height,
                *fill,
                *stroke,
                *stroke_width,
            ),
        }
    }

    pub open spec fn wf(&self) -> bool {
        self matches LayerKind::Raster(p) ==> p.wf()
    }

    pub fn duplicate(&self) -> (r: LayerKind)
        ensures
            r.view() == self.view(),
            r.wf() == self.wf(),
    {
        match self {
            LayerKind::Raster(p) => LayerKind::Raster(p.duplicate()),
            LayerKind::TextPlaceholder { text, size, color } => LayerKind::TextPlaceholder {
                text: text.clone(),
                size: *size,
                color: *color,
            },
            LayerKind::ShapeRect { width, height, fill, stroke, stroke_width } => LayerKind::ShapeRect {
                width: *width,
                height: *height,
                fill: *fill,
                stroke: *stroke,
                stroke_width: *stroke_width,
            },
            LayerKind::ShapeEllipse { width, height, fill, stroke, stroke_width } => LayerKind::ShapeEllipse {
                width: *width,
                height: *height,
                fill: *fill,
                stroke: *stroke,
                stroke_width: *stroke_width,
            },
        }
    }
}

/// A layer of the document. The placement values (`opacity`, `x`, `y`, `scale_x`,
/// `scale_y`, `rotation_degrees`, `skew_x`, `skew_y`) are single-precision numbers held as
/// their IEEE-754 bit patterns; this library stores and copies them, and the renderer
/// outside it interprets them.
#[derive(Clone, Debug)]
pub struct Layer {
    pub id: String,
    pub name: String,
    pub visible: bool,
    pub locked: bool,
    pub opacity: u32,
    pub blend_mode: BlendMode,
    pub x: u32,
    pub y: u32,
    pub scale_x: u32,
    pub scale_y: u32,
    pub rotation_degrees: u32,
    pub skew_x: u32,
    pub skew_y: u32,
    pub mask: Option<Mask>,
    pub clip_to_below: bool,
    pub effects: Vec<LayerEffect>,
    pub kind: LayerKind,
}

impl View for Layer {
    type V = LayerView;

    open spec fn view(&self) -> LayerView {
        LayerView {
            id: self.id@,
            name: self.name@,
            visible: self.visible,
            locked: self.locked,
            opacity: self.opacity,
            blend_mode: self.blend_mode,
            x: self.x,
            y: self.y,
            scale_x: self.scale_x,
            scale_y: self.scale_y,
            rotation_degrees: self.rotation_degrees,
            skew_x: self.skew_x,
            skew_y: self.skew_y,
            mask: opt_mask_view(self.mask),
            clip_to_below: self.clip_to_below,
            effects: self.effects@,
            kind: self.kind.view(),
        }
    }
}

/// A fresh layer as the document creates it: visible, unlocked, fully opaque, normal
/// blending, at the origin, unscaled, unrotated, unskewed, unmasked, without styles.
pub open spec fn fresh_layer(id: Seq<char>, name: Seq<char>, kind: KindView, x: u32, y: u32) -> LayerView {
    LayerView {
        id,
        name,
        visible: true,
        locked: false,
        opacity: F32_ONE,
        blend_mode: BlendMode::Normal,
        x,
        y,
        scale_x: F32_ONE,
        scale_y: F32_ONE,
        rotation_degrees: F32_ZERO,
        skew_x: F32_ZERO,
        skew_y: F32_ZERO,
        mask: None,
        clip_to_below: false,
        effects: Seq::empty(),
        kind,
    }
}

impl Layer {
    /// Pixel buffers and the mask are well formed.
    pub open spec fn wf(&self) -> bool {
        &&& self.kind.wf()
        &&& self.mask matches Some(m) ==> m.wf()
    }

    /// A fresh raster layer holding `image`.
    pub fn raster(id: String, name: String, image: PixelBuffer) -> (r: Self)
        ensures
            r@ == fresh_layer(id@, name@, KindView::Raster(image.width, image.height, image.data@), F32_ZERO, F32_ZERO),
            r.wf() == image.wf(),
    {
        let r = Layer {
            id,
            name,
            visible: true,
            locked: false,
            opacity: F32_ONE,
            blend_mode: BlendMode::Normal,
            x: F32_ZERO,
            y: F32_ZERO,
            scale_x: F32_ONE,
            scale_y: F32_ONE,
            rotation_degrees: F32_ZERO,
            skew_x: F32_ZERO,
            skew_y: F32_ZERO,
            mask: None,
            clip_to_below: false,
            effects: Vec::new(),
            kind: LayerKind::Raster(image),
        };
        assert(r@.effects =~= Seq::<LayerEffect>::empty());
        r
    }

    /// An exact copy.
    pub fn duplicate(&self) -> (r: Layer)
        ensures
            r@ == self@,
            r.wf() == self.wf(),
    {
        let effects = self.effects.clone();
        assert(effects@ =~= self.effects@);
        Layer {
            id: self.id.clone(),
            name: self.name.clone(),
            visible: self.visible,
            locked: self.locked,
            opacity: self.opacity,
            blend_mode: self.blend_mode,
            x: self.x,
            y: self.y,
            scale_x: self.scale_x,
            scale_y: self.scale_y,
            rotation_degrees: self.rotation_degrees,
            skew_x: self.skew_x,
            skew_y: self.skew_y,
            mask: duplicate_mask(&self.mask),
            clip_to_below: self.clip_to_below,
            effects,
            kind: self.kind.duplicate(),
        }
    }
}

} // verus!
