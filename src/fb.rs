use vstd::prelude::*;

use crate::fb_sys;

verus! {

/// The layout of a text framebuffer.
#[derive(Debug, Clone, Copy, PartialEq, Eq, Structural)]
pub enum TextType {
    MDA,
    CGA,
    S3MMIO,
    MGAStep16,
    MGAStep8,
    SVGAStep2,
    SVGAStep4,
    SVGAStep8,
    SVGAStep16,
}

/// The text layout that `value` names, or `value` itself where it names none.
pub open spec fn text_type_of(value: u32) -> Result<TextType, u32> {
    if value == fb_sys::FB_AUX_TEXT_MDA {
        Ok(TextType::MDA)
    } else if value == fb_sys::FB_AUX_TEXT_CGA {
        Ok(TextType::CGA)
    } else if value == fb_sys::FB_AUX_TEXT_S3_MMIO {
        Ok(TextType::S3MMIO)
    } else if value == fb_sys::FB_AUX_TEXT_MGA_STEP16 {
        Ok(TextType::MGAStep16)
    } else if value == fb_sys::FB_AUX_TEXT_MGA_STEP8 {
        Ok(TextType::MGAStep8)
    } else if value == fb_sys::FB_AUX_TEXT_SVGA_STEP2 {
        Ok(TextType::SVGAStep2)
    } else if value == fb_sys::FB_AUX_TEXT_SVGA_STEP4 {
        Ok(TextType::SVGAStep4)
    } else if value == fb_sys::FB_AUX_TEXT_SVGA_STEP8 {
        Ok(TextType::SVGAStep8)
    } else if value == fb_sys::FB_AUX_TEXT_SVGA_STEP16 {
        Ok(TextType::SVGAStep16)
    } else {
        Err(value)
    }
}

impl TryFrom<u32> for TextType {
    type Error = u32;

    fn try_from(value: u32) -> (r: Result<TextType, u32>)
        ensures
            r == text_type_of(value),
    {
        if value == fb_sys::FB_AUX_TEXT_MDA {
            Ok(TextType::MDA)
        } else if value == fb_sys::FB_AUX_TEXT_CGA {
            Ok(TextType::CGA)
        } else if value == fb_sys::FB_AUX_TEXT_S3_MMIO {
            Ok(TextType::S3MMIO)
        } else if value == fb_sys::FB_AUX_TEXT_MGA_STEP16 {
            Ok(TextType::MGAStep16)
        } else if value == fb_sys::FB_AUX_TEXT_MGA_STEP8 {
            Ok(TextType::MGAStep8)
        } else if value == fb_sys::FB_AUX_TEXT_SVGA_STEP2 {
            Ok(TextType::SVGAStep2)
        } else if value == fb_sys::FB_AUX_TEXT_SVGA_STEP4 {
            Ok(TextType::SVGAStep4)
        } else if value == fb_sys::FB_AUX_TEXT_SVGA_STEP8 {
            Ok(TextType::SVGAStep8)
        } else if value == fb_sys::FB_AUX_TEXT_SVGA_STEP16 {
            Ok(TextType::SVGAStep16)
        } else {
            Err(value)
        }
    }
}

impl vstd::std_specs::convert::TryFromSpecImpl<u32> for TextType {
    open spec fn obeys_try_from_spec() -> bool {
        true
    }

    open spec fn try_from_spec(v: u32) -> Result<TextType, u32> {
        text_type_of(v)
    }
}

/// The pixel layout of a VGA planes framebuffer.
#[derive(Debug, Clone, Copy, PartialEq, Eq, Structural)]
pub enum VGAPlanesType {
    VGA4,
    CFB4,
    CFB8,
}

/// The VGA planes layout that `value` names, or `value` itself where it names none.
pub open spec fn vga_planes_type_of(value: u32) -> Result<VGAPlanesType, u32> {
    if value == fb_sys::FB_AUX_VGA_PLANES_VGA4 {
        Ok(VGAPlanesType::VGA4)
    } else if value == fb_sys::FB_AUX_VGA_PLANES_CFB4 {
        Ok(VGAPlanesType::CFB4)
    } else if value == fb_sys::FB_AUX_VGA_PLANES_CFB8 {
        Ok(VGAPlanesType::CFB8)
    } else {
        Err(value)
    }
}

impl TryFrom<u32> for VGAPlanesType {
    type Error = u32;

    fn try_from(value: u32) -> (r: Result<VGAPlanesType, u32>)
        ensures
            r == vga_planes_type_of(value),
    {
        if value == fb_sys::FB_AUX_VGA_PLANES_VGA4 {
            Ok(VGAPlanesType::VGA4)
        } else if value == fb_sys::FB_AUX_VGA_PLANES_CFB4 {
            Ok(VGAPlanesType::CFB4)
        } else if value == fb_sys::FB_AUX_VGA_PLANES_CFB8 {
            Ok(VGAPlanesType::CFB8)
        } else {
            Err(value)
        }
    }
}

impl vstd::std_specs::convert::TryFromSpecImpl<u32> for VGAPlanesType {
    open spec fn obeys_try_from_spec() -> bool {
        true
    }

    open spec fn try_from_spec(v: u32) -> Result<VGAPlanesType, u32> {
        vga_planes_type_of(v)
    }
}

/// The kind of a framebuffer, with the layout detail that text and VGA planes kinds carry.
#[derive(Debug, Clone, Copy, PartialEq, Eq, Structural)]
pub enum Type {
    PackedPixels,
    Planes,
    InterleavedPlanes,
    Text(TextType),
    VGAPlanes(VGAPlanesType),
    FourCC,
}

/// The kind that the pair (type, auxiliary type) names, or the pair itself where it names none.
pub open spec fn type_of(value: (u32, u32)) -> Result<Type, (u32, u32)> {
    let (kind, aux) = value;
    if kind == fb_sys::FB_TYPE_PACKED_PIXELS {
        Ok(Type::PackedPixels)
    } else if kind == fb_sys::FB_TYPE_PLANES {
        Ok(Type::Planes)
    } else if kind == fb_sys::FB_TYPE_INTERLEAVED_PLANES {
        Ok(Type::InterleavedPlanes)
    } else if kind == fb_sys::FB_TYPE_TEXT {
        match text_type_of(aux) {
            Ok(t) => Ok(Type::Text(t)),
            Err(_) => Err(value),
        }
    } else if kind == fb_sys::FB_TYPE_VGA_PLANES {
        match vga_planes_type_of(aux) {
            Ok(t) => Ok(Type::VGAPlanes(t)),
            Err(_) => Err(value),
        }
    } else if kind == fb_sys::FB_TYPE_FOURCC {
        Ok(Type::FourCC)
    } else {
        Err(value)
    }
}

impl TryFrom<(u32, u32)> for Type {
    type Error = (u32, u32);

    fn try_from(value: (u32, u32)) -> (r: Result<Type, (u32, u32)>)
        ensures
            r == type_of(value),
    {
        let (kind, aux) = value;
        if kind == fb_sys::FB_TYPE_PACKED_PIXELS {
            Ok(Type::PackedPixels)
        } else if kind == fb_sys::FB_TYPE_PLANES {
            Ok(Type::Planes)
        } else if kind == fb_sys::FB_TYPE_INTERLEAVED_PLANES {
            Ok(Type::InterleavedPlanes)
        } else if kind == fb_sys::FB_TYPE_TEXT {
            match TextType::try_from(aux) {
                Ok(t) => Ok(Type::Text(t)),
                Err(_) => Err(value),
            }
        } else if kind == fb_sys::FB_TYPE_VGA_PLANES {
            match VGAPlanesType::try_from(aux) {
                Ok(t) => Ok(Type::VGAPlanes(t)),
                Err(_) => Err(value),
            }
        } else if kind == fb_sys::FB_TYPE_FOURCC {
            Ok(Type::FourCC)
        } else {
            Err(value)
        }
    }
}

impl vstd::std_specs::convert::TryFromSpecImpl<(u32, u32)> for Type {
    open spec fn obeys_try_from_spec() -> bool {
        true
    }

    open spec fn try_from_spec(v: (u32, u32)) -> Result<Type, (u32, u32)> {
        type_of(v)
    }
}

/// How pixel values map to colours.
#[derive(Debug, Clone, Copy, PartialEq, Eq, Structural)]
pub enum Visual {
    Mono01,
    Mono10,
    TrueColor,
    PseudoColor,
    DirectColor,
    StaticPseudoColor,
    FourCC,
}

/// The visual that `value` names, or `value` itself where it names none.
pub open spec fn visual_of(value: u32) -> Result<Visual, u32> {
    if value == fb_sys::FB_VISUAL_MONO01 {
        Ok(Visual::Mono01)
    } else if value == fb_sys::FB_VISUAL_MONO10 {
        Ok(Visual::Mono10)
    } else if value == fb_sys::FB_VISUAL_TRUECOLOR {
        Ok(Visual::TrueColor)
    } else if value == fb_sys::FB_VISUAL_PSEUDOCOLOR {
        Ok(Visual::PseudoColor)
    } else if value == fb_sys::FB_VISUAL_DIRECTCOLOR {
        Ok(Visual::DirectColor)
    } else if value == fb_sys::FB_VISUAL_STATIC_PSEUDOCOLOR {
        Ok(Visual::StaticPseudoColor)
    } else if value == fb_sys::FB_VISUAL_FOURCC {
        Ok(Visual::FourCC)
    } else {
        Err(value)
    }
}

impl TryFrom<u32> for Visual {
    type Error = u32;

    fn try_from(value: u32) -> (r: Result<Visual, u32>)
        ensures
            r == visual_of(value),
    {
        if value == fb_sys::FB_VISUAL_MONO01 {
            Ok(Visual::Mono01)
        } else if value == fb_sys::FB_VISUAL_MONO10 {
            Ok(Visual::Mono10)
        } else if value == fb_sys::FB_VISUAL_TRUECOLOR {
            Ok(Visual::TrueColor)
        } else if value == fb_sys::FB_VISUAL_PSEUDOCOLOR {
            Ok(Visual::PseudoColor)
        } else if value == fb_sys::FB_VISUAL_DIRECTCOLOR {
            Ok(Visual::DirectColor)
        } else if value == fb_sys::FB_VISUAL_STATIC_PSEUDOCOLOR {
            Ok(Visual::StaticPseudoColor)
        } else if value == fb_sys::FB_VISUAL_FOURCC {
            Ok(Visual::FourCC)
        } else {
            Err(value)
        }
    }
}

impl vstd::std_specs::convert::TryFromSpecImpl<u32> for Visual {
    open spec fn obeys_try_from_spec() -> bool {
        true
    }

    open spec fn try_from_spec(v: u32) -> Result<Visual, u32> {
        visual_of(v)
    }
}

/// The fixed screen information that the framebuffer device reports.
#[derive(Debug, Clone, Copy)]
pub struct FixedScreenInfo {
    pub id: [u8; 16],
    pub smem_start: u64,
    pub smem_len: u32,
    pub type_: u32,
    pub type_aux: u32,
    pub visual: u32,
    pub xpanstep: u16,
    pub ypanstep: u16,
    pub ywrapstep: u16,
    pub line_length: u32,
    pub mmio_start: u64,
    pub mmio_len: u32,
    pub accel: u32,
    pub capabilities: u16,
    pub reserved: [u16; 2],
}

impl FixedScreenInfo {
    /// The kind of framebuffer, or the raw pair where it names none.
    pub fn type_(&self) -> (r: Result<Type, (u32, u32)>)
        ensures
            r == type_of((self.type_, self.type_aux)),
    {
        Type::try_from((self.type_, self.type_aux))
    }

    /// The visual, or the raw value where it names none.
    pub fn visual(&self) -> (r: Result<Visual, u32>)
        ensures
            r == visual_of(self.visual),
    {
        Visual::try_from(self.visual)
    }

    /// The horizontal and vertical panning steps, where the device pans in both directions.
    pub fn pan_step(&self) -> (r: Option<(u16, u16)>)
        ensures
            r == (if self.xpanstep != 0 && self.ypanstep != 0 {
                Some((self.xpanstep, self.ypanstep))
            } else {
                None
            }),
    {
        if self.xpanstep != 0 && self.ypanstep != 0 {
            Some((self.xpanstep, self.ypanstep))
        } else {
            None
        }
    }

    /// The vertical wrapping step, where the device wraps.
    pub fn ywrap_step(&self) -> (r: Option<u16>)
        ensures
            r == (if self.ywrapstep != 0 {
                Some(self.ywrapstep)
            } else {
                None
            }),
    {
        if self.ywrapstep != 0 {
            Some(self.ywrapstep)
        } else {
            None
        }
    }
}

/// Where one colour channel sits in a pixel.
#[derive(Debug, Clone, Copy, PartialEq, Eq, Structural)]
pub struct Bitfield {
    pub offset: u32,
    pub length: u32,
    pub msb_right: u32,
}

impl Bitfield {
    /// Whether the most significant bit of the channel is on the right.
    pub fn msb_right(&self) -> (r: bool)
        ensures
            r == (self.msb_right != 0),
    {
        self.msb_right != 0
    }
}

/// The variable screen information that the framebuffer device reports and accepts.
#[derive(Debug, Clone, Copy)]
pub struct VariableScreenInfo {
    pub xres: u32,
    pub yres: u32,
    pub xres_virtual: u32,
    pub yres_virtual: u32,
    pub xoffset: u32,
    pub yoffset: u32,
    pub bits_per_pixel: u32,
    pub grayscale: u32,
    pub red: Bitfield,
    pub green: Bitfield,
    pub blue: Bitfield,
    pub transp: Bitfield,
    pub nonstd: u32,
    pub activate: u32,
    pub height: u32,
    pub width: u32,
    pub accel_flags: u32,
    pub pixclock: u32,
    pub left_margin: u32,
    pub right_margin: u32,
    pub upper_margin: u32,
    pub lower_margin: u32,
    pub hsync_len: u32,
    pub vsync_len: u32,
    pub sync: u32,
    pub vmode: u32,
    pub rotate: u32,
    pub colorspace: u32,
    pub reserved: [u32; 4],
}

/// How far the screen is blanked.
#[derive(Debug, Clone, Copy, PartialEq, Eq, Structural)]
pub enum BlankMode {
    /// Screen: unblanked, hsync: on, vsync: on
    Unblank,
    /// Screen: blanked, hsync: on, vsync: on
    Normal,
    /// Screen: blanked, hsync: on, vsync: off
    VSyncSuspend,
    /// Screen: blanked, hsync: off, vsync: on
    HSyncSuspend,
    /// Screen: blanked, hsync: off, vsync: off
    Powerdown,
}

/// The argument of the blanking request for `mode`.
pub open spec fn blank_value(mode: BlankMode) -> i32 {
    match mode {
        BlankMode::Unblank => fb_sys::VESA_NO_BLANKING,
        BlankMode::Normal => (fb_sys::VESA_NO_BLANKING + 1) as i32,
        BlankMode::VSyncSuspend => (fb_sys::VESA_VSYNC_SUSPEND + 1) as i32,
        BlankMode::HSyncSuspend => (fb_sys::VESA_HSYNC_SUSPEND + 1) as i32,
        BlankMode::Powerdown => (fb_sys::VESA_POWERDOWN + 1) as i32,
    }
}

impl BlankMode {
    /// The argument that the blanking request takes for this mode.
    pub fn value(self) -> (r: i32)
        ensures
            r == blank_value(self),
    {
        match self {
            BlankMode::Unblank => fb_sys::VESA_NO_BLANKING,
            BlankMode::Normal => fb_sys::VESA_NO_BLANKING + 1,
            BlankMode::VSyncSuspend => fb_sys::VESA_VSYNC_SUSPEND + 1,
            BlankMode::HSyncSuspend => fb_sys::VESA_HSYNC_SUSPEND + 1,
            BlankMode::Powerdown => {
                assert(1i32 | 2i32 == 3i32) by (bit_vector);
                fb_sys::VESA_POWERDOWN + 1
            },
        }
    }
}

/// The request that shows the back buffer.
#[derive(Debug, Clone, Copy, PartialEq, Eq, Structural)]
pub enum FlipRequest {
    /// No buffer has been shown yet: set the whole variable screen information.
    SetVariableScreenInfo,
    /// Pan the display to the back buffer.
    PanDisplay,
}

/// The remainder of `x` divided by `d > 0` as Rust's `%` computes it: it takes the sign of `x`.
pub open spec fn truncated_rem(x: int, d: int) -> int {
    if x >= 0 {
        x % d
    } else {
        -((-x) % d)
    }
}

/// Decides a page flip between two buffers, numbered 0 and 1, where a front index of -1 means
/// that nothing has been shown yet. Returns the request to make and, once it succeeds, the new
/// front and back indices: the back buffer comes to the front, and the next index modulo 2
/// becomes the back.
pub fn page_flip_step(front_buffer_index: i32, back_buffer_index: i32) -> (r: (FlipRequest, i32, i32))
    requires
        back_buffer_index < i32::MAX,
    ensures
        r.0 == (if front_buffer_index == -1 {
            FlipRequest::SetVariableScreenInfo
        } else {
            FlipRequest::PanDisplay
        }),
        r.1 == back_buffer_index,
        r.2 == truncated_rem(back_buffer_index + 1, 2),
{
    let request = if front_buffer_index == -1 {
        FlipRequest::SetVariableScreenInfo
    } else {
        FlipRequest::PanDisplay
    };
    (request, back_buffer_index, (back_buffer_index + 1) % 2)
}

} // verus!
