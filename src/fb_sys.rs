use vstd::prelude::*;

verus! {

// Values of `type` in the fixed screen information.
pub const FB_TYPE_PACKED_PIXELS: u32 = 0;
pub const FB_TYPE_PLANES: u32 = 1;
pub const FB_TYPE_INTERLEAVED_PLANES: u32 = 2;
pub const FB_TYPE_TEXT: u32 = 3;
pub const FB_TYPE_VGA_PLANES: u32 = 4;
pub const FB_TYPE_FOURCC: u32 = 5;

// Values of `type_aux` for text framebuffers.
pub const FB_AUX_TEXT_MDA: u32 = 0;
pub const FB_AUX_TEXT_CGA: u32 = 1;
pub const FB_AUX_TEXT_S3_MMIO: u32 = 2;
pub const FB_AUX_TEXT_MGA_STEP16: u32 = 3;
pub const FB_AUX_TEXT_MGA_STEP8: u32 = 4;
pub const FB_AUX_TEXT_SVGA_STEP2: u32 = 8;
pub const FB_AUX_TEXT_SVGA_STEP4: u32 = 9;
pub const FB_AUX_TEXT_SVGA_STEP8: u32 = 10;
pub const FB_AUX_TEXT_SVGA_STEP16: u32 = 11;

// Values of `type_aux` for VGA planes framebuffers.
pub const FB_AUX_VGA_PLANES_VGA4: u32 = 0;
pub const FB_AUX_VGA_PLANES_CFB4: u32 = 1;
pub const FB_AUX_VGA_PLANES_CFB8: u32 = 2;

// Values of `visual` in the fixed screen information.
pub const FB_VISUAL_MONO01: u32 = 0;
pub const FB_VISUAL_MONO10: u32 = 1;
pub const FB_VISUAL_TRUECOLOR: u32 = 2;
pub const FB_VISUAL_PSEUDOCOLOR: u32 = 3;
pub const FB_VISUAL_DIRECTCOLOR: u32 = 4;
pub const FB_VISUAL_STATIC_PSEUDOCOLOR: u32 = 5;
pub const FB_VISUAL_FOURCC: u32 = 6;

// VESA blanking levels.
pub const VESA_NO_BLANKING: i32 = 0;
pub const VESA_VSYNC_SUSPEND: i32 = 1;
pub const VESA_HSYNC_SUSPEND: i32 = 2;
pub const VESA_POWERDOWN: i32 = VESA_VSYNC_SUSPEND | VESA_HSYNC_SUSPEND;

// Framebuffer ioctl request numbers.
pub const FBIOGET_VSCREENINFO: u16 = 0x4600;
pub const FBIOPUT_VSCREENINFO: u16 = 0x4601;
pub const FBIOGET_FSCREENINFO: u16 = 0x4602;
pub const FBIOPAN_DISPLAY: u16 = 0x4606;
pub const FBIOBLANK: u16 = 0x4611;

} // verus!
