//! The values of the H.264 syntax structures that the encoder fills in.

use vstd::prelude::*;
use std::rc::Rc;
use crate::Resolution;

verus! {

/// Side length of a macroblock in luma samples.
pub const MACROBLOCK_SIZE: u32 = 16;

/// H.264 profiles.
#[derive(Clone, Copy, Debug, PartialEq, Eq, Structural)]
pub enum Profile {
    Baseline,
    Main,
    Extended,
    High,
    High10,
    High422P,
}

impl Profile {
    /// The value of `profile_idc` that stands for the profile.
    pub open spec fn spec_idc(self) -> u8 {
        match self {
            Profile::Baseline => 66,
            Profile::Main => 77,
            Profile::Extended => 88,
            Profile::High => 100,
            Profile::High10 => 110,
            Profile::High422P => 122,
        }
    }

    /// The value of `profile_idc` that stands for the profile.
    #[verifier::when_used_as_spec(spec_idc)]
    pub fn idc(self) -> (r: u8)
        ensures
            r == self.spec_idc(),
    {
        match self {
            Profile::Baseline => 66,
            Profile::Main => 77,
            Profile::Extended => 88,
            Profile::High => 100,
            Profile::High10 => 110,
            Profile::High422P => 122,
        }
    }
}

/// H.264 levels.
#[allow(non_camel_case_types)]
#[derive(Clone, Copy, Debug, PartialEq, Eq, Structural)]
pub enum Level {
    L1,
    L1B,
    L1_1,
    L1_2,
    L1_3,
    L2_0,
    L2_1,
    L2_2,
    L3,
    L3_1,
    L3_2,
    L4,
    L4_1,
    L4_2,
    L5,
    L5_1,
    L5_2,
    L6,
    L6_1,
    L6_2,
}

impl Level {
    /// Ten times the level number; 9 for level 1b.
    pub open spec fn spec_idc(self) -> u8 {
        match self {
            Level::L1 => 10,
            Level::L1B => 9,
            Level::L1_1 => 11,
            Level::L1_2 => 12,
            Level::L1_3 => 13,
            Level::L2_0 => 20,
            Level::L2_1 => 21,
            Level::L2_2 => 22,
            Level::L3 => 30,
            Level::L3_1 => 31,
            Level::L3_2 => 32,
            Level::L4 => 40,
            Level::L4_1 => 41,
            Level::L4_2 => 42,
            Level::L5 => 50,
            Level::L5_1 => 51,
            Level::L5_2 => 52,
            Level::L6 => 60,
            Level::L6_1 => 61,
            Level::L6_2 => 62,
        }
    }

    /// Ten times the level number; 9 for level 1b.
    #[verifier::when_used_as_spec(spec_idc)]
    pub fn idc(self) -> (r: u8)
        ensures
            r == self.spec_idc(),
    {
        match self {
            Level::L1 => 10,
            Level::L1B => 9,
            Level::L1_1 => 11,
            Level::L1_2 => 12,
            Level::L1_3 => 13,
            Level::L2_0 => 20,
            Level::L2_1 => 21,
            Level::L2_2 => 22,
            Level::L3 => 30,
            Level::L3_1 => 31,
            Level::L3_2 => 32,
            Level::L4 => 40,
            Level::L4_1 => 41,
            Level::L4_2 => 42,
            Level::L5 => 50,
            Level::L5_1 => 51,
            Level::L5_2 => 52,
            Level::L6 => 60,
            Level::L6_1 => 61,
            Level::L6_2 => 62,
        }
    }

    /// Levels from 3 upwards infer motion vectors in direct mode on 8x8
    /// blocks.
    pub open spec fn spec_direct_8x8_inference(self) -> bool {
        self.spec_idc() >= 30
    }

    /// Whether the level infers motion vectors in direct mode on 8x8
    /// blocks.
    #[verifier::when_used_as_spec(spec_direct_8x8_inference)]
    pub fn direct_8x8_inference(self) -> (r: bool)
        ensures
            r == self.spec_direct_8x8_inference(),
    {
        self.idc() >= 30
    }
}

/// Timing information of the video usability information.
#[derive(Clone, Copy, Debug, PartialEq, Eq, Structural)]
pub struct TimingInfo {
    pub num_units_in_tick: u32,
    pub time_scale: u32,
    pub fixed_frame_rate_flag: bool,
}

/// Sample aspect ratio.
#[derive(Clone, Copy, Debug, PartialEq, Eq, Structural)]
pub struct AspectRatio {
    pub width: u16,
    pub height: u16,
}

/// Number of macroblocks that cover `pixels` luma samples in one direction.
pub open spec fn spec_macroblocks_across(pixels: u32) -> int {
    (pixels + MACROBLOCK_SIZE - 1) / (MACROBLOCK_SIZE as int)
}

/// Computes [`spec_macroblocks_across`].
pub fn macroblocks_across(pixels: u32) -> (r: u32)
    ensures
        r == spec_macroblocks_across(pixels),
{
    let whole: u32 = pixels / MACROBLOCK_SIZE;
    if pixels % MACROBLOCK_SIZE == 0 {
        whole
    } else {
        whole + 1
    }
}

/// Sequence parameter set, as far as the encoder chooses it.
#[derive(Clone, Copy, Debug, PartialEq, Eq)]
pub struct Sps {
    pub seq_parameter_set_id: u8,
    pub profile_idc: Profile,
    pub chroma_format_idc: u8,
    pub level_idc: Level,
    pub max_frame_num: u32,
    pub pic_order_cnt_type: u8,
    pub max_pic_order_cnt_lsb: u32,
    pub max_num_ref_frames: u32,
    pub frame_mbs_only_flag: bool,
    pub direct_8x8_inference_flag: bool,
    /// Size of the coded picture before cropping is rounded up to whole
    /// macroblocks.
    pub resolution: Resolution,
    pub bit_depth_luma: u8,
    pub bit_depth_chroma: u8,
    pub aspect_ratio: AspectRatio,
    pub timing_info: TimingInfo,
}

impl Sps {
    /// Width of the picture in macroblocks.
    pub open spec fn spec_pic_width_in_mbs(&self) -> int {
        spec_macroblocks_across(self.resolution.width)
    }

    /// Height of the picture in map units, which are macroblocks here.
    pub open spec fn spec_pic_height_in_map_units(&self) -> int {
        spec_macroblocks_across(self.resolution.height)
    }

    /// Macroblocks in one picture.
    pub open spec fn spec_num_macroblocks(&self) -> int {
        self.spec_pic_width_in_mbs() * self.spec_pic_height_in_map_units()
    }

    /// Width of the picture in macroblocks.
    pub fn pic_width_in_mbs(&self) -> (r: u32)
        ensures
            r == self.spec_pic_width_in_mbs(),
    {
        macroblocks_across(self.resolution.width)
    }

    /// Height of the picture in map units.
    pub fn pic_height_in_map_units(&self) -> (r: u32)
        ensures
            r == self.spec_pic_height_in_map_units(),
    {
        macroblocks_across(self.resolution.height)
    }
}

/// Picture parameter set, as far as the encoder chooses it.
#[derive(Debug, PartialEq, Eq)]
pub struct Pps {
    /// The sequence parameter set that the pictures refer to.
    pub sps: Rc<Sps>,
    pub pic_parameter_set_id: u8,
    pub pic_init_qp: u8,
    pub deblocking_filter_control_present_flag: bool,
    pub num_ref_idx_l0_default_active: u16,
    pub num_ref_idx_l1_default_active: u16,
}

/// Coding type of a slice.
#[derive(Clone, Copy, Debug, PartialEq, Eq, Structural)]
pub enum SliceType {
    P,
    B,
    I,
    Sp,
    Si,
}

/// Slice header, as far as the encoder chooses it.
#[derive(Clone, Copy, Debug, PartialEq, Eq, Structural)]
pub struct SliceHeader {
    pub pic_parameter_set_id: u8,
    pub slice_type: SliceType,
    pub first_mb_in_slice: u32,
    pub pic_order_cnt_lsb: u16,
}

} // verus!
