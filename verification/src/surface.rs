//! Surface formats and the option flags of the ACE header.

use vstd::prelude::*;

verus! {

/// Pixel encodings a raw-data surface may declare.
#[allow(non_camel_case_types)]
#[derive(Debug, Copy, Clone, PartialEq, Eq, Structural)]
pub enum AceSurfaceFormat {
    ARGB_8888,
    BGR_565,
    BGRA_5551,
    BGRA_4444,
    DXT_1,
    DXT_3,
    DXT_5,
}

impl AceSurfaceFormat {
    /// The format that a surface-format code stands for, if any.
    pub open spec fn of_code(code: int) -> Option<AceSurfaceFormat> {
        if code == 0x00 {
            Some(AceSurfaceFormat::ARGB_8888)
        } else if code == 0x0E {
            Some(AceSurfaceFormat::BGR_565)
        } else if code == 0x10 {
            Some(AceSurfaceFormat::BGRA_5551)
        } else if code == 0x11 {
            Some(AceSurfaceFormat::BGRA_4444)
        } else if code == 0x12 {
            Some(AceSurfaceFormat::DXT_1)
        } else if code == 0x14 {
            Some(AceSurfaceFormat::DXT_3)
        } else if code == 0x16 {
            Some(AceSurfaceFormat::DXT_5)
        } else {
            None
        }
    }

    /// The code under which this format is declared.
    pub open spec fn code(self) -> int {
        match self {
            AceSurfaceFormat::ARGB_8888 => 0x00,
            AceSurfaceFormat::BGR_565 => 0x0E,
            AceSurfaceFormat::BGRA_5551 => 0x10,
            AceSurfaceFormat::BGRA_4444 => 0x11,
            AceSurfaceFormat::DXT_1 => 0x12,
            AceSurfaceFormat::DXT_3 => 0x14,
            AceSurfaceFormat::DXT_5 => 0x16,
        }
    }

    /// Resolves a raw surface-format code.
    pub fn from_raw(r: i32) -> (fmt: Option<Self>)
        ensures
            fmt == Self::of_code(r as int),
    {
        match r {
            0x00 => Some(Self::ARGB_8888),
            0x0E => Some(Self::BGR_565),
            0x10 => Some(Self::BGRA_5551),
            0x11 => Some(Self::BGRA_4444),
            0x12 => Some(Self::DXT_1),
            0x14 => Some(Self::DXT_3),
            0x16 => Some(Self::DXT_5),
            _ => None,
        }
    }
}

/// Every format is found again from its own code, and a code that resolves
/// is the code of the format it resolves to.
pub proof fn lemma_surface_format_code_round_trip(format: AceSurfaceFormat, code: int)
    ensures
        AceSurfaceFormat::of_code(format.code()) == Some(format),
        AceSurfaceFormat::of_code(code) is Some ==> AceSurfaceFormat::of_code(
            code,
        ).unwrap().code() == code,
{
}

/// Bit of the option mask that announces a mip chain.
pub const OPTION_MIP_MAPS: i32 = 0x01;

/// Bit of the option mask that announces a raw-data surface.
pub const OPTION_RAW_DATA: i32 = 0x10;

/// The option mask of the header.
#[derive(Debug, Copy, Clone, PartialEq, Eq, Structural)]
pub struct AceFormatOptions {
    pub bits: i32,
}

impl AceFormatOptions {
    /// The surface carries a mip chain.
    pub open spec fn mip_maps(self) -> bool {
        self.bits & 0x01 != 0
    }

    /// The surface is stored in a declared raw format rather than as channel
    /// planes.
    pub open spec fn raw_data(self) -> bool {
        self.bits & 0x10 != 0
    }

    pub fn has_mip_maps(&self) -> (b: bool)
        ensures
            b == self.mip_maps(),
    {
        self.bits & OPTION_MIP_MAPS != 0
    }

    pub fn has_raw_data(&self) -> (b: bool)
        ensures
            b == self.raw_data(),
    {
        self.bits & OPTION_RAW_DATA != 0
    }
}

} // verus!
