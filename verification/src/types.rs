//! Shared types: VIF command codes, parsed VIF commands, texture and level headers.

use vstd::prelude::*;

verus! {

/// VIF command codes.
#[derive(Debug, Clone, Copy, PartialEq, Eq, Structural)]
pub enum VifCmd {
    Nop,
    Stcycl,
    Offset,
    Base,
    Itops,
    Stmod,
    UsrDir,
    MscalF,
    MscntF,
    Unk09,
    Unk0A,
    Unk0B,
    Unk0C,
    Unk0D,
    Unk0E,
    Unk0F,
    StMask,
    StRow,
    StColR,
    StColC,
    MscPath,
    MskPath3,
    StCyCl,
    FlushE,
    FlushA,
    MscCal,
    MscCnt,
    MscCat,
    DirDma,
    DirDmaIce,
    UnpackV4_32,
    UnpackV3_32,
    UnpackV4_16,
    UnpackV3_16,
    UnpackV4_8,
    UnpackV3_8,
    UnpackV2_32,
    UnpackV2_16,
    UnpackV2_8,
    UnpackS3_32,
    UnpackS3_16,
    UnpackS3_8,
    /// 4x5-bit packed format (metal moby packets)
    UnpackV4_5,
}

/// The command byte of each VIF command.
pub open spec fn vif_code(c: VifCmd) -> u8 {
    match c {
        VifCmd::Nop => 0x00,
        VifCmd::Stcycl => 0x01,
        VifCmd::Offset => 0x02,
        VifCmd::Base => 0x03,
        VifCmd::Itops => 0x04,
        VifCmd::Stmod => 0x05,
        VifCmd::UsrDir => 0x06,
        VifCmd::MscalF => 0x07,
        VifCmd::MscntF => 0x08,
        VifCmd::Unk09 => 0x09,
        VifCmd::Unk0A => 0x0A,
        VifCmd::Unk0B => 0x0B,
        VifCmd::Unk0C => 0x0C,
        VifCmd::Unk0D => 0x0D,
        VifCmd::Unk0E => 0x0E,
        VifCmd::Unk0F => 0x0F,
        VifCmd::StMask => 0x20,
        VifCmd::StRow => 0x30,
        VifCmd::StColR => 0x31,
        VifCmd::StColC => 0x32,
        VifCmd::MscPath => 0x38,
        VifCmd::MskPath3 => 0x39,
        VifCmd::StCyCl => 0x4A,
        VifCmd::FlushE => 0x50,
        VifCmd::FlushA => 0x51,
        VifCmd::MscCal => 0x58,
        VifCmd::MscCnt => 0x59,
        VifCmd::MscCat => 0x5A,
        VifCmd::DirDma => 0x60,
        VifCmd::DirDmaIce => 0x61,
        VifCmd::UnpackV4_32 => 0x68,
        VifCmd::UnpackV3_32 => 0x69,
        VifCmd::UnpackV4_16 => 0x6A,
        VifCmd::UnpackV3_16 => 0x6B,
        VifCmd::UnpackV4_8 => 0x6C,
        VifCmd::UnpackV3_8 => 0x6D,
        VifCmd::UnpackV2_32 => 0x70,
        VifCmd::UnpackV2_16 => 0x72,
        VifCmd::UnpackV2_8 => 0x74,
        VifCmd::UnpackS3_32 => 0x79,
        VifCmd::UnpackS3_16 => 0x7B,
        VifCmd::UnpackS3_8 => 0x7D,
        VifCmd::UnpackV4_5 => 0x6E,
    }
}

/// The bytes that name a VIF command.
pub open spec fn is_vif_code(v: u8) -> bool {
    ||| v <= 0x0F
    ||| v == 0x20
    ||| 0x30 <= v <= 0x32
    ||| v == 0x38
    ||| v == 0x39
    ||| v == 0x4A
    ||| v == 0x50
    ||| v == 0x51
    ||| 0x58 <= v <= 0x5A
    ||| v == 0x60
    ||| v == 0x61
    ||| 0x68 <= v <= 0x6E
    ||| v == 0x70
    ||| v == 0x72
    ||| v == 0x74
    ||| v == 0x79
    ||| v == 0x7B
    ||| v == 0x7D
}

/// The UNPACK commands (those followed by data).
pub open spec fn spec_is_unpack(c: VifCmd) -> bool {
    0x68 <= vif_code(c) <= 0x7D
}

impl VifCmd {
    /// The command named by a byte, if any.
    pub fn from_u8(val: u8) -> (r: Option<Self>)
        ensures
            r is None <==> !is_vif_code(val),
            r matches Some(c) ==> vif_code(c) == val,
    {
        Some(
            match val {
                0x00 => VifCmd::Nop,
                0x01 => VifCmd::Stcycl,
                0x02 => VifCmd::Offset,
                0x03 => VifCmd::Base,
                0x04 => VifCmd::Itops,
                0x05 => VifCmd::Stmod,
                0x06 => VifCmd::UsrDir,
                0x07 => VifCmd::MscalF,
                0x08 => VifCmd::MscntF,
                0x09 => VifCmd::Unk09,
                0x0A => VifCmd::Unk0A,
                0x0B => VifCmd::Unk0B,
                0x0C => VifCmd::Unk0C,
                0x0D => VifCmd::Unk0D,
                0x0E => VifCmd::Unk0E,
                0x0F => VifCmd::Unk0F,
                0x20 => VifCmd::StMask,
                0x30 => VifCmd::StRow,
                0x31 => VifCmd::StColR,
                0x32 => VifCmd::StColC,
                0x38 => VifCmd::MscPath,
                0x39 => VifCmd::MskPath3,
                0x4A => VifCmd::StCyCl,
                0x50 => VifCmd::FlushE,
                0x51 => VifCmd::FlushA,
                0x58 => VifCmd::MscCal,
                0x59 => VifCmd::MscCnt,
                0x5A => VifCmd::MscCat,
                0x60 => VifCmd::DirDma,
                0x61 => VifCmd::DirDmaIce,
                0x68 => VifCmd::UnpackV4_32,
                0x69 => VifCmd::UnpackV3_32,
                0x6A => VifCmd::UnpackV4_16,
                0x6B => VifCmd::UnpackV3_16,
                0x6C => VifCmd::UnpackV4_8,
                0x6D => VifCmd::UnpackV3_8,
                0x70 => VifCmd::UnpackV2_32,
                0x72 => VifCmd::UnpackV2_16,
                0x74 => VifCmd::UnpackV2_8,
                0x79 => VifCmd::UnpackS3_32,
                0x7B => VifCmd::UnpackS3_16,
                0x7D => VifCmd::UnpackS3_8,
                0x6E => VifCmd::UnpackV4_5,
                _ => {
                    return None;
                },
            },
        )
    }

    /// Whether this is an UNPACK command.
    pub fn is_unpack(self) -> (r: bool)
        ensures
            r == spec_is_unpack(self),
    {
        match self {
            VifCmd::UnpackV4_32 | VifCmd::UnpackV3_32 | VifCmd::UnpackV4_16 | VifCmd::UnpackV3_16
            | VifCmd::UnpackV4_8 | VifCmd::UnpackV3_8 | VifCmd::UnpackV2_32 | VifCmd::UnpackV2_16
            | VifCmd::UnpackV2_8 | VifCmd::UnpackS3_32 | VifCmd::UnpackS3_16 | VifCmd::UnpackS3_8
            | VifCmd::UnpackV4_5 => true,
            _ => false,
        }
    }

    /// The command byte.
    pub fn code(self) -> (r: u8)
        ensures
            r == vif_code(self),
    {
        match self {
            VifCmd::Nop => 0x00,
            VifCmd::Stcycl => 0x01,
            VifCmd::Offset => 0x02,
            VifCmd::Base => 0x03,
            VifCmd::Itops => 0x04,
            VifCmd::Stmod => 0x05,
            VifCmd::UsrDir => 0x06,
            VifCmd::MscalF => 0x07,
            VifCmd::MscntF => 0x08,
            VifCmd::Unk09 => 0x09,
            VifCmd::Unk0A => 0x0A,
            VifCmd::Unk0B => 0x0B,
            VifCmd::Unk0C => 0x0C,
            VifCmd::Unk0D => 0x0D,
            VifCmd::Unk0E => 0x0E,
            VifCmd::Unk0F => 0x0F,
            VifCmd::StMask => 0x20,
            VifCmd::StRow => 0x30,
            VifCmd::StColR => 0x31,
            VifCmd::StColC => 0x32,
            VifCmd::MscPath => 0x38,
            VifCmd::MskPath3 => 0x39,
            VifCmd::StCyCl => 0x4A,
            VifCmd::FlushE => 0x50,
            VifCmd::FlushA => 0x51,
            VifCmd::MscCal => 0x58,
            VifCmd::MscCnt => 0x59,
            VifCmd::MscCat => 0x5A,
            VifCmd::DirDma => 0x60,
            VifCmd::DirDmaIce => 0x61,
            VifCmd::UnpackV4_32 => 0x68,
            VifCmd::UnpackV3_32 => 0x69,
            VifCmd::UnpackV4_16 => 0x6A,
            VifCmd::UnpackV3_16 => 0x6B,
            VifCmd::UnpackV4_8 => 0x6C,
            VifCmd::UnpackV3_8 => 0x6D,
            VifCmd::UnpackV2_32 => 0x70,
            VifCmd::UnpackV2_16 => 0x72,
            VifCmd::UnpackV2_8 => 0x74,
            VifCmd::UnpackS3_32 => 0x79,
            VifCmd::UnpackS3_16 => 0x7B,
            VifCmd::UnpackS3_8 => 0x7D,
            VifCmd::UnpackV4_5 => 0x6E,
        }
    }
}

/// Reading a known command byte and writing the command back gives the byte.
pub proof fn lemma_vif_code_injective(a: VifCmd, b: VifCmd)
    ensures
        vif_code(a) == vif_code(b) ==> a == b,
        is_vif_code(vif_code(a)),
{
}

/// A parsed VIF command.
#[derive(Debug, Clone, Copy, PartialEq, Eq, Structural)]
pub struct VifCommand {
    pub cmd: VifCmd,
    /// immediate value
    pub imm: u16,
    pub qword_count: u8,
}

/// Texture entry from GS memory.
#[derive(Debug, Clone)]
pub struct TextureEntry {
    /// texture base pointer
    pub tbp: u32,
    /// texture buffer width
    pub tbw: u32,
    /// pixel storage format
    pub psm: u32,
    /// texture width (log2)
    pub tw: u32,
    /// texture height (log2)
    pub th: u32,
    /// texture color component
    pub tcc: u32,
    pub mag: u32,
    pub min: u32,
    pub mip: u32,
    pub addr: u32,
}

/// Core-level data header.
#[derive(Debug, Clone)]
pub struct LevelCoreHeader {
    pub tie_count: u32,
    pub tie_data_ofs: u32,
    pub tie_data_size: u32,
    pub moby_count: u32,
    pub moby_data_ofs: u32,
    pub moby_data_size: u32,
    pub shrub_count: u32,
    pub shrub_data_ofs: u32,
    pub shrub_data_size: u32,
    pub tfrag_count: u32,
    pub tfrag_data_ofs: u32,
    pub tfrag_data_size: u32,
}

} // verus!
