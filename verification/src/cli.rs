//! Command-line arguments of the tools (the parser lives with the program).

use vstd::prelude::*;

verus! {

/// Top-level command line.
pub struct Cli {
    pub command: Commands,
}

/// The subcommands.
pub enum Commands {
    /// Parse ISO TOC and list WAD files
    Toc(TocArgs),
    /// Extract WAD files from ISO
    WadExtract(WadExtractArgs),
    /// Unpack WAD files into structured data
    WadUnpack(WadUnpackArgs),
    /// Label/annotate WAD structure
    WadLabel(WadLabelArgs),
    /// Extract level core data
    Core(CoreArgs),
    /// Extract texture data
    Texture(TextureArgs),
    /// Extract moby meshes
    Moby(MobyArgs),
    /// Extract tie meshes
    Tie(TieArgs),
    /// Extract shrub meshes
    Shrub(ShrubArgs),
    /// Extract tfrag meshes
    Tfrag(TfragArgs),
    /// Extract stash entries
    Stash(StashArgs),
    /// Extract GSRAM vertex data
    Gsram(GsramArgs),
    /// Extract audio WADs
    Audio(AudioArgs),
    /// Extract bonus/demo data
    Bonus(BonusArgs),
    /// Extract armor data
    Armor(ArmorArgs),
    /// Decode armor meshes
    ArmorMesh(ArmorMeshArgs),
    /// Extract gadget data
    Gadget(GadgetArgs),
    /// Decode gadget textures
    GadgetTexture(GadgetTextureArgs),
    /// Export collision mesh as OBJ
    Collision(CollisionArgs),
    /// Extract gameplay data
    Gameplay(GameplayArgs),
    /// Extract HUD textures
    HudTexture(HudTextureArgs),
    /// Analyze HUD layout
    HudLayout(HudLayoutArgs),
    /// Extract misc data
    Misc(MiscArgs),
    /// Assemble scene from extracted meshes
    Scene(SceneArgs),
    /// Extract space mesh data (decode)
    SpaceMeshDecode(SpaceMeshDecodeArgs),
    /// Export space mesh data
    SpaceMeshExport(SpaceMeshExportArgs),
    /// Analyze global WAD structure
    GlobalWad(GlobalWadArgs),
    /// Start 3D viewer (HTTP server)
    Viewer(ViewerArgs),
    /// Run full extraction pipeline (all steps in order)
    Pipeline(PipelineArgs),
    /// Decompress a WAD LZ compressed file (standalone)
    Decompress(DecompressArgs),
    /// Compress a file into WAD LZ format (standalone)
    WadCompress(WadCompressArgs),
    /// Repack WAD files from unpacked data
    WadRepack(WadRepackArgs),
    /// Pack repacked WADs into a new ISO
    IsoPack(IsoPackArgs),
    /// Pack a PNG image into PIF8 format
    TexturePack(TexturePackArgs),
}

pub struct TocArgs {
    /// Path to ISO file
    pub iso_path: Option<String>,
}

pub struct WadExtractArgs {
    /// Path to ISO file
    pub iso_path: Option<String>,
    /// Extract only (don't unpack)
    pub extract: bool,
}

pub struct WadUnpackArgs {
    /// Level number (0-13) or -1 for all
    pub level: Option<i32>,
}

pub struct WadLabelArgs {
    /// Level number (0-13) or -1 for all
    pub level: Option<i32>,
}

pub struct CoreArgs {
    /// Level number (0-13) or -1 for all
    pub level: Option<i32>,
}

pub struct TextureArgs {
    /// Level number (0-13) or -1 for all
    pub level: Option<i32>,
    /// Texture category filter (e.g., "mobs", "tie", "shrub")
    pub category: Option<String>,
}

pub struct MobyArgs {
    /// Level number (0-13) or -1 for all
    pub level: Option<i32>,
    /// Target moby class index
    pub class: Option<i32>,
}

pub struct TieArgs {
    /// Level number (0-13) or -1 for all
    pub level: Option<i32>,
    /// Target tie class index
    pub class: Option<i32>,
}

pub struct ShrubArgs {
    /// Level number (0-13) or -1 for all
    pub level: Option<i32>,
    /// Target shrub class index
    pub class: Option<i32>,
}

pub struct TfragArgs {
    /// Level number (0-13) or -1 for all
    pub level: Option<i32>,
    /// Target tfrag index
    pub tfrag_index: Option<i32>,
    /// LOD level
    pub lod: u32,
}

pub struct StashArgs {
    /// Level number (0-13) or -1 for all
    pub level: Option<i32>,
}

pub struct GsramArgs {
    /// Level number (0-13) or -1 for all
    pub level: Option<i32>,
}

pub struct AudioArgs {
    /// Level number (0-13) or -1 for all
    pub level: Option<i32>,
}

pub struct BonusArgs;

pub struct ArmorArgs;

pub struct ArmorMeshArgs {
    /// Process all armor meshes
    pub all: bool,
    /// Specific mesh path
    pub path: Option<String>,
}

pub struct GadgetArgs;

pub struct GadgetTextureArgs;

pub struct GameplayArgs {
    /// Level number (0-13) or -1 for all
    pub level: Option<i32>,
}

pub struct HudTextureArgs;

pub struct CollisionArgs;

pub struct HudLayoutArgs;

pub struct MiscArgs;

pub struct SceneArgs {
    /// Level number (0-13) or -1 for all
    pub level: Option<i32>,
    /// Skip tie meshes
    pub no_tie: bool,
    /// Skip shrub meshes
    pub no_shrub: bool,
    /// Skip moby meshes
    pub no_moby: bool,
    /// Skip tfrag meshes
    pub no_tfrag: bool,
}

pub struct SpaceMeshDecodeArgs {
    /// Optional block index (decodes a specific block)
    pub block_index: Option<u32>,
    /// Optional path to a specific block file
    pub input: Option<String>,
}

pub struct SpaceMeshExportArgs {
    /// Optional block index (exports a specific block only)
    pub block_index: Option<u32>,
    /// Optional path to a specific block file
    pub input: Option<String>,
    /// Output directory for OBJ files
    pub output: Option<String>,
}

pub struct GlobalWadArgs;

pub struct ViewerArgs {
    /// Default level to load
    pub level: Option<i32>,
    /// HTTP port
    pub port: u16,
}

pub struct PipelineArgs;

pub struct DecompressArgs {
    /// Path to compressed WAD LZ file
    pub input: String,
    /// Optional output path (defaults to input.bin)
    pub output: Option<String>,
}

pub struct WadCompressArgs {
    /// Path to input file to compress
    pub input: String,
    /// Optional output path (defaults to input.lz)
    pub output: Option<String>,
}

pub struct WadRepackArgs {
    /// Level number to repack (0-13)
    pub level: Option<i32>,
    /// Repack all levels
    pub all: bool,
}

pub struct IsoPackArgs {
    /// Path to output ISO file
    pub output: Option<String>,
    /// Input directory with repacked WADs (default: extracted/repacked/)
    pub input_dir: Option<String>,
}

pub struct TexturePackArgs {
    /// Input PNG file path
    pub input: String,
    /// Optional output PIF8 file path (defaults to input with .pif8 extension)
    pub output: Option<String>,
}

} // verus!
