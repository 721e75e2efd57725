//! Verified core of the Ratchet & Clank: Up Your Arsenal asset tools:
//! WAD LZ compression, WAD/TOC header parsing, VIF command decoding and
//! PS2 texture (palette / swizzle) decoding.

pub mod common;
pub mod lz_spec;
pub mod wad;
pub mod lz_packets;
pub mod text;
pub mod types;
pub mod vif;
pub mod texture;
pub mod cli;
pub mod texture_pack;
pub mod level_wad;
pub mod toc;
pub mod iso_pack;
pub mod level_core;
pub mod gadget;
pub mod hud;
pub mod gadget_texture;
pub mod moby;
pub mod gameplay;
pub mod tfrag;
pub mod shrub;
pub mod level_texture;
pub mod bonus;
pub mod global_wad;
pub mod unpack;
pub mod collision;
pub mod audio;
pub mod tie;
pub mod stash;
