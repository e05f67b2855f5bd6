//! Verified core logic of a round-based multiplayer station simulation:
//! tile grids and their on-disk chunk format, atmosphere regions, item
//! containers, interaction decisions, thing templates and the network
//! session bookkeeping.

pub mod tiles;
pub mod network;
pub mod codec;
pub mod key_order;
pub mod tile_layer;
pub mod items;
pub mod things;
pub mod interactions;
pub mod session;
pub mod atmos;
pub mod souls;
pub mod editor;
pub mod animation;
pub mod text;
pub mod overlay;
pub mod cert;
pub mod menu;
