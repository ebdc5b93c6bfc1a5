//! Wire codecs, item-stack logic and server decisions of a Minecraft server, with proofs.
pub mod error;
pub mod var_int;
pub mod ser;
pub mod item;
pub mod codec;
pub mod components;
pub mod roundtrip;
pub mod data_component;
pub mod laws;
pub mod item_stack_serializer;
pub mod item_stack;
pub mod slot;
pub mod server;
pub mod block;
pub mod shulker_box;
pub mod plant;
pub mod logging;
