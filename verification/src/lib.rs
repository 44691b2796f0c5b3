//! Screen mirroring from a desktop to an AirPlay receiver.

pub mod alac;
pub mod backend;
pub mod bytes;
pub mod capture;
pub mod clock;
pub mod crypto;
pub mod devices;
pub mod display;
pub mod events;
pub mod failure;
pub mod identity;
pub mod interface;
pub mod late_dates;
pub mod media;
pub mod mirror;
pub mod mirror_laws;
pub mod negotiation;
pub mod options;
pub mod packets;
pub mod pairing;
pub mod pipeline;
pub mod property_list;
pub mod reception;
pub mod requests;
pub mod settings;
pub mod setup_laws;
pub mod text;
