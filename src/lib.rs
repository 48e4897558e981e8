//! Authorization and group bookkeeping for a guild configuration bot.
//!
//! The library holds two registries: the roles whose members may change the
//! bot's configuration, and the groups that bind a text channel (and possibly
//! a role) of a guild. Platform lookups happen outside; their answers are
//! handed to the verified decision functions here.

pub mod admin_list;
pub mod group;
pub mod registry;
pub mod role;
