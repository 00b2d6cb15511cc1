//! Verified core logic of a Discord community bot: playground code
//! preparation and output shaping, message-moving dialogs, and the
//! text that the utility commands reply with.

pub mod text;
pub mod playground;
pub mod moving;
pub mod relay;
pub mod bangs;
pub mod utilities;
