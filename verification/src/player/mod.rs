//! Player-side rules: the hotbar inventory and block-placement targeting.

pub mod interaction;
pub mod inventory;
