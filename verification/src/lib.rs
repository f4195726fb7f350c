//! Key-binding dispatch and a workspace status bar for a tiling window
//! manager, with every rule stated as a contract and proved.

pub mod action;
pub mod bar;
pub mod chord;
pub mod color;
pub mod dispatch;
pub mod style;
pub mod table;
pub mod tags;
