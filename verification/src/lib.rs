//! Verified core of the LivePaper desktop wallpaper manager: the decisions
//! behind the gallery, settings, per-screen wallpaper state, full-screen
//! pausing, video probing and transcoding, stated over mathematical models.
pub mod text;
pub mod path;
pub mod strmap;
pub mod probe;
pub mod gallery;
pub mod settings;
pub mod fullscreen;
pub mod wallpaper;
pub mod transcode;
pub mod tray;
