//! Choosing a display output on a DRM/KMS device: which connector, CRTC,
//! mode and primary plane a full-screen surface is put on, and how a
//! closed window is torn down.

pub mod device;
pub mod mode;
pub mod plane;
pub mod search;
pub mod selection;
pub mod window;
