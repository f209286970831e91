//! Planning logic of a bulk downloader for UniFi Protect recordings:
//! the calendar model, the parsing of the command-line values, the
//! selection of cameras and the construction of the download time frames.

pub mod calendar;
pub mod chrono_bridge;
pub mod args;
pub mod error;
pub mod frames;
pub mod frame_laws;
pub mod text;
pub mod cameras;
pub mod hour_window;
pub mod download;
