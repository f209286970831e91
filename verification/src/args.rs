//! The values that the command line carries.
use vstd::prelude::*;

verus! {

/// Tool for bulk-downloading recordings from unifi protect.
#[derive(Debug)]
pub struct Cli {
    pub command: Commands,
}

#[derive(Debug)]
pub enum Commands {
    /// Download footage from the UniFi Protect server.
    Download(DownloadArgs),
}

/// The arguments of the `download` command.
#[derive(Debug)]
pub struct DownloadArgs {
    /// The URI of the UniFi Protect server.
    pub uri: String,
    /// The username for logging into the UniFi Protect server.
    pub username: String,
    /// The password for logging into the UniFi Protect server.
    pub password: String,
    /// The path to the directory to download files to.
    pub out_path: String,
    /// The mode to download files in.
    pub mode: DownloadMode,
    /// The type of recording to download.
    pub recording_type: RecordingType,
    /// The start date/time to download files from (YYYY-MM-DD or YYYY-MM-DD-HH).
    pub start_date: String,
    /// The end date/time to download files to (YYYY-MM-DD or YYYY-MM-DD-HH).
    pub end_date: String,
    /// Optional daily hour window to download (START-END, end-exclusive, e.g. 07-19).
    pub hours: Option<String>,
    /// Timelapse speed factor.
    pub timelapse_factor: TimelapseFactor,
    /// Overwrite existing output files instead of skipping them.
    pub force: bool,
    /// Camera names or ids, or `all` / `*`.
    pub cameras: Vec<String>,
}

/// One video per day or one video per hour.
#[derive(Clone, Copy, Debug, PartialEq, Eq, Structural)]
pub enum DownloadMode {
    Daily,
    Hourly,
}

/// Real-time recordings or timelapse exports.
#[derive(Clone, Copy, Debug, PartialEq, Eq, Structural)]
pub enum RecordingType {
    Rotating,
    Timelapse,
}

impl RecordingType {
    /// The name of the recording type in the export API and in file names.
    pub open spec fn name_text(self) -> Seq<char> {
        match self {
            RecordingType::Rotating => "rotating"@,
            RecordingType::Timelapse => "timelapse"@,
        }
    }

    /// The name of the recording type in the export API and in file names.
    pub fn as_str(&self) -> (r: &'static str)
        ensures
            r@ == self.name_text(),
    {
        match self {
            RecordingType::Rotating => "rotating",
            RecordingType::Timelapse => "timelapse",
        }
    }
}

/// Timelapse speed factors offered by the UniFi Protect UI.
#[derive(Clone, Copy, Debug, PartialEq, Eq, Structural)]
pub enum TimelapseFactor {
    X60,
    X120,
    X300,
    X600,
}

impl TimelapseFactor {
    /// The frame rate of the export: the speed factor divided by 15.
    pub open spec fn fps(self) -> u32 {
        match self {
            TimelapseFactor::X60 => 4,
            TimelapseFactor::X120 => 8,
            TimelapseFactor::X300 => 20,
            TimelapseFactor::X600 => 40,
        }
    }

    /// The frame rate of the export: the speed factor divided by 15.
    pub fn as_fps(&self) -> (r: u32)
        ensures
            r == self.fps(),
    {
        match self {
            TimelapseFactor::X60 => 4,
            TimelapseFactor::X120 => 8,
            TimelapseFactor::X300 => 20,
            TimelapseFactor::X600 => 40,
        }
    }
}

}
