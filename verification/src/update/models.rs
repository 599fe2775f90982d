//! Releases and the outcome of looking for one.

use vstd::prelude::*;

verus! {

/// A point in time: seconds since the Unix epoch and the nanoseconds
/// after that second.
#[derive(Debug, Clone, Copy, PartialEq, Eq)]
pub struct Timestamp {
    pub seconds: i64,
    pub nanoseconds: u32,
}

/// A firmware release that can be downloaded.
#[derive(Debug, Clone, PartialEq, Eq)]
pub struct FirmwareRelease {
    /// The version of the release, a semantic version.
    pub version: String,
    pub download_url: String,
    pub changelog: String,
    pub published_at: Timestamp,
    pub size_bytes: u64,
    /// The SHA-256 of the image in lower-case hexadecimal, if the release
    /// states it.
    pub sha256_hash: Option<String>,
}

pub struct FirmwareReleaseView {
    pub version: Seq<char>,
    pub download_url: Seq<char>,
    pub changelog: Seq<char>,
    pub published_at: Timestamp,
    pub size_bytes: u64,
    pub sha256_hash: Option<Seq<char>>,
}

impl View for FirmwareRelease {
    type V = FirmwareReleaseView;

    open spec fn view(&self) -> FirmwareReleaseView {
        FirmwareReleaseView {
            version: self.version@,
            download_url: self.download_url@,
            changelog: self.changelog@,
            published_at: self.published_at,
            size_bytes: self.size_bytes,
            sha256_hash: match self.sha256_hash {
                Some(h) => Some(h@),
                None => None,
            },
        }
    }
}

/// The outcome of comparing the latest release with what the device runs.
#[derive(Debug, Clone, PartialEq, Eq)]
pub struct VersionCheckResult {
    pub current_version: String,
    pub latest_version: String,
    pub update_available: bool,
    /// The release, if it is newer than the current version.
    pub release_info: Option<FirmwareRelease>,
}

/// Why an update could not be found, read or trusted.
#[derive(Debug, Clone, Copy, PartialEq, Eq)]
pub enum UpdateError {
    /// A version is no semantic version.
    InvalidVersion,
    /// The release does not name its tag.
    MissingTagName,
    /// The release does not say when it was published.
    MissingPublishedAt,
    /// The time of publication is no RFC 3339 date and time.
    InvalidDate,
    /// The release lists no assets.
    MissingAssets,
    /// None of the assets is a firmware image.
    NoFirmwareAsset,
    /// The firmware asset has no download address.
    MissingDownloadUrl,
    NoUpdateAvailable,
    /// The image does not have the checksum that the release states.
    InvalidSignature,
    DownloadInterrupted,
}

impl UpdateError {
    /// What the error says.
    pub open spec fn text(self) -> Seq<char> {
        match self {
            UpdateError::InvalidVersion => "Version parsing error"@,
            UpdateError::MissingTagName => "Parse error: Missing tag_name in GitHub release"@,
            UpdateError::MissingPublishedAt => "Parse error: Missing published_at in GitHub release"@,
            UpdateError::InvalidDate => "Parse error: Date parse error"@,
            UpdateError::MissingAssets => "Parse error: Missing assets in GitHub release"@,
            UpdateError::NoFirmwareAsset => "Parse error: No firmware asset found in GitHub release"@,
            UpdateError::MissingDownloadUrl => "Parse error: Missing download URL in firmware asset"@,
            UpdateError::NoUpdateAvailable => "No update available"@,
            UpdateError::InvalidSignature => "Invalid firmware signature"@,
            UpdateError::DownloadInterrupted => "Download interrupted"@,
        }
    }

    /// The error in words.
    pub fn message(&self) -> (r: String)
        ensures
            r@ == self.text(),
    {
        match self {
            UpdateError::InvalidVersion => "Version parsing error".to_owned(),
            UpdateError::MissingTagName => "Parse error: Missing tag_name in GitHub release".to_owned(),
            UpdateError::MissingPublishedAt => "Parse error: Missing published_at in GitHub release".to_owned(),
            UpdateError::InvalidDate => "Parse error: Date parse error".to_owned(),
            UpdateError::MissingAssets => "Parse error: Missing assets in GitHub release".to_owned(),
            UpdateError::NoFirmwareAsset => "Parse error: No firmware asset found in GitHub release".to_owned(),
            UpdateError::MissingDownloadUrl => "Parse error: Missing download URL in firmware asset".to_owned(),
            UpdateError::NoUpdateAvailable => "No update available".to_owned(),
            UpdateError::InvalidSignature => "Invalid firmware signature".to_owned(),
            UpdateError::DownloadInterrupted => "Download interrupted".to_owned(),
        }
    }
}

} // verus!
