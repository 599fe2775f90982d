//! Reading a release, comparing versions and checking an image.

use crate::text::{
    chars_of, contains, digit_of, digit_value, is_whitespace, char_is_whitespace, lowercase,
    lowercase_text, matches_at, range_equals, slice_contains, text_of,
};
use crate::update::models::{
    FirmwareRelease, FirmwareReleaseView, Timestamp, UpdateError, VersionCheckResult,
};
use vstd::prelude::*;
use vstd::string::StringExecFns;

verus! {

/// Whether `semver` reads a text as a version.
pub uninterp spec fn semver_valid(text: Seq<char>) -> bool;

/// Whether `semver` orders the version of the first text after that of the
/// second. It says something only of two texts that are versions.
pub uninterp spec fn semver_newer(candidate: Seq<char>, current: Seq<char>) -> bool;

/// The instant that `chrono` reads from an RFC 3339 date and time.
pub uninterp spec fn rfc3339_instant(text: Seq<char>) -> Option<Timestamp>;

/// The SHA-256 of some bytes in lower-case hexadecimal, as `sha2` computes
/// and formats it.
pub uninterp spec fn sha256_hex_text(data: Seq<u8>) -> Seq<char>;

/// `semver::Version::parse` on both texts and the order of `semver::Version`
/// on what they give: whether the first version is greater than the
/// second. Nothing is said if either text is no version.
#[verifier::external_body]
pub(crate) fn version_newer(candidate: &str, current: &str) -> (r: Option<bool>)
    ensures
        r is Some <==> (semver_valid(candidate@) && semver_valid(current@)),
        r is Some ==> r->0 == semver_newer(candidate@, current@),
{
    match (semver::Version::parse(candidate), semver::Version::parse(current)) {
        (Ok(a), Ok(b)) => Some(a > b),
        _ => None,
    }
}

/// Whether the text is a semantic version.
pub(crate) fn is_semver(text: &str) -> (r: bool)
    ensures
        r == semver_valid(text@),
{
    version_newer(text, text).is_some()
}

/// `chrono::DateTime::parse_from_rfc3339`: the instant of an RFC 3339 date
/// and time, as `timestamp` and `timestamp_subsec_nanos` give it.
#[verifier::external_body]
pub(crate) fn parse_rfc3339(text: &str) -> (r: Option<Timestamp>)
    ensures
        r == rfc3339_instant(text@),
{
    match chrono::DateTime::parse_from_rfc3339(text) {
        Ok(at) => Some(
            Timestamp { seconds: at.timestamp(), nanoseconds: at.timestamp_subsec_nanos() },
        ),
        Err(_) => None,
    }
}

/// `sha2::Sha256` over the bytes, the digest formatted in lower-case
/// hexadecimal.
#[verifier::external_body]
pub(crate) fn sha256_hex(data: &[u8]) -> (r: String)
    ensures
        r@ == sha256_hex_text(data@),
{
    let mut hasher = <sha2::Sha256 as sha2::Digest>::new();
    sha2::Digest::update(&mut hasher, data);
    format!("{:x}", sha2::Digest::finalize(hasher))
}

/// One file of a release, as the release service describes it.
#[derive(Debug, Clone, PartialEq, Eq)]
pub struct AssetData {
    pub name: Option<String>,
    pub browser_download_url: Option<String>,
    pub size: Option<u64>,
}

/// A release, as the release service describes it.
#[derive(Debug, Clone, PartialEq, Eq)]
pub struct ReleaseData {
    pub tag_name: Option<String>,
    pub published_at: Option<String>,
    pub body: Option<String>,
    pub assets: Option<Vec<AssetData>>,
}

/// The text of an optional string, empty if there is none.
pub open spec fn text_or_empty(s: Option<String>) -> Seq<char> {
    match s {
        Some(t) => t@,
        None => Seq::empty(),
    }
}

/// `s` ends with `suffix`.
pub open spec fn ends_with(s: Seq<char>, suffix: Seq<char>) -> bool {
    suffix.len() <= s.len() && s.subrange(s.len() - suffix.len(), s.len() as int) == suffix
}

/// A file is taken for a firmware image if its name ends in `.uf2` or
/// `.bin` or contains `firmware`.
pub open spec fn is_firmware_name(name: Seq<char>) -> bool {
    ends_with(name, ".uf2"@) || ends_with(name, ".bin"@) || contains(name, "firmware"@)
}

fn names_firmware(name: &str) -> (r: bool)
    ensures
        r == is_firmware_name(name@),
{
    let cs = chars_of(name);
    let uf2 = chars_of(".uf2");
    let bin = chars_of(".bin");
    let firmware = chars_of("firmware");
    let n: usize = cs.len();
    assert(cs@.subrange(0, n as int) =~= cs@);
    if n >= uf2.len() && matches_at(cs.as_slice(), 0, n, n - uf2.len(), uf2.as_slice()) {
        return true;
    }
    if n >= bin.len() && matches_at(cs.as_slice(), 0, n, n - bin.len(), bin.as_slice()) {
        return true;
    }
    slice_contains(cs.as_slice(), firmware.as_slice())
}

/// The position of the first firmware image among the assets, or their
/// number if there is none.
pub open spec fn first_firmware_asset(assets: Seq<AssetData>) -> int
    decreases assets.len(),
{
    if assets.len() == 0 {
        0
    } else if is_firmware_name(text_or_empty(assets[0].name)) {
        0
    } else {
        1 + first_firmware_asset(assets.skip(1))
    }
}

/// A position with a firmware image and none before it is the first;
/// so is the end, if there is no image.
pub proof fn lemma_first_firmware_asset(assets: Seq<AssetData>, k: int)
    requires
        0 <= k <= assets.len(),
        forall|j: int| 0 <= j < k ==> !is_firmware_name(text_or_empty(assets[j].name)),
        k < assets.len() ==> is_firmware_name(text_or_empty(assets[k].name)),
    ensures
        first_firmware_asset(assets) == k,
    decreases assets.len(),
{
    if assets.len() > 0 && k > 0 {
        assert forall|j: int| 0 <= j < k - 1 implies !is_firmware_name(
            text_or_empty(assets.skip(1)[j].name),
        ) by {
            assert(assets.skip(1)[j] == assets[j + 1]);
        }
        if k < assets.len() {
            assert(assets.skip(1)[k - 1] == assets[k]);
        }
        lemma_first_firmware_asset(assets.skip(1), k - 1);
    }
}

/// `c` in lower case, if it is an ASCII letter.
pub open spec fn ascii_lower(c: char) -> char {
    if 'A' <= c && c <= 'Z' {
        ((c as u32) + 32) as char
    } else {
        c
    }
}

fn to_ascii_lower(c: char) -> (r: char)
    ensures
        r == ascii_lower(c),
{
    if c >= 'A' && c <= 'Z' {
        if c == 'A' {
            'a'
        } else if c == 'B' {
            'b'
        } else if c == 'C' {
            'c'
        } else if c == 'D' {
            'd'
        } else if c == 'E' {
            'e'
        } else if c == 'F' {
            'f'
        } else if c == 'G' {
            'g'
        } else if c == 'H' {
            'h'
        } else if c == 'I' {
            'i'
        } else if c == 'J' {
            'j'
        } else if c == 'K' {
            'k'
        } else if c == 'L' {
            'l'
        } else if c == 'M' {
            'm'
        } else if c == 'N' {
            'n'
        } else if c == 'O' {
            'o'
        } else if c == 'P' {
            'p'
        } else if c == 'Q' {
            'q'
        } else if c == 'R' {
            'r'
        } else if c == 'S' {
            's'
        } else if c == 'T' {
            't'
        } else if c == 'U' {
            'u'
        } else if c == 'V' {
            'v'
        } else if c == 'W' {
            'w'
        } else if c == 'X' {
            'x'
        } else if c == 'Y' {
            'y'
        } else {
            'z'
        }
    } else {
        c
    }
}

/// `keyword`, which is in lower case, stands in `body` at `i`, whatever the
/// case of the ASCII letters of `body`.
pub open spec fn keyword_at(body: Seq<char>, keyword: Seq<char>, i: int) -> bool {
    0 <= i && i + keyword.len() <= body.len() && forall|k: int|
        0 <= k < keyword.len() ==> ascii_lower(#[trigger] body[i + k]) == keyword[k]
}

/// Where `keyword` first stands in `body`, or the length of `body` if it
/// stands nowhere.
pub open spec fn find_keyword(body: Seq<char>, keyword: Seq<char>, from: int) -> int
    decreases body.len() - from,
{
    if from >= body.len() {
        body.len() as int
    } else if keyword_at(body, keyword, from) {
        from
    } else {
        find_keyword(body, keyword, from + 1)
    }
}

/// The digits of a checksum that follow a keyword: white space and, before
/// the first digit, anything else is passed over; the digits, in lower
/// case, are taken until sixty-four are had or something else than a digit
/// or white space comes.
pub open spec fn collect_hash(after: Seq<char>, hash: Seq<char>) -> Seq<char>
    decreases after.len(),
{
    if after.len() == 0 {
        hash
    } else if digit_of(after[0], true) is Some && hash.len() < 64 {
        collect_hash(after.skip(1), hash.push(ascii_lower(after[0])))
    } else if hash.len() == 64 {
        hash
    } else if !is_whitespace(after[0]) && hash.len() > 0 {
        hash
    } else {
        collect_hash(after.skip(1), hash)
    }
}

/// The checksum that follows `keyword` in `body`, if the keyword stands
/// there and sixty-four digits follow it.
pub open spec fn hash_after(body: Seq<char>, keyword: Seq<char>) -> Option<Seq<char>> {
    let at = find_keyword(body, keyword, 0);
    if at < body.len() {
        let hash = collect_hash(body.skip(at + keyword.len()), Seq::empty());
        if hash.len() == 64 {
            Some(hash)
        } else {
            None
        }
    } else {
        None
    }
}

/// The SHA-256 that the notes of a release state: the checksum after the
/// first `sha256:`, else after the first `sha256 `, else after the first
/// `sha256=`.
pub open spec fn spec_extract_sha256(body: Seq<char>) -> Option<Seq<char>> {
    if hash_after(body, "sha256:"@) is Some {
        hash_after(body, "sha256:"@)
    } else if hash_after(body, "sha256 "@) is Some {
        hash_after(body, "sha256 "@)
    } else {
        hash_after(body, "sha256="@)
    }
}

fn keyword_stands_at(body: &[char], keyword: &[char], i: usize) -> (r: bool)
    requires
        i <= body.len(),
    ensures
        r == keyword_at(body@, keyword@, i as int),
{
    if keyword.len() > body.len() - i {
        return false;
    }
    let mut k: usize = 0;
    while k < keyword.len()
        invariant
            k <= keyword.len(),
            i + keyword.len() <= body.len(),
            forall|j: int| 0 <= j < k ==> ascii_lower(#[trigger] body@[i + j]) == keyword@[j],
        decreases keyword.len() - k,
    {
        if to_ascii_lower(body[i + k]) != keyword[k] {
            return false;
        }
        k = k + 1;
    }
    true
}

fn hash_after_keyword(body: &[char], keyword: &str) -> (r: Option<String>)
    ensures
        match r {
            Some(h) => hash_after(body@, keyword@) == Some(h@),
            None => hash_after(body@, keyword@) is None,
        },
{
    let kw = chars_of(keyword);
    let mut at: usize = 0;
    while at < body.len() && !keyword_stands_at(body, kw.as_slice(), at)
        invariant
            at <= body.len(),
            kw@ == keyword@,
            find_keyword(body@, kw@, at as int) == find_keyword(body@, kw@, 0),
        decreases body.len() - at,
    {
        at = at + 1;
    }
    if at >= body.len() {
        return None;
    }
    let start: usize = at + kw.len();
    let ghost after = body@.skip(start as int);
    let mut hash: Vec<char> = Vec::new();
    let mut i: usize = start;
    assert(body@.skip(i as int) =~= after);
    while i < body.len()
        invariant
            start <= i <= body.len(),
            hash.len() <= 64,
            collect_hash(body@.skip(i as int), hash@) == collect_hash(after, Seq::empty()),
        ensures
            hash@ == collect_hash(after, Seq::empty()),
        decreases body.len() - i,
    {
        let ch = body[i];
        assert(body@.skip(i as int)[0] == ch);
        assert(body@.skip(i as int).skip(1) =~= body@.skip(i + 1));
        if digit_value(ch, true).is_some() && hash.len() < 64 {
            hash.push(to_ascii_lower(ch));
        } else if hash.len() == 64 {
            break ;
        } else if !char_is_whitespace(ch) && hash.len() > 0 {
            break ;
        }
        i = i + 1;
    }
    if hash.len() == 64 {
        Some(text_of(hash.as_slice(), 0, 64))
    } else {
        None
    }
}

/// Looks for the SHA-256 of the image in the notes of a release.
pub fn extract_sha256_from_release(body: Option<&str>) -> (r: Option<String>)
    ensures
        match body {
            Some(b) => match r {
                Some(h) => spec_extract_sha256(b@) == Some(h@),
                None => spec_extract_sha256(b@) is None,
            },
            None => r is None,
        },
{
    let body = match body {
        Some(b) => b,
        None => {
            return None;
        },
    };
    let cs = chars_of(body);
    match hash_after_keyword(cs.as_slice(), "sha256:") {
        Some(h) => {
            return Some(h);
        },
        None => {},
    }
    match hash_after_keyword(cs.as_slice(), "sha256 ") {
        Some(h) => {
            return Some(h);
        },
        None => {},
    }
    hash_after_keyword(cs.as_slice(), "sha256=")
}

/// The version that a tag names: the tag without a leading `v`.
pub open spec fn version_of_tag(tag: Seq<char>) -> Seq<char> {
    if tag.len() > 0 && tag[0] == 'v' {
        tag.skip(1)
    } else {
        tag
    }
}

/// What a release description says, given what is made of its version
/// and of its time of publication elsewhere: the release, or the first
/// thing that is missing or wrong in the order tag, version, time of
/// publication, assets, firmware asset, download address.
pub open spec fn spec_release_from(
    data: ReleaseData,
    version_valid: bool,
    published_at: Option<Timestamp>,
) -> Result<FirmwareReleaseView, UpdateError> {
    if data.tag_name is None {
        Err(UpdateError::MissingTagName)
    } else if !version_valid {
        Err(UpdateError::InvalidVersion)
    } else if data.published_at is None {
        Err(UpdateError::MissingPublishedAt)
    } else if published_at is None {
        Err(UpdateError::InvalidDate)
    } else if data.assets is None {
        Err(UpdateError::MissingAssets)
    } else {
        let assets = data.assets->0@;
        let at = first_firmware_asset(assets);
        if at >= assets.len() {
            Err(UpdateError::NoFirmwareAsset)
        } else if assets[at].browser_download_url is None {
            Err(UpdateError::MissingDownloadUrl)
        } else {
            Ok(
                FirmwareReleaseView {
                    version: version_of_tag(data.tag_name->0@),
                    download_url: assets[at].browser_download_url->0@,
                    changelog: text_or_empty(data.body),
                    published_at: published_at->0,
                    size_bytes: match assets[at].size {
                        Some(size) => size,
                        None => 0,
                    },
                    sha256_hash: match data.body {
                        Some(body) => spec_extract_sha256(body@),
                        None => None,
                    },
                },
            )
        }
    }
}

/// Whether the tag of a release names a semantic version.
pub open spec fn tag_is_version(tag: Option<String>) -> bool {
    tag is Some && semver_valid(version_of_tag(tag->0@))
}

/// The instant at which a release says it was published, if it says so in
/// an RFC 3339 date and time.
pub open spec fn instant_published(published_at: Option<String>) -> Option<Timestamp> {
    match published_at {
        Some(text) => rfc3339_instant(text@),
        None => None,
    }
}

/// What a release description says: its version is judged as a semantic
/// version, its time of publication as an RFC 3339 date and time.
pub open spec fn spec_parse_release(data: ReleaseData) -> Result<FirmwareReleaseView, UpdateError> {
    spec_release_from(data, tag_is_version(data.tag_name), instant_published(data.published_at))
}

/// The version that a tag names.
fn tag_version(tag: &str) -> (r: String)
    ensures
        r@ == version_of_tag(tag@),
{
    let tag_chars = chars_of(tag);
    let start: usize = if tag_chars.len() > 0 && tag_chars[0] == 'v' {
        1
    } else {
        0
    };
    let version = text_of(tag_chars.as_slice(), start, tag_chars.len());
    assert(version@ =~= version_of_tag(tag@));
    version
}

/// Reads the description of a release, given whether its tag names a
/// version and the instant that its time of publication says.
pub fn release_from(data: &ReleaseData, version_valid: bool, published_at: Option<Timestamp>) -> (r:
    Result<FirmwareRelease, UpdateError>)
    ensures
        match r {
            Ok(release) => spec_release_from(*data, version_valid, published_at) == Ok::<
                FirmwareReleaseView,
                UpdateError,
            >(release@),
            Err(e) => spec_release_from(*data, version_valid, published_at) == Err::<
                FirmwareReleaseView,
                UpdateError,
            >(e),
        },
{
    let tag = match &data.tag_name {
        Some(t) => t,
        None => {
            return Err(UpdateError::MissingTagName);
        },
    };
    if !version_valid {
        return Err(UpdateError::InvalidVersion);
    }
    let version = tag_version(tag.as_str());
    if data.published_at.is_none() {
        return Err(UpdateError::MissingPublishedAt);
    }
    let published_at = match published_at {
        Some(at) => at,
        None => {
            return Err(UpdateError::InvalidDate);
        },
    };
    let assets = match &data.assets {
        Some(a) => a,
        None => {
            return Err(UpdateError::MissingAssets);
        },
    };
    let mut at: usize = 0;
    while at < assets.len()
        invariant
            at <= assets.len(),
            forall|j: int| 0 <= j < at ==> !is_firmware_name(text_or_empty(assets@[j].name)),
        ensures
            at <= assets.len(),
            forall|j: int| 0 <= j < at ==> !is_firmware_name(text_or_empty(assets@[j].name)),
            at < assets.len() ==> is_firmware_name(text_or_empty(assets@[at as int].name)),
        decreases assets.len() - at,
    {
        let found = match &assets[at].name {
            Some(name) => names_firmware(name.as_str()),
            None => names_firmware(""),
        };
        proof {
            if assets@[at as int].name is None {
                assert(""@ =~= Seq::<char>::empty()) by {
                    reveal_strlit("");
                }
            }
        }
        if found {
            break ;
        }
        at = at + 1;
    }
    proof {
        lemma_first_firmware_asset(assets@, at as int);
    }
    if at >= assets.len() {
        return Err(UpdateError::NoFirmwareAsset);
    }
    let download_url = match &assets[at].browser_download_url {
        Some(url) => url.clone(),
        None => {
            return Err(UpdateError::MissingDownloadUrl);
        },
    };
    let size_bytes: u64 = match assets[at].size {
        Some(size) => size,
        None => 0,
    };
    let changelog = match &data.body {
        Some(body) => body.clone(),
        None => String::new(),
    };
    let sha256_hash = match &data.body {
        Some(body) => extract_sha256_from_release(Some(body.as_str())),
        None => None,
    };
    Ok(FirmwareRelease { version, download_url, changelog, published_at, size_bytes, sha256_hash })
}

/// Reads the description of a release.
pub fn parse_github_release(data: &ReleaseData) -> (r: Result<FirmwareRelease, UpdateError>)
    ensures
        match r {
            Ok(release) => spec_parse_release(*data) == Ok::<FirmwareReleaseView, UpdateError>(
                release@,
            ),
            Err(e) => spec_parse_release(*data) == Err::<FirmwareReleaseView, UpdateError>(e),
        },
{
    let version_valid = match &data.tag_name {
        Some(tag) => is_semver(tag_version(tag.as_str()).as_str()),
        None => false,
    };
    let published_at = match &data.published_at {
        Some(text) => parse_rfc3339(text.as_str()),
        None => None,
    };
    release_from(data, version_valid, published_at)
}

/// The outcome of comparing a release with the version the device runs,
/// given what the comparison found: whether the release is newer, or
/// nothing if one of the two is no version. The release is handed on only
/// if it is newer.
pub fn version_check_result(
    current_version: &str,
    release: FirmwareRelease,
    newer: Option<bool>,
) -> (r: Result<VersionCheckResult, UpdateError>)
    ensures
        match newer {
            Some(update_available) => r is Ok && r->Ok_0.current_version@ == current_version@
                && r->Ok_0.latest_version@ == release.version@ && r->Ok_0.update_available
                == update_available && r->Ok_0.release_info == (if update_available {
                Some(release)
            } else {
                None
            }),
            None => r == Err::<VersionCheckResult, UpdateError>(UpdateError::InvalidVersion),
        },
{
    let update_available = match newer {
        Some(newer) => newer,
        None => {
            return Err(UpdateError::InvalidVersion);
        },
    };
    let latest_version = release.version.clone();
    Ok(
        VersionCheckResult {
            current_version: current_version.to_owned(),
            latest_version,
            update_available,
            release_info: if update_available {
                Some(release)
            } else {
                None
            },
        },
    )
}

/// Compares a release with the version the device runs. The release is
/// handed on only if it is newer.
pub fn check_release(current_version: &str, release: FirmwareRelease) -> (r: Result<
    VersionCheckResult,
    UpdateError,
>)
    ensures
        match r {
            Ok(result) => semver_valid(current_version@) && semver_valid(release.version@)
                && result.current_version@ == current_version@ && result.latest_version@
                == release.version@ && result.update_available == semver_newer(
                release.version@,
                current_version@,
            ) && result.release_info == (if result.update_available {
                Some(release)
            } else {
                None
            }),
            Err(e) => e == UpdateError::InvalidVersion && !(semver_valid(current_version@)
                && semver_valid(release.version@)),
        },
{
    let newer = version_newer(release.version.as_str(), current_version);
    version_check_result(current_version, release, newer)
}

/// Whether a checksum that was computed is the one that was stated:
/// always, if none was stated; else iff the two are the same text.
pub fn judge_checksum(computed: &str, stated: Option<&str>) -> (r: Result<bool, UpdateError>)
    ensures
        match stated {
            Some(wanted) => if computed@ == wanted@ {
                r == Ok::<bool, UpdateError>(true)
            } else {
                r == Err::<bool, UpdateError>(UpdateError::InvalidSignature)
            },
            None => r == Ok::<bool, UpdateError>(true),
        },
{
    match stated {
        Some(wanted) => {
            let a = chars_of(computed);
            let b = chars_of(wanted);
            assert(a@.subrange(0, a@.len() as int) =~= a@);
            if range_equals(a.as_slice(), 0, a.len(), b.as_slice()) {
                Ok(true)
            } else {
                Err(UpdateError::InvalidSignature)
            }
        },
        None => Ok(true),
    }
}

/// Whether an image is what the release says it is: always, if the release
/// states no checksum; else iff the SHA-256 of the image is the stated
/// one, whatever the case of its letters.
pub fn verify_firmware(image: &[u8], expected_hash: Option<&str>) -> (r: Result<bool, UpdateError>)
    ensures
        match expected_hash {
            Some(expected) => if sha256_hex_text(image@) == lowercase_text(expected@) {
                r == Ok::<bool, UpdateError>(true)
            } else {
                r == Err::<bool, UpdateError>(UpdateError::InvalidSignature)
            },
            None => r == Ok::<bool, UpdateError>(true),
        },
{
    match expected_hash {
        Some(expected) => {
            let computed = sha256_hex(image);
            let wanted = lowercase(expected);
            judge_checksum(computed.as_str(), Some(wanted.as_str()))
        },
        None => Ok(true),
    }
}

/// The releases as mathematical values.
pub open spec fn release_views(releases: Seq<FirmwareRelease>) -> Seq<FirmwareReleaseView> {
    Seq::new(releases.len(), |i: int| releases[i]@)
}

/// `sorted` with `release` put in before every release at the end of
/// `sorted` that it is newer than.
pub open spec fn insert_newest_first(
    sorted: Seq<FirmwareReleaseView>,
    release: FirmwareReleaseView,
) -> Seq<FirmwareReleaseView>
    decreases sorted.len(),
{
    if sorted.len() > 0 && semver_newer(release.version, sorted.last().version) {
        insert_newest_first(sorted.drop_last(), release).push(sorted.last())
    } else {
        sorted.push(release)
    }
}

/// The releases with the newest first; releases of one version keep the
/// order in which they came.
pub open spec fn newest_first(releases: Seq<FirmwareReleaseView>) -> Seq<FirmwareReleaseView>
    decreases releases.len(),
{
    if releases.len() == 0 {
        Seq::empty()
    } else {
        insert_newest_first(newest_first(releases.drop_last()), releases.last())
    }
}

/// The releases among the descriptions that can be read, in order.
pub open spec fn readable_releases(data: Seq<ReleaseData>) -> Seq<FirmwareReleaseView>
    decreases data.len(),
{
    if data.len() == 0 {
        Seq::empty()
    } else {
        match spec_parse_release(data.last()) {
            Ok(release) => readable_releases(data.drop_last()).push(release),
            Err(_) => readable_releases(data.drop_last()),
        }
    }
}

/// Every release has a version that is one.
pub open spec fn all_versions_valid(releases: Seq<FirmwareReleaseView>) -> bool {
    forall|i: int| 0 <= i < releases.len() ==> semver_valid(#[trigger] releases[i].version)
}

proof fn lemma_insert_keeps_valid(sorted: Seq<FirmwareReleaseView>, release: FirmwareReleaseView)
    requires
        all_versions_valid(sorted),
        semver_valid(release.version),
    ensures
        all_versions_valid(insert_newest_first(sorted, release)),
        insert_newest_first(sorted, release).len() == sorted.len() + 1,
    decreases sorted.len(),
{
    if sorted.len() > 0 && semver_newer(release.version, sorted.last().version) {
        assert forall|i: int| 0 <= i < sorted.drop_last().len() implies semver_valid(
            #[trigger] sorted.drop_last()[i].version,
        ) by {
            assert(sorted.drop_last()[i] == sorted[i]);
        }
        lemma_insert_keeps_valid(sorted.drop_last(), release);
        let r = insert_newest_first(sorted, release);
        let init = insert_newest_first(sorted.drop_last(), release);
        assert forall|i: int| 0 <= i < r.len() implies semver_valid(#[trigger] r[i].version) by {
            if i < init.len() {
                assert(r[i] == init[i]);
            } else {
                assert(r[i] == sorted.last());
                assert(sorted.last() == sorted[sorted.len() - 1]);
            }
        }
    } else {
        let r = sorted.push(release);
        assert forall|i: int| 0 <= i < r.len() implies semver_valid(#[trigger] r[i].version) by {
            if i < sorted.len() {
                assert(r[i] == sorted[i]);
            }
        }
    }
}

fn insert_release(sorted: &mut Vec<FirmwareRelease>, release: FirmwareRelease)
    requires
        all_versions_valid(release_views(old(sorted)@)),
        semver_valid(release.version@),
    ensures
        release_views(final(sorted)@) == insert_newest_first(release_views(old(sorted)@), release@),
        all_versions_valid(release_views(final(sorted)@)),
{
    let ghost views = release_views(sorted@);
    let mut at: usize = sorted.len();
    proof {
        assert(views.take(at as int) =~= views);
        assert(insert_newest_first(views, release@) + views.skip(at as int)
            =~= insert_newest_first(views, release@));
    }
    while at > 0 && is_newer(&release, &sorted[at - 1])
        invariant
            at <= sorted.len(),
            *sorted == *old(sorted),
            views == release_views(sorted@),
            all_versions_valid(views),
            semver_valid(release.version@),
            insert_newest_first(views, release@) == insert_newest_first(
                views.take(at as int),
                release@,
            ) + views.skip(at as int),
        decreases at,
    {
        let ghost head = views.take(at as int);
        assert(head.drop_last() =~= views.take(at - 1));
        assert(head.last() == sorted@[at - 1]@);
        assert(insert_newest_first(head, release@) + views.skip(at as int)
            =~= insert_newest_first(views.take(at - 1), release@) + views.skip(at - 1));
        at = at - 1;
    }
    proof {
        if at > 0 {
            assert(views.take(at as int).last() == sorted@[at - 1]@);
        }
        lemma_insert_keeps_valid(views, release@);
    }
    let ghost view = release@;
    sorted.insert(at, release);
    assert(release_views(sorted@) =~= views.take(at as int).push(view) + views.skip(at as int));
}

fn is_newer(release: &FirmwareRelease, other: &FirmwareRelease) -> (r: bool)
    requires
        semver_valid(release.version@),
        semver_valid(other.version@),
    ensures
        r == semver_newer(release.version@, other.version@),
{
    match version_newer(release.version.as_str(), other.version.as_str()) {
        Some(newer) => newer,
        None => false,
    }
}

/// The releases that can be read from the descriptions, the newest first.
/// A description that cannot be read is passed over.
pub fn available_versions(data: &[ReleaseData]) -> (r: Vec<FirmwareRelease>)
    ensures
        release_views(r@) == newest_first(readable_releases(data@)),
{
    let mut releases: Vec<FirmwareRelease> = Vec::new();
    let mut i: usize = 0;
    assert(data@.take(0) =~= Seq::<ReleaseData>::empty());
    assert(release_views(releases@) =~= newest_first(readable_releases(data@.take(0))));
    while i < data.len()
        invariant
            i <= data.len(),
            release_views(releases@) == newest_first(readable_releases(data@.take(i as int))),
            all_versions_valid(release_views(releases@)),
        decreases data.len() - i,
    {
        assert(data@.take(i + 1).drop_last() =~= data@.take(i as int));
        assert(data@.take(i + 1).last() == data@[i as int]);
        let ghost found = readable_releases(data@.take(i as int));
        match parse_github_release(&data[i]) {
            Ok(release) => {
                assert(found.push(release@).drop_last() =~= found);
                insert_release(&mut releases, release);
            },
            Err(_) => {},
        }
        i = i + 1;
    }
    assert(data@.take(data@.len() as int) =~= data@);
    releases
}

/// The address of the latest release of a repository, or of all of its
/// releases.
pub fn releases_url(api_base: &str, owner: &str, repo: &str, latest: bool) -> (r: String)
    ensures
        r@ == api_base@ + "/repos/"@ + owner@ + "/"@ + repo@ + (if latest {
            "/releases/latest"@
        } else {
            "/releases"@
        }),
{
    let mut url = api_base.to_owned();
    url.append("/repos/");
    url.append(owner);
    url.append("/");
    url.append(repo);
    if latest {
        url.append("/releases/latest");
    } else {
        url.append("/releases");
    }
    url
}

/// The name under which the image of a version is stored.
pub fn firmware_file_name(version: &str) -> (r: String)
    ensures
        r@ == "firmware-"@ + version@ + ".uf2"@,
{
    let mut name = "firmware-".to_owned();
    name.append(version);
    name.append(".uf2");
    name
}

/// A release to download, put together from what the user interface
/// knows of it, given whether its version is a semantic version and the
/// instant that its time of publication says. No checksum is known of it.
pub fn release_for_download(
    download_url: String,
    version: String,
    changelog: String,
    version_valid: bool,
    published_at: Option<Timestamp>,
    size_bytes: u64,
) -> (r: Result<FirmwareRelease, UpdateError>)
    ensures
        r == (if !version_valid {
            Err::<FirmwareRelease, UpdateError>(UpdateError::InvalidVersion)
        } else if published_at is None {
            Err::<FirmwareRelease, UpdateError>(UpdateError::InvalidDate)
        } else {
            Ok::<FirmwareRelease, UpdateError>(
                FirmwareRelease {
                    version,
                    download_url,
                    changelog,
                    published_at: published_at->0,
                    size_bytes,
                    sha256_hash: None,
                },
            )
        }),
{
    if !version_valid {
        return Err(UpdateError::InvalidVersion);
    }
    let at = match published_at {
        Some(at) => at,
        None => {
            return Err(UpdateError::InvalidDate);
        },
    };
    Ok(
        FirmwareRelease {
            version,
            download_url,
            changelog,
            published_at: at,
            size_bytes,
            sha256_hash: None,
        },
    )
}

/// A release to download, put together from what the user interface
/// knows of it: the version must be a semantic version and the time of
/// publication an RFC 3339 date and time. No checksum is known of it.
pub fn release_to_download(
    download_url: String,
    version: String,
    changelog: String,
    published_at: &str,
    size_bytes: u64,
) -> (r: Result<FirmwareRelease, UpdateError>)
    ensures
        match r {
            Ok(release) => semver_valid(version@) && rfc3339_instant(published_at@) is Some
                && release == (FirmwareRelease {
                version,
                download_url,
                changelog,
                published_at: rfc3339_instant(published_at@)->0,
                size_bytes,
                sha256_hash: None,
            }),
            Err(e) => if !semver_valid(version@) {
                e == UpdateError::InvalidVersion
            } else {
                e == UpdateError::InvalidDate && rfc3339_instant(published_at@) is None
            },
        },
{
    let version_valid = is_semver(version.as_str());
    let at = parse_rfc3339(published_at);
    release_for_download(download_url, version, changelog, version_valid, at, size_bytes)
}

} // verus!
