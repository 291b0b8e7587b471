//! The updater: which release to install, and what to do after a check.
//!
//! A `Check` is the state of one search for a newer release. The caller of this
//! module does what the state asks for, and hands the outcome to `advance`,
//! until the check is done.
use crate::health;
use crate::health::UpdaterStatus;
use crate::text;
use vstd::prelude::*;

verus! {

/// Where the latest release is described.
pub const LATEST_RELEASE: &'static str = "https://api.github.com/repos/stignarnia/PostgREST/releases/latest";

/// The seconds before the first check: a crash loop must not also become a
/// download loop.
pub const FIRST_CHECK: u64 = 60;

/// The seconds between two checks.
pub const INTERVAL: u64 = 21600;

/// The version of this package.
pub const PACKAGE_VERSION: &'static str = "0.1.0";

// ---------------------------------------------------------------------------
// Versions
// ---------------------------------------------------------------------------

pub type Version = (u64, u64, u64);

/// `s` without a `v` at its start.
pub open spec fn without_v(s: Seq<char>) -> Seq<char> {
    match text::after_prefix(s, seq!['v']) {
        Some(t) => t,
        None => s,
    }
}

/// The version that `s` writes: three numbers with dots between them, behind
/// an optional `v`.
pub open spec fn version_of(s: Seq<char>) -> Option<Version> {
    let parts = text::split(without_v(s), '.');
    if parts.len() == 3 {
        match (text::number(parts[0]), text::number(parts[1]), text::number(parts[2])) {
            (Some(a), Some(b), Some(c)) => Some((a, b, c)),
            _ => None,
        }
    } else {
        None
    }
}

/// Reads a version.
pub fn parse_version(s: &str) -> (r: Option<Version>)
    ensures
        r == version_of(s@),
{
    proof {
        reveal_strlit("v");
        assert("v"@ =~= seq!['v']);
    }
    let bare = match text::strip_prefix(s, "v") {
        Some(t) => t,
        None => s.to_owned(),
    };
    let parts = text::split_at_char(&bare, '.');
    let ghost shown = text::views(parts@);
    assert(shown.len() == parts@.len());
    if parts.len() != 3 {
        return None;
    }
    assert(shown[0] == parts@[0]@ && shown[1] == parts@[1]@ && shown[2] == parts@[2]@);
    match (
        text::parse_number(&parts[0]),
        text::parse_number(&parts[1]),
        text::parse_number(&parts[2]),
    ) {
        (Some(a), Some(b), Some(c)) => Some((a, b, c)),
        _ => None,
    }
}

/// A version as text: the three numbers with dots between them.
pub open spec fn dotted(v: Version) -> Seq<char> {
    (text::decimal(v.0 as nat).push('.') + text::decimal(v.1 as nat)).push('.') + text::decimal(
        v.2 as nat,
    )
}

/// A version as a release tag.
pub open spec fn tag(v: Version) -> Seq<char> {
    seq!['v'] + dotted(v)
}

/// Writes a version as a release tag.
pub fn format_version(v: Version) -> (r: String)
    ensures
        r@ == tag(v),
{
    let mut out = String::new();
    out.push('v');
    text::push_decimal(&mut out, v.0);
    out.push('.');
    text::push_decimal(&mut out, v.1);
    out.push('.');
    text::push_decimal(&mut out, v.2);
    assert(out@ =~= tag(v));
    out
}

proof fn lemma_digits_hold_no(n: nat, c: char)
    requires
        !text::is_digit(c),
    ensures
        !text::decimal(n).contains(c),
{
    text::decimal_stands_for_its_number(n);
    assert forall|i: int| 0 <= i < text::decimal(n).len() implies text::decimal(n)[i] != c by {
        assert(text::is_digit(text::decimal(n)[i]));
    }
}

proof fn lemma_dotted_parts(v: Version)
    ensures
        text::split(dotted(v), '.') == seq![
            text::decimal(v.0 as nat),
            text::decimal(v.1 as nat),
            text::decimal(v.2 as nat),
        ],
{
    let (a, b, c) = (
        text::decimal(v.0 as nat),
        text::decimal(v.1 as nat),
        text::decimal(v.2 as nat),
    );
    lemma_digits_hold_no(v.0 as nat, '.');
    lemma_digits_hold_no(v.1 as nat, '.');
    lemma_digits_hold_no(v.2 as nat, '.');
    text::split_keeps_whole(a, '.');
    text::split_separates_last(a, '.', b);
    text::split_separates_last(a.push('.') + b, '.', c);
    assert(seq![a].push(b).push(c) =~= seq![a, b, c]);
}

proof fn lemma_version_of_dotted(v: Version)
    ensures
        version_of(dotted(v)) == Some(v),
{
    lemma_dotted_parts(v);
    text::number_reads_decimal(v.0);
    text::number_reads_decimal(v.1);
    text::number_reads_decimal(v.2);
    text::decimal_stands_for_its_number(v.0 as nat);
    assert(dotted(v)[0] == text::decimal(v.0 as nat)[0]);
    assert(text::is_digit(text::decimal(v.0 as nat)[0]));
    assert(dotted(v).take(1)[0] == dotted(v)[0]);
    assert(dotted(v).take(1) != seq!['v']);
}

/// Reading back a version that was written as a tag gives the version.
pub proof fn version_reads_its_tag(v: Version)
    ensures
        version_of(tag(v)) == Some(v),
{
    lemma_dotted_parts(v);
    text::number_reads_decimal(v.0);
    text::number_reads_decimal(v.1);
    text::number_reads_decimal(v.2);
    assert(tag(v).take(1) =~= seq!['v']);
    assert(tag(v).skip(1) =~= dotted(v));
}

/// Two versions with the same tag are the same version.
pub proof fn tags_tell_versions_apart(v: Version, w: Version)
    requires
        tag(v) == tag(w),
    ensures
        v == w,
{
    version_reads_its_tag(v);
    version_reads_its_tag(w);
}

/// The version of this package.
pub fn current() -> (r: Version)
    ensures
        version_of(PACKAGE_VERSION@) == Some(r),
        r == (0u64, 1u64, 0u64),
{
    proof {
        reveal_strlit("0.1.0");
        assert(text::decimal(0) =~= seq!['0']);
        assert(text::decimal(1) =~= seq!['1']);
        assert(PACKAGE_VERSION@ =~= dotted((0, 1, 0)));
        lemma_version_of_dotted((0, 1, 0));
    }
    parse_version(PACKAGE_VERSION).unwrap()
}

/// Whether version `a` is newer than version `b`.
pub open spec fn is_newer(a: Version, b: Version) -> bool {
    a.0 > b.0 || (a.0 == b.0 && (a.1 > b.1 || (a.1 == b.1 && a.2 > b.2)))
}

/// Tells whether version `a` is newer than version `b`.
pub fn newer(a: Version, b: Version) -> (r: bool)
    ensures
        r == is_newer(a, b),
{
    a.0 > b.0 || (a.0 == b.0 && (a.1 > b.1 || (a.1 == b.1 && a.2 > b.2)))
}

/// Versions are in one order: of two, one is newer or they are the same.
pub proof fn versions_are_ordered(a: Version, b: Version, c: Version)
    ensures
        is_newer(a, b) || is_newer(b, a) || a == b,
        !(is_newer(a, b) && is_newer(b, a)),
        is_newer(a, b) && is_newer(b, c) ==> is_newer(a, c),
{
}

// ---------------------------------------------------------------------------
// One check
// ---------------------------------------------------------------------------

/// The platforms that releases are told apart by.
pub enum Platform {
    LinuxX86_64,
    WindowsX86_64,
    Other,
}

/// A file of a release: its name, and the bytes that an executable for the
/// platform starts with.
pub struct ReleaseAsset {
    pub name: &'static str,
    pub magic: Vec<u8>,
}

/// Whether an asset is the one for a platform.
pub open spec fn is_asset_for(platform: Platform, asset: Option<ReleaseAsset>) -> bool {
    match (platform, asset) {
        (Platform::LinuxX86_64, Some(a)) => a.name@ == "PostgREST-linux-amd64"@ && a.magic@
            == seq![0x7fu8, 0x45, 0x4c, 0x46],
        (Platform::WindowsX86_64, Some(a)) => a.name@ == "PostgREST-windows-amd64.exe"@ && a.magic@
            == seq![0x4du8, 0x5a],
        (Platform::Other, None) => true,
        _ => false,
    }
}

/// The file of a release for a platform, if releases have one.
pub fn release_asset(platform: Platform) -> (r: Option<ReleaseAsset>)
    ensures
        is_asset_for(platform, r),
{
    match platform {
        Platform::LinuxX86_64 => {
            let magic: Vec<u8> = vec![0x7f, 0x45, 0x4c, 0x46];
            assert(magic@ =~= seq![0x7fu8, 0x45, 0x4c, 0x46]);
            Some(ReleaseAsset { name: "PostgREST-linux-amd64", magic })
        },
        Platform::WindowsX86_64 => {
            let magic: Vec<u8> = vec![0x4d, 0x5a];
            assert(magic@ =~= seq![0x4du8, 0x5a]);
            Some(ReleaseAsset { name: "PostgREST-windows-amd64.exe", magic })
        },
        Platform::Other => None,
    }
}

/// How a check ends well.
pub enum Outcome {
    UpToDate(Version),
    Installed(Version),
}

/// How a check fails.
#[derive(Clone, Copy)]
pub enum UpdateError {
    NoAssetForPlatform,
    ClientSetup,
    ReleaseCheck,
    BadTag,
    MissingAsset,
    Download,
    SizeMismatch,
    NotExecutable,
    LocateExecutable,
    WriteUpdate,
    MarkExecutable,
    Replace,
}

impl UpdateError {
    /// The fixed label for a failure.
    pub open spec fn text(&self) -> Seq<char> {
        match self {
            UpdateError::NoAssetForPlatform => "no release asset for this platform"@,
            UpdateError::ClientSetup => "http client setup failed"@,
            UpdateError::ReleaseCheck => "release check failed"@,
            UpdateError::BadTag => "latest release tag is not vX.Y.Z"@,
            UpdateError::MissingAsset => "latest release has no asset for this platform"@,
            UpdateError::Download => "download failed"@,
            UpdateError::SizeMismatch => "download size mismatch"@,
            UpdateError::NotExecutable => "download is not an executable for this platform"@,
            UpdateError::LocateExecutable => "cannot locate own executable"@,
            UpdateError::WriteUpdate => "cannot write update next to executable"@,
            UpdateError::MarkExecutable => "cannot mark update executable"@,
            UpdateError::Replace => "replace failed"@,
        }
    }

    /// A fixed label: nothing that was fetched reaches a message.
    pub fn label(&self) -> (r: &'static str)
        ensures
            r@ == self.text(),
    {
        match self {
            UpdateError::NoAssetForPlatform => "no release asset for this platform",
            UpdateError::ClientSetup => "http client setup failed",
            UpdateError::ReleaseCheck => "release check failed",
            UpdateError::BadTag => "latest release tag is not vX.Y.Z",
            UpdateError::MissingAsset => "latest release has no asset for this platform",
            UpdateError::Download => "download failed",
            UpdateError::SizeMismatch => "download size mismatch",
            UpdateError::NotExecutable => "download is not an executable for this platform",
            UpdateError::LocateExecutable => "cannot locate own executable",
            UpdateError::WriteUpdate => "cannot write update next to executable",
            UpdateError::MarkExecutable => "cannot mark update executable",
            UpdateError::Replace => "replace failed",
        }
    }
}

/// A file of the latest release.
pub struct Asset {
    pub name: String,
    pub size: u64,
    pub browser_download_url: String,
}

/// The latest release.
pub struct Release {
    pub tag_name: String,
    pub assets: Vec<Asset>,
}

/// The first file with a name.
pub open spec fn first_named(assets: Seq<Asset>, name: Seq<char>) -> Option<Asset>
    decreases assets.len(),
{
    if assets.len() == 0 {
        None
    } else if assets[0].name@ == name {
        Some(assets[0])
    } else {
        first_named(assets.drop_first(), name)
    }
}

/// The index of the first file with a name, the number of files if there is
/// none.
fn find_asset(assets: &Vec<Asset>, name: &str) -> (r: usize)
    ensures
        r <= assets@.len(),
        first_named(assets@, name@) == (if r < assets@.len() {
            Some(assets@[r as int])
        } else {
            None
        }),
{
    let mut i: usize = 0;
    assert(assets@.skip(0) =~= assets@);
    while i < assets.len()
        invariant
            i <= assets@.len(),
            first_named(assets@, name@) == first_named(assets@.skip(i as int), name@),
        decreases assets@.len() - i,
    {
        assert(assets@.skip(i as int).drop_first() =~= assets@.skip(i + 1));
        if text::same(&assets[i].name, name) {
            return i;
        }
        i += 1;
    }
    i
}

/// Whether a file starts with the bytes of an executable.
pub open spec fn starts_with(bytes: Seq<u8>, magic: Seq<u8>) -> bool {
    magic.len() <= bytes.len() && bytes.take(magic.len() as int) == magic
}

fn has_magic(bytes: &Vec<u8>, magic: &Vec<u8>) -> (r: bool)
    ensures
        r == starts_with(bytes@, magic@),
{
    if bytes.len() < magic.len() {
        return false;
    }
    let mut i: usize = 0;
    while i < magic.len()
        invariant
            i <= magic@.len() <= bytes@.len(),
            forall|k: int| 0 <= k < i ==> bytes@[k] == magic@[k],
        decreases magic@.len() - i,
    {
        if bytes[i] != magic[i] {
            assert(bytes@.take(magic@.len() as int)[i as int] != magic@[i as int]);
            return false;
        }
        i += 1;
    }
    assert(bytes@.take(magic@.len() as int) =~= magic@);
    true
}

/// The state of a check.
pub enum Check {
    /// The HTTP client is to be set up.
    SetUp { asset: ReleaseAsset },
    /// The description of the latest release is to be fetched.
    Fetch { asset: ReleaseAsset },
    /// A file of a release is to be downloaded.
    Download { asset: ReleaseAsset, version: Version, size: u64, url: String },
    /// A downloaded file is to be installed over the running executable.
    Install { version: Version, bytes: Vec<u8> },
    /// Nothing is left to be done.
    Done(Result<Outcome, UpdateError>),
}

/// What became of a step of a check.
pub enum CheckEvent {
    ClientSetUp(bool),
    /// The latest release, if its description could be fetched and read.
    Fetched(Option<Release>),
    /// The file, if it could be downloaded.
    Downloaded(Option<Vec<u8>>),
    Installed(Result<(), UpdateError>),
}

/// What to do about the latest release.
pub open spec fn chosen(asset: ReleaseAsset, release: Release, current: Version) -> Check {
    match version_of(release.tag_name@) {
        None => Check::Done(Err(UpdateError::BadTag)),
        Some(version) => if !is_newer(version, current) {
            Check::Done(Ok(Outcome::UpToDate(version)))
        } else {
            match first_named(release.assets@, asset.name@) {
                None => Check::Done(Err(UpdateError::MissingAsset)),
                Some(file) => Check::Download {
                    asset,
                    version,
                    size: file.size,
                    url: file.browser_download_url,
                },
            }
        },
    }
}

/// What to do with a downloaded file.
pub open spec fn examined(magic: Seq<u8>, version: Version, size: u64, bytes: Vec<u8>) -> Check {
    if bytes@.len() != size {
        Check::Done(Err(UpdateError::SizeMismatch))
    } else if !starts_with(bytes@, magic) {
        Check::Done(Err(UpdateError::NotExecutable))
    } else {
        Check::Install { version, bytes }
    }
}

/// The state of a check after an event. An event that the state did not ask for
/// changes nothing.
pub open spec fn advanced(check: Check, event: CheckEvent, current: Version) -> Check {
    match (check, event) {
        (Check::SetUp { asset }, CheckEvent::ClientSetUp(ok)) => if ok {
            Check::Fetch { asset }
        } else {
            Check::Done(Err(UpdateError::ClientSetup))
        },
        (Check::Fetch { asset }, CheckEvent::Fetched(found)) => match found {
            Some(release) => chosen(asset, release, current),
            None => Check::Done(Err(UpdateError::ReleaseCheck)),
        },
        (Check::Download { asset, version, size, url }, CheckEvent::Downloaded(file)) => match file {
            Some(bytes) => examined(asset.magic@, version, size, bytes),
            None => Check::Done(Err(UpdateError::Download)),
        },
        (Check::Install { version, bytes }, CheckEvent::Installed(result)) => match result {
            Ok(_) => Check::Done(Ok(Outcome::Installed(version))),
            Err(e) => Check::Done(Err(e)),
        },
        _ => check,
    }
}

/// The start of a check on a platform.
pub fn begin_check(platform: Platform) -> (r: Check)
    ensures
        match r {
            Check::SetUp { asset } => is_asset_for(platform, Some(asset)),
            Check::Done(Err(UpdateError::NoAssetForPlatform)) => platform is Other,
            _ => false,
        },
{
    match release_asset(platform) {
        Some(asset) => Check::SetUp { asset },
        None => Check::Done(Err(UpdateError::NoAssetForPlatform)),
    }
}

/// Decides what to do about the latest release.
pub fn choose_release(asset: ReleaseAsset, release: Release, current: Version) -> (r: Check)
    ensures
        r == chosen(asset, release, current),
{
    match parse_version(&release.tag_name) {
        None => Check::Done(Err(UpdateError::BadTag)),
        Some(version) => if !newer(version, current) {
            Check::Done(Ok(Outcome::UpToDate(version)))
        } else {
            let i = find_asset(&release.assets, asset.name);
            if i < release.assets.len() {
                let file = &release.assets[i];
                Check::Download {
                    asset,
                    version,
                    size: file.size,
                    url: file.browser_download_url.clone(),
                }
            } else {
                Check::Done(Err(UpdateError::MissingAsset))
            }
        },
    }
}

/// Moves a check on.
pub fn advance(check: Check, event: CheckEvent, current: Version) -> (r: Check)
    ensures
        r == advanced(check, event, current),
{
    match (check, event) {
        (Check::SetUp { asset }, CheckEvent::ClientSetUp(ok)) => if ok {
            Check::Fetch { asset }
        } else {
            Check::Done(Err(UpdateError::ClientSetup))
        },
        (Check::Fetch { asset }, CheckEvent::Fetched(found)) => match found {
            Some(release) => choose_release(asset, release, current),
            None => Check::Done(Err(UpdateError::ReleaseCheck)),
        },
        (Check::Download { asset, version, size, url }, CheckEvent::Downloaded(file)) => match file {
            Some(bytes) => if bytes.len() as u64 != size {
                Check::Done(Err(UpdateError::SizeMismatch))
            } else if !has_magic(&bytes, &asset.magic) {
                Check::Done(Err(UpdateError::NotExecutable))
            } else {
                Check::Install { version, bytes }
            },
            None => Check::Done(Err(UpdateError::Download)),
        },
        (Check::Install { version, bytes }, CheckEvent::Installed(result)) => match result {
            Ok(_) => Check::Done(Ok(Outcome::Installed(version))),
            Err(e) => Check::Done(Err(e)),
        },
        (check, _) => check,
    }
}

/// A check on a machine that runs version `current` stays sound: only strictly
/// newer releases are downloaded or installed, and what is installed starts
/// with the magic bytes of its platform.
pub open spec fn is_sound(check: Check, current: Version, magic: Seq<u8>) -> bool {
    match check {
        Check::SetUp { asset } => asset.magic@ == magic,
        Check::Fetch { asset } => asset.magic@ == magic,
        Check::Download { asset, version, .. } => asset.magic@ == magic && is_newer(
            version,
            current,
        ),
        Check::Install { version, bytes } => is_newer(version, current) && starts_with(
            bytes@,
            magic,
        ),
        Check::Done(Ok(Outcome::Installed(version))) => is_newer(version, current),
        Check::Done(Ok(Outcome::UpToDate(version))) => !is_newer(version, current),
        Check::Done(Err(_)) => true,
    }
}

/// The state of a check after a row of events.
pub open spec fn after_events(check: Check, events: Seq<CheckEvent>, current: Version) -> Check
    decreases events.len(),
{
    if events.len() == 0 {
        check
    } else {
        advanced(after_events(check, events.drop_last(), current), events.last(), current)
    }
}

/// Whatever happens, a check installs only a strictly newer release, and only a
/// file that starts with the magic bytes of the platform.
pub proof fn check_installs_only_newer(
    asset: ReleaseAsset,
    events: Seq<CheckEvent>,
    current: Version,
)
    ensures
        is_sound(
            after_events(Check::SetUp { asset }, events, current),
            current,
            asset.magic@,
        ),
    decreases events.len(),
{
    if events.len() > 0 {
        check_installs_only_newer(asset, events.drop_last(), current);
    }
}

/// A file is only handed on for installation if it has the size that the
/// release gives for it.
pub proof fn check_installs_only_full_downloads(
    asset: ReleaseAsset,
    version: Version,
    size: u64,
    url: String,
    bytes: Vec<u8>,
    current: Version,
)
    ensures
        advanced(
            Check::Download { asset, version, size, url },
            CheckEvent::Downloaded(Some(bytes)),
            current,
        ) is Install <==> bytes@.len() == size && starts_with(bytes@, asset.magic@),
{
}

/// A check that is done stays so.
pub proof fn done_checks_stay_done(
    result: Result<Outcome, UpdateError>,
    event: CheckEvent,
    current: Version,
)
    ensures
        advanced(Check::Done(result), event, current) == Check::Done(result),
{
}

// ---------------------------------------------------------------------------
// The background loop
// ---------------------------------------------------------------------------

/// Switches the updater on or off, and gives the seconds to wait before the
/// first check, if there is to be one.
pub fn begin_updates(state: &mut health::Health, enabled: bool) -> (r: Option<u64>)
    ensures
        final(state).errors == old(state).errors,
        final(state).updater == health::switched(old(state).updater, enabled),
        r == (if enabled {
            Some(FIRST_CHECK)
        } else {
            None
        }),
{
    let switch = |u: &mut UpdaterStatus| -> (r: ())
        ensures
            *final(u) == health::switched(*old(u), enabled),
        {
            u.enabled = enabled;
        };
    health::update_updater(state, switch);
    if enabled {
        Some(FIRST_CHECK)
    } else {
        None
    }
}

/// What the background loop does after a check, and what it prints.
pub enum UpdaterStep {
    /// The process is to exit with a failure status, so that the service
    /// manager starts the new executable.
    Restart { message: String },
    /// The next check comes after so many seconds.
    Wait { secs: u64, line: Option<String> },
}

/// The release that a check found.
pub open spec fn found_release(outcome: Outcome) -> Version {
    match outcome {
        Outcome::UpToDate(v) => v,
        Outcome::Installed(v) => v,
    }
}

/// Whether `status` is the updater's state after a check that ended at `at`.
pub open spec fn shows_check(
    before: health::UpdaterStatus,
    status: health::UpdaterStatus,
    at: u64,
    result: Result<Outcome, UpdateError>,
) -> bool {
    &&& status.enabled == before.enabled
    &&& status.last_check == Some(at)
    &&& match result {
        Ok(outcome) => {
            &&& status.latest_release matches Some(t) && t@ == tag(found_release(outcome))
            &&& status.last_error is None
        },
        Err(e) => {
            &&& status.latest_release == before.latest_release
            &&& status.last_error matches Some(l) && l@ == e.text()
        },
    }
}

/// Whether `step` is what follows a check.
pub open spec fn follows_check(step: UpdaterStep, result: Result<Outcome, UpdateError>) -> bool {
    match (result, step) {
        (Ok(Outcome::Installed(v)), UpdaterStep::Restart { message }) => message@ == "updater: installed "@
            + tag(v) + ", restarting"@,
        (Ok(Outcome::UpToDate(_)), UpdaterStep::Wait { secs, line }) => secs == INTERVAL
            && line is None,
        (Err(e), UpdaterStep::Wait { secs, line }) => secs == INTERVAL && (line matches Some(l)
            && l@ == "updater: "@ + e.text()),
        _ => false,
    }
}

/// Whether an entry of the error log notes a failed check.
pub open spec fn notes_failed_check(entry: health::ErrorEntry, at: u64, e: UpdateError) -> bool {
    &&& entry.at == at
    &&& entry.source@ == "updater"@
    &&& entry.kind@ == e.text()
    &&& entry.host is None
    &&& entry.code is None
}

/// Takes the result of a check: shows it in the updater's state, notes a
/// failure in the log, and says how the loop goes on. `checked` and `noted` are
/// the times of the two.
pub fn after_check(
    state: &mut health::Health,
    checked: u64,
    noted: u64,
    result: Result<Outcome, UpdateError>,
) -> (r: UpdaterStep)
    requires
        old(state).errors.well_formed(),
    ensures
        final(state).errors.well_formed(),
        shows_check(old(state).updater, final(state).updater, checked, result),
        follows_check(r, result),
        match result {
            Ok(_) => final(state).errors@ == old(state).errors@,
            Err(e) => exists|entry: health::ErrorEntry| #[trigger]
                notes_failed_check(entry, noted, e) && final(state).errors@ == health::latest(
                    old(state).errors@.push(entry),
                ),
        },
{
    let found: Result<String, &'static str> = match &result {
        Ok(Outcome::UpToDate(v)) => Ok(format_version(*v)),
        Ok(Outcome::Installed(v)) => Ok(format_version(*v)),
        Err(e) => Err(e.label()),
    };
    let note = |u: &mut UpdaterStatus| -> (r: ())
        ensures
            *final(u) == health::checked(*old(u), checked, found),
        {
            health::note_check(u, checked, found);
        };
    health::update_updater(state, note);
    match result {
        Ok(Outcome::Installed(v)) => {
            let message = "updater: installed ".to_owned().concat(&format_version(v)).concat(
                ", restarting",
            );
            UpdaterStep::Restart { message }
        },
        Ok(Outcome::UpToDate(_)) => UpdaterStep::Wait { secs: INTERVAL, line: None },
        Err(e) => {
            let line = "updater: ".to_owned().concat(e.label());
            let kind = e.label();
            let ghost entry = health::ErrorEntry {
                at: noted,
                source: "updater",
                kind,
                host: None,
                code: None,
            };
            health::record_at(&mut state.errors, noted, "updater", kind, None, None);
            assert(notes_failed_check(entry, noted, e));
            UpdaterStep::Wait { secs: INTERVAL, line: Some(line) }
        },
    }
}

// ---------------------------------------------------------------------------
// What holds of every call
// ---------------------------------------------------------------------------

/// The first number that differs decides which of two versions is newer: the
/// one with the greater major number is, whatever the rest; with the same major
/// number the one with the greater minor number, whatever the patch; and then
/// the one with the greater patch number. No version is newer than itself.
pub proof fn first_difference_decides(a: Version, b: Version, r: bool)
    requires
        call_ensures(newer, (a, b), r),
    ensures
        a.0 > b.0 ==> r,
        a.0 < b.0 ==> !r,
        a.0 == b.0 && a.1 > b.1 ==> r,
        a.0 == b.0 && a.1 < b.1 ==> !r,
        a.0 == b.0 && a.1 == b.1 ==> r == (a.2 > b.2),
{
}

/// The same of the relation between versions: the first number that differs
/// decides, by its size.
pub proof fn versions_are_compared_number_by_number(a: Version, b: Version)
    ensures
        a.0 > b.0 ==> is_newer(a, b),
        a.0 < b.0 ==> !is_newer(a, b),
        a.0 == b.0 && a.1 > b.1 ==> is_newer(a, b),
        a.0 == b.0 && a.1 < b.1 ==> !is_newer(a, b),
        a.0 == b.0 && a.1 == b.1 ==> is_newer(a, b) == (a.2 > b.2),
{
}

/// Whether `s` writes the three numbers of a version, with dots between them.
pub open spec fn writes(s: Seq<char>, v: Version, x: Seq<char>, y: Seq<char>, z: Seq<char>) -> bool {
    &&& s == x + seq!['.'] + y + seq!['.'] + z
    &&& text::number(x) == Some(v.0)
    &&& text::number(y) == Some(v.1)
    &&& text::number(z) == Some(v.2)
}

proof fn lemma_number_holds_no_dot(x: Seq<char>)
    requires
        text::number(x) is Some,
    ensures
        !x.contains('.'),
{
    let t = text::without_plus(x);
    assert forall|i: int| 0 <= i < x.len() implies x[i] != '.' by {
        if x[0] == '+' {
            if i > 0 {
                assert(t[i - 1] == x[i]);
                assert(text::is_digit(t[i - 1]));
            }
        } else {
            assert(text::is_digit(t[i]));
        }
    }
}

proof fn lemma_three_parts(x: Seq<char>, y: Seq<char>, z: Seq<char>)
    requires
        !x.contains('.'),
        !y.contains('.'),
        !z.contains('.'),
    ensures
        text::split(x + seq!['.'] + y + seq!['.'] + z, '.') == seq![x, y, z],
{
    text::split_keeps_whole(x, '.');
    text::split_separates_last(x, '.', y);
    text::split_separates_last(x.push('.') + y, '.', z);
    assert(x + seq!['.'] + y + seq!['.'] + z =~= (x.push('.') + y).push('.') + z);
    assert(seq![x].push(y).push(z) =~= seq![x, y, z]);
}

/// A version is read exactly where three numbers are written with dots between
/// them, with a `v` before them or without one. `bare` is the string without it.
pub proof fn versions_are_three_numbers(s: &str, bare: Seq<char>, r: Option<Version>)
    requires
        call_ensures(parse_version, (s,), r),
        s@ == seq!['v'] + bare || (s@ == bare && !seq!['v'].is_prefix_of(bare)),
    ensures
        r matches Some(v) ==> exists|x: Seq<char>, y: Seq<char>, z: Seq<char>| #[trigger]
            writes(bare, v, x, y, z),
        forall|v: Version, x: Seq<char>, y: Seq<char>, z: Seq<char>| #[trigger]
            writes(bare, v, x, y, z) ==> r == Some(v),
{
    if s@ == seq!['v'] + bare {
        assert(s@.take(1) =~= seq!['v']);
        assert(s@.skip(1) =~= bare);
    } else if s@.len() > 0 && s@.take(1) == seq!['v'] {
        assert(s@.take(1)[0] == s@[0]);
        assert(seq!['v'] =~= bare.subrange(0, 1));
    }
    assert(without_v(s@) == bare);
    let parts = text::split(bare, '.');
    if let Some(v) = r {
        lemma_parts_write(bare, v);
        assert(writes(bare, v, parts[0], parts[1], parts[2]));
    }
    assert forall|v: Version, x: Seq<char>, y: Seq<char>, z: Seq<char>| #[trigger]
        writes(bare, v, x, y, z) implies r == Some(v) by {
        lemma_number_holds_no_dot(x);
        lemma_number_holds_no_dot(y);
        lemma_number_holds_no_dot(z);
        lemma_three_parts(x, y, z);
    }
}

proof fn lemma_parts_write(bare: Seq<char>, v: Version)
    requires
        text::split(bare, '.').len() == 3,
        text::number(text::split(bare, '.')[0]) == Some(v.0),
        text::number(text::split(bare, '.')[1]) == Some(v.1),
        text::number(text::split(bare, '.')[2]) == Some(v.2),
    ensures
        writes(
            bare,
            v,
            text::split(bare, '.')[0],
            text::split(bare, '.')[1],
            text::split(bare, '.')[2],
        ),
{
    let p = text::split(bare, '.');
    text::split_is_joined(bare, '.');
    let (x, y, z) = (p[0], p[1], p[2]);
    assert(p.drop_last() =~= seq![x, y]);
    assert(seq![x, y].drop_last() =~= seq![x]);
    let dot = seq!['.'];
    assert(text::joined(seq![x], dot) == x);
    assert(text::joined(seq![x, y], dot) == x + dot + y);
    assert(text::joined(p, dot) == x + dot + y + dot + z);
}

/// A tag is a `v` and the three numbers in decimal with dots between them.
pub proof fn tags_show_the_numbers(v: Version, r: String)
    requires
        call_ensures(format_version, (v,), r),
    ensures
        r@ == seq!['v'] + text::decimal(v.0 as nat) + seq!['.'] + text::decimal(v.1 as nat) + seq!['.']
            + text::decimal(v.2 as nat),
{
    assert(r@ =~= seq!['v'] + text::decimal(v.0 as nat) + seq!['.'] + text::decimal(v.1 as nat)
        + seq!['.'] + text::decimal(v.2 as nat));
}

/// Each platform has its own file, with the first bytes of its executables, and
/// a check on it looks for that file; on others a check ends at once.
pub proof fn platforms_have_their_files(platform: Platform, r: Check)
    requires
        call_ensures(begin_check, (platform,), r),
    ensures
        platform is LinuxX86_64 ==> (r matches Check::SetUp { asset } && asset.name@
            == "PostgREST-linux-amd64"@ && asset.magic@ == seq![0x7fu8, 0x45, 0x4c, 0x46]),
        platform is WindowsX86_64 ==> (r matches Check::SetUp { asset } && asset.name@
            == "PostgREST-windows-amd64.exe"@ && asset.magic@ == seq![0x4du8, 0x5a]),
        platform is Other ==> r == Check::Done(Err(UpdateError::NoAssetForPlatform)),
{
}

proof fn lemma_first_named(assets: Seq<Asset>, name: Seq<char>)
    ensures
        match first_named(assets, name) {
            Some(file) => exists|i: int|
                0 <= i < assets.len() && #[trigger] assets[i] == file && file.name@ == name
                    && forall|j: int| 0 <= j < i ==> (#[trigger] assets[j]).name@ != name,
            None => forall|j: int| 0 <= j < assets.len() ==> (#[trigger] assets[j]).name@ != name,
        },
    decreases assets.len(),
{
    if assets.len() > 0 {
        if assets[0].name@ != name {
            let d = assets.drop_first();
            lemma_first_named(d, name);
            match first_named(d, name) {
                Some(file) => {
                    let i = choose|i: int|
                        0 <= i < d.len() && #[trigger] d[i] == file && file.name@ == name && forall|
                            j: int,
                        |
                            0 <= j < i ==> (#[trigger] d[j]).name@ != name;
                    assert(assets[i + 1] == file);
                    assert forall|j: int| 0 <= j < i + 1 implies (#[trigger] assets[j]).name@
                        != name by {
                        if j > 0 {
                            assert(d[j - 1] == assets[j]);
                        }
                    }
                },
                None => {
                    assert forall|j: int| 0 <= j < assets.len() implies (#[trigger] assets[j]).name@
                        != name by {
                        if j > 0 {
                            assert(d[j - 1] == assets[j]);
                        }
                    }
                },
            }
        } else {
            assert(assets[0] == first_named(assets, name)->0);
        }
    }
}

/// A release is downloaded exactly where its version is greater than the one
/// that runs, number by number, and it has a file for the platform; what is
/// downloaded is the first file of that name, with its size and its URL. A
/// version that is not greater is told as up to date, with its own numbers.
pub proof fn greater_releases_are_downloaded(
    asset: ReleaseAsset,
    release: Release,
    current: Version,
    v: Version,
    r: Check,
)
    requires
        call_ensures(choose_release, (asset, release, current), r),
        version_of(release.tag_name@) == Some(v),
    ensures
        ({
            let greater = v.0 > current.0 || (v.0 == current.0 && v.1 > current.1) || (v.0
                == current.0 && v.1 == current.1 && v.2 > current.2);
            &&& !greater ==> r == Check::Done(Ok(Outcome::UpToDate(v)))
            &&& greater ==> match r {
                Check::Download { asset: a, version, size, url } => a == asset && version == v
                    && exists|i: int|
                    0 <= i < release.assets@.len() && (#[trigger] release.assets@[i]).name@
                        == asset.name@ && size == release.assets@[i].size && url@
                        == release.assets@[i].browser_download_url@ && forall|j: int|
                        0 <= j < i ==> (#[trigger] release.assets@[j]).name@ != asset.name@,
                Check::Done(Err(UpdateError::MissingAsset)) => forall|j: int|
                    0 <= j < release.assets@.len() ==> (#[trigger] release.assets@[j]).name@
                        != asset.name@,
                _ => false,
            }
        }),
{
    lemma_first_named(release.assets@, asset.name@);
}

/// A release whose tag is no version is refused.
pub proof fn bad_tags_are_refused(asset: ReleaseAsset, release: Release, current: Version, r: Check)
    requires
        call_ensures(choose_release, (asset, release, current), r),
        version_of(release.tag_name@) is None,
    ensures
        r == Check::Done(Err(UpdateError::BadTag)),
{
}

/// A client that could not be set up, or a release that could not be fetched,
/// ends the check; otherwise the check goes on for the same file.
pub proof fn checks_begin_in_order(
    asset: ReleaseAsset,
    ok: bool,
    current: Version,
    r: Check,
    s: Check,
)
    requires
        call_ensures(advance, (Check::SetUp { asset }, CheckEvent::ClientSetUp(ok), current), r),
        call_ensures(advance, (Check::Fetch { asset }, CheckEvent::Fetched(None), current), s),
    ensures
        ok ==> r == (Check::Fetch { asset }),
        !ok ==> r == Check::Done(Err(UpdateError::ClientSetup)),
        s == Check::Done(Err(UpdateError::ReleaseCheck)),
{
}

/// A release that was fetched is chosen from as `choose_release` does.
pub proof fn fetched_releases_are_chosen_from(
    asset: ReleaseAsset,
    release: Release,
    current: Version,
    r: Check,
    s: Check,
)
    requires
        call_ensures(
            advance,
            (Check::Fetch { asset }, CheckEvent::Fetched(Some(release)), current),
            r,
        ),
        call_ensures(choose_release, (asset, release, current), s),
    ensures
        r == s,
{
}

/// A download is installed, byte for byte and as the version that it was chosen
/// for, exactly where it has the size that the release gives and begins with
/// the bytes of an executable; its size is looked at first.
pub proof fn sound_downloads_are_installed(
    asset: ReleaseAsset,
    version: Version,
    size: u64,
    url: String,
    bytes: Vec<u8>,
    current: Version,
    r: Check,
)
    requires
        call_ensures(
            advance,
            (
                Check::Download { asset, version, size, url },
                CheckEvent::Downloaded(Some(bytes)),
                current,
            ),
            r,
        ),
    ensures
        ({
            let begins = asset.magic@.len() <= bytes@.len() && forall|i: int|
                0 <= i < asset.magic@.len() ==> bytes@[i] == #[trigger] asset.magic@[i];
            &&& bytes@.len() != size ==> r == Check::Done(Err(UpdateError::SizeMismatch))
            &&& bytes@.len() == size && !begins ==> r == Check::Done(
                Err(UpdateError::NotExecutable),
            )
            &&& bytes@.len() == size && begins ==> r == (Check::Install { version, bytes })
        }),
{
    let n = asset.magic@.len() as int;
    let begins = n <= bytes@.len() && forall|i: int|
        0 <= i < n ==> bytes@[i] == #[trigger] asset.magic@[i];
    if begins {
        assert(bytes@.take(n) =~= asset.magic@);
    } else if n <= bytes@.len() {
        let i = choose|i: int| 0 <= i < n && bytes@[i] != #[trigger] asset.magic@[i];
        assert(bytes@.take(n)[i] != asset.magic@[i]);
    }
}

/// A download that failed ends the check; an installation ends it with its
/// version, or with its own failure.
pub proof fn checks_end_with_their_step(
    asset: ReleaseAsset,
    version: Version,
    size: u64,
    url: String,
    bytes: Vec<u8>,
    result: Result<(), UpdateError>,
    current: Version,
    r: Check,
    s: Check,
)
    requires
        call_ensures(
            advance,
            (Check::Download { asset, version, size, url }, CheckEvent::Downloaded(None), current),
            r,
        ),
        call_ensures(
            advance,
            (Check::Install { version, bytes }, CheckEvent::Installed(result), current),
            s,
        ),
    ensures
        r == Check::Done(Err(UpdateError::Download)),
        result is Ok ==> s == Check::Done(Ok(Outcome::Installed(version))),
        result matches Err(e) ==> s == Check::Done(Err(e)),
{
}

/// An event that a check did not ask for, and any event once it is done, leaves
/// it as it is.
pub proof fn unasked_events_change_nothing(
    check: Check,
    event: CheckEvent,
    current: Version,
    r: Check,
)
    requires
        call_ensures(advance, (check, event, current), r),
        !(check is SetUp && event is ClientSetUp),
        !(check is Fetch && event is Fetched),
        !(check is Download && event is Downloaded),
        !(check is Install && event is Installed),
    ensures
        r == check,
{
}

/// Updates that are off wait for nothing; others begin after a minute. Nothing
/// else changes.
pub proof fn updates_begin_after_a_minute(
    state: &mut health::Health,
    enabled: bool,
    r: Option<u64>,
)
    requires
        call_ensures(begin_updates, (state, enabled), r),
    ensures
        enabled ==> r == Some(60u64),
        !enabled ==> r is None,
        final(state).updater.enabled == enabled,
        final(state).updater.last_check == old(state).updater.last_check,
        final(state).updater.latest_release == old(state).updater.latest_release,
        final(state).updater.last_error == old(state).updater.last_error,
        final(state).errors@ == old(state).errors@,
{
}

/// Only an installed release ends the process; after anything else the next
/// check comes in six hours. The state shows the release or the label of the
/// failure, and a failure alone is printed and noted, as the last entry of the
/// log.
pub proof fn checks_lead_on(
    state: &mut health::Health,
    at: u64,
    noted: u64,
    result: Result<Outcome, UpdateError>,
    r: UpdaterStep,
)
    requires
        call_ensures(after_check, (state, at, noted, result), r),
        old(state).errors@.len() <= 50,
    ensures
        final(state).updater.enabled == old(state).updater.enabled,
        final(state).updater.last_check == Some(at),
        match result {
            Ok(Outcome::Installed(v)) => {
                &&& r matches UpdaterStep::Restart { message } && message@ == "updater: installed "@
                    + tag(v) + ", restarting"@
                &&& final(state).updater.latest_release matches Some(t) && t@ == tag(v)
                &&& final(state).updater.last_error is None
                &&& final(state).errors@ == old(state).errors@
            },
            Ok(Outcome::UpToDate(v)) => {
                &&& r matches UpdaterStep::Wait { secs, line } && secs == 21600 && line is None
                &&& final(state).updater.latest_release matches Some(t) && t@ == tag(v)
                &&& final(state).updater.last_error is None
                &&& final(state).errors@ == old(state).errors@
            },
            Err(e) => {
                let log = final(state).errors@;
                &&& r matches UpdaterStep::Wait { secs, line } && secs == 21600 && (line matches
                    Some(l) && l@ == "updater: "@ + e.text())
                &&& final(state).updater.latest_release == old(state).updater.latest_release
                &&& final(state).updater.last_error matches Some(l) && l@ == e.text()
                &&& health::has_one_more(old(state).errors@, log)
                &&& log.last().at == noted
                &&& log.last().source@ == "updater"@
                &&& log.last().kind@ == e.text()
                &&& log.last().host is None
                &&& log.last().code is None
            },
        },
{
}

/// Each failure has its own label.
pub proof fn labels_are_fixed(e: UpdateError, r: &'static str)
    requires
        call_ensures(UpdateError::label, (&e,), r),
    ensures
        e is NoAssetForPlatform ==> r@ == "no release asset for this platform"@,
        e is ClientSetup ==> r@ == "http client setup failed"@,
        e is ReleaseCheck ==> r@ == "release check failed"@,
        e is BadTag ==> r@ == "latest release tag is not vX.Y.Z"@,
        e is MissingAsset ==> r@ == "latest release has no asset for this platform"@,
        e is Download ==> r@ == "download failed"@,
        e is SizeMismatch ==> r@ == "download size mismatch"@,
        e is NotExecutable ==> r@ == "download is not an executable for this platform"@,
        e is LocateExecutable ==> r@ == "cannot locate own executable"@,
        e is WriteUpdate ==> r@ == "cannot write update next to executable"@,
        e is MarkExecutable ==> r@ == "cannot mark update executable"@,
        e is Replace ==> r@ == "replace failed"@,
{
}

/// There is a file for each of two platforms, with its own name and first bytes,
/// and for no other.
pub proof fn two_platforms_have_a_file(platform: Platform, r: Option<ReleaseAsset>)
    requires
        call_ensures(release_asset, (platform,), r),
    ensures
        platform is LinuxX86_64 ==> (r matches Some(asset) && asset.name@
            == "PostgREST-linux-amd64"@ && asset.magic@ == seq![0x7fu8, 0x45, 0x4c, 0x46]),
        platform is WindowsX86_64 ==> (r matches Some(asset) && asset.name@
            == "PostgREST-windows-amd64.exe"@ && asset.magic@ == seq![0x4du8, 0x5a]),
        platform is Other ==> r is None,
{
}

} // verus!
