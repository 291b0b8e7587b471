use postgrest::health;
use postgrest::updater::{
    advance, after_check, begin_check, begin_updates, choose_release, current, format_version, newer,
    parse_version, release_asset, Asset, Check, CheckEvent, Outcome, Platform, Release, UpdateError,
    UpdaterStep, FIRST_CHECK, INTERVAL, PACKAGE_VERSION,
};

fn release(tag: &str, names: &[&str]) -> Release {
    Release {
        tag_name: tag.to_string(),
        assets: names
            .iter()
            .enumerate()
            .map(|(i, n)| Asset {
                name: n.to_string(),
                size: 6,
                browser_download_url: format!("https://example.com/{}", i),
            })
            .collect(),
    }
}

fn failure(check: Check) -> &'static str {
    match check {
        Check::Done(Err(e)) => e.label(),
        _ => panic!("the check did not fail"),
    }
}

#[test]
fn versions_are_parsed() {
    assert_eq!(parse_version("v1.2.3"), Some((1, 2, 3)));
    assert_eq!(parse_version("1.2.3"), Some((1, 2, 3)));
    assert_eq!(parse_version("v+1.2.03"), Some((1, 2, 3)));
    for s in ["", "v", "1", "1.2", "1.2.3.4", "vv1.2.3", "1.2.x", "V1.2.3", "1..3", "1.2.3 "] {
        assert_eq!(parse_version(s), None, "{:?}", s);
    }
    assert_eq!(parse_version("1.2.18446744073709551616"), None);
}

#[test]
fn versions_read_their_tags() {
    for v in [(0, 0, 0), (1, 20, 300), (u64::MAX, 0, 9)] {
        assert_eq!(parse_version(&format_version(v)), Some(v));
    }
    assert_eq!(format_version((1, 20, 3)), "v1.20.3");
    assert_ne!(format_version((1, 12, 3)), format_version((11, 2, 3)));
}

#[test]
fn current_version_is_that_of_the_package() {
    assert_eq!(parse_version(PACKAGE_VERSION), Some(current()));
    assert_eq!(current(), (0, 1, 0));
}

#[test]
fn versions_are_ordered_like_tuples() {
    let all = [(0, 1, 0), (0, 1, 1), (0, 2, 0), (1, 0, 0), (1, 0, 9), (0, 0, 99)];
    for a in all {
        for b in all {
            assert_eq!(newer(a, b), a > b);
        }
    }
}

#[test]
fn a_newer_release_is_installed() {
    let mut check = begin_check(Platform::LinuxX86_64);
    check = advance(check, CheckEvent::ClientSetUp(true), current());
    let r = release("v0.1.1", &["PostgREST-windows-amd64.exe", "PostgREST-linux-amd64"]);
    check = advance(check, CheckEvent::Fetched(Some(r)), current());
    match &check {
        Check::Download { version, size, url, .. } => {
            assert_eq!(*version, (0, 1, 1));
            assert_eq!(*size, 6);
            assert_eq!(url, "https://example.com/1");
        }
        _ => panic!("no download"),
    }
    check = advance(check, CheckEvent::Downloaded(Some(b"\x7fELF..".to_vec())), current());
    match &check {
        Check::Install { version, bytes } => {
            assert_eq!(*version, (0, 1, 1));
            assert_eq!(bytes, b"\x7fELF..");
        }
        _ => panic!("no installation"),
    }
    check = advance(check, CheckEvent::Installed(Ok(())), current());
    assert!(matches!(check, Check::Done(Ok(Outcome::Installed((0, 1, 1))))));
    check = advance(check, CheckEvent::ClientSetUp(false), current());
    assert!(matches!(check, Check::Done(Ok(Outcome::Installed((0, 1, 1))))));
}

#[test]
fn an_older_or_equal_release_is_not_installed() {
    for tag in ["v0.1.0", "0.0.9"] {
        let asset = release_asset(Platform::WindowsX86_64).unwrap();
        let check = choose_release(asset, release(tag, &["PostgREST-windows-amd64.exe"]), current());
        match check {
            Check::Done(Ok(Outcome::UpToDate(v))) => assert_eq!(Some(v), parse_version(tag)),
            _ => panic!("{} is not newer", tag),
        }
    }
}

#[test]
fn every_failure_of_a_check_has_its_label() {
    assert_eq!(failure(begin_check(Platform::Other)), "no release asset for this platform");
    let begin = || begin_check(Platform::WindowsX86_64);
    assert_eq!(
        failure(advance(begin(), CheckEvent::ClientSetUp(false), current())),
        "http client setup failed"
    );
    let fetch = || advance(begin(), CheckEvent::ClientSetUp(true), current());
    assert_eq!(
        failure(advance(fetch(), CheckEvent::Fetched(None), current())),
        "release check failed"
    );
    assert_eq!(
        failure(advance(fetch(), CheckEvent::Fetched(Some(release("latest", &[]))), current())),
        "latest release tag is not vX.Y.Z"
    );
    assert_eq!(
        failure(advance(
            fetch(),
            CheckEvent::Fetched(Some(release("v1.0.0", &["PostgREST-linux-amd64"]))),
            current()
        )),
        "latest release has no asset for this platform"
    );
    let download = || {
        let r = release("v1.0.0", &["PostgREST-windows-amd64.exe"]);
        advance(fetch(), CheckEvent::Fetched(Some(r)), current())
    };
    assert_eq!(
        failure(advance(download(), CheckEvent::Downloaded(None), current())),
        "download failed"
    );
    assert_eq!(
        failure(advance(download(), CheckEvent::Downloaded(Some(b"MZ".to_vec())), current())),
        "download size mismatch"
    );
    assert_eq!(
        failure(advance(download(), CheckEvent::Downloaded(Some(b"ZM....".to_vec())), current())),
        "download is not an executable for this platform"
    );
    let install = || advance(download(), CheckEvent::Downloaded(Some(b"MZ....".to_vec())), current());
    for (e, label) in [
        (UpdateError::LocateExecutable, "cannot locate own executable"),
        (UpdateError::WriteUpdate, "cannot write update next to executable"),
        (UpdateError::MarkExecutable, "cannot mark update executable"),
        (UpdateError::Replace, "replace failed"),
    ] {
        assert_eq!(failure(advance(install(), CheckEvent::Installed(Err(e)), current())), label);
    }
}

#[test]
fn an_event_that_was_not_asked_for_changes_nothing() {
    let check = advance(
        begin_check(Platform::LinuxX86_64),
        CheckEvent::Downloaded(Some(b"\x7fELF".to_vec())),
        current(),
    );
    assert!(matches!(check, Check::SetUp { .. }));
}

#[test]
fn the_loop_only_starts_when_it_is_enabled() {
    let mut state = health::init();
    assert_eq!(begin_updates(&mut state, false), None);
    assert!(!state.updater.enabled);
    assert_eq!(begin_updates(&mut state, true), Some(FIRST_CHECK));
    assert!(state.updater.enabled);
    assert_eq!(FIRST_CHECK, 60);
}

#[test]
fn the_loop_shows_what_a_check_found() {
    let mut state = health::init();
    match after_check(&mut state, 5, 6, Ok(Outcome::UpToDate((0, 1, 0)))) {
        UpdaterStep::Wait { secs, line } => {
            assert_eq!(secs, INTERVAL);
            assert_eq!(line, None);
        }
        _ => panic!("restart"),
    }
    assert_eq!(state.updater.last_check, Some(5));
    assert_eq!(state.updater.latest_release, Some("v0.1.0".to_string()));
    assert_eq!(state.errors.len(), 0);

    match after_check(&mut state, 7, 8, Err(UpdateError::Download)) {
        UpdaterStep::Wait { secs, line } => {
            assert_eq!(secs, 6 * 60 * 60);
            assert_eq!(line, Some("updater: download failed".to_string()));
        }
        _ => panic!("restart"),
    }
    assert_eq!(state.updater.last_check, Some(7));
    assert_eq!(state.updater.latest_release, Some("v0.1.0".to_string()));
    assert_eq!(state.updater.last_error, Some("download failed"));
    assert_eq!(state.errors.len(), 1);
    let entry = state.errors.get(0);
    assert_eq!((entry.at, entry.source, entry.kind), (8, "updater", "download failed"));
    assert_eq!((&entry.host, &entry.code), (&None, &None));

    match after_check(&mut state, 9, 9, Ok(Outcome::Installed((1, 0, 0)))) {
        UpdaterStep::Restart { message } => {
            assert_eq!(message, "updater: installed v1.0.0, restarting")
        }
        _ => panic!("no restart"),
    }
    assert_eq!(state.updater.last_error, None);
    assert_eq!(state.updater.latest_release, Some("v1.0.0".to_string()));
}
