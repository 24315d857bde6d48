use git_analyzer::source::{resolve_source, transfer_percent, RepoSource, SourceError};

#[test]
fn without_a_url_the_local_repository_is_read() {
    assert!(matches!(resolve_source(None), Ok(RepoSource::Local)));
}

#[test]
fn well_formed_url_is_cloned() {
    for url in ["https://example.com/repo.git", "ssh://git@example.com/a/b", "file:///tmp/repo"] {
        match resolve_source(Some(url)) {
            Ok(RepoSource::Remote(remote)) => assert_eq!(remote, url),
            other => panic!("{url} gave {other:?}"),
        }
    }
}

#[test]
fn text_that_is_no_url_is_refused() {
    for text in ["", "not a url", "example.com/repo.git", "/home/ada/repo", "https://"] {
        match resolve_source(Some(text)) {
            Err(SourceError::InvalidUrl { url, .. }) => assert_eq!(url, text),
            other => panic!("{text} gave {other:?}"),
        }
    }
}

#[test]
fn refusal_carries_the_reason() {
    match resolve_source(Some("no scheme")) {
        Err(SourceError::InvalidUrl { reason, .. }) => {
            assert_eq!(reason, url::ParseError::RelativeUrlWithoutBase)
        }
        other => panic!("gave {other:?}"),
    }
}

#[test]
fn percent_is_rounded_down() {
    assert_eq!(transfer_percent(0, 0), None);
    assert_eq!(transfer_percent(5, 0), None);
    assert_eq!(transfer_percent(0, 10), Some(0));
    assert_eq!(transfer_percent(1, 3), Some(33));
    assert_eq!(transfer_percent(2, 3), Some(66));
    assert_eq!(transfer_percent(3, 3), Some(100));
    assert_eq!(transfer_percent(999, 1_000), Some(99));
}
