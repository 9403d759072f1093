use matrix_channel::media::mxc_to_download_url;

#[test]
fn media_urls_are_converted() {
    assert_eq!(
        mxc_to_download_url("https://matrix.org", "mxc://example.org/abc123").as_deref(),
        Some("https://matrix.org/_matrix/media/v3/download/example.org/abc123")
    );
    assert_eq!(
        mxc_to_download_url("https://matrix.org//", "mxc://s/a/b").as_deref(),
        Some("https://matrix.org/_matrix/media/v3/download/s/a/b")
    );
    assert_eq!(
        mxc_to_download_url("h", "mxc:///").as_deref(),
        Some("h/_matrix/media/v3/download//")
    );
}

#[test]
fn other_urls_are_not() {
    assert_eq!(mxc_to_download_url("https://matrix.org", "https://example.org/a"), None);
    assert_eq!(mxc_to_download_url("https://matrix.org", "mxc://example.org"), None);
    assert_eq!(mxc_to_download_url("https://matrix.org", ""), None);
    assert_eq!(mxc_to_download_url("https://matrix.org", "mxc:/s/a"), None);
}
