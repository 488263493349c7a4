use media_tagger::release::{
    asset_is_called, ends_with, first_largest_of, first_published_of, resolve_download,
    select_asset, Asset, Release, ResolveError,
};

fn asset(name: &str, size: Option<u64>, address: Option<&str>) -> Asset {
    Asset {
        url: String::new(),
        id: 0,
        name: String::from(name),
        label: None,
        content_type: None,
        state: None,
        size,
        download_count: None,
        browser_download_url: address.map(String::from),
        created_at: None,
        updated_at: None,
    }
}

fn release(draft: bool, assets: Vec<Asset>) -> Release {
    Release {
        url: None,
        html_url: None,
        assets_url: None,
        upload_url: None,
        tarball_url: None,
        zipball_url: None,
        id: None,
        node_id: None,
        tag_name: None,
        target_commitish: None,
        name: None,
        body: None,
        draft,
        prerelease: false,
        created_at: None,
        published_at: None,
        author: None,
        assets,
        discussion_url: None,
    }
}

#[test]
fn suffix_test_is_exact() {
    assert!(ends_with("yt-dlp.exe", ".exe"));
    assert!(ends_with("yt-dlp.exe", "yt-dlp.exe"));
    assert!(ends_with("x", ""));
    assert!(!ends_with("dlp.exe", "yt-dlp.exe"));
    assert!(!ends_with("yt-dlp.EXE", ".exe"));
}

#[test]
fn asset_names_ignore_letter_case() {
    assert!(asset_is_called("YT-DLP.EXE", "yt-dlp.exe"));
    assert!(asset_is_called("tools/yt-dlp.exe", "YT-dlp.Exe"));
    assert!(!asset_is_called("yt-dlp.exe.sig", "yt-dlp.exe"));
}

#[test]
fn first_largest_breaks_ties_by_order() {
    assert_eq!(first_largest_of(&vec![]), None);
    assert_eq!(first_largest_of(&vec![5]), Some(0));
    assert_eq!(first_largest_of(&vec![1, 3, 3, 2]), Some(1));
    assert_eq!(first_largest_of(&vec![0, 0]), Some(0));
    assert_eq!(first_largest_of(&vec![1, 2, 9]), Some(2));
}

#[test]
fn first_release_that_is_no_draft_counts() {
    let list = vec![release(true, vec![]), release(false, vec![]), release(false, vec![])];
    assert_eq!(first_published_of(&list), Some(1));
    assert_eq!(first_published_of(&vec![release(true, vec![])]), None);
    assert_eq!(first_published_of(&vec![]), None);
}

#[test]
fn largest_matching_asset_is_chosen() {
    let assets = vec![
        asset("other.zip", Some(900), None),
        asset("a-yt-dlp.exe", Some(10), None),
        asset("B-YT-DLP.EXE", Some(30), None),
        asset("c-yt-dlp.exe", Some(30), None),
        asset("d-yt-dlp.exe", None, None),
    ];
    assert_eq!(select_asset(&assets, "yt-dlp.exe"), Some(2));
    assert_eq!(select_asset(&assets, "missing"), None);
    assert_eq!(select_asset(&vec![], "yt-dlp.exe"), None);
}

#[test]
fn missing_size_counts_as_zero() {
    let assets = vec![asset("a.exe", None, None), asset("b.exe", Some(0), None)];
    assert_eq!(select_asset(&assets, ".exe"), Some(0));
    let assets = vec![asset("a.exe", None, None), asset("b.exe", Some(1), None)];
    assert_eq!(select_asset(&assets, ".exe"), Some(1));
}

#[test]
fn address_comes_from_the_first_published_release() {
    let list = vec![
        release(true, vec![asset("tool.exe", Some(5), Some("http://draft"))]),
        release(false, vec![
            asset("tool.exe", Some(1), Some("http://small")),
            asset("tool.exe", Some(7), Some("http://large")),
        ]),
        release(false, vec![asset("tool.exe", Some(99), Some("http://older"))]),
    ];
    assert_eq!(resolve_download(&list, "tool.exe").unwrap().as_deref(), Some("http://large"));
}

#[test]
fn no_published_release_is_a_failure() {
    let list = vec![release(true, vec![asset("tool.exe", Some(5), Some("http://draft"))])];
    assert!(matches!(resolve_download(&list, "tool.exe"), Err(ResolveError::NoRelease)));
    assert!(matches!(resolve_download(&vec![], "tool.exe"), Err(ResolveError::NoRelease)));
}

#[test]
fn no_matching_asset_is_no_failure() {
    let list = vec![
        release(false, vec![asset("other.zip", Some(5), Some("http://x"))]),
        release(false, vec![asset("tool.exe", Some(5), Some("http://y"))]),
    ];
    assert!(matches!(resolve_download(&list, "tool.exe"), Ok(None)));
}

#[test]
fn chosen_asset_without_address_is_a_failure() {
    let list = vec![release(false, vec![
        asset("tool.exe", Some(9), None),
        asset("tool.exe", Some(1), Some("http://small")),
    ])];
    assert!(matches!(resolve_download(&list, "tool.exe"), Err(ResolveError::NoDownloadAddress)));
}
