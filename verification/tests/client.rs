use flickr_cli::client::{
    build_request_url, download_url, photo_file_name, DownloadOutcome, FlickrClient, PhotoPager,
    SyncTally,
};
use flickr_cli::oauth::FlickrAuth;
use flickr_cli::params::ParamMap;
use flickr_cli::types::{OAuthTokens, Photo};

fn make_tokens() -> OAuthTokens {
    OAuthTokens {
        oauth_token: "tok".to_string(),
        oauth_token_secret: "sec".to_string(),
        fullname: None,
        user_nsid: None,
        username: None,
    }
}

fn make_client(base_url: String) -> FlickrClient {
    let auth = FlickrAuth::new("test_key".to_string(), "test_secret".to_string());
    FlickrClient::new_for_test(auth, make_tokens(), "test_key".to_string(), base_url)
}

fn make_photo(id: &str) -> Photo {
    Photo {
        id: id.to_string(),
        owner: "99@N01".to_string(),
        secret: "abc".to_string(),
        server: "1".to_string(),
        farm: 1,
        title: format!("Photo {}", id),
        ispublic: 1,
        isfriend: 0,
        isfamily: 0,
        datetaken: None,
        originalformat: None,
        url_m: None,
        url_l: None,
        url_s: None,
    }
}

fn page_of(ids: &[&str]) -> Vec<Photo> {
    ids.iter().map(|id| make_photo(id)).collect()
}

// ── requests ──────────────────────────────────────────────────────

#[test]
fn user_id_request_url_and_signature() {
    let client = make_client("http://localhost:1234".to_string());
    let req = client.user_id_request();
    assert_eq!(
        req.url,
        "http://localhost:1234?api_key=test_key&format=json&method=flickr.test.login&nojsoncallback=1"
    );
    assert!(req.authorization.starts_with("OAuth "));
    assert!(req.authorization.contains("oauth_token=\"tok\""));
    assert!(!req.authorization.contains("\"method\""));
}

#[test]
fn photos_request_url_lists_all_parameters_in_key_order() {
    let client = make_client("https://api.flickr.com/services/rest".to_string());
    let req = client.photos_request("99@N01", 3);
    assert_eq!(
        req.url,
        "https://api.flickr.com/services/rest?api_key=test_key\
         &extras=date_taken,original_format,url_m,url_l,url_s&format=json\
         &method=flickr.people.getPhotos&nojsoncallback=1&page=3&per_page=500&user_id=99@N01"
    );
}

#[test]
fn default_client_uses_flickr_rest_endpoint() {
    let auth = FlickrAuth::new("k".to_string(), "s".to_string());
    let client = FlickrClient::new(auth, make_tokens(), "k".to_string());
    assert_eq!(client.base_url, "https://api.flickr.com/services/rest");
}

#[test]
fn build_request_url_joins_sorted_pairs() {
    let mut params = ParamMap::new();
    params.insert("b".to_string(), "2".to_string());
    params.insert("a".to_string(), "1".to_string());
    assert_eq!(build_request_url("http://x", &params), "http://x?a=1&b=2");
    assert_eq!(build_request_url("http://x", &ParamMap::new()), "http://x?");
}

// ── fetch_all_photos (the pagination) ─────────────────────────────

#[test]
fn fetch_all_photos_single_page() {
    let mut pager = PhotoPager::new(None);
    assert_eq!(pager.next_page(), Some(1));
    pager.receive(page_of(&["1", "2"]), 1);
    assert_eq!(pager.next_page(), None);
    let photos = pager.into_photos();
    assert_eq!(photos.len(), 2);
    assert_eq!(photos[0].id, "1");
    assert_eq!(photos[1].id, "2");
}

#[test]
fn fetch_all_photos_truncated_by_max_images() {
    let mut pager = PhotoPager::new(Some(3));
    pager.receive(page_of(&["1", "2", "3", "4", "5"]), 1);
    let photos = pager.into_photos();
    assert_eq!(photos.len(), 3);
}

#[test]
fn pager_walks_every_page_then_stops() {
    let mut pager = PhotoPager::new(None);
    assert_eq!(pager.next_page(), Some(1));
    pager.receive(page_of(&["1"]), 3);
    assert_eq!(pager.next_page(), Some(2));
    pager.receive(page_of(&["2"]), 3);
    assert_eq!(pager.next_page(), Some(3));
    pager.receive(page_of(&["3"]), 3);
    assert_eq!(pager.next_page(), None);
    let ids: Vec<String> = pager.into_photos().into_iter().map(|p| p.id).collect();
    assert_eq!(ids, vec!["1", "2", "3"]);
}

#[test]
fn pager_stops_when_max_reached_across_pages() {
    let mut pager = PhotoPager::new(Some(3));
    pager.receive(page_of(&["1", "2"]), 5);
    assert_eq!(pager.next_page(), Some(2));
    pager.receive(page_of(&["3", "4"]), 5);
    assert_eq!(pager.next_page(), None);
    let ids: Vec<String> = pager.into_photos().into_iter().map(|p| p.id).collect();
    assert_eq!(ids, vec!["1", "2", "3"]);
}

#[test]
fn pager_with_zero_max_stops_after_first_page() {
    let mut pager = PhotoPager::new(Some(0));
    pager.receive(page_of(&["1"]), 4);
    assert_eq!(pager.next_page(), None);
    assert!(pager.into_photos().is_empty());
}

// ── download_photo (whether and from where) ───────────────────────

#[test]
fn download_photo_writes_file_and_skips_on_second_call() {
    let mut photo = make_photo("999");
    photo.url_m = Some("http://localhost/photo.jpg".to_string());
    assert_eq!(
        download_url(&photo, false).as_deref(),
        Some("http://localhost/photo.jpg")
    );
    assert_eq!(download_url(&photo, true), None);
}

#[test]
fn download_photo_with_no_urls_returns_false() {
    let photo = make_photo("000");
    assert_eq!(download_url(&photo, false), None);
}

#[test]
fn download_prefers_medium_then_large_then_small() {
    let mut photo = make_photo("1");
    photo.url_s = Some("s".to_string());
    assert_eq!(download_url(&photo, false).as_deref(), Some("s"));
    photo.url_l = Some("l".to_string());
    assert_eq!(download_url(&photo, false).as_deref(), Some("l"));
    photo.url_m = Some("m".to_string());
    assert_eq!(download_url(&photo, false).as_deref(), Some("m"));
}

// ── sync bookkeeping ──────────────────────────────────────────────

#[test]
fn sync_file_name_and_tally() {
    assert_eq!(photo_file_name(&make_photo("54321")), "54321.jpg");
    let mut t = SyncTally::new();
    t.record(DownloadOutcome::Downloaded);
    t.record(DownloadOutcome::Skipped);
    t.record(DownloadOutcome::Skipped);
    t.record(DownloadOutcome::Failed);
    assert_eq!((t.downloaded, t.skipped, t.failed), (1, 2, 1));
}
