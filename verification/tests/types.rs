use flickr_cli::types::Photo;

fn make_photo() -> Photo {
    Photo {
        id: "123456".to_string(),
        owner: "99@N01".to_string(),
        secret: "abc123".to_string(),
        server: "65535".to_string(),
        farm: 1,
        title: "Test Photo".to_string(),
        ispublic: 1,
        isfriend: 0,
        isfamily: 0,
        datetaken: None,
        originalformat: None,
        url_m: None,
        url_l: None,
        url_s: None,
    }
}

#[test]
fn best_url_prefers_url_m() {
    let photo = Photo {
        url_m: Some("https://example.com/m.jpg".to_string()),
        url_l: Some("https://example.com/l.jpg".to_string()),
        url_s: Some("https://example.com/s.jpg".to_string()),
        ..make_photo()
    };
    assert_eq!(photo.best_url(), Some("https://example.com/m.jpg"));
}

#[test]
fn best_url_falls_back_to_url_l() {
    let photo = Photo {
        url_m: None,
        url_l: Some("https://example.com/l.jpg".to_string()),
        url_s: Some("https://example.com/s.jpg".to_string()),
        ..make_photo()
    };
    assert_eq!(photo.best_url(), Some("https://example.com/l.jpg"));
}

#[test]
fn best_url_falls_back_to_url_s() {
    let photo = Photo {
        url_m: None,
        url_l: None,
        url_s: Some("https://example.com/s.jpg".to_string()),
        ..make_photo()
    };
    assert_eq!(photo.best_url(), Some("https://example.com/s.jpg"));
}

#[test]
fn best_url_returns_none_when_all_missing() {
    let photo = Photo {
        url_m: None,
        url_l: None,
        url_s: None,
        ..make_photo()
    };
    assert_eq!(photo.best_url(), None);
}
