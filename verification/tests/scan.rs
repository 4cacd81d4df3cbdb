use flickr_cli::scan::{group_duplicates, scan_key, ScanBy};
use flickr_cli::types::Photo;

fn photo(id: &str, title: &str, fmt: Option<&str>, date: Option<&str>) -> Photo {
    Photo {
        id: id.to_string(),
        owner: "99@N01".to_string(),
        secret: "abc".to_string(),
        server: "1".to_string(),
        farm: 1,
        title: title.to_string(),
        ispublic: 1,
        isfriend: 0,
        isfamily: 0,
        datetaken: date.map(|d| d.to_string()),
        originalformat: fmt.map(|f| f.to_string()),
        url_m: None,
        url_l: None,
        url_s: None,
    }
}

#[test]
fn test_scan_by_display_title() {
    assert_eq!(ScanBy::Title.to_string(), "title");
}

#[test]
fn test_scan_by_display_filename() {
    assert_eq!(ScanBy::Filename.to_string(), "filename");
}

#[test]
fn test_scan_by_display_datetaken() {
    assert_eq!(ScanBy::Datetaken.to_string(), "datetaken");
}

#[test]
fn scan_labels() {
    assert_eq!(ScanBy::Title.label(), "title");
    assert_eq!(ScanBy::Filename.label(), "filename");
    assert_eq!(ScanBy::Datetaken.label(), "date taken");
}

#[test]
fn scan_keys_per_criterion() {
    let p = photo("1", "Sunset", Some("jpg"), Some("2024-01-15 10:30:00"));
    assert_eq!(scan_key(&p, ScanBy::Title), "Sunset");
    assert_eq!(scan_key(&p, ScanBy::Filename), "jpg");
    assert_eq!(scan_key(&p, ScanBy::Datetaken), "2024-01-15");
    let q = photo("2", "", None, None);
    assert_eq!(scan_key(&q, ScanBy::Filename), "");
    assert_eq!(scan_key(&q, ScanBy::Datetaken), "");
    let r = photo("3", "x", None, Some("2024"));
    assert_eq!(scan_key(&r, ScanBy::Datetaken), "2024");
    let s = photo("4", "x", None, Some("ééééééééééé-tail"));
    assert_eq!(scan_key(&s, ScanBy::Datetaken), "éééééééééé");
}

fn keys(list: &[&str]) -> Vec<String> {
    list.iter().map(|s| s.to_string()).collect()
}

#[test]
fn group_duplicates_finds_repeated_non_empty_keys() {
    let groups = group_duplicates(&keys(&["a", "b", "", "a", "c", "b", "", "a"]));
    assert_eq!(groups.len(), 2);
    assert_eq!(groups[0].key, "a");
    assert_eq!(groups[0].members, vec![0, 3, 7]);
    assert_eq!(groups[1].key, "b");
    assert_eq!(groups[1].members, vec![1, 5]);
}

#[test]
fn group_duplicates_none_when_all_distinct() {
    assert!(group_duplicates(&keys(&["x", "y", "z"])).is_empty());
    assert!(group_duplicates(&keys(&["", ""])).is_empty());
    assert!(group_duplicates(&Vec::new()).is_empty());
}
