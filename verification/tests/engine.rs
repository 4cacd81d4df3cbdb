use flickr_cli::engine::{select_images, select_preferred, DedupeEngine, DedupeError, DedupeMethod};
use std::str::FromStr;

// --- DedupeMethod::from_str ---

#[test]
fn from_str_phash() {
    assert_eq!(
        DedupeMethod::from_str("phash").unwrap(),
        DedupeMethod::PHash
    );
}

#[test]
fn from_str_hash_alias() {
    assert_eq!(DedupeMethod::from_str("hash").unwrap(), DedupeMethod::PHash);
}

#[test]
fn from_str_onnx() {
    assert_eq!(DedupeMethod::from_str("onnx").unwrap(), DedupeMethod::Onnx);
}

#[test]
fn from_str_coreml() {
    assert_eq!(
        DedupeMethod::from_str("coreml").unwrap(),
        DedupeMethod::CoreML
    );
}

#[test]
fn from_str_immich_alias() {
    assert_eq!(
        DedupeMethod::from_str("immich").unwrap(),
        DedupeMethod::Onnx
    );
}

#[test]
fn from_str_uppercase() {
    assert_eq!(
        DedupeMethod::from_str("PHASH").unwrap(),
        DedupeMethod::PHash
    );
    assert_eq!(DedupeMethod::from_str("ONNX").unwrap(), DedupeMethod::Onnx);
}

#[test]
fn from_str_unknown_returns_err() {
    assert!(DedupeMethod::from_str("unknown").is_err());
    assert!(DedupeMethod::from_str("").is_err());
    assert!(DedupeMethod::from_str("neural").is_err());
}

#[test]
fn from_str_error_message_holds_lowercased_name() {
    assert_eq!(
        DedupeMethod::from_str("NeUrAl").unwrap_err(),
        "Unknown method: neural"
    );
}

#[test]
fn parse_of_as_str_round_trips() {
    for m in [DedupeMethod::PHash, DedupeMethod::Onnx, DedupeMethod::CoreML] {
        assert_eq!(DedupeMethod::parse(m.as_str()).unwrap(), m);
    }
}

// --- DedupeMethod::as_str ---

#[test]
fn as_str_phash() {
    assert_eq!(DedupeMethod::PHash.as_str(), "phash");
}

#[test]
fn as_str_onnx() {
    assert_eq!(DedupeMethod::Onnx.as_str(), "onnx");
}

#[test]
fn as_str_coreml() {
    assert_eq!(DedupeMethod::CoreML.as_str(), "coreml");
}

// --- DedupeMethod Display ---

#[test]
fn display_matches_as_str() {
    assert_eq!(DedupeMethod::PHash.to_string(), "phash");
    assert_eq!(DedupeMethod::Onnx.to_string(), "onnx");
    assert_eq!(DedupeMethod::CoreML.to_string(), "coreml");
}

// --- DedupeEngine::available_methods ---

#[test]
fn available_methods_non_empty() {
    let methods = DedupeEngine::available_methods();
    assert!(
        !methods.is_empty(),
        "at least one method should be available"
    );
}

#[test]
fn available_methods_contains_phash() {
    let methods = DedupeEngine::available_methods();
    assert!(
        methods.contains(&DedupeMethod::PHash),
        "PHash should be available with default features"
    );
}

// --- DedupeEngine::auto_select ---

#[test]
fn auto_select_returns_some() {
    let method = DedupeEngine::auto_select();
    assert!(method.is_some(), "auto_select should return at least PHash");
}

#[test]
fn select_preferred_orders_coreml_onnx_phash() {
    assert_eq!(
        select_preferred(&vec![DedupeMethod::PHash, DedupeMethod::CoreML, DedupeMethod::Onnx]),
        Some(DedupeMethod::CoreML)
    );
    assert_eq!(
        select_preferred(&vec![DedupeMethod::PHash, DedupeMethod::Onnx]),
        Some(DedupeMethod::Onnx)
    );
    assert_eq!(select_preferred(&vec![DedupeMethod::PHash]), Some(DedupeMethod::PHash));
    assert_eq!(select_preferred(&vec![]), None);
}

#[test]
fn resolve_method_named_and_auto() {
    assert_eq!(DedupeEngine::resolve_method(Some("Hash")).unwrap(), DedupeMethod::PHash);
    assert_eq!(DedupeEngine::resolve_method(None).unwrap(), DedupeMethod::PHash);
    assert_eq!(
        DedupeEngine::resolve_method(Some("x")).unwrap_err(),
        "Unknown method: x"
    );
}

#[test]
fn prepare_run_checks_images_model_and_method() {
    assert!(matches!(
        DedupeEngine::prepare_run(DedupeMethod::PHash, 0, None),
        Err(DedupeError::NoImages)
    ));
    let c = DedupeEngine::prepare_run(DedupeMethod::PHash, 3, None).unwrap();
    assert_eq!(c.name, "siglip2-b16");
    let c = DedupeEngine::prepare_run(DedupeMethod::PHash, 3, Some("CLIP")).unwrap();
    assert_eq!(c.name, "clip-vit-b32");
    match DedupeEngine::prepare_run(DedupeMethod::PHash, 3, Some("vgg16")) {
        Err(DedupeError::Other(msg)) => assert_eq!(
            msg,
            "Unknown model 'vgg16'. Available: clip-vit-b32, siglip2-b16, siglip2-so400m"
        ),
        _ => panic!("expected an unknown-model error"),
    }
    match DedupeEngine::prepare_run(DedupeMethod::Onnx, 3, None) {
        Err(DedupeError::MethodNotAvailable(m)) => assert_eq!(m, "onnx"),
        _ => panic!("expected MethodNotAvailable"),
    }
}

// --- collect_images (the choice among a directory's file names) ---

fn names(list: &[&str]) -> Vec<String> {
    list.iter().map(|s| s.to_string()).collect()
}

#[test]
fn collect_images_finds_jpg_png_webp() {
    let files = names(&["test1.jpg", "test2.png", "test3.webp", "test4.txt", "test5.gif"]);
    let paths = select_images(&files, None);
    assert_eq!(paths.len(), 3, "expected 3 image files, got {:?}", paths);
}

#[test]
fn collect_images_excludes_non_images() {
    let files = names(&["readme.txt", "data.gif", "archive.zip"]);
    let paths = select_images(&files, None);
    assert!(
        paths.is_empty(),
        "no image files should be found, got {:?}",
        paths
    );
}

#[test]
fn collect_images_sorted() {
    let files = names(&["c.jpg", "a.jpg", "b.jpg"]);
    let paths = select_images(&files, None);
    assert_eq!(paths.len(), 3);
    assert_eq!(paths, vec!["a.jpg", "b.jpg", "c.jpg"]);
}

#[test]
fn collect_images_max_images_limits_results() {
    let files = names(&["a.jpg", "b.jpg", "c.jpg", "d.png"]);
    let paths = select_images(&files, Some(2));
    assert_eq!(paths.len(), 2, "max_images=2 should limit to 2 results");
    assert_eq!(paths, vec!["a.jpg", "b.jpg"]);
}

#[test]
fn collect_images_empty_directory_returns_empty() {
    let paths = select_images(&Vec::new(), None);
    assert!(paths.is_empty());
}

#[test]
fn collect_images_jpeg_extension_included() {
    let paths = select_images(&names(&["photo.jpeg"]), None);
    assert_eq!(paths.len(), 1);
}

#[test]
fn collect_images_extension_rules() {
    // Case-insensitive extension; a leading dot alone is no extension.
    let files = names(&["UP.JPG", ".png", "noext", "x.tar.png", "y.", "z.Webp"]);
    let paths = select_images(&files, None);
    assert_eq!(paths, vec!["UP.JPG", "x.tar.png", "z.Webp"]);
}

#[test]
fn collect_images_sorts_by_bytes() {
    let files = names(&["b.png", "B.png", "a.png", "ä.png"]);
    let paths = select_images(&files, None);
    assert_eq!(paths, vec!["B.png", "a.png", "b.png", "ä.png"]);
}

#[test]
fn collect_images_limits_are_prefixes_of_the_full_choice() {
    let files = names(&["d.png", "b.jpg", "x.txt", "a.jpg", "c.webp"]);
    let all = select_images(&files, None);
    for k in 0..7 {
        let limited = select_images(&files, Some(k));
        assert_eq!(limited, all[..k.min(all.len())].to_vec());
    }
}

#[test]
fn from_str_of_own_name_in_any_case() {
    for m in [DedupeMethod::PHash, DedupeMethod::Onnx, DedupeMethod::CoreML] {
        assert_eq!(DedupeMethod::from_str(m.as_str()).unwrap(), m);
        assert_eq!(DedupeMethod::from_str(&m.to_string()).unwrap(), m);
        assert_eq!(DedupeMethod::from_str(&m.as_str().to_uppercase()).unwrap(), m);
    }
}
