use flickr_cli::models::{
    all_models, clip_vit_b32, default_model, find_model, model_names, onnx_search_paths,
    siglip2_so400m, siglip2_vit_b16, Normalization,
};

#[test]
fn find_model_exact_names() {
    assert!(find_model("clip-vit-b32").is_some());
    assert_eq!(find_model("clip-vit-b32").unwrap().name, "clip-vit-b32");
    assert!(find_model("siglip2-b16").is_some());
    assert_eq!(find_model("siglip2-b16").unwrap().name, "siglip2-b16");
    assert!(find_model("siglip2-so400m").is_some());
    assert_eq!(find_model("siglip2-so400m").unwrap().name, "siglip2-so400m");
}

#[test]
fn find_model_aliases() {
    assert_eq!(find_model("clip").unwrap().name, "clip-vit-b32");
    assert_eq!(find_model("openai").unwrap().name, "clip-vit-b32");
    assert_eq!(find_model("siglip").unwrap().name, "siglip2-b16");
    assert_eq!(find_model("siglip2").unwrap().name, "siglip2-b16");
    assert_eq!(find_model("so400m").unwrap().name, "siglip2-so400m");
    assert_eq!(find_model("large").unwrap().name, "siglip2-so400m");
    // "immich" maps to the default model, which is siglip2-b16
    assert_eq!(find_model("immich").unwrap().name, default_model().name);
}

#[test]
fn find_model_case_insensitive() {
    assert_eq!(find_model("CLIP-VIT-B32").unwrap().name, "clip-vit-b32");
    assert_eq!(find_model("SigLIP2-B16").unwrap().name, "siglip2-b16");
    assert_eq!(find_model("CLIP").unwrap().name, "clip-vit-b32");
    assert_eq!(find_model("SIGLIP2").unwrap().name, "siglip2-b16");
}

#[test]
fn find_model_unknown_returns_none() {
    assert!(find_model("unknown-model").is_none());
    assert!(find_model("").is_none());
    assert!(find_model("vgg16").is_none());
    assert!(find_model("resnet50").is_none());
}

#[test]
fn model_names_returns_three() {
    let names = model_names();
    assert_eq!(names.len(), 3);
}

#[test]
fn model_names_in_catalogue_order() {
    assert_eq!(model_names(), vec!["clip-vit-b32", "siglip2-b16", "siglip2-so400m"]);
}

#[test]
fn default_model_is_siglip2_b16() {
    assert_eq!(default_model().name, "siglip2-b16");
}

#[test]
fn clip_vit_b32_config_values() {
    assert_eq!(clip_vit_b32().input_size, 224);
    assert_eq!(clip_vit_b32().embedding_dim, 512);
    assert_eq!(clip_vit_b32().name, "clip-vit-b32");
    assert_eq!(clip_vit_b32().normalization, Normalization::Clip);
}

#[test]
fn siglip2_vit_b16_config_values() {
    assert_eq!(siglip2_vit_b16().input_size, 224);
    assert_eq!(siglip2_vit_b16().embedding_dim, 768);
    assert_eq!(siglip2_vit_b16().name, "siglip2-b16");
    assert_eq!(siglip2_vit_b16().normalization, Normalization::Half);
}

#[test]
fn siglip2_so400m_config_values() {
    assert_eq!(siglip2_so400m().input_size, 384);
    assert_eq!(siglip2_so400m().embedding_dim, 1152);
    assert_eq!(siglip2_so400m().name, "siglip2-so400m");
}

#[test]
fn all_models_has_exactly_three_entries() {
    assert_eq!(all_models().len(), 3);
}

#[test]
fn every_model_found_by_its_own_name() {
    for m in all_models() {
        assert_eq!(find_model(m.name).unwrap().name, m.name);
    }
}

#[test]
fn onnx_search_paths_of_siglip2() {
    assert_eq!(
        onnx_search_paths(&siglip2_vit_b16()),
        vec![
            "cache/clip/ViT-B-16-SigLIP2__webli/visual/model.onnx",
            "models/siglip2-b16.onnx",
            "cache/model.onnx",
            "models/model.onnx",
        ]
    );
}

#[test]
fn every_model_name_found_in_upper_case() {
    for n in model_names() {
        assert_eq!(find_model(n).map(|m| m.name), Some(n));
        assert_eq!(find_model(&n.to_uppercase()).map(|m| m.name), Some(n));
    }
}
