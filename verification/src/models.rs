//! Known CLIP/SigLIP model configurations for image deduplication.
//!
//! Each model has its own input size, normalization constants, and embedding
//! dimension. The normalization constants themselves are floating-point
//! numbers; here a model names which set it uses.

use vstd::prelude::*;
use crate::text::{
    ascii_lower, ascii_upper, is_ascii_str, lemma_ascii_case_round_trip, lowercase, split_char,
    split_spec, str_eq, to_lowercase,
};

verus! {

/// Which per-channel mean/std pair a model normalizes with.
#[derive(Debug, Clone, Copy, PartialEq, Eq, Structural)]
pub enum Normalization {
    /// OpenAI CLIP: mean (0.48145466, 0.4578275, 0.40821073),
    /// std (0.26862954, 0.26130258, 0.27577711).
    Clip,
    /// mean 0.5 and std 0.5 on every channel.
    Half,
}

/// Preprocessing and inference configuration for a vision model.
#[derive(Debug, Clone, Copy)]
pub struct ModelConfig {
    /// Human-readable name (e.g. "siglip2-b16")
    pub name: &'static str,
    /// HuggingFace repo ID for the ONNX visual encoder
    pub hf_repo: &'static str,
    /// Filename of the ONNX model within the repo
    pub hf_filename: &'static str,
    /// Input image size (square: size x size)
    pub input_size: u32,
    /// Per-channel normalization constants
    pub normalization: Normalization,
    /// Output embedding dimensionality
    pub embedding_dim: usize,
}

/// A model configuration as plain values.
pub struct ModelSpec {
    pub name: Seq<char>,
    pub hf_repo: Seq<char>,
    pub hf_filename: Seq<char>,
    pub input_size: u32,
    pub normalization: Normalization,
    pub embedding_dim: usize,
}

impl View for ModelConfig {
    type V = ModelSpec;

    open spec fn view(&self) -> ModelSpec {
        ModelSpec {
            name: self.name@,
            hf_repo: self.hf_repo@,
            hf_filename: self.hf_filename@,
            input_size: self.input_size,
            normalization: self.normalization,
            embedding_dim: self.embedding_dim,
        }
    }
}

/// OpenAI CLIP ViT-B/32 — the earlier default. Fast, 512-dim.
pub open spec fn clip_vit_b32_spec() -> ModelSpec {
    ModelSpec {
        name: "clip-vit-b32"@,
        hf_repo: "immich-app/ViT-B-32__openai"@,
        hf_filename: "visual/model.onnx"@,
        input_size: 224,
        normalization: Normalization::Clip,
        embedding_dim: 512,
    }
}

/// SigLIP2 ViT-B/16 — best quality/cost ratio. 768-dim, 224px input.
pub open spec fn siglip2_vit_b16_spec() -> ModelSpec {
    ModelSpec {
        name: "siglip2-b16"@,
        hf_repo: "immich-app/ViT-B-16-SigLIP2__webli"@,
        hf_filename: "visual/model.onnx"@,
        input_size: 224,
        normalization: Normalization::Half,
        embedding_dim: 768,
    }
}

/// SigLIP2 SO400M — highest quality. 1152-dim, 384px input, ~7GB RAM.
pub open spec fn siglip2_so400m_spec() -> ModelSpec {
    ModelSpec {
        name: "siglip2-so400m"@,
        hf_repo: "immich-app/ViT-SO400M-16-SigLIP2-384__webli"@,
        hf_filename: "visual/model.onnx"@,
        input_size: 384,
        normalization: Normalization::Half,
        embedding_dim: 1152,
    }
}

/// OpenAI CLIP ViT-B/32.
pub fn clip_vit_b32() -> (m: ModelConfig)
    ensures
        m@ == clip_vit_b32_spec(),
{
    ModelConfig {
        name: "clip-vit-b32",
        hf_repo: "immich-app/ViT-B-32__openai",
        hf_filename: "visual/model.onnx",
        input_size: 224,
        normalization: Normalization::Clip,
        embedding_dim: 512,
    }
}

/// SigLIP2 ViT-B/16.
pub fn siglip2_vit_b16() -> (m: ModelConfig)
    ensures
        m@ == siglip2_vit_b16_spec(),
{
    ModelConfig {
        name: "siglip2-b16",
        hf_repo: "immich-app/ViT-B-16-SigLIP2__webli",
        hf_filename: "visual/model.onnx",
        input_size: 224,
        normalization: Normalization::Half,
        embedding_dim: 768,
    }
}

/// SigLIP2 SO400M.
pub fn siglip2_so400m() -> (m: ModelConfig)
    ensures
        m@ == siglip2_so400m_spec(),
{
    ModelConfig {
        name: "siglip2-so400m",
        hf_repo: "immich-app/ViT-SO400M-16-SigLIP2-384__webli",
        hf_filename: "visual/model.onnx",
        input_size: 384,
        normalization: Normalization::Half,
        embedding_dim: 1152,
    }
}

/// All known models, ordered by quality (best last).
pub open spec fn all_models_spec() -> Seq<ModelSpec> {
    seq![clip_vit_b32_spec(), siglip2_vit_b16_spec(), siglip2_so400m_spec()]
}

/// All known models, ordered by quality (best last).
pub fn all_models() -> (v: Vec<ModelConfig>)
    ensures
        v@.map_values(|m: ModelConfig| m@) == all_models_spec(),
{
    let v = vec![clip_vit_b32(), siglip2_vit_b16(), siglip2_so400m()];
    proof {
        assert(v@.map_values(|m: ModelConfig| m@) =~= all_models_spec());
    }
    v
}

/// Default model — SigLIP2 B/16 is the recommended sweet spot.
pub fn default_model() -> (m: ModelConfig)
    ensures
        m@ == siglip2_vit_b16_spec(),
{
    siglip2_vit_b16()
}

/// The model an already lower-cased name selects.
pub open spec fn find_model_spec(lower: Seq<char>) -> Option<ModelSpec> {
    if lower == "clip-vit-b32"@ || lower == "clip"@ || lower == "vit-b-32"@ || lower == "openai"@ {
        Some(clip_vit_b32_spec())
    } else if lower == "siglip2-b16"@ || lower == "siglip2"@ || lower == "siglip"@ || lower
        == "vit-b-16-siglip2"@ {
        Some(siglip2_vit_b16_spec())
    } else if lower == "siglip2-so400m"@ || lower == "so400m"@ || lower == "vit-so400m"@ || lower
        == "large"@ {
        Some(siglip2_so400m_spec())
    } else if lower == "immich"@ {
        // Legacy: "immich" maps to the current best default.
        Some(siglip2_vit_b16_spec())
    } else {
        None
    }
}

/// The view of an optional configuration.
pub open spec fn opt_model_view(m: Option<ModelConfig>) -> Option<ModelSpec> {
    match m {
        Some(c) => Some(c@),
        None => None,
    }
}

/// Look up a model config by a name that is already lower-case.
pub fn find_model_lowercase(lower: &str) -> (r: Option<ModelConfig>)
    ensures
        opt_model_view(r) == find_model_spec(lower@),
{
    if str_eq(lower, "clip-vit-b32") || str_eq(lower, "clip") || str_eq(lower, "vit-b-32")
        || str_eq(lower, "openai") {
        Some(clip_vit_b32())
    } else if str_eq(lower, "siglip2-b16") || str_eq(lower, "siglip2") || str_eq(lower, "siglip")
        || str_eq(lower, "vit-b-16-siglip2") {
        Some(siglip2_vit_b16())
    } else if str_eq(lower, "siglip2-so400m") || str_eq(lower, "so400m") || str_eq(
        lower,
        "vit-so400m",
    ) || str_eq(lower, "large") {
        Some(siglip2_so400m())
    } else if str_eq(lower, "immich") {
        Some(default_model())
    } else {
        None
    }
}

/// Look up a model config by name, ignoring case.
pub fn find_model(name: &str) -> (r: Option<ModelConfig>)
    ensures
        opt_model_view(r) == find_model_spec(lowercase(name@)),
        is_ascii_str(name@) ==> opt_model_view(r) == find_model_spec(ascii_lower(name@)),
{
    let lower = to_lowercase(name);
    find_model_lowercase(lower.as_str())
}

/// List all available model names for CLI help.
pub fn model_names() -> (names: Vec<&'static str>)
    ensures
        names@.map_values(|n: &str| n@) == all_models_spec().map_values(|m: ModelSpec| m.name),
{
    let models = all_models();
    let mut names: Vec<&'static str> = Vec::new();
    let mut i: usize = 0;
    while i < models.len()
        invariant
            models@.map_values(|m: ModelConfig| m@) == all_models_spec(),
            i <= models@.len(),
            names@.map_values(|n: &str| n@) == all_models_spec().take(i as int).map_values(
                |m: ModelSpec| m.name,
            ),
        decreases models@.len() - i,
    {
        proof {
            assert(models@.map_values(|m: ModelConfig| m@)[i as int] == models@[i as int]@);
            assert(all_models_spec().take(i + 1).map_values(|m: ModelSpec| m.name)
                =~= all_models_spec().take(i as int).map_values(|m: ModelSpec| m.name).push(
                models@[i as int].name@,
            ));
            assert(names@.push(models[i as int].name).map_values(|n: &str| n@) =~= names@.map_values(
                |n: &str| n@,
            ).push(models@[i as int].name@));
        }
        names.push(models[i].name);
        i = i + 1;
    }
    proof {
        assert(all_models_spec().take(3) =~= all_models_spec());
    }
    names
}

/// Local paths where the ONNX visual encoder of `m` is looked for, in order.
pub open spec fn onnx_search_paths_spec(m: ModelSpec) -> Seq<Seq<char>> {
    seq![
        "cache/clip/"@ + split_spec(m.hf_repo, '/').last() + "/visual/model.onnx"@,
        "models/"@ + m.name + ".onnx"@,
        "cache/model.onnx"@,
        "models/model.onnx"@,
    ]
}

proof fn lemma_split_spec_nonempty(s: Seq<char>, c: char)
    ensures
        split_spec(s, c).len() > 0,
    decreases s.len(),
{
    match crate::text::find_char(s, c) {
        Some(i) => {
            if i < s.len() {
                lemma_split_spec_nonempty(s.skip((i + 1) as int), c);
            }
        },
        None => {},
    }
}

/// Local paths where the ONNX visual encoder is looked for: the repo's
/// cache directory, the model's own file, then two generic files.
pub fn onnx_search_paths(config: &ModelConfig) -> (paths: Vec<String>)
    ensures
        paths@.map_values(|p: String| p@) == onnx_search_paths_spec(config@),
{
    let pieces = split_char(config.hf_repo, '/');
    proof {
        lemma_split_spec_nonempty(config.hf_repo@, '/');
        assert(pieces@.map_values(|p: String| p@).len() == pieces@.len());
    }
    let last = &pieces[pieces.len() - 1];
    proof {
        assert(pieces@.map_values(|p: String| p@)[pieces@.len() - 1] == last@);
    }
    let mut first = "cache/clip/".to_owned();
    first.append(last.as_str());
    first.append("/visual/model.onnx");
    let mut second = "models/".to_owned();
    second.append(config.name);
    second.append(".onnx");
    let paths = vec![first, second, "cache/model.onnx".to_owned(), "models/model.onnx".to_owned()];
    proof {
        assert(paths@.map_values(|p: String| p@) =~= onnx_search_paths_spec(config@));
    }
    paths
}

/// Every model is found under its own name.
pub proof fn lemma_find_model_by_own_name(i: int)
    requires
        0 <= i < all_models_spec().len(),
    ensures
        find_model_spec(all_models_spec()[i].name) == Some(all_models_spec()[i]),
{
    reveal_strlit("clip-vit-b32");
    reveal_strlit("clip");
    reveal_strlit("vit-b-32");
    reveal_strlit("openai");
    reveal_strlit("siglip2-b16");
    reveal_strlit("siglip2");
    reveal_strlit("siglip");
    reveal_strlit("vit-b-16-siglip2");
    reveal_strlit("siglip2-so400m");
    reveal_strlit("so400m");
    reveal_strlit("vit-so400m");
    reveal_strlit("large");
    reveal_strlit("immich");
    if i == 1 {
        assert("siglip2-b16"@[0] != "clip-vit-b32"@[0]);
        assert("siglip2-b16"@[0] != "clip"@[0]);
        assert("siglip2-b16"@[0] != "vit-b-32"@[0]);
        assert("siglip2-b16"@[0] != "openai"@[0]);
    } else if i == 2 {
        assert("siglip2-so400m"@[0] != "clip-vit-b32"@[0]);
        assert("siglip2-so400m"@[0] != "clip"@[0]);
        assert("siglip2-so400m"@[0] != "vit-b-32"@[0]);
        assert("siglip2-so400m"@[0] != "openai"@[0]);
        assert("siglip2-so400m"@.len() != "siglip2-b16"@.len());
        assert("siglip2-so400m"@.len() != "siglip2"@.len());
        assert("siglip2-so400m"@.len() != "siglip"@.len());
        assert("siglip2-so400m"@.len() != "vit-b-16-siglip2"@.len());
    }
}

/// Model names are ASCII and already lower-case.
proof fn lemma_model_name_lower(i: int)
    requires
        0 <= i < all_models_spec().len(),
    ensures
        is_ascii_str(all_models_spec()[i].name),
        ascii_lower(all_models_spec()[i].name) == all_models_spec()[i].name,
{
    reveal_strlit("clip-vit-b32");
    reveal_strlit("siglip2-b16");
    reveal_strlit("siglip2-so400m");
    let n = all_models_spec()[i].name;
    assert(ascii_lower(n) =~= n);
}

/// A model is found under its name written in any letter case: every ASCII
/// name whose lower-case form is a model's name selects that model, among
/// them the name itself and its upper-case form.
pub proof fn lemma_find_model_any_case(i: int, n: Seq<char>)
    requires
        0 <= i < all_models_spec().len(),
        is_ascii_str(n),
        ascii_lower(n) == all_models_spec()[i].name,
    ensures
        find_model_spec(ascii_lower(n)) == Some(all_models_spec()[i]),
        is_ascii_str(all_models_spec()[i].name),
        find_model_spec(ascii_lower(all_models_spec()[i].name)) == Some(all_models_spec()[i]),
        is_ascii_str(ascii_upper(all_models_spec()[i].name)),
        find_model_spec(ascii_lower(ascii_upper(all_models_spec()[i].name))) == Some(
            all_models_spec()[i],
        ),
{
    lemma_find_model_by_own_name(i);
    lemma_model_name_lower(i);
    lemma_ascii_case_round_trip(all_models_spec()[i].name);
}

/// Whether `p` occurs in `s` as a contiguous part.
pub open spec fn is_fragment(p: Seq<char>, s: Seq<char>) -> bool {
    exists|i: int| 0 <= i && i + p.len() <= s.len() && #[trigger] s.subrange(i, i + p.len()) == p
}

proof fn lemma_fragment_at(p: Seq<char>, s: Seq<char>, i: int)
    requires
        0 <= i,
        i + p.len() <= s.len(),
        s.subrange(i, i + p.len()) == p,
    ensures
        is_fragment(p, s),
{
}

/// The names a lookup accepts fit the model they select: each is a part of
/// that model's name or (lower-cased) repository, but for `large`, which
/// selects the model with the largest embeddings; every selected model is
/// one of the catalogue; and `immich` selects the default model.
pub proof fn lemma_find_model_names_fit(n: Seq<char>)
    ensures
        find_model_spec(n) matches Some(m) ==> all_models_spec().contains(m) && (is_fragment(
            n,
            m.name,
        ) || is_fragment(n, ascii_lower(m.hf_repo)) || (n == "large"@ && forall|k: int|
            0 <= k < all_models_spec().len() ==> (#[trigger] all_models_spec()[k]).embedding_dim
                <= m.embedding_dim)),
        find_model_spec("immich"@) == Some(siglip2_vit_b16_spec()),
{
    reveal_strlit("clip-vit-b32");
    reveal_strlit("clip");
    reveal_strlit("vit-b-32");
    reveal_strlit("openai");
    reveal_strlit("siglip2-b16");
    reveal_strlit("siglip2");
    reveal_strlit("siglip");
    reveal_strlit("vit-b-16-siglip2");
    reveal_strlit("siglip2-so400m");
    reveal_strlit("so400m");
    reveal_strlit("vit-so400m");
    reveal_strlit("large");
    reveal_strlit("immich");
    reveal_strlit("immich-app/ViT-B-32__openai");
    reveal_strlit("immich-app/ViT-B-16-SigLIP2__webli");
    reveal_strlit("immich-app/ViT-SO400M-16-SigLIP2-384__webli");
    let ms = all_models_spec();
    assert(ms[0] == clip_vit_b32_spec());
    assert(ms[1] == siglip2_vit_b16_spec());
    assert(ms[2] == siglip2_so400m_spec());
    let c = clip_vit_b32_spec();
    let b = siglip2_vit_b16_spec();
    let so = siglip2_so400m_spec();
    assert("immich"@[0] != "openai"@[0]);
    assert("immich"@[0] != "siglip"@[0]);
    assert("immich"@[0] != "so400m"@[0]);
    assert("immich"@.len() != "clip-vit-b32"@.len());
    assert("immich"@.len() != "clip"@.len());
    assert("immich"@.len() != "vit-b-32"@.len());
    assert("immich"@.len() != "siglip2-b16"@.len());
    assert("immich"@.len() != "siglip2"@.len());
    assert("immich"@.len() != "vit-b-16-siglip2"@.len());
    assert("immich"@.len() != "siglip2-so400m"@.len());
    assert("immich"@.len() != "vit-so400m"@.len());
    assert("immich"@.len() != "large"@.len());
    if n == "clip-vit-b32"@ || n == "clip"@ {
        assert(c.name.subrange(0, n.len() as int) =~= n);
        lemma_fragment_at(n, c.name, 0);
    } else if n == "vit-b-32"@ {
        assert(ascii_lower(c.hf_repo).subrange(11, 19) =~= n);
        lemma_fragment_at(n, ascii_lower(c.hf_repo), 11);
    } else if n == "openai"@ {
        assert(ascii_lower(c.hf_repo).subrange(21, 27) =~= n);
        lemma_fragment_at(n, ascii_lower(c.hf_repo), 21);
    } else if n == "siglip2-b16"@ || n == "siglip2"@ || n == "siglip"@ {
        assert(b.name.subrange(0, n.len() as int) =~= n);
        lemma_fragment_at(n, b.name, 0);
    } else if n == "vit-b-16-siglip2"@ {
        assert(ascii_lower(b.hf_repo).subrange(11, 27) =~= n);
        lemma_fragment_at(n, ascii_lower(b.hf_repo), 11);
    } else if n == "siglip2-so400m"@ {
        assert(so.name.subrange(0, n.len() as int) =~= n);
        lemma_fragment_at(n, so.name, 0);
    } else if n == "so400m"@ {
        assert(so.name.subrange(8, 14) =~= n);
        lemma_fragment_at(n, so.name, 8);
    } else if n == "vit-so400m"@ {
        assert(ascii_lower(so.hf_repo).subrange(11, 21) =~= n);
        lemma_fragment_at(n, ascii_lower(so.hf_repo), 11);
    } else if n == "immich"@ {
        assert(ascii_lower(b.hf_repo).subrange(0, 6) =~= n);
        lemma_fragment_at(n, ascii_lower(b.hf_repo), 0);
    }
    if n == "clip-vit-b32"@ || n == "clip"@ || n == "vit-b-32"@ || n == "openai"@ {
        assert(ms.contains(c)) by { assert(ms[0] == c); }
    } else if n == "siglip2-b16"@ || n == "siglip2"@ || n == "siglip"@ || n == "vit-b-16-siglip2"@
        || n == "immich"@ {
        assert(ms.contains(b)) by { assert(ms[1] == b); }
    } else if n == "siglip2-so400m"@ || n == "so400m"@ || n == "vit-so400m"@ || n == "large"@ {
        assert(ms.contains(so)) by { assert(ms[2] == so); }
    }
}

} // verus!
