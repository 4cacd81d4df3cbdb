//! The deduplication engine: its methods, their selection, the checks made
//! before a run, and the choice of image files in a directory.

use vstd::prelude::*;
use vstd::seq_lib::{to_multiset_build, to_multiset_insert};
use crate::models::{find_model, find_model_spec, model_names, opt_model_view, ModelConfig, default_model, siglip2_vit_b16_spec, all_models_spec, ModelSpec};
use crate::oauth::{join, join_strings};
use crate::text::{
    ascii_lower, compare_keys, is_ascii_str, key_lt, lemma_key_lt_asymmetric, lemma_key_lt_total,
    lemma_key_lt_transitive, lowercase, str_eq, to_lowercase, KeyOrder,
};

verus! {

/// Available deduplication methods.
#[derive(Debug, Clone, Copy, PartialEq, Eq, Structural)]
pub enum DedupeMethod {
    /// Perceptual hashing (dHash) — no ML model needed.
    PHash,
    /// Vision model via ONNX Runtime.
    Onnx,
    /// ONNX with CoreML Execution Provider (macOS).
    CoreML,
}

/// The canonical lower-case name of a method.
pub open spec fn method_name(m: DedupeMethod) -> Seq<char> {
    match m {
        DedupeMethod::PHash => "phash"@,
        DedupeMethod::Onnx => "onnx"@,
        DedupeMethod::CoreML => "coreml"@,
    }
}

/// The method an already lower-cased name selects (with the aliases
/// `hash` for perceptual hashing and `immich` for ONNX).
pub open spec fn parse_method_spec(lower: Seq<char>) -> Option<DedupeMethod> {
    if lower == "phash"@ || lower == "hash"@ {
        Some(DedupeMethod::PHash)
    } else if lower == "onnx"@ || lower == "immich"@ {
        Some(DedupeMethod::Onnx)
    } else if lower == "coreml"@ {
        Some(DedupeMethod::CoreML)
    } else {
        None
    }
}

impl DedupeMethod {
    /// The method's name.
    pub fn as_str(&self) -> (s: &'static str)
        ensures
            s@ == method_name(*self),
    {
        match self {
            DedupeMethod::PHash => "phash",
            DedupeMethod::Onnx => "onnx",
            DedupeMethod::CoreML => "coreml",
        }
    }

    /// The method's name as an owned string (what `Display` writes).
    pub fn to_string(&self) -> (s: String)
        ensures
            s@ == method_name(*self),
    {
        self.as_str().to_owned()
    }

    /// Parses a name that is already lower-case.
    pub fn parse_lowercase(lower: &str) -> (r: Result<DedupeMethod, String>)
        ensures
            match r {
                Ok(m) => parse_method_spec(lower@) == Some(m),
                Err(msg) => parse_method_spec(lower@) is None && msg@ == "Unknown method: "@
                    + lower@,
            },
    {
        if str_eq(lower, "phash") || str_eq(lower, "hash") {
            Ok(DedupeMethod::PHash)
        } else if str_eq(lower, "onnx") || str_eq(lower, "immich") {
            Ok(DedupeMethod::Onnx)
        } else if str_eq(lower, "coreml") {
            Ok(DedupeMethod::CoreML)
        } else {
            let mut msg = "Unknown method: ".to_owned();
            msg.append(lower);
            Err(msg)
        }
    }

    /// Parses a method name, ignoring case.
    pub fn parse(s: &str) -> (r: Result<DedupeMethod, String>)
        ensures
            match r {
                Ok(m) => parse_method_spec(lowercase(s@)) == Some(m),
                Err(msg) => parse_method_spec(lowercase(s@)) is None && msg@ == "Unknown method: "@
                    + lowercase(s@),
            },
            is_ascii_str(s@) ==> match r {
                Ok(m) => parse_method_spec(ascii_lower(s@)) == Some(m),
                Err(msg) => parse_method_spec(ascii_lower(s@)) is None && msg@ == "Unknown method: "@
                    + ascii_lower(s@),
            },
    {
        let lower = to_lowercase(s);
        DedupeMethod::parse_lowercase(lower.as_str())
    }
}

impl std::str::FromStr for DedupeMethod {
    type Err = String;

    fn from_str(s: &str) -> (r: Result<Self, Self::Err>)
        ensures
            match r {
                Ok(m) => parse_method_spec(lowercase(s@)) == Some(m),
                Err(msg) => parse_method_spec(lowercase(s@)) is None && msg@ == "Unknown method: "@
                    + lowercase(s@),
            },
            is_ascii_str(s@) ==> match r {
                Ok(m) => parse_method_spec(ascii_lower(s@)) == Some(m),
                Err(msg) => parse_method_spec(ascii_lower(s@)) is None && msg@ == "Unknown method: "@
                    + ascii_lower(s@),
            },
    {
        DedupeMethod::parse(s)
    }
}

/// A method's own name is ASCII and already lower-case, so parsing it (in
/// any letter case) gives the method back: `from_str(as_str(m)) == Ok(m)`.
pub proof fn lemma_method_name_round_trip(m: DedupeMethod)
    ensures
        is_ascii_str(method_name(m)),
        ascii_lower(method_name(m)) == method_name(m),
        parse_method_spec(ascii_lower(method_name(m))) == Some(m),
{
    reveal_strlit("phash");
    reveal_strlit("onnx");
    reveal_strlit("coreml");
    assert(ascii_lower(method_name(m)) =~= method_name(m));
    lemma_parse_method_name(m);
}

/// A method's own name parses back to it.
pub proof fn lemma_parse_method_name(m: DedupeMethod)
    ensures
        parse_method_spec(method_name(m)) == Some(m),
{
    reveal_strlit("phash");
    reveal_strlit("hash");
    reveal_strlit("onnx");
    reveal_strlit("immich");
    reveal_strlit("coreml");
    assert("onnx"@[0] != "phash"@[0]);
    assert("onnx"@[0] != "hash"@[0]);
    assert("coreml"@[0] != "phash"@[0]);
    assert("coreml"@.len() != "hash"@.len());
    assert("coreml"@.len() != "onnx"@.len());
    assert("coreml"@[0] != "immich"@[0]);
}

/// Errors that the engine itself decides.
#[derive(Debug)]
pub enum DedupeError {
    /// An image could not be decoded; the decoder's message.
    Image(String),
    /// The directory holds no image.
    NoImages,
    /// The method is not compiled into this build.
    MethodNotAvailable(String),
    /// Any other failure, with its message.
    Other(String),
}

/// The methods of this build: perceptual hashing.
pub open spec fn available_methods_spec() -> Seq<DedupeMethod> {
    seq![DedupeMethod::PHash]
}

/// The best method among `methods`: CoreML, then ONNX, then perceptual
/// hashing.
pub open spec fn preferred_method(methods: Seq<DedupeMethod>) -> Option<DedupeMethod> {
    if methods.contains(DedupeMethod::CoreML) {
        Some(DedupeMethod::CoreML)
    } else if methods.contains(DedupeMethod::Onnx) {
        Some(DedupeMethod::Onnx)
    } else if methods.contains(DedupeMethod::PHash) {
        Some(DedupeMethod::PHash)
    } else {
        None
    }
}

/// Whether `methods` holds `m`.
pub fn contains_method(methods: &Vec<DedupeMethod>, m: DedupeMethod) -> (r: bool)
    ensures
        r == methods@.contains(m),
{
    let mut i: usize = 0;
    while i < methods.len()
        invariant
            i <= methods@.len(),
            forall|j: int| 0 <= j < i ==> methods@[j] != m,
        decreases methods@.len() - i,
    {
        if methods[i] == m {
            return true;
        }
        i = i + 1;
    }
    false
}

/// The best method among `methods`.
pub fn select_preferred(methods: &Vec<DedupeMethod>) -> (r: Option<DedupeMethod>)
    ensures
        r == preferred_method(methods@),
{
    if contains_method(methods, DedupeMethod::CoreML) {
        Some(DedupeMethod::CoreML)
    } else if contains_method(methods, DedupeMethod::Onnx) {
        Some(DedupeMethod::Onnx)
    } else if contains_method(methods, DedupeMethod::PHash) {
        Some(DedupeMethod::PHash)
    } else {
        None
    }
}

/// The preferred method is one of the methods offered, and there is one
/// exactly when something is offered.
pub proof fn lemma_preferred_is_offered(methods: Seq<DedupeMethod>)
    ensures
        preferred_method(methods) matches Some(m) ==> methods.contains(m),
        preferred_method(methods) is None <==> methods.len() == 0,
{
    if methods.len() > 0 {
        let m = methods[0];
        assert(methods.contains(m));
    }
}

/// The message when no name is given and no method is compiled in.
pub open spec fn no_method_message() -> Seq<char> {
    "No deduplication methods available. Enable 'onnx' or 'phash' feature."@
}

/// Main deduplication engine. Dispatches to the selected backend.
pub struct DedupeEngine;

impl DedupeEngine {
    /// Return which methods are available at runtime.
    pub fn available_methods() -> (methods: Vec<DedupeMethod>)
        ensures
            methods@ == available_methods_spec(),
    {
        let mut methods = Vec::new();
        methods.push(DedupeMethod::PHash);
        proof {
            assert(methods@ =~= available_methods_spec());
        }
        methods
    }

    /// Auto-select the best available method.
    pub fn auto_select() -> (r: Option<DedupeMethod>)
        ensures
            r == preferred_method(available_methods_spec()),
            r == Some(DedupeMethod::PHash),
    {
        let methods = Self::available_methods();
        proof {
            assert(methods@[0] == DedupeMethod::PHash);
            assert(!methods@.contains(DedupeMethod::CoreML));
            assert(!methods@.contains(DedupeMethod::Onnx));
        }
        select_preferred(&methods)
    }

    /// The method to run: the one named (ignoring case), or else the best
    /// available one.
    pub fn resolve_method(method: Option<&str>) -> (r: Result<DedupeMethod, String>)
        ensures
            match method {
                Some(name) => match r {
                    Ok(m) => parse_method_spec(lowercase(name@)) == Some(m),
                    Err(msg) => parse_method_spec(lowercase(name@)) is None && msg@
                        == "Unknown method: "@ + lowercase(name@),
                },
                None => match preferred_method(available_methods_spec()) {
                    Some(m) => r == Ok::<DedupeMethod, String>(m),
                    None => r matches Err(msg) && msg@ == no_method_message(),
                },
            },
    {
        match method {
            Some(name) => DedupeMethod::parse(name),
            None => match Self::auto_select() {
                Some(m) => Ok(m),
                None => Err(
                    "No deduplication methods available. Enable 'onnx' or 'phash' feature.".to_owned(),
                ),
            },
        }
    }

    /// The checks `find_duplicates` makes before any image is processed, in
    /// its order: there must be images, a named model must be known, and the
    /// method must be compiled in. Gives the model to use.
    pub fn prepare_run(method: DedupeMethod, image_count: usize, model_name: Option<&str>) -> (r:
        Result<ModelConfig, DedupeError>)
        ensures
            image_count == 0 ==> r matches Err(DedupeError::NoImages),
            image_count > 0 ==> match model_name {
                Some(name) if find_model_spec(lowercase(name@)) is None => r matches Err(
                    DedupeError::Other(msg),
                ) && msg@ == unknown_model_message(name@),
                _ => if available_methods_spec().contains(method) {
                    r matches Ok(c) && Some(c@) == match model_name {
                        Some(name) => find_model_spec(lowercase(name@)),
                        None => Some(siglip2_vit_b16_spec()),
                    }
                } else {
                    r matches Err(DedupeError::MethodNotAvailable(msg)) && msg@ == method_name(
                        method,
                    )
                },
            },
    {
        if image_count == 0 {
            return Err(DedupeError::NoImages);
        }
        let config = match model_name {
            Some(name) => match find_model(name) {
                Some(c) => c,
                None => {
                    return Err(DedupeError::Other(unknown_model(name)));
                },
            },
            None => default_model(),
        };
        let available = Self::available_methods();
        if contains_method(&available, method) {
            Ok(config)
        } else {
            Err(DedupeError::MethodNotAvailable(method.to_string()))
        }
    }
}

/// The message for an unknown model name.
pub open spec fn unknown_model_message(name: Seq<char>) -> Seq<char> {
    "Unknown model '"@ + name + "'. Available: "@ + join(
        all_models_spec().map_values(|m: ModelSpec| m.name),
        ", "@,
    )
}

fn unknown_model(name: &str) -> (msg: String)
    ensures
        msg@ == unknown_model_message(name@),
{
    let names = model_names();
    let mut owned: Vec<String> = Vec::new();
    let mut i: usize = 0;
    while i < names.len()
        invariant
            i <= names@.len(),
            owned@.map_values(|p: String| p@) == names@.take(i as int).map_values(|n: &str| n@),
        decreases names@.len() - i,
    {
        let o = names[i].to_owned();
        proof {
            assert(names@.take(i + 1).map_values(|n: &str| n@) =~= names@.take(i as int).map_values(
                |n: &str| n@,
            ).push(names@[i as int]@));
            assert(owned@.push(o).map_values(|p: String| p@) =~= owned@.map_values(|p: String| p@).push(
                names@[i as int]@,
            ));
        }
        owned.push(o);
        i = i + 1;
    }
    proof {
        assert(names@.take(names@.len() as int) =~= names@);
    }
    let list = join_strings(&owned, ", ");
    let mut msg = "Unknown model '".to_owned();
    msg.append(name);
    msg.append("'. Available: ");
    msg.append(list.as_str());
    msg
}

// ── choosing image files ─────────────────────────────────────────────────

/// Index of the last occurrence of `c` in `s`.
pub open spec fn rfind_char(s: Seq<char>, c: char) -> Option<nat>
    decreases s.len(),
{
    if s.len() == 0 {
        None
    } else if s.last() == c {
        Some((s.len() - 1) as nat)
    } else {
        rfind_char(s.drop_last(), c)
    }
}

/// The extension of a file name, as `Path::extension` gives it: the part
/// after the last `.`, unless that `.` starts the name or there is none.
pub open spec fn extension(name: Seq<char>) -> Option<Seq<char>> {
    match rfind_char(name, '.') {
        Some(i) => if i > 0 {
            Some(name.skip((i + 1) as int))
        } else {
            None
        },
        None => None,
    }
}

proof fn lemma_rfind_bound(s: Seq<char>, c: char)
    ensures
        rfind_char(s, c) matches Some(i) ==> i < s.len(),
    decreases s.len(),
{
    if s.len() > 0 && s.last() != c {
        lemma_rfind_bound(s.drop_last(), c);
    }
}

/// Whether a file name is a JPEG, PNG or WebP image (by extension, any case).
pub open spec fn is_image_name(name: Seq<char>) -> bool {
    match extension(name) {
        Some(e) => {
            let l = lowercase(e);
            l == "jpg"@ || l == "jpeg"@ || l == "png"@ || l == "webp"@
        },
        None => false,
    }
}

/// The image names among `names`, in their order.
pub open spec fn image_names(names: Seq<Seq<char>>) -> Seq<Seq<char>>
    decreases names.len(),
{
    if names.len() == 0 {
        Seq::empty()
    } else if is_image_name(names.last()) {
        image_names(names.drop_last()).push(names.last())
    } else {
        image_names(names.drop_last())
    }
}

/// Names in non-decreasing order of `Ord for str`.
pub open spec fn sorted_names(s: Seq<Seq<char>>) -> bool {
    forall|i: int, j: int| 0 <= i < j < s.len() ==> !key_lt(#[trigger] s[j], #[trigger] s[i])
}

/// Two sorted orderings of the same names are the same sequence.
pub proof fn lemma_sorted_names_unique(a: Seq<Seq<char>>, b: Seq<Seq<char>>)
    requires
        sorted_names(a),
        sorted_names(b),
        a.to_multiset() == b.to_multiset(),
    ensures
        a == b,
    decreases a.len(),
{
    broadcast use vstd::seq_lib::group_to_multiset_ensures;

    assert(a.len() == a.to_multiset().len());
    assert(b.len() == b.to_multiset().len());
    if a.len() == 0 {
        assert(a =~= b);
    } else {
        let x = a[0];
        let y = b[0];
        assert(a.contains(x));
        assert(a.to_multiset().count(x) > 0);
        assert(b.contains(x));
        let j = choose|j: int| 0 <= j < b.len() && b[j] == x;
        if j > 0 {
            assert(!key_lt(b[j], b[0]));
        }
        assert(b.contains(y));
        assert(b.to_multiset().count(y) > 0);
        assert(a.contains(y));
        let i = choose|i: int| 0 <= i < a.len() && a[i] == y;
        if i > 0 {
            assert(!key_lt(a[i], a[0]));
        }
        lemma_key_lt_total(x, y);
        assert(x == y);
        assert(a.remove(0).to_multiset() == a.to_multiset().remove(x));
        assert(b.remove(0).to_multiset() == b.to_multiset().remove(y));
        assert(a.remove(0) =~= a.drop_first());
        assert(b.remove(0) =~= b.drop_first());
        assert(sorted_names(a.drop_first())) by {
            assert forall|k: int, l: int| 0 <= k < l < a.drop_first().len() implies !key_lt(
                #[trigger] a.drop_first()[l],
                #[trigger] a.drop_first()[k],
            ) by {
                assert(a.drop_first()[l] == a[l + 1]);
                assert(a.drop_first()[k] == a[k + 1]);
            }
        }
        assert(sorted_names(b.drop_first())) by {
            assert forall|k: int, l: int| 0 <= k < l < b.drop_first().len() implies !key_lt(
                #[trigger] b.drop_first()[l],
                #[trigger] b.drop_first()[k],
            ) by {
                assert(b.drop_first()[l] == b[l + 1]);
                assert(b.drop_first()[k] == b[k + 1]);
            }
        }
        lemma_sorted_names_unique(a.drop_first(), b.drop_first());
        assert(a =~= b) by {
            assert forall|k: int| 0 <= k < a.len() implies a[k] == b[k] by {
                if k > 0 {
                    assert(a[k] == a.drop_first()[k - 1]);
                    assert(b[k] == b.drop_first()[k - 1]);
                }
            }
        }
    }
}

/// The image names among `names`, sorted: the one sorted sequence holding
/// them.
pub open spec fn sorted_images(names: Seq<Seq<char>>) -> Seq<Seq<char>> {
    choose|all: Seq<Seq<char>>|
        sorted_names(all) && all.to_multiset() == image_names(names).to_multiset()
}

/// The first `max` items of `s`, or all of `s` without a limit.
pub open spec fn limit(s: Seq<Seq<char>>, max: Option<usize>) -> Seq<Seq<char>> {
    match max {
        Some(m) => if m < s.len() {
            s.take(m as int)
        } else {
            s
        },
        None => s,
    }
}

/// A limit of `k` keeps the first `k` names (all of them, when there are
/// fewer) of the choice without a limit: so the choices for two limits agree
/// on their common prefix.
pub proof fn lemma_select_images_prefix(names: Seq<Seq<char>>, k: usize)
    ensures
        limit(sorted_images(names), Some(k)) == limit(sorted_images(names), None).take(
            if k < sorted_images(names).len() {
                k as int
            } else {
                sorted_images(names).len() as int
            },
        ),
{
    let all = sorted_images(names);
    assert(all.take(all.len() as int) =~= all);
}

fn last_dot(s: &str) -> (r: Option<usize>)
    ensures
        match r {
            Some(i) => rfind_char(s@, '.') == Some(i as nat),
            None => rfind_char(s@, '.') is None,
        },
{
    let n = s.unicode_len();
    let mut k: usize = n;
    proof {
        assert(s@.take(n as int) =~= s@);
    }
    while k > 0
        invariant
            n == s@.len(),
            k <= n,
            rfind_char(s@, '.') == rfind_char(s@.take(k as int), '.'),
        decreases k,
    {
        proof {
            assert(s@.take(k as int).last() == s@[k - 1]);
            assert(s@.take(k as int).drop_last() =~= s@.take(k - 1));
        }
        if s.get_char(k - 1) == '.' {
            return Some(k - 1);
        }
        k = k - 1;
    }
    None
}

/// The extension of a file name, as `Path::extension` gives it.
pub fn extension_of(name: &str) -> (r: Option<String>)
    ensures
        match r {
            Some(e) => extension(name@) == Some(e@),
            None => extension(name@) is None,
        },
{
    match last_dot(name) {
        Some(i) => {
            if i == 0 {
                return None;
            }
            proof {
                lemma_rfind_bound(name@, '.');
            }
            let n = name.unicode_len();
            let ext = name.substring_char(i + 1, n);
            proof {
                assert(ext@ =~= name@.skip(i + 1));
            }
            Some(ext.to_owned())
        },
        None => None,
    }
}

/// Whether a file name is a JPEG, PNG or WebP image.
pub fn is_image_file_name(name: &str) -> (r: bool)
    ensures
        r == is_image_name(name@),
{
    proof {
        assert(name@.take(name@.len() as int) =~= name@);
    }
    match last_dot(name) {
        Some(i) => {
            if i == 0 {
                return false;
            }
            let n = name.unicode_len();
            proof {
                lemma_rfind_bound(name@, '.');
            }
            let ext = name.substring_char(i + 1, n);
            proof {
                assert(ext@ =~= name@.skip(i + 1));
            }
            let l = to_lowercase(ext);
            str_eq(l.as_str(), "jpg") || str_eq(l.as_str(), "jpeg") || str_eq(l.as_str(), "png")
                || str_eq(l.as_str(), "webp")
        },
        None => false,
    }
}

/// Where `x` goes in a sorted list so that it follows every equal name.
fn insertion_point(sorted: &Vec<String>, x: &str) -> (p: usize)
    ensures
        p <= sorted@.len(),
        forall|i: int| 0 <= i < p ==> !key_lt(x@, #[trigger] sorted@[i]@),
        p < sorted@.len() ==> key_lt(x@, sorted@[p as int]@),
{
    let mut p: usize = 0;
    while p < sorted.len()
        invariant
            p <= sorted@.len(),
            forall|i: int| 0 <= i < p ==> !key_lt(x@, #[trigger] sorted@[i]@),
        decreases sorted@.len() - p,
    {
        if compare_keys(x, sorted[p].as_str()) == KeyOrder::Less {
            return p;
        }
        p = p + 1;
    }
    p
}

/// The file names to process, as `collect_images` chooses them among the
/// names of the regular files of a directory: the JPEG, PNG and WebP images,
/// sorted, at most `max_images` of them.
pub fn select_images(names: &Vec<String>, max_images: Option<usize>) -> (r: Vec<String>)
    ensures
        sorted_names(sorted_images(names@.map_values(|n: String| n@))),
        sorted_images(names@.map_values(|n: String| n@)).to_multiset() == image_names(
            names@.map_values(|n: String| n@),
        ).to_multiset(),
        r@.map_values(|n: String| n@) == limit(
            sorted_images(names@.map_values(|n: String| n@)),
            max_images,
        ),
{
    let ghost views = names@.map_values(|n: String| n@);
    let mut out: Vec<String> = Vec::new();
    let mut i: usize = 0;
    proof {
        assert(views.take(0) =~= Seq::<Seq<char>>::empty());
        assert(out@.map_values(|n: String| n@) =~= Seq::<Seq<char>>::empty());
    }
    while i < names.len()
        invariant
            views == names@.map_values(|n: String| n@),
            i <= names@.len(),
            sorted_names(out@.map_values(|n: String| n@)),
            out@.map_values(|n: String| n@).to_multiset() == image_names(
                views.take(i as int),
            ).to_multiset(),
        decreases names@.len() - i,
    {
        let ghost before = out@.map_values(|n: String| n@);
        proof {
            assert(views.take(i + 1).drop_last() =~= views.take(i as int));
            assert(views.take(i + 1).last() == names@[i as int]@);
        }
        if is_image_file_name(names[i].as_str()) {
            let p = insertion_point(&out, names[i].as_str());
            let x = names[i].clone();
            let ghost xv = x@;
            out.insert(p, x);
            proof {
                assert(out@.map_values(|n: String| n@) =~= before.insert(p as int, xv));
                to_multiset_insert(before, p as int, xv);
                to_multiset_build(image_names(views.take(i as int)), xv);
                let after = out@.map_values(|n: String| n@);
                assert forall|a: int, b: int| 0 <= a < b < after.len() implies !key_lt(
                    #[trigger] after[b],
                    #[trigger] after[a],
                ) by {
                    if a < p && b == p {
                        assert(after[a] == before[a]);
                    } else if a == p && b > p {
                        assert(after[b] == before[b - 1]);
                        if p < before.len() {
                            assert(key_lt(xv, before[p as int]));
                            if b - 1 > p {
                                assert(!key_lt(before[b - 1], before[p as int]));
                                lemma_key_lt_total(before[b - 1], before[p as int]);
                                if before[b - 1] != before[p as int] {
                                    lemma_key_lt_transitive(xv, before[p as int], before[b - 1]);
                                }
                            }
                            lemma_key_lt_asymmetric(xv, before[b - 1]);
                        }
                    } else if a < p && b > p {
                        assert(after[a] == before[a]);
                        assert(after[b] == before[b - 1]);
                    } else if b < p {
                        assert(after[a] == before[a]);
                        assert(after[b] == before[b]);
                    } else {
                        assert(after[a] == before[a - 1]);
                        assert(after[b] == before[b - 1]);
                    }
                }
            }
        }
        i = i + 1;
    }
    proof {
        assert(views.take(names@.len() as int) =~= views);
    }
    let ghost all = out@.map_values(|n: String| n@);
    proof {
        assert(sorted_names(all) && all.to_multiset() == image_names(views).to_multiset());
        let chosen = sorted_images(views);
        assert(sorted_names(chosen) && chosen.to_multiset() == image_names(views).to_multiset());
        lemma_sorted_names_unique(all, chosen);
    }
    match max_images {
        Some(m) => {
            if m < out.len() {
                out.truncate(m);
                proof {
                    assert(out@.map_values(|n: String| n@) =~= all.take(m as int));
                }
            }
        },
        None => {},
    }
    out
}

} // verus!
