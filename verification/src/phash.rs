//! Duplicate search by perceptual hashing: each image is decoded (the
//! `image` crate) and hashed with a 16x16 double-gradient hash
//! (`image_hasher`); the Hamming distance of two hashes (as
//! `ImageHash::dist` computes it) decides which pairs of images are
//! reported.

use vstd::prelude::*;
use crate::engine::{extension, extension_of, DedupeError};
use crate::text::ascii_lower;

verus! {

/// Number of one bits of a byte.
pub open spec fn popcount(x: u8) -> nat
    decreases x,
{
    if x == 0 {
        0
    } else {
        (x % 2) as nat + popcount(x / 2)
    }
}

/// Differing bits among the first `n` bytes of `a` and `b`.
pub open spec fn hamming_prefix(a: Seq<u8>, b: Seq<u8>, n: int) -> nat
    decreases n,
{
    if n <= 0 {
        0
    } else {
        hamming_prefix(a, b, n - 1) + popcount(a[n - 1] ^ b[n - 1])
    }
}

/// The Hamming distance of two hashes: the one bits of the byte-wise XOR,
/// over the bytes both hashes have.
pub open spec fn hamming(a: Seq<u8>, b: Seq<u8>) -> nat {
    hamming_prefix(a, b, if a.len() < b.len() { a.len() as int } else { b.len() as int })
}

spec fn two_pow(k: nat) -> nat
    decreases k,
{
    if k == 0 {
        1
    } else {
        2 * two_pow((k - 1) as nat)
    }
}

proof fn lemma_popcount_bits(x: u8, k: nat)
    requires
        (x as nat) < two_pow(k),
    ensures
        popcount(x) <= k,
    decreases x,
{
    if x > 0 {
        assert(k > 0);
        lemma_popcount_bits(x / 2, (k - 1) as nat);
    }
}

proof fn lemma_popcount_le(x: u8)
    ensures
        popcount(x) <= 8,
{
    reveal_with_fuel(two_pow, 9);
    assert(two_pow(8) == 256);
    lemma_popcount_bits(x, 8);
}

fn popcount_u8(x: u8) -> (c: u32)
    ensures
        c == popcount(x),
{
    let mut y = x;
    let mut c: u32 = 0;
    proof {
        lemma_popcount_le(x);
    }
    while y > 0
        invariant
            c + popcount(y) == popcount(x),
            popcount(x) <= 8,
        decreases y,
    {
        c = c + (y % 2) as u32;
        y = y / 2;
    }
    c
}

proof fn lemma_hamming_prefix_le(a: Seq<u8>, b: Seq<u8>, n: int)
    ensures
        hamming_prefix(a, b, n) <= 8 * if n < 0 {
            0
        } else {
            n
        },
    decreases n,
{
    if n > 0 {
        lemma_hamming_prefix_le(a, b, n - 1);
        lemma_popcount_le(a[n - 1] ^ b[n - 1]);
    }
}

/// The Hamming distance of two hashes, as `ImageHash::dist` computes it.
pub fn hash_distance(a: &[u8], b: &[u8]) -> (d: u32)
    requires
        a@.len() < 0x2000_0000 || b@.len() < 0x2000_0000,
    ensures
        d == hamming(a@, b@),
{
    let n = if a.len() < b.len() { a.len() } else { b.len() };
    let mut d: u32 = 0;
    let mut i: usize = 0;
    while i < n
        invariant
            n == if a@.len() < b@.len() {
                a@.len()
            } else {
                b@.len()
            },
            n < 0x2000_0000,
            i <= n,
            d == hamming_prefix(a@, b@, i as int),
        decreases n - i,
    {
        proof {
            lemma_hamming_prefix_le(a@, b@, i + 1);
        }
        d = d + popcount_u8(a[i] ^ b[i]);
        i = i + 1;
    }
    d
}

/// Two images whose hashes are within the distance bound.
#[derive(Debug, Clone, Copy, PartialEq, Eq, Structural)]
pub struct HashPair {
    pub index_a: usize,
    pub index_b: usize,
    pub distance: u32,
}

/// Whether `(a, b)` comes before `(c, d)` in lexicographic order.
pub open spec fn pair_before(a: int, b: int, c: int, d: int) -> bool {
    a < c || (a == c && b < d)
}

/// Whether the pairs hold the pair of images `a` and `b`.
pub open spec fn holds_pair(r: Seq<HashPair>, a: int, b: int) -> bool {
    exists|k: int| 0 <= k < r.len() && #[trigger] r[k].index_a == a && r[k].index_b == b
}

/// Whether the hashes of images `a` and `b` are within `max_distance`.
pub open spec fn close(hashes: Seq<Vec<u8>>, max_distance: u32, a: int, b: int) -> bool {
    hamming(hashes[a]@, hashes[b]@) <= max_distance
}

proof fn lemma_holds_pair_push(r: Seq<HashPair>, p: HashPair, a: int, b: int)
    requires
        holds_pair(r, a, b),
    ensures
        holds_pair(r.push(p), a, b),
{
    let k = choose|k: int| 0 <= k < r.len() && #[trigger] r[k].index_a == a && r[k].index_b == b;
    assert(r.push(p)[k] == r[k]);
}

/// Whether `r` is the report of the pair search on `hashes`: exactly the
/// pairs `i < j` whose hashes are within `max_distance`, each with its
/// distance, in lexicographic order.
pub open spec fn is_pair_report(hashes: Seq<Seq<u8>>, max_distance: u32, r: Seq<HashPair>) -> bool {
    &&& forall|k: int|
        0 <= k < r.len() ==> {
            let p = #[trigger] r[k];
            &&& p.index_a < p.index_b < hashes.len()
            &&& p.distance == hamming(hashes[p.index_a as int], hashes[p.index_b as int])
            &&& p.distance <= max_distance
        }
    &&& forall|k: int, l: int|
        0 <= k < l < r.len() ==> pair_before(
            #[trigger] r[k].index_a as int,
            r[k].index_b as int,
            #[trigger] r[l].index_a as int,
            r[l].index_b as int,
        )
    &&& forall|a: int, b: int|
        0 <= a < b < hashes.len() && hamming(hashes[a], hashes[b]) <= max_distance
            ==> #[trigger] holds_pair(r, a, b)
}

/// The views of a sequence of byte vectors.
pub open spec fn byte_views(v: Seq<Vec<u8>>) -> Seq<Seq<u8>> {
    v.map_values(|h: Vec<u8>| h@)
}

/// All pairs `(i, j)` with `i < j` whose hashes are within `max_distance`,
/// in lexicographic order of `(i, j)`, each with its distance: the pairs
/// `find_duplicates_phash` reports.
pub fn find_hash_pairs(hashes: &Vec<Vec<u8>>, max_distance: u32) -> (r: Vec<HashPair>)
    requires
        forall|i: int| 0 <= i < hashes@.len() ==> (#[trigger] hashes@[i])@.len() < 0x2000_0000,
    ensures
        is_pair_report(byte_views(hashes@), max_distance, r@),
{
    let n = hashes.len();
    let mut pairs: Vec<HashPair> = Vec::new();
    let mut i: usize = 0;
    while i < n
        invariant
            n == hashes@.len(),
            i <= n,
            forall|i2: int| 0 <= i2 < hashes@.len() ==> (#[trigger] hashes@[i2])@.len() < 0x2000_0000,
            forall|k: int|
                0 <= k < pairs@.len() ==> {
                    let p = #[trigger] pairs@[k];
                    &&& p.index_a < p.index_b < n
                    &&& p.index_a < i
                    &&& p.distance == hamming(
                        hashes@[p.index_a as int]@,
                        hashes@[p.index_b as int]@,
                    )
                    &&& p.distance <= max_distance
                },
            forall|k: int, l: int|
                0 <= k < l < pairs@.len() ==> pair_before(
                    #[trigger] pairs@[k].index_a as int,
                    pairs@[k].index_b as int,
                    #[trigger] pairs@[l].index_a as int,
                    pairs@[l].index_b as int,
                ),
            forall|a: int, b: int|
                0 <= a < i && a < b < n && close(hashes@, max_distance, a, b) ==> #[trigger] holds_pair(
                    pairs@,
                    a,
                    b,
                ),
        decreases n - i,
    {
        let mut j: usize = i + 1;
        while j < n
            invariant
                n == hashes@.len(),
                i < n,
                i + 1 <= j <= n,
                forall|i2: int|
                    0 <= i2 < hashes@.len() ==> (#[trigger] hashes@[i2])@.len() < 0x2000_0000,
                forall|k: int|
                    0 <= k < pairs@.len() ==> {
                        let p = #[trigger] pairs@[k];
                        &&& p.index_a < p.index_b < n
                        &&& pair_before(p.index_a as int, p.index_b as int, i as int, j as int)
                        &&& p.distance == hamming(
                            hashes@[p.index_a as int]@,
                            hashes@[p.index_b as int]@,
                        )
                        &&& p.distance <= max_distance
                    },
                forall|k: int, l: int|
                    0 <= k < l < pairs@.len() ==> pair_before(
                        #[trigger] pairs@[k].index_a as int,
                        pairs@[k].index_b as int,
                        #[trigger] pairs@[l].index_a as int,
                        pairs@[l].index_b as int,
                    ),
                forall|a: int, b: int|
                    ((0 <= a < i && a < b < n) || (a == i && i < b < j)) && close(
                        hashes@,
                        max_distance,
                        a,
                        b,
                    ) ==> #[trigger] holds_pair(pairs@, a, b),
            decreases n - j,
        {
            let d = hash_distance(hashes[i].as_slice(), hashes[j].as_slice());
            if d <= max_distance {
                let p = HashPair { index_a: i, index_b: j, distance: d };
                let ghost old_pairs = pairs@;
                pairs.push(p);
                proof {
                    assert(pairs@[old_pairs.len() as int] == p);
                    assert(pairs@[old_pairs.len() as int].index_a == i);
                    assert(holds_pair(pairs@, i as int, j as int));
                    assert forall|a: int, b: int|
                        ((0 <= a < i && a < b < n) || (a == i && i < b < j + 1)) && close(
                            hashes@,
                            max_distance,
                            a,
                            b,
                        ) implies #[trigger] holds_pair(pairs@, a, b) by {
                        if !(a == i && b == j) {
                            lemma_holds_pair_push(old_pairs, p, a, b);
                        }
                    }
                    assert forall|k: int, l: int| 0 <= k < l < pairs@.len() implies pair_before(
                        #[trigger] pairs@[k].index_a as int,
                        pairs@[k].index_b as int,
                        #[trigger] pairs@[l].index_a as int,
                        pairs@[l].index_b as int,
                    ) by {
                        if l < old_pairs.len() {
                            assert(pairs@[k] == old_pairs[k]);
                            assert(pairs@[l] == old_pairs[l]);
                        } else {
                            assert(pairs@[k] == old_pairs[k]);
                        }
                    }
                }
            }
            j = j + 1;
        }
        i = i + 1;
    }
    proof {
        let views = byte_views(hashes@);
        assert forall|k: int| 0 <= k < views.len() implies #[trigger] views[k] == hashes@[k]@ by {}
        assert forall|a: int, b: int|
            0 <= a < b < views.len() && hamming(views[a], views[b]) <= max_distance implies #[trigger] holds_pair(
            pairs@,
            a,
            b,
        ) by {
            assert(close(hashes@, max_distance, a, b));
        }
    }
    pairs
}

// ── decoding and hashing ────────────────────────────────────────────────

#[verifier::external_type_specification]
#[verifier::external_body]
pub struct ExImageError(image::ImageError);

/// The perceptual hash of an encoded image read in the format that the
/// file extension `ext` (ASCII lower-case) names, or `None` when `ext` names
/// no image format or the bytes do not decode in that format.
pub uninterp spec fn perceptual_hash_of(ext: Seq<char>, encoded: Seq<u8>) -> Option<Seq<u8>>;

/// `image::ImageFormat::from_extension` (the choice `image::open` makes from
/// a path's extension; when it finds none, the error `ImageFormat::from_path`
/// reports), `image::load_from_memory_with_format` in that format, then
/// `Hasher::hash_image` of `image_hasher` with `HashAlg::DoubleGradient` and
/// hash size 16 x 16, as bytes (`ImageHash::as_bytes`). `from_extension`
/// reads the extension ASCII-lower-cased, and decoding and hashing are
/// functions of the format and the bytes, so the outcome is named over
/// those. Of the hash only its length is stated: the source reduces the
/// image to a 9 x 9 grey grid whose 9 x 8 horizontal and 8 x 9 vertical
/// neighbour comparisons give 144 bits, packed eight to a byte.
#[verifier::external_body]
fn decode_and_hash(ext: &str, encoded: &[u8]) -> (r: Result<Vec<u8>, image::ImageError>)
    ensures
        match r {
            Ok(h) => perceptual_hash_of(ascii_lower(ext@), encoded@) == Some(h@) && h@.len() == 18,
            Err(_) => perceptual_hash_of(ascii_lower(ext@), encoded@) is None,
        },
{
    let hint = image::error::ImageFormatHint::PathExtension(ext.into());
    let format = image::ImageFormat::from_extension(ext)
        .ok_or_else(|| image::ImageError::Unsupported(hint.into()))?;
    let img = image::load_from_memory_with_format(encoded, format)?;
    let hasher = image_hasher::HasherConfig::new()
        .hash_alg(image_hasher::HashAlg::DoubleGradient)
        .hash_size(16, 16)
        .to_hasher();
    Ok(hasher.hash_image(&img).as_bytes().to_vec())
}

/// The message of an `image::ImageError` (its `Display`). Nothing is stated
/// of the text.
#[verifier::external_body]
fn image_error_message(e: &image::ImageError) -> String {
    format!("{}", e)
}

/// Length in bytes of a perceptual hash.
pub open spec fn hash_len() -> nat {
    18
}

/// The perceptual hash of the image file called `name` with content
/// `encoded`: it depends on the name only through the ASCII lower case of
/// its extension, and a name without extension names no format.
pub open spec fn hash_of_named(name: Seq<char>, encoded: Seq<u8>) -> Option<Seq<u8>> {
    match extension(name) {
        Some(e) => perceptual_hash_of(ascii_lower(e), encoded),
        None => None,
    }
}

/// The message when a file name has no extension to choose a format by.
pub open spec fn no_format_message() -> Seq<char> {
    "The image format could not be determined"@
}

/// The perceptual hash of the image file `name` with content `encoded`,
/// decoded in the format its extension names, or the decoder's error.
pub fn hash_image_bytes(name: &str, encoded: &[u8]) -> (r: Result<Vec<u8>, DedupeError>)
    ensures
        match r {
            Ok(h) => hash_of_named(name@, encoded@) == Some(h@) && h@.len() == hash_len(),
            Err(e) => hash_of_named(name@, encoded@) is None && e is Image,
        },
        extension(name@) is None ==> (r matches Err(DedupeError::Image(m)) && m@
            == no_format_message()),
{
    let ext = match extension_of(name) {
        Some(e) => e,
        None => {
            let m = "The image format could not be determined".to_owned();
            assert(m@ == no_format_message());
            return Err(DedupeError::Image(m));
        },
    };
    match decode_and_hash(ext.as_str(), encoded) {
        Ok(h) => Ok(h),
        Err(e) => Err(DedupeError::Image(image_error_message(&e))),
    }
}

/// The hash of one image file, given as its name and its content.
pub open spec fn hash_of_file(f: (String, Vec<u8>)) -> Option<Seq<u8>> {
    hash_of_named(f.0@, f.1@)
}

/// Whether every image file decodes.
pub open spec fn all_decode(images: Seq<(String, Vec<u8>)>) -> bool {
    forall|i: int| 0 <= i < images.len() ==> (#[trigger] hash_of_file(images[i])) is Some
}

/// The perceptual hashes of image files that all decode.
pub open spec fn hashes_of(images: Seq<(String, Vec<u8>)>) -> Seq<Seq<u8>> {
    images.map_values(
        |f: (String, Vec<u8>)|
            match hash_of_file(f) {
                Some(h) => h,
                None => Seq::empty(),
            },
    )
}

/// `find_duplicates_phash`: hashes every image file (name and content) in
/// order, the first that does not decode ending the search with its error,
/// then reports the pairs of images whose hashes differ in at most
/// `max_distance` bits.
pub fn find_duplicates_phash(images: &Vec<(String, Vec<u8>)>, max_distance: u32) -> (r: Result<
    Vec<HashPair>,
    DedupeError,
>)
    ensures
        match r {
            Ok(pairs) => all_decode(images@) && is_pair_report(
                hashes_of(images@),
                max_distance,
                pairs@,
            ),
            Err(e) => !all_decode(images@) && e is Image,
        },
{
    let mut hashes: Vec<Vec<u8>> = Vec::new();
    let mut i: usize = 0;
    while i < images.len()
        invariant
            i <= images@.len(),
            hashes@.len() == i,
            forall|k: int| 0 <= k < i ==> (#[trigger] hash_of_file(images@[k])) == Some(
                hashes@[k]@,
            ),
            forall|k: int| 0 <= k < hashes@.len() ==> (#[trigger] hashes@[k])@.len() == hash_len(),
        decreases images@.len() - i,
    {
        match hash_image_bytes(images[i].0.as_str(), images[i].1.as_slice()) {
            Ok(h) => hashes.push(h),
            Err(e) => {
                proof {
                    assert(hash_of_file(images@[i as int]) is None);
                }
                return Err(e);
            },
        }
        i = i + 1;
    }
    let pairs = find_hash_pairs(&hashes, max_distance);
    proof {
        assert(byte_views(hashes@) =~= hashes_of(images@)) by {
            assert forall|k: int| 0 <= k < hashes@.len() implies byte_views(hashes@)[k]
                == hashes_of(images@)[k] by {
                assert(hash_of_file(images@[k]) == Some(hashes@[k]@));
            }
        }
    }
    Ok(pairs)
}

proof fn lemma_hamming_prefix_self(a: Seq<u8>, n: int)
    ensures
        hamming_prefix(a, a, n) == 0,
    decreases n,
{
    if n > 0 {
        lemma_hamming_prefix_self(a, n - 1);
        let x = a[n - 1];
        assert(x ^ x == 0) by (bit_vector);
    }
}

/// Identical images are duplicates: when every file decodes, two files with
/// the same content whose extensions agree up to ASCII case are reported as
/// a pair, at distance 0, whatever the bound.
pub proof fn lemma_identical_images_are_duplicates(
    images: Seq<(String, Vec<u8>)>,
    max_distance: u32,
    pairs: Seq<HashPair>,
    a: int,
    b: int,
)
    requires
        all_decode(images),
        is_pair_report(hashes_of(images), max_distance, pairs),
        0 <= a < b < images.len(),
        images[a].1@ == images[b].1@,
        extension(images[a].0@) matches Some(x) && extension(images[b].0@) matches Some(y)
            && ascii_lower(x) == ascii_lower(y),
    ensures
        holds_pair(pairs, a, b),
        forall|k: int|
            0 <= k < pairs.len() && #[trigger] pairs[k].index_a == a && pairs[k].index_b == b
                ==> pairs[k].distance == 0,
{
    let hs = hashes_of(images);
    assert(hash_of_file(images[a]) is Some);
    assert(hash_of_file(images[b]) is Some);
    assert(hs[a] == hs[b]);
    lemma_hamming_prefix_self(hs[a], hs[a].len() as int);
    assert(hamming(hs[a], hs[b]) == 0);
}

} // verus!
