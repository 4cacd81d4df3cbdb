# flickr-cli

Tooling for Flickr photo libraries: OAuth 1.0a authentication, bulk sync,
and duplicate detection by metadata, by fuzzy title matching and by
perceptual hashing of local images.

The library under `src/` holds the logic, verified with Verus:

- `text`, `params`: string helpers (byte order of keys, trimming, splitting,
  decimal formatting) and `ParamMap`, a map kept sorted by key.
- `oauth`, `token_file`: percent-encoding, the signed `Authorization`
  header, token responses, and the token file written and read back.
- `client`: the signed REST requests, the pagination of the photo listing,
  the choice of a download URL and the sync counts.
- `scan`, `fuzzy`: grouping photos by a metadata key, and the pair walk of
  the fuzzy title scan.
- `engine`, `models`, `phash`: method and model catalogue, the choice of
  image files, and duplicate search over perceptual hashes.
- `config`: the API credentials.

`app/` is the command-line program around it: argument parsing, HTTP,
the keyring and the file system, JSON, progress bars, and the floating-point
similarity scores. `tests/` exercises the library.
