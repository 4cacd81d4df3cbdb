//! The Flickr REST client's decisions: the signed requests it sends, the
//! pagination of `flickr.people.getPhotos`, and whether a photo is fetched.

use vstd::prelude::*;
use crate::oauth::{is_oauth_nonce, join, join_strings, oauth_header, FlickrAuth};
use crate::params::{insert_sorted, Entry, ParamMap};
use crate::text::{decimal, u64_to_decimal};
use crate::types::{best_url_spec, OAuthTokens, Photo};

verus! {

/// A request ready to send: its URL and its `Authorization` header.
pub struct PreparedRequest {
    pub url: String,
    pub authorization: String,
}

/// The URL of a REST call: `base?k=v&...`, the parameters in key order,
/// each key and value written as it is, without percent-encoding.
pub open spec fn request_url(base: Seq<char>, params: Seq<Entry>) -> Seq<char> {
    base + "?"@ + join(params.map_values(|e: Entry| e.0 + "="@ + e.1), "&"@)
}

/// The parameters of `flickr.test.login`.
pub open spec fn login_params(api_key: Seq<char>) -> Seq<Entry> {
    let p = insert_sorted(Seq::<Entry>::empty(), "method"@, "flickr.test.login"@);
    let p = insert_sorted(p, "api_key"@, api_key);
    let p = insert_sorted(p, "format"@, "json"@);
    insert_sorted(p, "nojsoncallback"@, "1"@)
}

/// The parameters of one page of `flickr.people.getPhotos`.
pub open spec fn photos_params(api_key: Seq<char>, user_id: Seq<char>, page: u32) -> Seq<Entry> {
    let p = insert_sorted(Seq::<Entry>::empty(), "method"@, "flickr.people.getPhotos"@);
    let p = insert_sorted(p, "api_key"@, api_key);
    let p = insert_sorted(p, "user_id"@, user_id);
    let p = insert_sorted(p, "format"@, "json"@);
    let p = insert_sorted(p, "nojsoncallback"@, "1"@);
    let p = insert_sorted(p, "per_page"@, "500"@);
    let p = insert_sorted(p, "page"@, decimal(page as nat));
    insert_sorted(p, "extras"@, "date_taken,original_format,url_m,url_l,url_s"@)
}

/// `base?k=v&...` for the entries of `params`.
pub fn build_request_url(base: &str, params: &ParamMap) -> (r: String)
    ensures
        r@ == request_url(base@, params@),
{
    let n = params.len();
    let mut pieces: Vec<String> = Vec::new();
    let mut i: usize = 0;
    while i < n
        invariant
            n == params@.len(),
            i <= n,
            pieces@.map_values(|p: String| p@) == params@.take(i as int).map_values(
                |e: Entry| e.0 + "="@ + e.1,
            ),
        decreases n - i,
    {
        let mut piece = params.key_at(i).clone();
        piece.append("=");
        piece.append(params.value_at(i).as_str());
        proof {
            assert(params@.take(i + 1).map_values(|e: Entry| e.0 + "="@ + e.1) =~= params@.take(
                i as int,
            ).map_values(|e: Entry| e.0 + "="@ + e.1).push(piece@));
            assert(pieces@.push(piece).map_values(|p: String| p@) =~= pieces@.map_values(
                |p: String| p@,
            ).push(piece@));
        }
        pieces.push(piece);
        i = i + 1;
    }
    proof {
        assert(params@.take(n as int) =~= params@);
    }
    let query = join_strings(&pieces, "&");
    let mut r = base.to_owned();
    r.append("?");
    r.append(query.as_str());
    r
}

/// Flickr REST API client with OAuth 1.0a signing.
pub struct FlickrClient {
    pub auth: FlickrAuth,
    pub tokens: OAuthTokens,
    pub api_key: String,
    pub base_url: String,
}

/// Whether `r` is the signed GET of `params` on `base` that `client` sends.
pub open spec fn is_signed_get(
    client: FlickrClient,
    base: Seq<char>,
    params: Seq<Entry>,
    r: PreparedRequest,
) -> bool {
    &&& r.url@ == request_url(base, params)
    &&& exists|secs: nat, nonce: Seq<char>|
        is_oauth_nonce(nonce) && r.authorization@ == #[trigger] oauth_header(
            client.auth.api_key@,
            client.auth.api_secret@,
            "GET"@,
            base,
            params,
            Some(client.tokens.oauth_token@),
            Some(client.tokens.oauth_token_secret@),
            decimal(secs),
            nonce,
        )
}

impl FlickrClient {
    /// A client of the Flickr REST endpoint.
    pub fn new(auth: FlickrAuth, tokens: OAuthTokens, api_key: String) -> (c: Self)
        ensures
            c.auth == auth,
            c.tokens == tokens,
            c.api_key@ == api_key@,
            c.base_url@ == "https://api.flickr.com/services/rest"@,
    {
        FlickrClient {
            auth,
            tokens,
            api_key,
            base_url: "https://api.flickr.com/services/rest".to_owned(),
        }
    }

    /// A client of another endpoint.
    pub fn new_for_test(auth: FlickrAuth, tokens: OAuthTokens, api_key: String, base_url: String) -> (c:
        Self)
        ensures
            c.auth == auth,
            c.tokens == tokens,
            c.api_key@ == api_key@,
            c.base_url@ == base_url@,
    {
        FlickrClient { auth, tokens, api_key, base_url }
    }

    fn signed_get(&self, params: &ParamMap) -> (r: PreparedRequest)
        ensures
            is_signed_get(*self, self.base_url@, params@, r),
    {
        let authorization = self.auth.build_oauth_header(
            "GET",
            self.base_url.as_str(),
            params,
            Some(self.tokens.oauth_token.as_str()),
            Some(self.tokens.oauth_token_secret.as_str()),
        );
        let url = build_request_url(self.base_url.as_str(), params);
        PreparedRequest { url, authorization }
    }

    /// The `flickr.test.login` call that gives the user's id.
    pub fn user_id_request(&self) -> (r: PreparedRequest)
        ensures
            is_signed_get(*self, self.base_url@, login_params(self.api_key@), r),
    {
        let mut params = ParamMap::new();
        params.insert("method".to_owned(), "flickr.test.login".to_owned());
        params.insert("api_key".to_owned(), self.api_key.clone());
        params.insert("format".to_owned(), "json".to_owned());
        params.insert("nojsoncallback".to_owned(), "1".to_owned());
        assert(params@ == login_params(self.api_key@));
        self.signed_get(&params)
    }

    /// The `flickr.people.getPhotos` call for one page (500 photos per page,
    /// with the date taken, original format and three image URLs).
    pub fn photos_request(&self, user_id: &str, page: u32) -> (r: PreparedRequest)
        ensures
            is_signed_get(*self, self.base_url@, photos_params(self.api_key@, user_id@, page), r),
    {
        let mut params = ParamMap::new();
        params.insert("method".to_owned(), "flickr.people.getPhotos".to_owned());
        params.insert("api_key".to_owned(), self.api_key.clone());
        params.insert("user_id".to_owned(), user_id.to_owned());
        params.insert("format".to_owned(), "json".to_owned());
        params.insert("nojsoncallback".to_owned(), "1".to_owned());
        params.insert("per_page".to_owned(), u64_to_decimal(500));
        params.insert("page".to_owned(), u64_to_decimal(page as u64));
        params.insert(
            "extras".to_owned(),
            "date_taken,original_format,url_m,url_l,url_s".to_owned(),
        );
        proof {
            reveal_strlit("500");
            reveal_with_fuel(decimal, 4);
            assert(decimal(500) =~= "500"@);
        }
        assert(params@ == photos_params(self.api_key@, user_id@, page));
        self.signed_get(&params)
    }
}

/// Where a photo is downloaded from: nowhere when the file already exists
/// or the photo has no URL, else its best URL.
pub open spec fn download_source(p: Photo, dest_exists: bool) -> Option<Seq<char>> {
    if dest_exists {
        None
    } else {
        best_url_spec(p)
    }
}

/// The URL to download a photo from, if it is to be downloaded.
pub fn download_url(photo: &Photo, dest_exists: bool) -> (r: Option<String>)
    ensures
        match r {
            Some(u) => download_source(*photo, dest_exists) == Some(u@),
            None => download_source(*photo, dest_exists) is None,
        },
{
    if dest_exists {
        return None;
    }
    match photo.best_url() {
        Some(u) => Some(u.to_owned()),
        None => None,
    }
}

/// The pagination of `fetch_all_photos`: pages are requested from 1 on,
/// photos accumulate, and the walk ends when `max_images` photos are held
/// (the surplus dropped) or the last page has been read.
pub struct PhotoPager {
    pub page: u32,
    pub max_images: Option<usize>,
    pub photos: Vec<Photo>,
    pub done: bool,
}

impl PhotoPager {
    /// A walk that starts at page 1.
    pub fn new(max_images: Option<usize>) -> (p: Self)
        ensures
            p.page == 1,
            p.max_images == max_images,
            p.photos@.len() == 0,
            !p.done,
    {
        PhotoPager { page: 1, max_images, photos: Vec::new(), done: false }
    }

    /// The page to request next, if any.
    pub fn next_page(&self) -> (r: Option<u32>)
        ensures
            r == if self.done {
                None
            } else {
                Some(self.page)
            },
    {
        if self.done {
            None
        } else {
            Some(self.page)
        }
    }

    /// Takes in the photos of the current page and the page count the
    /// response reports.
    pub fn receive(&mut self, page_photos: Vec<Photo>, pages: u32)
        requires
            !old(self).done,
        ensures
            final(self).max_images == old(self).max_images,
            final(self).max_images matches Some(m) ==> final(self).photos@.len() <= m,
            ({
                let all = old(self).photos@ + page_photos@;
                match old(self).max_images {
                    Some(m) if all.len() >= m => {
                        &&& final(self).photos@ == all.take(m as int)
                        &&& final(self).done
                        &&& final(self).page == old(self).page
                    },
                    _ => {
                        &&& final(self).photos@ == all
                        &&& final(self).done == (old(self).page >= pages)
                        &&& final(self).page == if old(self).page >= pages {
                            old(self).page
                        } else {
                            (old(self).page + 1) as u32
                        }
                    },
                }
            }),
    {
        let mut incoming = page_photos;
        self.photos.append(&mut incoming);
        match self.max_images {
            Some(m) => {
                if self.photos.len() >= m {
                    self.photos.truncate(m);
                    self.done = true;
                    return;
                }
            },
            None => {},
        }
        if self.page >= pages {
            self.done = true;
        } else {
            self.page = self.page + 1;
        }
    }

    /// The photos gathered.
    pub fn into_photos(self) -> (v: Vec<Photo>)
        ensures
            v@ == self.photos@,
    {
        self.photos
    }
}

/// The file a photo is synced to: its id with the `.jpg` extension.
pub fn photo_file_name(photo: &Photo) -> (r: String)
    ensures
        r@ == photo.id@ + ".jpg"@,
{
    let mut r = photo.id.clone();
    r.append(".jpg");
    r
}

/// What became of one photo during a sync.
#[derive(Debug, Clone, Copy, PartialEq, Eq, Structural)]
pub enum DownloadOutcome {
    /// The photo was fetched and written.
    Downloaded,
    /// The file already existed or the photo has no URL.
    Skipped,
    /// Fetching or writing failed.
    Failed,
}

/// The counts a sync reports.
pub struct SyncTally {
    pub downloaded: u64,
    pub skipped: u64,
    pub failed: u64,
}

impl SyncTally {
    /// No photo counted yet.
    pub fn new() -> (t: Self)
        ensures
            t.downloaded == 0 && t.skipped == 0 && t.failed == 0,
    {
        SyncTally { downloaded: 0, skipped: 0, failed: 0 }
    }

    /// The photos counted so far.
    pub open spec fn total(&self) -> int {
        self.downloaded + self.skipped + self.failed
    }

    /// Counts one more photo under its outcome.
    pub fn record(&mut self, outcome: DownloadOutcome)
        requires
            old(self).total() < u64::MAX,
        ensures
            final(self).total() == old(self).total() + 1,
            final(self).downloaded == old(self).downloaded + if outcome
                == DownloadOutcome::Downloaded {
                1int
            } else {
                0int
            },
            final(self).skipped == old(self).skipped + if outcome == DownloadOutcome::Skipped {
                1int
            } else {
                0int
            },
            final(self).failed == old(self).failed + if outcome == DownloadOutcome::Failed {
                1int
            } else {
                0int
            },
    {
        match outcome {
            DownloadOutcome::Downloaded => self.downloaded = self.downloaded + 1,
            DownloadOutcome::Skipped => self.skipped = self.skipped + 1,
            DownloadOutcome::Failed => self.failed = self.failed + 1,
        }
    }
}

} // verus!
