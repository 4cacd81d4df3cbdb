//! Plain data of the Flickr API: OAuth tokens, photos and the responses of
//! `flickr.people.getPhotos` and `flickr.test.login`.

use vstd::prelude::*;

verus! {

/// OAuth 1.0a tokens stored after authentication.
#[derive(Debug, Clone)]
pub struct OAuthTokens {
    pub oauth_token: String,
    pub oauth_token_secret: String,
    pub fullname: Option<String>,
    pub user_nsid: Option<String>,
    pub username: Option<String>,
}

/// A single Flickr photo returned from the API.
#[derive(Debug, Clone)]
pub struct Photo {
    pub id: String,
    pub owner: String,
    pub secret: String,
    pub server: String,
    pub farm: i64,
    pub title: String,
    pub ispublic: i32,
    pub isfriend: i32,
    pub isfamily: i32,
    pub datetaken: Option<String>,
    pub originalformat: Option<String>,
    pub url_m: Option<String>,
    pub url_l: Option<String>,
    pub url_s: Option<String>,
}

/// The view of an optional string.
pub open spec fn opt_view(o: Option<String>) -> Option<Seq<char>> {
    match o {
        Some(s) => Some(s@),
        None => None,
    }
}

/// The URL a photo is fetched from: medium, else large, else small.
pub open spec fn best_url_spec(p: Photo) -> Option<Seq<char>> {
    match p.url_m {
        Some(u) => Some(u@),
        None => match p.url_l {
            Some(u) => Some(u@),
            None => opt_view(p.url_s),
        },
    }
}

impl Photo {
    /// Returns the best available image URL (medium > large > small).
    pub fn best_url(&self) -> (r: Option<&str>)
        ensures
            match r {
                Some(u) => best_url_spec(*self) == Some(u@),
                None => best_url_spec(*self) is None,
            },
    {
        match &self.url_m {
            Some(u) => Some(u.as_str()),
            None => match &self.url_l {
                Some(u) => Some(u.as_str()),
                None => match &self.url_s {
                    Some(u) => Some(u.as_str()),
                    None => None,
                },
            },
        }
    }
}

/// Paginated photos response from flickr.people.getPhotos.
#[derive(Debug)]
pub struct PhotosPage {
    pub page: u32,
    pub pages: u32,
    pub perpage: u32,
    pub total: u64,
    pub photo: Vec<Photo>,
}

/// The whole response of flickr.people.getPhotos.
#[derive(Debug)]
pub struct PhotosResponse {
    pub photos: PhotosPage,
    pub stat: String,
}

/// Response from flickr.test.login.
#[derive(Debug)]
pub struct LoginResponse {
    pub user: UserData,
    pub stat: String,
}

/// The user part of a login response.
#[derive(Debug)]
pub struct UserData {
    pub id: String,
    pub username: Option<UsernameContent>,
}

/// A user name as Flickr wraps it (`{"_content": ...}`).
#[derive(Debug)]
pub struct UsernameContent {
    pub content: String,
}

} // verus!
