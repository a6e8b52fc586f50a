//! Following the redirects of a download, and the credentials it sends:
//! only ever to the origin the download started at.
use vstd::prelude::*;
use crate::text::{copy_str, concat3, str_eq};

verus! {

/// A downloaded file: the response's headers and its content.
#[derive(Debug)]
pub struct DownloadedFile {
    pub headers: Vec<(String, String)>,
    pub content: Vec<u8>,
}

/// What `Url::parse(base)` then `Url::join(input)` give, as text: the
/// serialization of the joined url, or the message of the parse error. It
/// depends on the two texts alone.
pub uninterp spec fn url_joined(base: Seq<char>, input: Seq<char>) -> Result<Seq<char>, Seq<char>>;

/// The origin of the url that `Url::parse` reads from a text: its scheme,
/// its host and its port (or its scheme's known default port); `None` when
/// the text is not a url. It depends on the text alone.
pub uninterp spec fn url_origin_parts(url: Seq<char>) -> Option<(Seq<char>, Option<Seq<char>>, Option<u16>)>;

/// `Url::join` of `input` onto the url that `base` serializes
/// (`Url::parse`), given back as its serialization, or the error's message.
/// The result is named [`url_joined`]; nothing more is stated of it.
#[verifier::external_body]
fn join_url(base: &str, input: &str) -> (r: Result<String, String>)
    ensures
        match url_joined(base@, input@) {
            Ok(u) => r matches Ok(x) && x@ == u,
            Err(m) => r matches Err(x) && x@ == m,
        },
{
    let joined = match url::Url::parse(base) {
        Ok(u) => u.join(input),
        Err(e) => Err(e),
    };
    match joined {
        Ok(u) => Ok(u.to_string()),
        Err(e) => Err(e.to_string()),
    }
}

/// The origin of the url that `url` serializes: `Url::scheme`,
/// `Url::host_str` and `Url::port_or_known_default` of `Url::parse(url)`.
/// The result is named [`url_origin_parts`]; nothing more is stated of it.
#[verifier::external_body]
fn origin_of(url: &str) -> (r: Option<(String, Option<String>, Option<u16>)>)
    ensures
        match url_origin_parts(url@) {
            Some(o) => r matches Some(x) && x.0@ == o.0 && (match x.1 {
                Some(h) => o.1 == Some(h@),
                None => o.1 is None,
            }) && x.2 == o.2,
            None => r is None,
        },
{
    match url::Url::parse(url) {
        Ok(u) => Some((u.scheme().to_string(), u.host_str().map(|h| h.to_string()), u.port_or_known_default())),
        Err(_) => None,
    }
}

/// The most responses a download follows before giving up on redirects.
pub const MAX_FETCHES: usize = 11;

/// The state of a download that follows redirects.
#[derive(Debug)]
pub struct RedirectState {
    original_url: String,
    original_auth: Option<String>,
    current_url: String,
    current_auth: Option<String>,
    fetches: usize,
}

/// The mathematical value of a [`RedirectState`].
pub struct RedirectView {
    pub original_url: Seq<char>,
    pub original_auth: Option<Seq<char>>,
    pub current_url: Seq<char>,
    pub current_auth: Option<Seq<char>>,
    pub fetches: nat,
}

pub open spec fn opt_text(o: Option<String>) -> Option<Seq<char>> {
    match o {
        Some(s) => Some(s@),
        None => None,
    }
}

impl View for RedirectState {
    type V = RedirectView;

    closed spec fn view(&self) -> RedirectView {
        RedirectView {
            original_url: self.original_url@,
            original_auth: opt_text(self.original_auth),
            current_url: self.current_url@,
            current_auth: opt_text(self.current_auth),
            fetches: self.fetches as nat,
        }
    }
}

/// The credentials go along only while the download stays at the origin it
/// started at, and they are the ones it started with.
pub open spec fn credentials_safe(v: RedirectView) -> bool {
    v.current_auth is Some ==> v.current_auth == v.original_auth && url_origin_parts(v.current_url)
        == url_origin_parts(v.original_url)
}

/// What a download does after a response.
#[derive(Debug)]
pub enum RedirectOutcome {
    /// Fetch the next url of the redirect.
    Follow,
    /// The download is over: the url it ended at, and the file (`None` when
    /// it was not found).
    Finished { url: String, file: Option<DownloadedFile> },
    /// A redirect's location is not a url: the parse error's message.
    BadLocation { message: String },
    /// The download was redirected too many times.
    TooManyRedirects { url: String },
}

/// The `location` header of a response, if it has one.
pub open spec fn location_of(headers: Seq<(String, String)>) -> Option<Seq<char>> {
    match crate::configuration::key_index(headers.map_values(|h: (String, String)| (h.0@, h.1@)), "location"@) {
        Some(i) => Some(headers[i].1@),
        None => None,
    }
}

/// The state after a redirect to `next`: the credentials are dropped when
/// `next` is at another origin than the download started at.
pub open spec fn redirected(v: RedirectView, next: Seq<char>) -> RedirectView {
    RedirectView {
        current_url: next,
        current_auth: if url_origin_parts(next) != url_origin_parts(v.original_url) {
            None
        } else {
            v.current_auth
        },
        fetches: v.fetches + 1,
        ..v
    }
}

impl RedirectState {
    #[verifier::type_invariant]
    spec fn safe(self) -> bool {
        credentials_safe(self@)
    }

    /// A download of `url` with the given credentials.
    pub fn new(url: &str, auth: Option<&str>) -> (r: RedirectState)
        ensures
            r@.original_url == url@,
            r@.current_url == url@,
            r@.original_auth == match auth {
                Some(a) => Some(a@),
                None => None::<Seq<char>>,
            },
            r@.current_auth == r@.original_auth,
            r@.fetches == 0,
    {
        let original_auth = match auth {
            Some(a) => Some(copy_str(a)),
            None => None,
        };
        let current_auth = match auth {
            Some(a) => Some(copy_str(a)),
            None => None,
        };
        RedirectState {
            original_url: copy_str(url),
            original_auth,
            current_url: copy_str(url),
            current_auth,
            fetches: 0,
        }
    }

    /// The url to fetch next and the credentials to send with it. The
    /// credentials go only to the origin the download started at: whenever
    /// there are any, they are the original ones and the url is at the
    /// original url's origin.
    pub fn request(&self) -> (r: (String, Option<String>))
        ensures
            r.0@ == self@.current_url,
            opt_text(r.1) == self@.current_auth,
            r.1 is Some ==> opt_text(r.1) == self@.original_auth && url_origin_parts(r.0@) == url_origin_parts(
                self@.original_url,
            ),
    {
        proof {
            use_type_invariant(self);
        }
        let auth = match &self.current_auth {
            Some(a) => Some(copy_str(a.as_str())),
            None => None,
        };
        (copy_str(self.current_url.as_str()), auth)
    }

    /// Takes in the response to the last request (`None` when the file was
    /// not found): a response with a `location` header redirects, unless
    /// [`MAX_FETCHES`] responses were followed already.
    pub fn on_response(&mut self, response: Option<DownloadedFile>) -> (r: RedirectOutcome)
        requires
            old(self)@.fetches < MAX_FETCHES,
        ensures
            match response {
                None => r matches RedirectOutcome::Finished { url, file } && url@ == old(self)@.current_url && file is None
                    && final(self)@ == old(self)@,
                Some(f) => match location_of(f.headers@) {
                    None => r matches RedirectOutcome::Finished { url, file } && url@ == old(self)@.current_url
                        && file == Some(f) && final(self)@ == old(self)@,
                    Some(loc) => match url_joined(old(self)@.current_url, loc) {
                        Err(m) => r matches RedirectOutcome::BadLocation { message } && message@ == m && final(self)@
                            == old(self)@,
                        Ok(next) => final(self)@ == redirected(old(self)@, next) && if old(self)@.fetches + 1
                            >= MAX_FETCHES {
                            r matches RedirectOutcome::TooManyRedirects { url } && url@ == old(self)@.original_url
                        } else {
                            r is Follow
                        },
                    },
                },
            },
    {
        proof {
            use_type_invariant(&*self);
        }
        let f = match response {
            None => return RedirectOutcome::Finished { url: copy_str(self.current_url.as_str()), file: None },
            Some(f) => f,
        };
        let location = header_value(&f.headers, "location");
        let loc = match location {
            None => {
                return RedirectOutcome::Finished { url: copy_str(self.current_url.as_str()), file: Some(f) };
            },
            Some(l) => l,
        };
        let next = match join_url(self.current_url.as_str(), loc.as_str()) {
            Ok(n) => n,
            Err(m) => return RedirectOutcome::BadLocation { message: m },
        };
        let original = origin_of(self.original_url.as_str());
        let new_origin = origin_of(next.as_str());
        let same = same_origin(&original, &new_origin);
        let auth = if same {
            match &self.current_auth {
                Some(a) => Some(copy_str(a.as_str())),
                None => None,
            }
        } else {
            None
        };
        let fetches = self.fetches + 1;
        let original_url = copy_str(self.original_url.as_str());
        let original_auth = match &self.original_auth {
            Some(a) => Some(copy_str(a.as_str())),
            None => None,
        };
        *self = RedirectState { original_url, original_auth, current_url: next, current_auth: auth, fetches };
        if fetches >= MAX_FETCHES {
            RedirectOutcome::TooManyRedirects { url: copy_str(self.original_url.as_str()) }
        } else {
            RedirectOutcome::Follow
        }
    }
}

/// Whether two origins are the same.
fn same_origin(
    a: &Option<(String, Option<String>, Option<u16>)>,
    b: &Option<(String, Option<String>, Option<u16>)>,
) -> (r: bool)
    ensures
        r == (origin_view(*a) == origin_view(*b)),
{
    match (a, b) {
        (None, None) => true,
        (Some(x), Some(y)) => {
            let hosts = match (&x.1, &y.1) {
                (None, None) => true,
                (Some(p), Some(q)) => str_eq(p.as_str(), q.as_str()),
                _ => false,
            };
            str_eq(x.0.as_str(), y.0.as_str()) && hosts && x.2 == y.2
        },
        _ => false,
    }
}

pub open spec fn origin_view(o: Option<(String, Option<String>, Option<u16>)>) -> Option<
    (Seq<char>, Option<Seq<char>>, Option<u16>),
> {
    match o {
        Some(x) => Some((x.0@, opt_text(x.1), x.2)),
        None => None,
    }
}

/// The value of a header, found by its exact name.
fn header_value(headers: &Vec<(String, String)>, name: &str) -> (r: Option<String>)
    ensures
        match crate::configuration::key_index(headers@.map_values(|h: (String, String)| (h.0@, h.1@)), name@) {
            Some(i) => r matches Some(v) && v@ == headers@[i].1@,
            None => r is None,
        },
{
    let ghost hv = headers@.map_values(|h: (String, String)| (h.0@, h.1@));
    proof {
        crate::configuration::lemma_key_index_same_keys(crate::configuration::key_view(headers@), hv, name@);
        crate::configuration::lemma_key_index(crate::configuration::key_view(headers@), name@);
    }
    match crate::configuration::find_key(headers, name) {
        Some(i) => Some(copy_str(headers[i].1.as_str())),
        None => None,
    }
}

/// The message of a download that found no file.
pub fn not_found_message(url: &str) -> (r: String)
    ensures
        r@ == "Error downloading "@ + url@ + " - 404 Not Found"@,
{
    concat3("Error downloading ", url, " - 404 Not Found")
}

/// The message of a download redirected too many times.
pub fn too_many_redirects_message(url: &str) -> (r: String)
    ensures
        r@ == "Too many redirects for "@ + url@,
{
    crate::text::concat2("Too many redirects for ", url)
}

} // verus!
