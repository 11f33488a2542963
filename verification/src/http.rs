//! The request's options and the response record, with the rules that turn
//! what a transport hands over into that record: the capped body, the media
//! type, the headers that are text.

use crate::error::Error;
use crate::guard::{vet_url, vetted_text, LookupTarget};
use crate::text::{before_char, before_semicolon, opt_view, trim, trimmed};
use std::time::Duration;
use vstd::prelude::*;
use vstd::slice::slice_subrange;
use vstd::string::StringExecFns;
use vstd::string::StringSliceAdditionalSpecFns;
use vstd::utf8::{decode_utf8, valid_utf8};

verus! {

/// How many redirects are followed unless the options say otherwise.
pub const DEFAULT_MAX_REDIRECTS: usize = 10;

/// The request deadline in seconds unless the options say otherwise.
pub const DEFAULT_TIMEOUT_SECS: u64 = 30;

/// The most bytes of a body that are kept unless the options say otherwise.
pub const DEFAULT_MAX_BODY_SIZE: usize = 10485760;

/// The most bytes that are set aside for a body before any of it arrives.
pub const MAX_INITIAL_CAPACITY: usize = 1048576;

/// The length of a `Duration` in nanoseconds.
pub uninterp spec fn duration_nanos(d: Duration) -> nat;

/// `Duration::from_secs`: a duration of that many whole seconds.
pub assume_specification[ Duration::from_secs ](secs: u64) -> (d: Duration)
    ensures
        duration_nanos(d) == secs * 1_000_000_000,
;

/// The `Clone` of `Duration`, which is `Copy`: the same duration.
pub assume_specification[ <Duration as Clone>::clone ](d: &Duration) -> (r: Duration)
    ensures
        r == *d,
;

/// The `User-Agent` that is sent unless the options say otherwise.
pub open spec fn default_user_agent() -> Seq<char> {
    "webpage-info/1.0.0 (https://crates.io/crates/webpage-info)"@
}

/// A response as the library hands it on.
#[derive(Clone, Debug)]
pub struct HttpInfo {
    /// The final URL, after redirects.
    pub url: String,
    /// The status code.
    pub status_code: u16,
    /// The headers whose values are text, in the server's order.
    pub headers: Vec<(String, String)>,
    /// The media type that `Content-Type` states, without parameters.
    pub content_type: Option<String>,
    /// The number of redirects followed; 0 where the transport does not
    /// tell.
    pub redirect_count: u32,
    /// The body, as far as it was kept, decoded as UTF-8 with replacement
    /// characters.
    pub body: String,
}

/// Configuration of a request.
#[derive(Clone, Debug)]
pub struct HttpOptions {
    /// Accept invalid TLS certificates.
    pub allow_insecure: bool,
    /// Follow redirects.
    pub follow_redirects: bool,
    /// The most redirects to follow.
    pub max_redirects: usize,
    /// The deadline for the whole request.
    pub timeout: Duration,
    /// The most bytes of the body to keep; the rest is dropped in silence.
    pub max_body_size: usize,
    /// Refuse internal hosts and private addresses.
    pub block_private_ips: bool,
    /// The `User-Agent` header.
    pub user_agent: String,
    /// Further headers to send.
    pub headers: Vec<(String, String)>,
}

/// The views of a list of pairs of strings.
pub open spec fn pair_views(pairs: Seq<(String, String)>) -> Seq<(Seq<char>, Seq<char>)> {
    pairs.map_values(|p: (String, String)| (p.0@, p.1@))
}

/// Whether `reqwest::header::HeaderName` takes a text for a header name.
pub uninterp spec fn is_header_name(name: Seq<char>) -> bool;

/// Whether `reqwest::header::HeaderValue` takes a text for a header value.
pub uninterp spec fn is_header_value(value: Seq<char>) -> bool;

/// Wraps the `FromStr` of `reqwest::header::HeaderName`: whether the text
/// parses as a header name.
#[verifier::external_body]
pub(crate) fn parses_as_header_name(name: &str) -> (r: bool)
    ensures
        r == is_header_name(name@),
{
    name.parse::<reqwest::header::HeaderName>().is_ok()
}

/// Wraps the `FromStr` of `reqwest::header::HeaderValue`: whether the text
/// parses as a header value.
#[verifier::external_body]
pub(crate) fn parses_as_header_value(value: &str) -> (r: bool)
    ensures
        r == is_header_value(value@),
{
    value.parse::<reqwest::header::HeaderValue>().is_ok()
}

/// The well-formed pairs among the first `n` headers, in their order.
pub open spec fn well_formed_headers(headers: Seq<(String, String)>, n: int) -> Seq<
    (Seq<char>, Seq<char>),
>
    decreases n,
{
    if n <= 0 {
        seq![]
    } else {
        let rest = well_formed_headers(headers, n - 1);
        let (name, value) = headers[n - 1];
        if is_header_name(name@) && is_header_value(value@) {
            rest.push((name@, value@))
        } else {
            rest
        }
    }
}

/// What the transport is told about redirects.
#[derive(Clone, Copy, Debug, PartialEq, Eq)]
pub enum RedirectPolicy {
    /// Follow none.
    Never,
    /// Follow at most this many.
    Limited(usize),
}

impl HttpOptions {
    /// The default options: certificates checked, up to ten redirects
    /// followed, thirty seconds, ten mebibytes, the guard on, no extra
    /// headers.
    pub fn new() -> (r: Self)
        ensures
            !r.allow_insecure,
            r.follow_redirects,
            r.max_redirects == DEFAULT_MAX_REDIRECTS,
            duration_nanos(r.timeout) == DEFAULT_TIMEOUT_SECS * 1_000_000_000,
            r.max_body_size == DEFAULT_MAX_BODY_SIZE,
            r.block_private_ips,
            r.user_agent@ == default_user_agent(),
            r.headers@.len() == 0,
    {
        HttpOptions {
            allow_insecure: false,
            follow_redirects: true,
            max_redirects: DEFAULT_MAX_REDIRECTS,
            timeout: Duration::from_secs(DEFAULT_TIMEOUT_SECS),
            max_body_size: DEFAULT_MAX_BODY_SIZE,
            block_private_ips: true,
            user_agent: String::from_str(
                "webpage-info/1.0.0 (https://crates.io/crates/webpage-info)",
            ),
            headers: Vec::new(),
        }
    }

    /// Sets whether invalid TLS certificates are accepted.
    pub fn allow_insecure(self, allow: bool) -> (r: Self)
        ensures
            r == (HttpOptions { allow_insecure: allow, ..self }),
    {
        let mut r = self;
        r.allow_insecure = allow;
        r
    }

    /// Sets whether redirects are followed.
    pub fn follow_redirects(self, follow: bool) -> (r: Self)
        ensures
            r == (HttpOptions { follow_redirects: follow, ..self }),
    {
        let mut r = self;
        r.follow_redirects = follow;
        r
    }

    /// Sets the most redirects to follow.
    pub fn max_redirects(self, max: usize) -> (r: Self)
        ensures
            r == (HttpOptions { max_redirects: max, ..self }),
    {
        let mut r = self;
        r.max_redirects = max;
        r
    }

    /// Sets the deadline.
    pub fn timeout(self, timeout: Duration) -> (r: Self)
        ensures
            r == (HttpOptions { timeout, ..self }),
    {
        let mut r = self;
        r.timeout = timeout;
        r
    }

    /// Sets the most bytes of the body to keep.
    pub fn max_body_size(self, size: usize) -> (r: Self)
        ensures
            r == (HttpOptions { max_body_size: size, ..self }),
    {
        let mut r = self;
        r.max_body_size = size;
        r
    }

    /// Sets whether internal hosts and private addresses are refused.
    pub fn block_private_ips(self, block: bool) -> (r: Self)
        ensures
            r == (HttpOptions { block_private_ips: block, ..self }),
    {
        let mut r = self;
        r.block_private_ips = block;
        r
    }

    /// Sets the `User-Agent` header.
    pub fn user_agent(self, user_agent: &str) -> (r: Self)
        ensures
            r.user_agent@ == user_agent@,
            r == (HttpOptions { user_agent: r.user_agent, ..self }),
    {
        let mut r = self;
        r.user_agent = String::from_str(user_agent);
        r
    }

    /// Adds a header to send.
    pub fn header(self, name: &str, value: &str) -> (r: Self)
        ensures
            pair_views(r.headers@) == pair_views(self.headers@).push((name@, value@)),
            r == (HttpOptions { headers: r.headers, ..self }),
    {
        let mut r = self;
        r.headers.push((String::from_str(name), String::from_str(value)));
        assert(pair_views(r.headers@) =~= pair_views(self.headers@).push((name@, value@)));
        r
    }

    /// What the transport is to do about redirects.
    pub fn redirect_policy(&self) -> (r: RedirectPolicy)
        ensures
            r == (if self.follow_redirects {
                RedirectPolicy::Limited(self.max_redirects)
            } else {
                RedirectPolicy::Never
            }),
    {
        if self.follow_redirects {
            RedirectPolicy::Limited(self.max_redirects)
        } else {
            RedirectPolicy::Never
        }
    }

    /// The headers to send besides `User-Agent`: those of the options that
    /// are well-formed, in their order. The others are dropped in silence.
    pub fn request_headers(&self) -> (r: Vec<(String, String)>)
        ensures
            pair_views(r@) == well_formed_headers(self.headers@, self.headers@.len() as int),
    {
        let mut out: Vec<(String, String)> = Vec::new();
        let mut i: usize = 0;
        assert(pair_views(out@) =~= well_formed_headers(self.headers@, 0));
        while i < self.headers.len()
            invariant
                i <= self.headers@.len(),
                pair_views(out@) == well_formed_headers(self.headers@, i as int),
            decreases self.headers@.len() - i,
        {
            let name = self.headers[i].0.as_str();
            let value = self.headers[i].1.as_str();
            if parses_as_header_name(name) && parses_as_header_value(value) {
                out.push((name.to_owned(), value.to_owned()));
                assert(pair_views(out@) =~= well_formed_headers(self.headers@, i + 1));
            }
            i += 1;
        }
        out
    }

    /// What has to be resolved and checked before `url` is requested:
    /// nothing where the guard is off, else the host and port of the URL, or
    /// the error that stops the request.
    pub fn guard(&self, url: &str) -> (r: Result<Option<LookupTarget>, Error>)
        ensures
            !self.block_private_ips ==> r is Ok && r->Ok_0 is None,
            self.block_private_ips ==> match vetted_text(url@) {
                Ok(t) => r is Ok && r->Ok_0 is Some && r->Ok_0->Some_0@ == t,
                Err(e) => r is Err && r->Err_0@ == e,
            },
    {
        if !self.block_private_ips {
            return Ok(None);
        }
        match vet_url(url) {
            Ok(t) => Ok(Some(t)),
            Err(e) => Err(e),
        }
    }
}

impl Default for HttpOptions {
    fn default() -> (r: Self)
        ensures
            !r.allow_insecure,
            r.follow_redirects,
            r.max_redirects == DEFAULT_MAX_REDIRECTS,
            duration_nanos(r.timeout) == DEFAULT_TIMEOUT_SECS * 1_000_000_000,
            r.max_body_size == DEFAULT_MAX_BODY_SIZE,
            r.block_private_ips,
            r.user_agent@ == default_user_agent(),
            r.headers@.len() == 0,
    {
        HttpOptions::new()
    }
}

/// What `String::from_utf8_lossy` makes of bytes: their text, with the
/// replacement character wherever they are not UTF-8.
pub uninterp spec fn lossy_text(bytes: Seq<u8>) -> Seq<char>;

/// Wraps `String::from_utf8_lossy`: the text of the bytes, invalid sequences
/// replaced; for bytes that are valid UTF-8, exactly the text they encode.
#[verifier::external_body]
pub(crate) fn decode_lossy(bytes: &[u8]) -> (r: String)
    ensures
        r@ == lossy_text(bytes@),
        valid_utf8(bytes@) ==> r@ == decode_utf8(bytes@),
{
    String::from_utf8_lossy(bytes).into_owned()
}

/// Wraps `std::str::from_utf8`: the bytes as a string where they are valid
/// UTF-8, nothing where they are not.
#[verifier::external_body]
pub(crate) fn decode_strict(bytes: &[u8]) -> (r: Option<&str>)
    ensures
        match r {
            Some(s) => valid_utf8(bytes@) && s.spec_bytes() == bytes@,
            None => !valid_utf8(bytes@),
        },
{
    std::str::from_utf8(bytes).ok()
}

/// The media type of a `Content-Type` value: what stands before the first
/// semicolon, trimmed.
pub open spec fn media_type(value: Seq<char>) -> Seq<char> {
    trimmed(before_char(value, ';'))
}

/// The media type that a raw `Content-Type` value states; none where the
/// header is missing or its value is not text.
pub open spec fn content_type_spec(raw: Option<Seq<u8>>) -> Option<Seq<char>> {
    match raw {
        Some(bytes) => if valid_utf8(bytes) {
            Some(media_type(decode_utf8(bytes)))
        } else {
            None
        },
        None => None,
    }
}

/// The media type of a `Content-Type` value.
pub fn media_type_of(value: &str) -> (r: String)
    ensures
        r@ == media_type(value@),
{
    trim(before_semicolon(value)).to_owned()
}

/// The media type that a raw `Content-Type` value states.
pub fn content_type_of(raw: Option<&Vec<u8>>) -> (r: Option<String>)
    ensures
        opt_view(r) == content_type_spec(
            match raw {
                Some(b) => Some(b@),
                None => None,
            },
        ),
{
    match raw {
        Some(bytes) => match decode_strict(bytes.as_slice()) {
            Some(value) => {
                proof {
                    vstd::utf8::encode_utf8_decode_utf8(value@);
                }
                Some(media_type_of(value))
            },
            None => None,
        },
        None => None,
    }
}

/// The headers whose values are text among the first `n` raw headers, in
/// their order, each value decoded.
pub open spec fn text_headers(raw: Seq<(String, Vec<u8>)>, n: int) -> Seq<(Seq<char>, Seq<char>)>
    decreases n,
{
    if n <= 0 {
        seq![]
    } else {
        let rest = text_headers(raw, n - 1);
        let (name, value) = raw[n - 1];
        if valid_utf8(value@) {
            rest.push((name@, decode_utf8(value@)))
        } else {
            rest
        }
    }
}

/// Keeps the headers whose values are text.
pub fn keep_text_headers(raw: Vec<(String, Vec<u8>)>) -> (r: Vec<(String, String)>)
    ensures
        pair_views(r@) == text_headers(raw@, raw@.len() as int),
{
    let ghost all = raw@;
    let mut out: Vec<(String, String)> = Vec::new();
    assert(pair_views(out@) =~= text_headers(all, 0));
    for pair in it: raw
        invariant
            it.seq() == all,
            pair_views(out@) == text_headers(all, it.index() as int),
    {
        let (name, value) = pair;
        match decode_strict(value.as_slice()) {
            Some(text) => {
                proof {
                    vstd::utf8::encode_utf8_decode_utf8(text@);
                }
                out.push((name, text.to_owned()));
                assert(pair_views(out@) =~= text_headers(all, it.index() + 1));
            },
            None => {},
        }
    }
    out
}

/// The first `limit` bytes of `all`; all of it where it has no more.
pub open spec fn capped(all: Seq<u8>, limit: int) -> Seq<u8> {
    if all.len() <= limit {
        all
    } else {
        all.subrange(0, limit)
    }
}

/// How many bytes are set aside before the body arrives: the announced
/// length, but no more than the limit and no more than one mebibyte.
pub open spec fn initial_capacity_spec(content_length: Option<u64>, limit: usize) -> int {
    let announced: int = match content_length {
        Some(n) => n as int,
        None => 0,
    };
    let a = if announced <= limit {
        announced
    } else {
        limit as int
    };
    if a <= MAX_INITIAL_CAPACITY {
        a
    } else {
        MAX_INITIAL_CAPACITY as int
    }
}

/// How many bytes to set aside before the body arrives.
pub fn initial_capacity(content_length: Option<u64>, limit: usize) -> (r: usize)
    ensures
        r == initial_capacity_spec(content_length, limit),
{
    let announced: u64 = match content_length {
        Some(n) => n,
        None => 0,
    };
    let cap: usize = if limit <= MAX_INITIAL_CAPACITY {
        limit
    } else {
        MAX_INITIAL_CAPACITY
    };
    if announced <= cap as u64 {
        announced as usize
    } else {
        cap
    }
}

/// The body of a response while it arrives: the bytes kept so far, never
/// more than the limit.
pub struct BodyBuffer {
    bytes: Vec<u8>,
    limit: usize,
}

impl View for BodyBuffer {
    type V = Seq<u8>;

    closed spec fn view(&self) -> Seq<u8> {
        self.bytes@
    }
}

impl BodyBuffer {
    #[verifier::type_invariant]
    spec fn wf(self) -> bool {
        self.bytes@.len() <= self.limit
    }

    /// The most bytes that the buffer keeps.
    pub closed spec fn limit(self) -> usize {
        self.limit
    }

    /// An empty buffer that keeps at most `max_body_size` bytes.
    pub fn new(content_length: Option<u64>, max_body_size: usize) -> (r: Self)
        ensures
            r@ == Seq::<u8>::empty(),
            r.limit() == max_body_size,
    {
        BodyBuffer {
            bytes: Vec::with_capacity(initial_capacity(content_length, max_body_size)),
            limit: max_body_size,
        }
    }

    /// Takes one chunk of the body: keeps as much of it as the limit allows,
    /// and says whether the transport should go on reading. Reading stops
    /// where the buffer was full already or the chunk did not fit whole.
    pub fn push_chunk(&mut self, chunk: &[u8]) -> (more: bool)
        ensures
            final(self).limit() == old(self).limit(),
            final(self)@ == capped(old(self)@ + chunk@, old(self).limit() as int),
            more == (old(self)@.len() < old(self).limit() && old(self)@.len() + chunk@.len()
                <= old(self).limit()),
            final(self)@.len() <= final(self).limit(),
    {
        proof {
            use_type_invariant(&*self);
        }
        let limit = self.limit;
        let mut taken = BodyBuffer { bytes: Vec::new(), limit };
        core::mem::swap(self, &mut taken);
        let mut bytes = taken.bytes;
        let ghost before = bytes@;
        let remaining: usize = limit - bytes.len();
        if remaining == 0 {
            assert(capped(before + chunk@, limit as int) =~= before);
            *self = BodyBuffer { bytes, limit };
            return false;
        }
        let to_take: usize = if chunk.len() <= remaining {
            chunk.len()
        } else {
            remaining
        };
        let part = slice_subrange(chunk, 0, to_take);
        bytes.extend_from_slice(part);
        assert(bytes@ =~= capped(before + chunk@, limit as int));
        *self = BodyBuffer { bytes, limit };
        to_take == chunk.len()
    }

    /// The bytes that were kept.
    pub fn into_bytes(self) -> (r: Vec<u8>)
        ensures
            r@ == self@,
            r@.len() <= self.limit(),
    {
        proof {
            use_type_invariant(&self);
        }
        self.bytes
    }
}

/// All the chunks, one after the other.
pub open spec fn joined(chunks: Seq<Seq<u8>>) -> Seq<u8>
    decreases chunks.len(),
{
    if chunks.len() == 0 {
        seq![]
    } else {
        joined(chunks.drop_last()) + chunks.last()
    }
}

/// What a buffer holds after the chunks have been pushed into it, one after
/// the other.
pub open spec fn fed(chunks: Seq<Seq<u8>>, limit: int) -> Seq<u8>
    decreases chunks.len(),
{
    if chunks.len() == 0 {
        seq![]
    } else {
        capped(fed(chunks.drop_last(), limit) + chunks.last(), limit)
    }
}

/// Cutting at the limit after each chunk leaves what cutting once at the end
/// leaves: whatever the chunks, the buffer holds the first bytes of the body,
/// as many as the limit allows, and never more.
pub proof fn lemma_fed_is_capped(chunks: Seq<Seq<u8>>, limit: int)
    requires
        0 <= limit,
    ensures
        fed(chunks, limit) == capped(joined(chunks), limit),
        fed(chunks, limit).len() <= limit,
    decreases chunks.len(),
{
    if chunks.len() > 0 {
        lemma_fed_is_capped(chunks.drop_last(), limit);
        assert(capped(fed(chunks.drop_last(), limit) + chunks.last(), limit) =~= capped(
            joined(chunks.drop_last()) + chunks.last(),
            limit,
        ));
    }
}

/// What the transport hands over of a response before its body.
pub struct ResponseHead {
    /// The final URL, after redirects.
    pub url: String,
    /// The status code.
    pub status_code: u16,
    /// All headers as they came, names as text and values as bytes.
    pub headers: Vec<(String, Vec<u8>)>,
    /// The value of the `Content-Type` header, if the response has one.
    pub content_type: Option<Vec<u8>>,
}

impl HttpInfo {
    /// Puts a response together from its head and the bytes kept of its
    /// body.
    pub fn assemble(head: ResponseHead, body: Vec<u8>) -> (r: HttpInfo)
        ensures
            r.url == head.url,
            r.status_code == head.status_code,
            pair_views(r.headers@) == text_headers(head.headers@, head.headers@.len() as int),
            opt_view(r.content_type) == content_type_spec(
                match head.content_type {
                    Some(b) => Some(b@),
                    None => None,
                },
            ),
            r.redirect_count == 0,
            r.body@ == lossy_text(body@),
            valid_utf8(body@) ==> r.body@ == decode_utf8(body@),
    {
        let content_type = content_type_of(head.content_type.as_ref());
        let headers = keep_text_headers(head.headers);
        let text = decode_lossy(body.as_slice());
        HttpInfo {
            url: head.url,
            status_code: head.status_code,
            headers,
            content_type,
            redirect_count: 0,
            body: text,
        }
    }
}

} // verus!
