//! What every request carries, and whether a client can be built for it.

use vstd::prelude::*;
use vstd::string::StringExecFns;
use vstd::utf8::encode_utf8;
use crate::config::{copy_text, text_view, Config};
use crate::text::{append_decimal, decimal};

verus! {

/// The `User-Agent` of every request.
pub const USER_AGENT: &'static str =
    "Mozilla/5.0 (Windows NT 10.0; Win64; x64) AppleWebKit/537.36 (KHTML, like Gecko) Chrome/108.0.0.0 Safari/537.36";

/// The headers that the probe and every ranged request carry.
#[derive(Clone, Debug, PartialEq, Eq)]
pub struct RequestHeaders {
    /// `User-Agent`: always the same.
    pub user_agent: String,
    /// `Referer`: the resource itself.
    pub referer: String,
    /// `Cookie`, where the configuration has one.
    pub cookie: Option<String>,
}

/// What a client is built from.
#[derive(Clone, Debug, PartialEq, Eq)]
pub struct ClientSettings {
    pub headers: RequestHeaders,
    /// The proxy that requests over HTTP go through.
    pub proxy: Option<String>,
}

/// Why no client can be built for a configuration.
#[derive(Clone, Copy, Debug, PartialEq, Eq)]
pub enum SettingsError {
    /// The address of the resource cannot stand in a header.
    InvalidReferer,
    /// The cookies cannot stand in a header.
    InvalidCookie,
    /// The proxy is no address that the client accepts.
    InvalidProxy,
}

/// A byte that may occur in the value of a header: a tab, or anything from
/// the space on but the delete character.
pub open spec fn header_byte_allowed(b: u8) -> bool {
    b >= 32 && b != 127 || b == 9
}

/// A text that can be the value of a header: each byte of its UTF-8 form is
/// allowed.
pub open spec fn header_value_allowed(text: Seq<char>) -> bool {
    forall|i: int| 0 <= i < encode_utf8(text).len() ==> header_byte_allowed(#[trigger] encode_utf8(text)[i])
}

/// Whether `reqwest::Proxy::http` accepts a text as the address of a proxy.
pub uninterp spec fn proxy_accepted(address: Seq<char>) -> bool;

/// Calls `reqwest::header::HeaderValue::from_str` and tells whether it made a
/// header value. It does so exactly for the texts all of whose bytes are a
/// tab, or at least 32 and not 127.
#[verifier::external_body]
fn is_header_value(text: &str) -> (ok: bool)
    ensures
        ok == header_value_allowed(text@),
{
    reqwest::header::HeaderValue::from_str(text).is_ok()
}

/// Calls `reqwest::Proxy::http` and tells whether it made a proxy. The answer
/// depends on the text alone.
#[verifier::external_body]
fn is_proxy_address(address: &str) -> (ok: bool)
    ensures
        ok == proxy_accepted(address@),
{
    reqwest::Proxy::http(address).is_ok()
}

/// The headers of the requests of a run.
pub fn request_headers(config: &Config) -> (h: RequestHeaders)
    ensures
        h.user_agent@ == USER_AGENT@,
        h.referer@ == config@.url,
        text_view(h.cookie) == config@.cookie_header,
{
    RequestHeaders {
        user_agent: String::from_str(USER_AGENT),
        referer: config.url.clone(),
        cookie: copy_text(&config.cookie_header),
    }
}

/// The outcome of `client_settings`, given whether the proxy is accepted.
pub open spec fn settings_outcome(config: Config, proxy_ok: bool, r: Result<ClientSettings, SettingsError>) -> bool {
    if !header_value_allowed(config@.url) {
        r == Err::<ClientSettings, SettingsError>(SettingsError::InvalidReferer)
    } else if config@.cookie_header is Some && !header_value_allowed(config@.cookie_header->0) {
        r == Err::<ClientSettings, SettingsError>(SettingsError::InvalidCookie)
    } else if config@.proxy is Some && !proxy_ok {
        r == Err::<ClientSettings, SettingsError>(SettingsError::InvalidProxy)
    } else {
        &&& r matches Ok(s)
        &&& s.headers.user_agent@ == USER_AGENT@
        &&& s.headers.referer@ == config@.url
        &&& text_view(s.headers.cookie) == config@.cookie_header
        &&& text_view(s.proxy) == config@.proxy
    }
}

/// Decides what a client is built from, once it is known whether the proxy
/// of the configuration is accepted. The address of the resource and the
/// cookies must be able to stand in a header; they are looked at in this
/// order, and the proxy last.
pub fn client_settings_for(config: &Config, proxy_ok: bool) -> (r: Result<ClientSettings, SettingsError>)
    ensures
        settings_outcome(*config, proxy_ok, r),
{
    if !is_header_value(config.url.as_str()) {
        return Err(SettingsError::InvalidReferer);
    }
    match &config.cookie_header {
        Some(cookie) => {
            if !is_header_value(cookie.as_str()) {
                return Err(SettingsError::InvalidCookie);
            }
        },
        None => {},
    }
    if config.proxy.is_some() && !proxy_ok {
        return Err(SettingsError::InvalidProxy);
    }
    Ok(ClientSettings { headers: request_headers(config), proxy: copy_text(&config.proxy) })
}

/// Decides what a client is built from: the headers of every request and
/// the proxy, if the configuration has one and it is an address that the
/// client accepts.
pub fn client_settings(config: &Config) -> (r: Result<ClientSettings, SettingsError>)
    ensures
        settings_outcome(
            *config,
            config@.proxy is Some && proxy_accepted(config@.proxy->0),
            r,
        ),
{
    let proxy_ok = match &config.proxy {
        Some(address) => is_proxy_address(address.as_str()),
        None => false,
    };
    client_settings_for(config, proxy_ok)
}

/// The value of the `Range` header that asks for the bytes from `from` up to
/// `to`, or to the end of the resource where `to` is `None`.
pub open spec fn range_of(from: u64, to: Option<u64>) -> Seq<char> {
    seq!['b', 'y', 't', 'e', 's', '='] + decimal(from as nat) + seq!['-'] + match to {
        Some(end) => decimal(end as nat),
        None => Seq::empty(),
    }
}

/// Writes the value of the `Range` header of a ranged request.
pub fn range_header(from: u64, to: Option<u64>) -> (value: String)
    ensures
        value@ == range_of(from, to),
{
    proof {
        reveal_strlit("bytes=");
        reveal_strlit("-");
    }
    let mut value = String::from_str("bytes=");
    append_decimal(&mut value, from);
    value.append("-");
    match to {
        Some(end) => {
            append_decimal(&mut value, end);
        },
        None => {},
    }
    assert(value@ =~= range_of(from, to));
    value
}

} // verus!
