//! Source URL validation: shape check, parse, scheme and domain
//! allow-list, and a length cap, each with the exact error it produces.

use vstd::prelude::*;
use vstd::string::{StringExecFns, StringSliceAdditionalSpecFns};
use vstd::utf8::encode_utf8;

use crate::text::{
    spec_all_space, spec_has_prefix, spec_is_space, spec_ends_with, all_space, has_prefix,
    is_space, str_eq, ends_with,
};

verus! {

/// What `url::Url::parse` makes of a text: nothing when it is not a URL,
/// otherwise the scheme (lower-cased, without `:`) and the host when one
/// exists. All are functions of the text alone, so they carry a name.
pub uninterp spec fn url_parts_of(s: Seq<char>) -> Option<(Seq<char>, Option<Seq<char>>)>;

/// Relies on url::Url::parse, Url::scheme and Url::host_str: parse
/// accepts or rejects the text; scheme returns the lower-cased scheme
/// without the `:`; host_str returns the host part when the URL has one.
#[verifier::external_body]
fn parse_url_parts(s: &str) -> (r: Option<(String, Option<String>)>)
    ensures
        r is Some <==> url_parts_of(s@) is Some,
        r matches Some(p) ==> (url_parts_of(s@) matches Some(q) && p.0@ == q.0 && (match (
            p.1,
            q.1,
        ) {
            (Option::Some(h), Option::Some(hq)) => h@ == hq,
            (Option::None, Option::None) => true,
            _ => false,
        })),
{
    match url::Url::parse(s) {
        Ok(u) => Some((u.scheme().to_string(), u.host_str().map(|h| h.to_string()))),
        Err(_) => None,
    }
}

/// A character the URL shape check refuses right after the scheme.
pub open spec fn spec_bad_lead_char(c: char) -> bool {
    spec_is_space(c) || c == '/' || c == '$' || c == '.' || c == '?' || c == '#'
}

/// The shape every accepted URL must have: `http://` or `https://`, then a
/// sound first character, at least one more character that is no line
/// break, and no white space from the third character on.
pub open spec fn spec_url_format_ok(s: Seq<char>) -> bool {
    let p: int = if spec_has_prefix(s, "https://"@) {
        8
    } else if spec_has_prefix(s, "http://"@) {
        7
    } else {
        -1
    };
    &&& p >= 0
    &&& s.len() >= p + 2
    &&& !spec_bad_lead_char(s[p])
    &&& s[p + 1] != '\n'
    &&& forall|i: int| p + 2 <= i < s.len() ==> !spec_is_space(#[trigger] s[i])
}

/// Shape check of a URL text.
#[verifier::loop_isolation(false)]
pub fn url_format_ok(s: &str) -> (r: bool)
    ensures
        r == spec_url_format_ok(s@),
{
    let p: usize = if has_prefix(s, "https://") {
        proof {
            reveal_strlit("https://");
        }
        8
    } else if has_prefix(s, "http://") {
        proof {
            reveal_strlit("https://");
            reveal_strlit("http://");
        }
        7
    } else {
        proof {
            reveal_strlit("https://");
            reveal_strlit("http://");
        }
        return false;
    };
    let len = s.unicode_len();
    if len < p + 2 {
        return false;
    }
    let first = s.get_char(p);
    if is_space(first) || first == '/' || first == '$' || first == '.' || first == '?' || first
        == '#' {
        return false;
    }
    if s.get_char(p + 1) == '\n' {
        return false;
    }
    let mut i: usize = p + 2;
    while i < len
        invariant
            p + 2 <= i <= len,
            forall|j: int| p + 2 <= j < i ==> !spec_is_space(#[trigger] s@[j]),
        decreases len - i,
    {
        if is_space(s.get_char(i)) {
            return false;
        }
        i += 1;
    }
    true
}

/// The domains a source URL may point at, matched exactly or as a parent
/// domain.
pub open spec fn spec_domain_allowed(h: Seq<char>) -> bool {
    ||| h == "youtube.com"@ || spec_ends_with(h, ".youtube.com"@)
    ||| h == "youtu.be"@ || spec_ends_with(h, ".youtu.be"@)
    ||| h == "vimeo.com"@ || spec_ends_with(h, ".vimeo.com"@)
    ||| h == "dailymotion.com"@ || spec_ends_with(h, ".dailymotion.com"@)
    ||| h == "soundcloud.com"@ || spec_ends_with(h, ".soundcloud.com"@)
    ||| h == "bandcamp.com"@ || spec_ends_with(h, ".bandcamp.com"@)
    ||| h == "twitch.tv"@ || spec_ends_with(h, ".twitch.tv"@)
    ||| h == "twitter.com"@ || spec_ends_with(h, ".twitter.com"@)
    ||| h == "x.com"@ || spec_ends_with(h, ".x.com"@)
    ||| h == "instagram.com"@ || spec_ends_with(h, ".instagram.com"@)
    ||| h == "facebook.com"@ || spec_ends_with(h, ".facebook.com"@)
    ||| h == "tiktok.com"@ || spec_ends_with(h, ".tiktok.com"@)
}

/// Allow-list check of a host name.
pub fn domain_allowed(host: &str) -> (r: bool)
    ensures
        r == spec_domain_allowed(host@),
{
    (str_eq(host, "youtube.com") || ends_with(host, ".youtube.com")) || (str_eq(host, "youtu.be")
        || ends_with(host, ".youtu.be")) || (str_eq(host, "vimeo.com") || ends_with(
        host,
        ".vimeo.com",
    )) || (str_eq(host, "dailymotion.com") || ends_with(host, ".dailymotion.com")) || (str_eq(
        host,
        "soundcloud.com",
    ) || ends_with(host, ".soundcloud.com")) || (str_eq(host, "bandcamp.com") || ends_with(
        host,
        ".bandcamp.com",
    )) || (str_eq(host, "twitch.tv") || ends_with(host, ".twitch.tv")) || (str_eq(
        host,
        "twitter.com",
    ) || ends_with(host, ".twitter.com")) || (str_eq(host, "x.com") || ends_with(host, ".x.com"))
        || (str_eq(host, "instagram.com") || ends_with(host, ".instagram.com")) || (str_eq(
        host,
        "facebook.com",
    ) || ends_with(host, ".facebook.com")) || (str_eq(host, "tiktok.com") || ends_with(
        host,
        ".tiktok.com",
    ))
}

/// Why a URL was rejected.
#[derive(Debug, Clone)]
pub struct ValidationError {
    pub message: String,
}

/// The comma-separated allow-list as it is quoted in the rejection
/// message.
pub open spec fn spec_domain_list() -> Seq<char> {
    "youtube.com, youtu.be, vimeo.com, dailymotion.com, soundcloud.com, bandcamp.com, twitch.tv, twitter.com, x.com, instagram.com, facebook.com, tiktok.com"@
}

/// A URL the validator accepts: not blank, well shaped, parseable, an
/// http(s) scheme, an allow-listed host, and at most 2048 bytes.
pub open spec fn spec_url_valid(s: Seq<char>) -> bool {
    &&& !spec_all_space(s)
    &&& spec_url_format_ok(s)
    &&& url_parts_of(s) matches Some(p)
    &&& (p.0 == "http"@ || p.0 == "https"@)
    &&& p.1 matches Some(h)
    &&& spec_domain_allowed(h)
    &&& encode_utf8(s).len() <= 2048
}

/// The message of the first check a URL fails.
pub open spec fn spec_validation_message(s: Seq<char>) -> Seq<char> {
    if spec_all_space(s) {
        "URL cannot be empty"@
    } else if !spec_url_format_ok(s) {
        "Invalid URL format. Must start with http:// or https://"@
    } else if url_parts_of(s) is None {
        "Failed to parse URL"@
    } else if !((url_parts_of(s)->0).0 == "http"@ || (url_parts_of(s)->0).0 == "https"@) {
        "Invalid URL scheme: "@ + (url_parts_of(s)->0).0 + ". Only http and https are allowed"@
    } else if (url_parts_of(s)->0).1 is None {
        "URL must have a valid domain"@
    } else if !spec_domain_allowed(((url_parts_of(s)->0).1)->0) {
        "Domain '"@ + ((url_parts_of(s)->0).1)->0 + "' is not allowed. Allowed domains: "@
            + spec_domain_list()
    } else {
        "URL is too long (max 2048 characters)"@
    }
}

/// Accepts or rejects a source URL. Exactly the URLs of `spec_url_valid`
/// come back `Ok`, unchanged; every rejection carries the message of the
/// first failed check.
pub fn validate_url(url_str: &str) -> (r: Result<String, ValidationError>)
    ensures
        r is Ok <==> spec_url_valid(url_str@),
        r matches Ok(u) ==> u@ == url_str@,
        r matches Err(e) ==> e.message@ == spec_validation_message(url_str@),
{
    if all_space(url_str) {
        return Err(
            ValidationError { message: String::from_str("URL cannot be empty") },
        );
    }
    if !url_format_ok(url_str) {
        return Err(
            ValidationError {
                message: String::from_str(
                    "Invalid URL format. Must start with http:// or https://",
                ),
            },
        );
    }
    let (scheme, host_opt) = match parse_url_parts(url_str) {
        Some(p) => p,
        None => {
            return Err(
                ValidationError { message: String::from_str("Failed to parse URL") },
            );
        },
    };
    if !(str_eq(scheme.as_str(), "http") || str_eq(scheme.as_str(), "https")) {
        let mut m = String::from_str("Invalid URL scheme: ");
        m.append(scheme.as_str());
        m.append(". Only http and https are allowed");
        return Err(ValidationError { message: m });
    }
    let host = match host_opt {
        Some(h) => h,
        None => {
            return Err(
                ValidationError { message: String::from_str("URL must have a valid domain") },
            );
        },
    };
    if !domain_allowed(host.as_str()) {
        let mut m = String::from_str("Domain '");
        m.append(host.as_str());
        m.append("' is not allowed. Allowed domains: ");
        m.append(
            "youtube.com, youtu.be, vimeo.com, dailymotion.com, soundcloud.com, bandcamp.com, twitch.tv, twitter.com, x.com, instagram.com, facebook.com, tiktok.com",
        );
        return Err(ValidationError { message: m });
    }
    let bytes = url_str.as_bytes();
    let byte_len = bytes.len();
    proof {
        assert(bytes@ == encode_utf8(url_str@));
    }
    if byte_len > 2048 {
        return Err(
            ValidationError {
                message: String::from_str("URL is too long (max 2048 characters)"),
            },
        );
    }
    Ok(url_str.to_owned())
}

} // verus!
