//! Webhook dispatch logic: which endpoints an event goes to, the exact
//! serialized envelope, and its HMAC-SHA256 signature.

use vstd::prelude::*;
use vstd::string::StringExecFns;
use vstd::utf8::encode_utf8;

use crate::model::{Webhook, WebhookView};
use crate::text::{spec_i64_chars, str_eq, i64_to_string, string_from_ascii, digit_char};

verus! {

/// What HMAC-SHA256 returns for a key and a message. The digest is a pure
/// function of the two, so it carries a name rather than a definition.
pub uninterp spec fn hmac_sha256_of(key: Seq<u8>, msg: Seq<u8>) -> Seq<u8>;

/// Relies on hmac::Hmac<sha2::Sha256>: new_from_slice accepts keys of any
/// length, and update/finalize produce the 32-byte HMAC-SHA256 tag, a
/// function of key and message alone.
#[verifier::external_body]
fn hmac_sha256(key: &[u8], msg: &[u8]) -> (r: Vec<u8>)
    ensures
        r@ == hmac_sha256_of(key@, msg@),
        r@.len() == 32,
{
    let mut mac = <hmac::Hmac<sha2::Sha256> as hmac::KeyInit>::new_from_slice(key)
        .expect("HMAC accepts keys of any length");
    hmac::Mac::update(&mut mac, msg);
    hmac::Mac::finalize(mac).into_bytes().to_vec()
}

/// What the standard base64 alphabet encodes a byte string to: a pure
/// function of the bytes, named rather than spelled out.
pub uninterp spec fn base64_of(b: Seq<u8>) -> Seq<char>;

/// Relies on base64's STANDARD engine: the padded base64 text of the
/// bytes, four characters for every started group of three bytes.
#[verifier::external_body]
fn base64_encode(b: &[u8]) -> (r: String)
    ensures
        r@ == base64_of(b@),
        r@.len() == 4 * ((b@.len() + 2) / 3),
{
    base64::Engine::encode(&base64::engine::general_purpose::STANDARD, b)
}

/// The signature attached to a webhook delivery: base64 of the HMAC-SHA256
/// tag of the body under the secret.
pub open spec fn spec_signature(secret: Seq<char>, body: Seq<char>) -> Seq<char> {
    base64_of(hmac_sha256_of(encode_utf8(secret), encode_utf8(body)))
}

/// Signs a serialized payload with a shared secret.
pub fn sign_payload(secret: &str, body: &str) -> (r: String)
    ensures
        r@ == spec_signature(secret@, body@),
        r@.len() == 44,
{
    let tag = hmac_sha256(secret.as_bytes(), body.as_bytes());
    base64_encode(tag.as_slice())
}

/// Checks a delivered signature by recomputing it from the secret and the
/// exact serialized body.
pub fn verify_signature(secret: &str, body: &str, signature: &str) -> (r: bool)
    ensures
        r == (signature@ == spec_signature(secret@, body@)),
{
    let expected = sign_payload(secret, body);
    str_eq(signature, expected.as_str())
}

/// How one character is written inside a JSON string literal.
pub open spec fn spec_json_escape_char(c: char) -> Seq<char> {
    if c == '"' {
        seq!['\\', '"']
    } else if c == '\\' {
        seq!['\\', '\\']
    } else if c == '\n' {
        seq!['\\', 'n']
    } else if c == '\r' {
        seq!['\\', 'r']
    } else if c == '\t' {
        seq!['\\', 't']
    } else if (c as int) < 32 {
        seq!['\\', 'u', '0', '0', hex_char((c as int) / 16), hex_char((c as int) % 16)]
    } else {
        seq![c]
    }
}

/// Lower-case hexadecimal digit.
pub open spec fn hex_char(d: int) -> char {
    if d < 10 {
        digit_char(d)
    } else {
        ((87 + d) as u8) as char
    }
}

/// A string written as JSON string-literal content.
pub open spec fn spec_json_escape(s: Seq<char>) -> Seq<char>
    decreases s.len(),
{
    if s.len() == 0 {
        Seq::empty()
    } else {
        spec_json_escape_char(s[0]) + spec_json_escape(s.subrange(1, s.len() as int))
    }
}

proof fn lemma_json_escape_snoc(s: Seq<char>)
    requires
        s.len() > 0,
    ensures
        spec_json_escape(s) == spec_json_escape(s.drop_last()) + spec_json_escape_char(s.last()),
    decreases s.len(),
{
    if s.len() == 1 {
        assert(s.drop_last() =~= Seq::<char>::empty());
        assert(s.subrange(1, s.len() as int) =~= Seq::<char>::empty());
        assert(spec_json_escape(s.drop_last()) + spec_json_escape_char(s.last())
            =~= spec_json_escape_char(s[0]) + spec_json_escape(s.subrange(1, s.len() as int)));
    } else {
        let t = s.subrange(1, s.len() as int);
        lemma_json_escape_snoc(t);
        assert(t.drop_last() =~= s.drop_last().subrange(1, s.drop_last().len() as int));
        assert(t.last() == s.last());
        assert(spec_json_escape(s) == spec_json_escape_char(s[0]) + spec_json_escape(t));
        assert(spec_json_escape_char(s[0]) + (spec_json_escape(t.drop_last())
            + spec_json_escape_char(t.last())) =~= (spec_json_escape_char(s.drop_last()[0])
            + spec_json_escape(t.drop_last())) + spec_json_escape_char(s.last()));
        assert(s.drop_last().len() > 0 && s.drop_last()[0] == s[0]);
    }
}

fn hex_byte(d: u32) -> (r: u8)
    requires
        d < 16,
    ensures
        (r as char) == hex_char(d as int),
        r < 128,
{
    if d < 10 {
        48 + (d as u8)
    } else {
        87 + (d as u8)
    }
}

/// Writes a string as the inside of a JSON string literal, escaping
/// quotes, backslashes and control characters.
#[verifier::loop_isolation(false)]
pub fn json_escape(s: &str) -> (r: String)
    ensures
        r@ == spec_json_escape(s@),
{
    let len = s.unicode_len();
    let mut out = String::new();
    let mut i: usize = 0;
    while i < len
        invariant
            i <= len,
            out@ == spec_json_escape(s@.subrange(0, i as int)),
        decreases len - i,
    {
        let c = s.get_char(i);
        if c == '"' {
            out.append("\\\"");
            proof {
                reveal_strlit("\\\"");
                assert("\\\""@ =~= spec_json_escape_char(c));
            }
        } else if c == '\\' {
            out.append("\\\\");
            proof {
                reveal_strlit("\\\\");
                assert("\\\\"@ =~= spec_json_escape_char(c));
            }
        } else if c == '\n' {
            out.append("\\n");
            proof {
                reveal_strlit("\\n");
                assert("\\n"@ =~= spec_json_escape_char(c));
            }
        } else if c == '\r' {
            out.append("\\r");
            proof {
                reveal_strlit("\\r");
                assert("\\r"@ =~= spec_json_escape_char(c));
            }
        } else if c == '\t' {
            out.append("\\t");
            proof {
                reveal_strlit("\\t");
                assert("\\t"@ =~= spec_json_escape_char(c));
            }
        } else if (c as u32) < 32 {
            let cv = c as u32;
            let mut esc: Vec<u8> = Vec::new();
            esc.push(92);
            esc.push(117);
            esc.push(48);
            esc.push(48);
            esc.push(hex_byte(cv / 16));
            esc.push(hex_byte(cv % 16));
            let piece = string_from_ascii(esc);
            out.append(piece.as_str());
            proof {
                assert(piece@ =~= spec_json_escape_char(c));
            }
        } else {
            let piece = s.substring_char(i, i + 1);
            out.append(piece);
            proof {
                assert(piece@ =~= spec_json_escape_char(c));
            }
        }
        proof {
            let pre = s@.subrange(0, i as int);
            let cur = s@.subrange(0, i + 1);
            assert(cur.drop_last() =~= pre);
            assert(cur.last() == s@[i as int]);
            lemma_json_escape_snoc(cur);
        }
        i += 1;
    }
    proof {
        assert(s@.subrange(0, len as int) =~= s@);
    }
    out
}

/// The exact serialized envelope of a webhook delivery: event type,
/// timestamp in milliseconds, and the event's data as raw JSON.
pub open spec fn spec_webhook_body(event_type: Seq<char>, ts: i64, data_json: Seq<char>) -> Seq<
    char,
> {
    "{\"event_type\":\""@ + spec_json_escape(event_type) + "\",\"timestamp\":"@ + spec_i64_chars(
        ts as int,
    ) + ",\"data\":"@ + data_json + "}"@
}

/// Serializes the webhook envelope. This exact text is what a configured
/// secret signs.
pub fn build_webhook_body(event_type: &str, timestamp: i64, data_json: &str) -> (r: String)
    ensures
        r@ == spec_webhook_body(event_type@, timestamp, data_json@),
{
    let mut out = String::from_str("{\"event_type\":\"");
    let esc = json_escape(event_type);
    let ts = i64_to_string(timestamp);
    out.append(esc.as_str());
    out.append("\",\"timestamp\":");
    out.append(ts.as_str());
    out.append(",\"data\":");
    out.append(data_json);
    out.append("}");
    out
}

/// Whether a webhook wants an event: it must be active and subscribed to
/// the event's name.
pub open spec fn spec_webhook_matches(w: WebhookView, event_type: Seq<char>) -> bool {
    w.is_active && w.events.contains(event_type)
}

/// Tests one webhook against an event name.
#[verifier::loop_isolation(false)]
pub fn webhook_matches(w: &Webhook, event_type: &str) -> (r: bool)
    ensures
        r == spec_webhook_matches(w@, event_type@),
{
    if !w.is_active {
        return false;
    }
    let mut i: usize = 0;
    while i < w.events.len()
        invariant
            i <= w.events@.len(),
            forall|j: int| 0 <= j < i ==> w.events.deep_view()[j] != event_type@,
        decreases w.events@.len() - i,
    {
        if str_eq(w.events[i].as_str(), event_type) {
            proof {
                assert(w.events.deep_view()[i as int] == event_type@);
            }
            return true;
        }
        i += 1;
    }
    proof {
        assert(!w@.events.contains(event_type@));
    }
    false
}

/// The webhooks an event goes out to, in registration order.
#[verifier::loop_isolation(false)]
pub fn active_webhooks_for_event(webhooks: &Vec<Webhook>, event_type: &str) -> (r: Vec<Webhook>)
    ensures
        r.deep_view() == webhooks.deep_view().filter(
            |w: WebhookView| spec_webhook_matches(w, event_type@),
        ),
{
    let ghost pred = |w: WebhookView| spec_webhook_matches(w, event_type@);
    let mut out: Vec<Webhook> = Vec::new();
    proof {
        assert(webhooks.deep_view().subrange(0, 0) =~= Seq::<WebhookView>::empty());
        assert(Seq::<WebhookView>::empty().filter(pred) =~= Seq::<WebhookView>::empty());
    }
    let mut i: usize = 0;
    while i < webhooks.len()
        invariant
            i <= webhooks@.len(),
            out.deep_view() == webhooks.deep_view().subrange(0, i as int).filter(pred),
        decreases webhooks@.len() - i,
    {
        let ghost prefix = webhooks.deep_view().subrange(0, i as int);
        if webhook_matches(&webhooks[i], event_type) {
            out.push(webhooks[i].clone());
        }
        proof {
            reveal_with_fuel(Seq::<WebhookView>::filter, 2);
            let next = webhooks.deep_view().subrange(0, i + 1);
            assert(next.drop_last() =~= prefix);
            assert(next.last() == webhooks.deep_view()[i as int]);
            assert(out.deep_view() =~= next.filter(pred));
        }
        i += 1;
    }
    proof {
        assert(webhooks.deep_view().subrange(0, webhooks@.len() as int) =~= webhooks.deep_view());
    }
    out
}

/// One prepared delivery: where to POST, the exact body, and the signature
/// header when a secret is configured.
pub struct WebhookDelivery {
    pub url: String,
    pub body: String,
    pub signature: Option<String>,
}

/// Builds the delivery for one webhook: the envelope is serialized once,
/// and exactly that text is signed when the webhook has a secret.
pub fn prepare_delivery(w: &Webhook, event_type: &str, timestamp: i64, data_json: &str) -> (r:
    WebhookDelivery)
    ensures
        r.url@ == w.url@,
        r.body@ == spec_webhook_body(event_type@, timestamp, data_json@),
        match w@.secret {
            Option::Some(sec) => r.signature matches Some(sig) && sig@ == spec_signature(
                sec,
                spec_webhook_body(event_type@, timestamp, data_json@),
            ),
            Option::None => r.signature is None,
        },
{
    let body = build_webhook_body(event_type, timestamp, data_json);
    let signature = match &w.secret {
        Some(sec) => Some(sign_payload(sec.as_str(), body.as_str())),
        None => None,
    };
    WebhookDelivery { url: w.url.clone(), body, signature }
}

/// Records the outcome of one delivery attempt: a 2xx answer stamps
/// `last_triggered_at`, anything else leaves the webhook untouched.
pub fn record_delivery_outcome(w: &mut Webhook, status_code: u16, now: i64)
    ensures
        200 <= status_code < 300 ==> final(w)@ == (WebhookView {
            last_triggered_at: Some(now),
            ..old(w)@
        }),
        !(200 <= status_code < 300) ==> (final(w)@ == old(w)@),
{
    if 200 <= status_code && status_code < 300 {
        w.last_triggered_at = Some(now);
    }
}

/// Copies a webhook list for listing, blotting out each configured
/// secret so it never leaves the service.
#[verifier::loop_isolation(false)]
pub fn mask_webhook_secrets(webhooks: Vec<Webhook>) -> (r: Vec<Webhook>)
    ensures
        r@.len() == webhooks@.len(),
        forall|i: int|
            0 <= i < r@.len() ==> (#[trigger] r.deep_view()[i]) == (WebhookView {
                secret: match webhooks.deep_view()[i].secret {
                    Option::Some(_) => Some("***"@),
                    Option::None => None,
                },
                ..webhooks.deep_view()[i]
            }),
{
    let mut out: Vec<Webhook> = Vec::new();
    let n = webhooks.len();
    let mut i: usize = 0;
    while i < n
        invariant
            i <= n,
            n == webhooks@.len(),
            out@.len() == i,
            forall|j: int|
                0 <= j < i ==> (#[trigger] out.deep_view()[j]) == (WebhookView {
                    secret: match webhooks.deep_view()[j].secret {
                        Option::Some(_) => Some("***"@),
                        Option::None => None,
                    },
                    ..webhooks.deep_view()[j]
                }),
        decreases n - i,
    {
        let mut w = webhooks[i].clone();
        if w.secret.is_some() {
            w.secret = Some(String::from_str("***"));
        }
        let ghost prev = out.deep_view();
        let ghost wv = w@;
        out.push(w);
        proof {
            assert(out.deep_view() =~= prev.push(wv));
        }
        i += 1;
    }
    out
}

} // verus!
