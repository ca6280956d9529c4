//! The provider adapters' pure half: from a normalized chat payload and a
//! plaintext API key to the exact URL, auth header and JSON body of the
//! upstream call. The network call itself is the application's work; what
//! is sent is fixed, character by character, here.

use vstd::prelude::*;
use vstd::string::{StringSliceAdditionalSpecFns, StringExecFns};
use vstd::utf8::encode_utf8;
use crate::credential::{spec_decrypt, decrypt_credential, CIPHER_DATA_LIMIT};
use crate::jsontext::{json_string_of, json_quote};
use crate::provider::{ProviderKind, CredentialError};

verus! {

/// One turn of a Gemini-style conversation: a role and its text parts.
pub struct Content {
    pub role: String,
    pub parts: Vec<Part>,
}

/// One text fragment of a Gemini-style turn.
pub struct Part {
    pub text: String,
}

/// The inbound body of a Gemini-style proxy request: the turns to forward
/// and the caller's encrypted credential.
pub struct GeminiRequest {
    pub contents: Vec<Content>,
    pub api_key: String,
}

/// One turn of a Mistral- or GPT-style conversation.
pub struct Message {
    pub role: String,
    pub content: String,
}

/// The inbound body of a Mistral- or GPT-style proxy request.
pub struct MistralRequest {
    pub messages: Vec<Message>,
    pub api_key: String,
}

/// The outbound call an adapter has decided on: where to POST, which bearer
/// key to send (none for the Gemini-style path, whose key rides in the
/// URL), and the serialized JSON body.
pub struct RequestPlan {
    pub url: String,
    pub bearer_key: Option<String>,
    pub body: String,
}

/// Comma-separated JSON array items from position `i` on, each preceded by
/// its separator.
pub open spec fn comma_joined(items: Seq<Seq<char>>, i: int) -> Seq<char>
    decreases items.len() - i,
{
    if i < 0 || i >= items.len() {
        Seq::empty()
    } else {
        ","@ + items[i] + comma_joined(items, i + 1)
    }
}

/// The items of a JSON array, joined with commas.
pub open spec fn joined(items: Seq<Seq<char>>) -> Seq<char> {
    if items.len() == 0 {
        Seq::empty()
    } else {
        items[0] + comma_joined(items, 1)
    }
}

fn join_items(items: &Vec<String>) -> (r: String)
    ensures
        r@ == joined(items.deep_view()),
{
    let ghost dv = items.deep_view();
    let mut out: String = String::new();
    let mut i: usize = 0;
    while i < items.len()
        invariant
            i <= items.len(),
            dv == items.deep_view(),
            dv.len() == items@.len(),
            i == 0 ==> out@ == Seq::<char>::empty(),
            i > 0 ==> out@ + comma_joined(dv, i as int) == joined(dv),
        decreases items.len() - i,
    {
        if i == 0 {
            out.append(items[0].as_str());
            proof {
                assert(out@ =~= dv[0]);
            }
        } else {
            out.append(",");
            out.append(items[i].as_str());
            proof {
                reveal_strlit(",");
                assert(comma_joined(dv, i as int) == ","@ + dv[i as int] + comma_joined(
                    dv,
                    i as int + 1,
                ));
                assert(out@ + comma_joined(dv, i as int + 1) =~= joined(dv));
            }
        }
        i += 1;
    }
    proof {
        if items@.len() == 0 {
            assert(out@ =~= joined(dv));
        } else {
            assert(comma_joined(dv, i as int) == Seq::<char>::empty());
            assert(out@ + Seq::<char>::empty() =~= out@);
        }
    }
    out
}

/// The compact JSON object for one Gemini-style part.
pub open spec fn part_item_of(p: Part) -> Seq<char> {
    "{\"text\":"@ + json_string_of(p.text@) + "}"@
}

pub open spec fn part_items_of(ps: Seq<Part>) -> Seq<Seq<char>> {
    ps.map_values(|p: Part| part_item_of(p))
}

/// The compact JSON object for one Gemini-style turn.
pub open spec fn content_item_of(c: Content) -> Seq<char> {
    "{\"role\":"@ + json_string_of(c.role@) + ",\"parts\":["@ + joined(part_items_of(c.parts@))
        + "]}"@
}

pub open spec fn content_items_of(cs: Seq<Content>) -> Seq<Seq<char>> {
    cs.map_values(|c: Content| content_item_of(c))
}

/// The whole Gemini-style request body: the turns under `contents`.
pub open spec fn gemini_body_of(cs: Seq<Content>) -> Seq<char> {
    "{\"contents\":["@ + joined(content_items_of(cs)) + "]}"@
}

fn part_item(p: &Part) -> (r: String)
    ensures
        r@ == part_item_of(*p),
{
    let mut s: String = String::from_str("{\"text\":");
    let q = json_quote(p.text.as_str());
    s.append(q.as_str());
    s.append("}");
    s
}

fn content_item(c: &Content) -> (r: String)
    ensures
        r@ == content_item_of(*c),
{
    let mut items: Vec<String> = Vec::new();
    let mut i: usize = 0;
    proof {
        assert(items.deep_view() =~~= part_items_of(c.parts@.take(0)));
    }
    while i < c.parts.len()
        invariant
            i <= c.parts.len(),
            items.deep_view() == part_items_of(c.parts@.take(i as int)),
        decreases c.parts.len() - i,
    {
        let it = part_item(&c.parts[i]);
        let ghost dv0 = items.deep_view();
        let ghost itv = it@;
        items.push(it);
        proof {
            assert(items.deep_view() =~~= dv0.push(itv));
            assert(part_items_of(c.parts@.take(i as int + 1))[i as int] == part_item_of(
                c.parts@[i as int],
            ));
            assert(dv0.push(itv) =~~= part_items_of(c.parts@.take(i as int + 1)));
        }
        i += 1;
    }
    proof {
        assert(c.parts@.take(c.parts@.len() as int) =~= c.parts@);
    }
    let mut s: String = String::from_str("{\"role\":");
    let q = json_quote(c.role.as_str());
    s.append(q.as_str());
    s.append(",\"parts\":[");
    let joined_parts = join_items(&items);
    s.append(joined_parts.as_str());
    s.append("]}");
    s
}

/// Builds the Gemini-style request body for these turns, exactly
/// `gemini_body_of` character by character.
pub fn build_gemini_body(contents: &Vec<Content>) -> (r: String)
    ensures
        r@ == gemini_body_of(contents@),
{
    let mut items: Vec<String> = Vec::new();
    let mut i: usize = 0;
    proof {
        assert(items.deep_view() =~~= content_items_of(contents@.take(0)));
    }
    while i < contents.len()
        invariant
            i <= contents.len(),
            items.deep_view() == content_items_of(contents@.take(i as int)),
        decreases contents.len() - i,
    {
        let it = content_item(&contents[i]);
        let ghost dv0 = items.deep_view();
        let ghost itv = it@;
        items.push(it);
        proof {
            assert(items.deep_view() =~~= dv0.push(itv));
            assert(content_items_of(contents@.take(i as int + 1))[i as int] == content_item_of(
                contents@[i as int],
            ));
            assert(dv0.push(itv) =~~= content_items_of(contents@.take(i as int + 1)));
        }
        i += 1;
    }
    proof {
        assert(contents@.take(contents@.len() as int) =~= contents@);
    }
    let mut s: String = String::from_str("{\"contents\":[");
    let joined_contents = join_items(&items);
    s.append(joined_contents.as_str());
    s.append("]}");
    s
}

/// The compact JSON object for one Mistral- or GPT-style turn.
pub open spec fn message_item_of(m: Message) -> Seq<char> {
    "{\"role\":"@ + json_string_of(m.role@) + ",\"content\":"@ + json_string_of(m.content@) + "}"@
}

pub open spec fn message_items_of(ms: Seq<Message>) -> Seq<Seq<char>> {
    ms.map_values(|m: Message| message_item_of(m))
}

/// The model each bearer-header provider is asked for.
pub open spec fn model_of(kind: ProviderKind) -> Seq<char> {
    match kind {
        ProviderKind::Gemini => Seq::empty(),
        ProviderKind::Mistral => "mistral-large-latest"@,
        ProviderKind::Gpt => "gpt-4o-mini"@,
    }
}

/// The whole Mistral- or GPT-style request body: model, turns, and the
/// streaming flag.
pub open spec fn chat_body_of(kind: ProviderKind, ms: Seq<Message>) -> Seq<char> {
    "{\"model\":\""@ + model_of(kind) + "\",\"messages\":["@ + joined(message_items_of(ms))
        + "],\"stream\":true}"@
}

fn model_name(kind: ProviderKind) -> (r: &'static str)
    requires
        !(kind is Gemini),
    ensures
        r@ == model_of(kind),
{
    match kind {
        ProviderKind::Gemini => "",
        ProviderKind::Mistral => "mistral-large-latest",
        ProviderKind::Gpt => "gpt-4o-mini",
    }
}

/// Builds the Mistral- or GPT-style request body for these turns, exactly
/// `chat_body_of` character by character.
pub fn build_chat_body(kind: ProviderKind, messages: &Vec<Message>) -> (r: String)
    requires
        !(kind is Gemini),
    ensures
        r@ == chat_body_of(kind, messages@),
{
    let mut items: Vec<String> = Vec::new();
    let mut i: usize = 0;
    proof {
        assert(items.deep_view() =~~= message_items_of(messages@.take(0)));
    }
    while i < messages.len()
        invariant
            i <= messages.len(),
            items.deep_view() == message_items_of(messages@.take(i as int)),
        decreases messages.len() - i,
    {
        let mut it: String = String::from_str("{\"role\":");
        let qr = json_quote(messages[i].role.as_str());
        it.append(qr.as_str());
        it.append(",\"content\":");
        let qc = json_quote(messages[i].content.as_str());
        it.append(qc.as_str());
        it.append("}");
        let ghost dv0 = items.deep_view();
        let ghost itv = it@;
        items.push(it);
        proof {
            assert(items.deep_view() =~~= dv0.push(itv));
            assert(message_items_of(messages@.take(i as int + 1))[i as int] == message_item_of(
                messages@[i as int],
            ));
            assert(dv0.push(itv) =~~= message_items_of(messages@.take(i as int + 1)));
        }
        i += 1;
    }
    proof {
        assert(messages@.take(messages@.len() as int) =~= messages@);
    }
    let mut s: String = String::from_str("{\"model\":\"");
    s.append(model_name(kind));
    s.append("\",\"messages\":[");
    let joined_messages = join_items(&items);
    s.append(joined_messages.as_str());
    s.append("],\"stream\":true}");
    s
}

/// The Gemini-style endpoint, with the plaintext key as a query parameter.
pub open spec fn gemini_url_of(key: Seq<char>) -> Seq<char> {
    "https://generativelanguage.googleapis.com/v1beta/models/gemini-1.5-flash:streamGenerateContent?alt=sse&key="@
        + key
}

/// The fixed endpoint of each bearer-header provider.
pub open spec fn chat_url_of(kind: ProviderKind) -> Seq<char> {
    match kind {
        ProviderKind::Gemini => Seq::empty(),
        ProviderKind::Mistral => "https://api.mistral.ai/v1/chat/completions"@,
        ProviderKind::Gpt => "https://api.openai.com/v1/chat/completions"@,
    }
}

/// Builds the outbound Gemini-style call for an already decrypted key.
pub fn build_gemini_request(contents: &Vec<Content>, api_key: &str) -> (r: RequestPlan)
    ensures
        r.url@ == gemini_url_of(api_key@),
        r.bearer_key is None,
        r.body@ == gemini_body_of(contents@),
{
    let mut url: String = String::from_str(
        "https://generativelanguage.googleapis.com/v1beta/models/gemini-1.5-flash:streamGenerateContent?alt=sse&key=",
    );
    url.append(api_key);
    RequestPlan { url, bearer_key: None, body: build_gemini_body(contents) }
}

/// Builds the outbound Mistral- or GPT-style call for an already decrypted
/// key: the key goes into the bearer header, never the URL.
pub fn build_chat_request(kind: ProviderKind, messages: &Vec<Message>, api_key: &str) -> (r:
    RequestPlan)
    requires
        !(kind is Gemini),
    ensures
        r.url@ == chat_url_of(kind),
        r.bearer_key matches Some(k) && k@ == api_key@,
        r.body@ == chat_body_of(kind, messages@),
{
    let url: String = match kind {
        ProviderKind::Gemini => String::new(),
        ProviderKind::Mistral => String::from_str("https://api.mistral.ai/v1/chat/completions"),
        ProviderKind::Gpt => String::from_str("https://api.openai.com/v1/chat/completions"),
    };
    RequestPlan {
        url,
        bearer_key: Some(String::from_str(api_key)),
        body: build_chat_body(kind, messages),
    }
}

/// The Gemini-style handler's decision half: decrypt the caller's
/// credential and build the upstream call, or report exactly why the
/// credential was refused — in which case no call is made. The credential
/// must fit the cipher's one-shot size limit.
pub fn prepare_gemini(req: &GeminiRequest, secret: &str) -> (r: Result<RequestPlan, CredentialError>)
    requires
        encode_utf8(req.api_key@).len() <= CIPHER_DATA_LIMIT,
    ensures
        match spec_decrypt(encode_utf8(req.api_key@), secret.spec_bytes()) {
            Ok(key) => r matches Ok(p) && p.url@ == gemini_url_of(key) && p.bearer_key is None
                && p.body@ == gemini_body_of(req.contents@),
            Err(e) => r matches Err(e2) && e2 == e,
        },
{
    let key = match decrypt_credential(req.api_key.as_str(), secret) {
        Ok(k) => k,
        Err(e) => {
            return Err(e);
        },
    };
    Ok(build_gemini_request(&req.contents, key.as_str()))
}

/// The Mistral- and GPT-style handlers' decision half: decrypt the caller's
/// credential and build the upstream call, or report exactly why the
/// credential was refused — in which case no call is made. The credential
/// must fit the cipher's one-shot size limit.
pub fn prepare_chat(kind: ProviderKind, req: &MistralRequest, secret: &str) -> (r: Result<
    RequestPlan,
    CredentialError,
>)
    requires
        !(kind is Gemini),
        encode_utf8(req.api_key@).len() <= CIPHER_DATA_LIMIT,
    ensures
        match spec_decrypt(encode_utf8(req.api_key@), secret.spec_bytes()) {
            Ok(key) => r matches Ok(p) && p.url@ == chat_url_of(kind) && (p.bearer_key matches Some(
                k,
            ) && k@ == key) && p.body@ == chat_body_of(kind, req.messages@),
            Err(e) => r matches Err(e2) && e2 == e,
        },
{
    let key = match decrypt_credential(req.api_key.as_str(), secret) {
        Ok(k) => k,
        Err(e) => {
            return Err(e);
        },
    };
    Ok(build_chat_request(kind, &req.messages, key.as_str()))
}

} // verus!
