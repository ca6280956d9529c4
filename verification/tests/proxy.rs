use backend_ai::credential::{decrypt_credential, encrypt_credential};
use backend_ai::jsontext::concat_events;
use backend_ai::payload::{
    build_chat_request, build_gemini_request, prepare_chat, prepare_gemini, Content, GeminiRequest,
    Message, MistralRequest, Part,
};
use backend_ai::provider::{CredentialError, ParsePolicy, ProviderKind, ProxyError};
use backend_ai::sse::{FeedOutcome, Normalizer, ReadEvent, StreamAction};
use backend_ai::store::{Conversation, UpdateConversation};

const SECRET: &str = "0123456789abcdef0123456789abcdef";
const IV: [u8; 16] = [7u8; 16];

fn expect_events(out: FeedOutcome) -> Vec<String> {
    match out {
        FeedOutcome::Events(es) => es,
        FeedOutcome::Done(_) => panic!("stream ended where events were expected"),
        FeedOutcome::Fatal => panic!("stream aborted where events were expected"),
    }
}

fn expect_done(out: FeedOutcome) -> Vec<String> {
    match out {
        FeedOutcome::Done(es) => es,
        FeedOutcome::Events(_) => panic!("stream stayed open where the end was expected"),
        FeedOutcome::Fatal => panic!("stream aborted where a clean end was expected"),
    }
}

#[test]
fn credential_round_trip() {
    let cred = encrypt_credential("sk-secret-key-123", &IV, SECRET).unwrap();
    assert_eq!(cred.matches(':').count(), 1);
    let back = decrypt_credential(&cred, SECRET).unwrap();
    assert_eq!(back, "sk-secret-key-123");
}

#[test]
fn credential_round_trip_empty_plaintext() {
    let cred = encrypt_credential("", &IV, SECRET).unwrap();
    let back = decrypt_credential(&cred, SECRET).unwrap();
    assert_eq!(back, "");
}

#[test]
fn credential_missing_separator_is_malformed() {
    let r = decrypt_credential("deadbeef", SECRET);
    assert_eq!(r, Err(CredentialError::MalformedCredential));
}

#[test]
fn credential_two_separators_is_malformed() {
    let r = decrypt_credential("dead:beef:dead", SECRET);
    assert_eq!(r, Err(CredentialError::MalformedCredential));
}

#[test]
fn credential_non_hex_iv_is_malformed() {
    let r = decrypt_credential("nothex!!:deadbeef", SECRET);
    assert_eq!(r, Err(CredentialError::MalformedCredential));
}

#[test]
fn credential_odd_length_hex_is_malformed() {
    let r = decrypt_credential("abc:deadbeef", SECRET);
    assert_eq!(r, Err(CredentialError::MalformedCredential));
}

#[test]
fn credential_wrong_secret_is_decryption_failure() {
    let cred = encrypt_credential("sk-secret-key-123", &IV, SECRET).unwrap();
    let other = "fedcba9876543210fedcba9876543210";
    let r = decrypt_credential(&cred, other);
    assert_eq!(r, Err(CredentialError::DecryptionFailure));
}

#[test]
fn credential_non_utf8_plaintext_is_decryption_failure() {
    let cipher = openssl::symm::Cipher::aes_256_cbc();
    let ct = openssl::symm::encrypt(cipher, SECRET.as_bytes(), Some(&IV), &[0xff, 0xfe, 0x80])
        .unwrap();
    let cred = format!("{}:{}", hex::encode(IV), hex::encode(&ct));
    let r = decrypt_credential(&cred, SECRET);
    assert_eq!(r, Err(CredentialError::DecryptionFailure));
}

#[test]
fn credential_bad_key_length_refused_by_cipher() {
    assert!(encrypt_credential("x", &IV, "short-secret").is_none());
}

#[test]
fn three_mistral_records_in_one_chunk() {
    let mut n = Normalizer::new(ProviderKind::Mistral);
    let chunk = "data: {\"choices\":[{\"delta\":{\"content\":\"A\"}}]}\ndata: {\"choices\":[{\"delta\":{\"content\":\"B\"}}]}\ndata: {\"choices\":[{\"delta\":{\"content\":\"C\"}}]}\n";
    let es = expect_events(n.feed(chunk.as_bytes()));
    assert_eq!(
        es,
        vec![
            "{\"message\":\"A\"}\n".to_string(),
            "{\"message\":\"B\"}\n".to_string(),
            "{\"message\":\"C\"}\n".to_string(),
        ]
    );
    assert_eq!(concat_events(&es), "{\"message\":\"A\"}\n{\"message\":\"B\"}\n{\"message\":\"C\"}\n");
}

#[test]
fn gemini_scenario_one_chunk() {
    let mut n = Normalizer::new(ProviderKind::Gemini);
    let chunk = "data: {\"candidates\":[{\"content\":{\"parts\":[{\"text\":\"Hello\"}]}}]}\n\n";
    let es = expect_events(n.feed(chunk.as_bytes()));
    assert_eq!(es, vec!["{\"message\":\"Hello\"}\n".to_string()]);
}

#[test]
fn gemini_several_parts_in_one_event() {
    let mut n = Normalizer::new(ProviderKind::Gemini);
    let chunk = "data: {\"candidates\":[{\"content\":{\"parts\":[{\"text\":\"one\"},{\"text\":\"two\"}]}}]}\n";
    let es = expect_events(n.feed(chunk.as_bytes()));
    assert_eq!(
        es,
        vec!["{\"message\":\"one\"}\n".to_string(), "{\"message\":\"two\"}\n".to_string()]
    );
}

#[test]
fn mistral_frame_split_across_chunks() {
    let mut n = Normalizer::new(ProviderKind::Mistral);
    let first = expect_events(n.feed(b"data: {\"choices\":[{\"delta\":{\"content\":\"He"));
    assert!(first.is_empty());
    let second = expect_events(n.feed(b"llo\"}}]}\n"));
    assert_eq!(second, vec!["{\"message\":\"Hello\"}\n".to_string()]);
    let done = expect_done(n.feed(b"data: [DONE]\n"));
    assert!(done.is_empty());
}

#[test]
fn mistral_unbalanced_frame_stays_buffered() {
    // The completed line carries one brace too many, so it never parses:
    // the buffering path retains it instead of emitting a corrupted event.
    let mut n = Normalizer::new(ProviderKind::Mistral);
    let first = expect_events(n.feed(b"data: {\"choices\":[{\"delta\":{\"content\":\"He"));
    assert!(first.is_empty());
    let second = expect_events(n.feed(b"llo\"}}]}}\n"));
    assert!(second.is_empty());
    // The retained line carries no line break, so a sentinel glued straight
    // onto it is absorbed into the undecodable line.
    let glued = expect_events(n.feed(b"data: [DONE]\n"));
    assert!(glued.is_empty());
    // A sentinel on a line of its own still ends the stream.
    let done = expect_done(n.feed(b"\ndata: [DONE]\n"));
    assert!(done.is_empty());
}

#[test]
fn sentinel_ends_stream_and_discards_later_chunks() {
    let mut n = Normalizer::new(ProviderKind::Mistral);
    let out = expect_done(n.feed(b"data: [DONE]\ndata: {\"choices\":[{\"delta\":{\"content\":\"X\"}}]}\n"));
    assert!(out.is_empty());
    let later = expect_done(n.feed(b"data: {\"choices\":[{\"delta\":{\"content\":\"Y\"}}]}\n"));
    assert!(later.is_empty());
}

#[test]
fn sentinel_delivers_batch_gathered_before_it() {
    let mut n = Normalizer::new(ProviderKind::Mistral);
    let out = expect_done(n.feed(b"data: {\"choices\":[{\"delta\":{\"content\":\"A\"}}]}\ndata: [DONE]\ndata: {\"choices\":[{\"delta\":{\"content\":\"B\"}}]}\n"));
    assert_eq!(out, vec!["{\"message\":\"A\"}\n".to_string()]);
}

#[test]
fn sentinel_with_padding_still_ends_stream() {
    let mut n = Normalizer::new(ProviderKind::Mistral);
    let out = expect_done(n.feed(b" data: [DONE] \r\n"));
    assert!(out.is_empty());
}

#[test]
fn upstream_close_is_clean_end() {
    let mut n = Normalizer::new(ProviderKind::Mistral);
    let a = n.on_read(ReadEvent::Closed);
    assert!(matches!(a, StreamAction::Finish(ref es) if es.is_empty()));
    let later = n.on_read(ReadEvent::Chunk(b"data: [DONE]\n".to_vec()));
    assert!(matches!(later, StreamAction::Finish(ref es) if es.is_empty()));
}

#[test]
fn read_error_aborts_stream() {
    let mut n = Normalizer::new(ProviderKind::Mistral);
    let a = n.on_read(ReadEvent::ReadError);
    assert!(matches!(a, StreamAction::Abort));
}

#[test]
fn gemini_bad_line_is_fatal() {
    let mut n = Normalizer::new(ProviderKind::Gemini);
    let out = n.feed(b"data: not json\n");
    assert!(matches!(out, FeedOutcome::Fatal));
    let later = expect_done(n.feed(b"data: {\"candidates\":[]}\n"));
    assert!(later.is_empty());
}

#[test]
fn mistral_bad_line_is_buffered_not_fatal() {
    let mut n = Normalizer::new(ProviderKind::Mistral);
    let out = expect_events(n.feed(b"data: not json\n"));
    assert!(out.is_empty());
}

#[test]
fn gemini_with_buffering_policy_retains_bad_line() {
    let mut n = Normalizer::with_policy(ProviderKind::Gemini, ParsePolicy::BufferRetry);
    let first = expect_events(n.feed(b"data: {\"candidates\":[{\"content\":{\"parts\":[{\"text\":\"Hi"));
    assert!(first.is_empty());
    let second = expect_events(n.feed(b"\"}]}}]}\n"));
    assert_eq!(second, vec!["{\"message\":\"Hi\"}\n".to_string()]);
}

#[test]
fn mistral_with_fatal_policy_aborts_on_bad_line() {
    let mut n = Normalizer::with_policy(ProviderKind::Mistral, ParsePolicy::FatalAbort);
    let out = n.feed(b"data: not json\n");
    assert!(matches!(out, FeedOutcome::Fatal));
}

#[test]
fn lines_without_prefix_are_ignored() {
    let mut n = Normalizer::new(ProviderKind::Mistral);
    let out = expect_events(n.feed(b"event: ping\n: keep-alive\n\n"));
    assert!(out.is_empty());
}

#[test]
fn event_without_content_emits_nothing() {
    let mut n = Normalizer::new(ProviderKind::Mistral);
    let out = expect_events(n.feed(b"data: {\"choices\":[{\"delta\":{}}]}\n"));
    assert!(out.is_empty());
}

#[test]
fn malformed_bytes_in_data_line_abort_stream() {
    let mut n = Normalizer::new(ProviderKind::Mistral);
    let out = n.feed(b"data: \xff{\n");
    assert!(matches!(out, FeedOutcome::Fatal));
}

#[test]
fn malformed_bytes_outside_data_line_abort_stream() {
    let mut n = Normalizer::new(ProviderKind::Gemini);
    let out = n.feed(b"\xfe\xff\n");
    assert!(matches!(out, FeedOutcome::Fatal));
}

#[test]
fn multibyte_character_split_across_chunks_heals() {
    let mut n = Normalizer::new(ProviderKind::Mistral);
    let first = expect_events(n.feed(b"data: {\"choices\":[{\"delta\":{\"content\":\"caf\xc3"));
    assert!(first.is_empty());
    let second = expect_events(n.feed(b"\xa9\"}}]}\n"));
    assert_eq!(second, vec!["{\"message\":\"caf\u{e9}\"}\n".to_string()]);
}

#[test]
fn message_text_is_json_escaped() {
    let mut n = Normalizer::new(ProviderKind::Mistral);
    let chunk = "data: {\"choices\":[{\"delta\":{\"content\":\"a\\\"b\\\\c\"}}]}\n";
    let es = expect_events(n.feed(chunk.as_bytes()));
    assert_eq!(es, vec!["{\"message\":\"a\\\"b\\\\c\"}\n".to_string()]);
}

#[test]
fn gemini_request_plan_exact() {
    let contents = vec![Content {
        role: "user".to_string(),
        parts: vec![Part { text: "hi".to_string() }],
    }];
    let plan = build_gemini_request(&contents, "sk-live-key");
    assert_eq!(
        plan.url,
        "https://generativelanguage.googleapis.com/v1beta/models/gemini-1.5-flash:streamGenerateContent?alt=sse&key=sk-live-key"
    );
    assert!(plan.bearer_key.is_none());
    assert_eq!(plan.body, "{\"contents\":[{\"role\":\"user\",\"parts\":[{\"text\":\"hi\"}]}]}");
}

#[test]
fn mistral_request_plan_exact() {
    let messages = vec![
        Message { role: "user".to_string(), content: "hi".to_string() },
        Message { role: "assistant".to_string(), content: "hello".to_string() },
    ];
    let plan = build_chat_request(ProviderKind::Mistral, &messages, "sk-m");
    assert_eq!(plan.url, "https://api.mistral.ai/v1/chat/completions");
    assert_eq!(plan.bearer_key.as_deref(), Some("sk-m"));
    assert_eq!(
        plan.body,
        "{\"model\":\"mistral-large-latest\",\"messages\":[{\"role\":\"user\",\"content\":\"hi\"},{\"role\":\"assistant\",\"content\":\"hello\"}],\"stream\":true}"
    );
}

#[test]
fn gpt_request_plan_exact() {
    let messages = vec![Message { role: "user".to_string(), content: "hi".to_string() }];
    let plan = build_chat_request(ProviderKind::Gpt, &messages, "sk-g");
    assert_eq!(plan.url, "https://api.openai.com/v1/chat/completions");
    assert_eq!(plan.bearer_key.as_deref(), Some("sk-g"));
    assert_eq!(
        plan.body,
        "{\"model\":\"gpt-4o-mini\",\"messages\":[{\"role\":\"user\",\"content\":\"hi\"}],\"stream\":true}"
    );
}

#[test]
fn gemini_scenario_end_to_end() {
    let cred = encrypt_credential("sk-e2e", &IV, SECRET).unwrap();
    let req = GeminiRequest {
        contents: vec![Content {
            role: "user".to_string(),
            parts: vec![Part { text: "hi".to_string() }],
        }],
        api_key: cred,
    };
    let plan = prepare_gemini(&req, SECRET).unwrap();
    assert!(plan.url.ends_with("&key=sk-e2e"));
    assert_eq!(plan.body, "{\"contents\":[{\"role\":\"user\",\"parts\":[{\"text\":\"hi\"}]}]}");
    let mut n = Normalizer::new(ProviderKind::Gemini);
    let chunk = "data: {\"candidates\":[{\"content\":{\"parts\":[{\"text\":\"Hello\"}]}}]}\n\n";
    let es = expect_events(n.feed(chunk.as_bytes()));
    assert_eq!(concat_events(&es), "{\"message\":\"Hello\"}\n");
}

#[test]
fn non_hex_iv_means_no_upstream_call() {
    let req = MistralRequest {
        messages: vec![Message { role: "user".to_string(), content: "hi".to_string() }],
        api_key: "zzzz:deadbeef".to_string(),
    };
    let r = prepare_chat(ProviderKind::Mistral, &req, SECRET);
    assert!(matches!(r, Err(CredentialError::MalformedCredential)));
}

#[test]
fn error_status_codes() {
    assert_eq!(ProxyError::Configuration.status_code(), 500);
    assert_eq!(ProxyError::Credential(CredentialError::MalformedCredential).status_code(), 400);
    assert_eq!(ProxyError::Credential(CredentialError::DecryptionFailure).status_code(), 400);
    assert_eq!(ProxyError::UpstreamUnreachable.status_code(), 500);
    assert_eq!(ProxyError::Configuration.message(), "DECRYPTION_KEY must be set");
    assert_eq!(
        ProxyError::Credential(CredentialError::MalformedCredential).message(),
        "Invalid API key"
    );
}

#[test]
fn conversation_update_merges_fields() {
    let existing = Conversation {
        id: "c1".to_string(),
        user_id: "u1".to_string(),
        model_id: 1,
        title: "old title".to_string(),
        created_at: 100,
        updated_at: 100,
    };
    let upd = UpdateConversation { title: Some("new title".to_string()), model_id: None };
    let merged = existing.apply_update(&upd, 200);
    assert_eq!(merged.title, "new title");
    assert_eq!(merged.model_id, 1);
    assert_eq!(merged.created_at, 100);
    assert_eq!(merged.updated_at, 200);
    let upd2 = UpdateConversation { title: None, model_id: Some(7) };
    let merged2 = merged.apply_update(&upd2, 300);
    assert_eq!(merged2.title, "new title");
    assert_eq!(merged2.model_id, 7);
    assert_eq!(merged2.updated_at, 300);
}
