use chat_stream::api::OpenAIChatApi;
use chat_stream::chunk::{parse_chunk, Lits, OpenAIChatRole, OpenAIFinishReason};
use chat_stream::decoder::{handle_line, StreamEvent};
use chat_stream::errdoc::{parse_error_doc, ErrLits};
use chat_stream::utf8check::{check_utf8, Utf8Status};

fn bytes(s: &str) -> Vec<u8> {
    s.as_bytes().to_vec()
}

#[test]
fn completions_url_appends_path() {
    let api = OpenAIChatApi::new("https://api.example.test");
    assert_eq!(
        api.completions_url(),
        "https://api.example.test/v1/chat/completions"
    );
}

#[test]
fn parse_chunk_full_schema() {
    let lits = Lits::new();
    let payload = bytes(
        "{\"object\":\"chat.completion.chunk\",\"model\":\"m-1\",\"choices\":[{\"delta\":{\"role\":\"assistant\",\"content\":\"Hey\"},\"index\":3,\"finish_reason\":\"length\"}],\"extra\":[1,2,{\"x\":null}]}",
    );
    let c = parse_chunk(&payload, &lits).expect("should parse");
    assert_eq!(c.object, "chat.completion.chunk");
    assert_eq!(c.model, "m-1");
    assert_eq!(c.choices.len(), 1);
    let ch = &c.choices[0];
    assert_eq!(ch.index, Some(3));
    assert_eq!(ch.finish_reason, Some(OpenAIFinishReason::Length));
    assert_eq!(ch.delta.role, Some(OpenAIChatRole::Assistant));
    assert_eq!(ch.delta.content.as_deref(), Some("Hey"));
}

#[test]
fn parse_chunk_rejects_trailing_text() {
    let lits = Lits::new();
    let payload = bytes("{\"object\":\"x\",\"model\":\"m\",\"choices\":[]} tail");
    assert!(parse_chunk(&payload, &lits).is_none());
}

#[test]
fn parse_chunk_rejects_duplicate_member() {
    let lits = Lits::new();
    let payload = bytes("{\"object\":\"x\",\"object\":\"y\",\"model\":\"m\",\"choices\":[]}");
    assert!(parse_chunk(&payload, &lits).is_none());
}

#[test]
fn parse_chunk_rejects_fractional_index() {
    let lits = Lits::new();
    let payload =
        bytes("{\"object\":\"x\",\"model\":\"m\",\"choices\":[{\"delta\":{},\"index\":1.5}]}");
    assert!(parse_chunk(&payload, &lits).is_none());
}

#[test]
fn parse_error_doc_reads_fields() {
    let lits = ErrLits::new();
    let doc = bytes("{\"error\":{\"message\":\"nope\",\"type\":\"server_error\",\"param\":null}}");
    let e = parse_error_doc(&doc, &lits).expect("should parse");
    assert_eq!(e.message, "nope");
    assert_eq!(e.error_type, "server_error");
    assert_eq!(e.code, None);
}

#[test]
fn handle_line_sentinel_keeps_pending() {
    let (pl, ev) = handle_line(Some(bytes("{\"part")), &bytes("data: [DONE]"));
    assert_eq!(pl, Some(bytes("{\"part")));
    assert_eq!(ev, Some(StreamEvent::Done));
}

#[test]
fn handle_line_discards_unprefixed_line() {
    let (pl, ev) = handle_line(None, &bytes(": comment"));
    assert_eq!(pl, None);
    assert_eq!(ev, None);
}

#[test]
fn handle_line_discard_leaves_pending_payload_alone() {
    let (pl, ev) = handle_line(Some(bytes("{\"part")), &bytes(": comment"));
    assert_eq!(pl, Some(bytes("{\"part")));
    assert_eq!(ev, None);
}

#[test]
fn handle_line_pends_incomplete_payload() {
    let (pl, ev) = handle_line(None, &bytes("data: {\"object\":\"x"));
    assert_eq!(pl, Some(bytes("{\"object\":\"x")));
    assert_eq!(ev, None);
}

#[test]
fn utf8_status_classification() {
    assert_eq!(check_utf8(&bytes("plain ascii")), Utf8Status::Valid);
    assert_eq!(check_utf8(&"é".as_bytes().to_vec()), Utf8Status::Valid);
    assert_eq!(check_utf8(&vec![0xc3]), Utf8Status::Incomplete);
    assert_eq!(check_utf8(&vec![0xe2, 0x82]), Utf8Status::Incomplete);
    assert_eq!(check_utf8(&vec![0xf0, 0x9f, 0x92]), Utf8Status::Incomplete);
    assert_eq!(check_utf8(&vec![0x80]), Utf8Status::Invalid);
    assert_eq!(check_utf8(&vec![0xc0, 0xaf]), Utf8Status::Invalid);
    assert_eq!(check_utf8(&vec![0xed, 0xa0, 0x80]), Utf8Status::Invalid);
    assert_eq!(check_utf8(&vec![0xf5, 0x80]), Utf8Status::Invalid);
    assert_eq!(check_utf8(&Vec::new()), Utf8Status::Valid);
}
