use chat_stream::decoder::{DecoderState, StreamError, StreamEvent};

fn bytes(s: &str) -> Vec<u8> {
    s.as_bytes().to_vec()
}

fn run(chunks: &[&str]) -> Vec<StreamEvent> {
    let mut d = DecoderState::new();
    let mut out = Vec::new();
    for c in chunks {
        out.extend(d.process_chunk(&bytes(c)));
    }
    out
}

#[test]
fn end_to_end_hello_then_done() {
    let events = run(&[
        "data: {\"object\":\"x\",\"model\":\"m\",\"choices\":[{\"delta\":{\"content\":\"He",
        "llo\"}}]}\n\n",
        "data: [DONE]\n",
    ]);
    assert_eq!(
        events,
        vec![StreamEvent::Data("Hello".to_string()), StreamEvent::Done]
    );
}

#[test]
fn whole_line_single_chunk() {
    let events = run(&[
        "data: {\"object\":\"x\",\"model\":\"m\",\"choices\":[{\"delta\":{\"content\":\"hi\"}}]}\n",
    ]);
    assert_eq!(events, vec![StreamEvent::Data("hi".to_string())]);
}

#[test]
fn role_only_delta_yields_no_event() {
    let events = run(&[
        "data: {\"object\":\"x\",\"model\":\"m\",\"choices\":[{\"delta\":{\"role\":\"assistant\"}}]}\n",
    ]);
    assert_eq!(events, vec![]);
}

#[test]
fn split_multibyte_character() {
    // U+00E9 is 0xC3 0xA9 in UTF-8; split between the two bytes.
    let line = "data: {\"object\":\"x\",\"model\":\"m\",\"choices\":[{\"delta\":{\"content\":\"\u{e9}\"}}]}\n";
    let raw = line.as_bytes();
    let cut = raw.iter().position(|&b| b == 0xc3).unwrap() + 1;
    let mut d = DecoderState::new();
    let mut out = Vec::new();
    out.extend(d.process_chunk(&raw[..cut].to_vec()));
    out.extend(d.process_chunk(&raw[cut..].to_vec()));
    assert_eq!(out, vec![StreamEvent::Data("\u{e9}".to_string())]);
}

#[test]
fn split_line_at_every_offset() {
    let line = "data: {\"object\":\"x\",\"model\":\"m\",\"choices\":[{\"delta\":{\"content\":\"h i\"}}]}\n";
    let raw = line.as_bytes();
    for cut in 1..raw.len() {
        let mut d = DecoderState::new();
        let mut out = Vec::new();
        out.extend(d.process_chunk(&raw[..cut].to_vec()));
        out.extend(d.process_chunk(&raw[cut..].to_vec()));
        assert_eq!(
            out,
            vec![StreamEvent::Data("h i".to_string())],
            "split at {cut}"
        );
    }
}

#[test]
fn split_inside_the_prefix_keyword() {
    let events = run(&[
        "da",
        "ta: {\"object\":\"x\",\"model\":\"m\",\"choices\":[{\"delta\":{\"content\":\"hi\"}}]}\n",
    ]);
    assert_eq!(events, vec![StreamEvent::Data("hi".to_string())]);
}

#[test]
fn sentinel_with_blank_lines() {
    let events = run(&["\n\ndata: [DONE]\n\n"]);
    assert_eq!(events, vec![StreamEvent::Done]);
}

#[test]
fn sentinel_after_other_chunks() {
    let events = run(&["\n\n", "data: [DONE]", "\n"]);
    // the sentinel line itself is unfragmented within its chunk
    assert_eq!(events, vec![StreamEvent::Done]);
}

#[test]
fn whole_body_error_four_space_indent() {
    let body = "{\n    \"error\": {\n        \"message\": \"quota exceeded\",\n        \"type\": \"insufficient_quota\",\n        \"code\": \"42\"\n    }\n}";
    let events = run(&[body]);
    assert_eq!(events.len(), 1);
    match &events[0] {
        StreamEvent::Error(StreamError::Upstream(e)) => {
            assert_eq!(e.message, "quota exceeded");
            assert_eq!(e.error_type, "insufficient_quota");
            assert_eq!(e.code.as_deref(), Some("42"));
        }
        other => panic!("unexpected event {other:?}"),
    }
}

#[test]
fn whole_body_error_two_space_indent() {
    let body = "{\n  \"error\": {\n    \"message\": \"bad key\",\n    \"type\": \"invalid_request_error\",\n    \"code\": null\n  }\n}";
    let events = run(&[body]);
    assert_eq!(events.len(), 1);
    match &events[0] {
        StreamEvent::Error(StreamError::Upstream(e)) => {
            assert_eq!(e.message, "bad key");
            assert_eq!(e.error_type, "invalid_request_error");
            assert_eq!(e.code, None);
        }
        other => panic!("unexpected event {other:?}"),
    }
}

#[test]
fn error_body_split_in_two_is_parsed_whole() {
    // the first chunk holds only part of the document: nothing is
    // emitted until the rest arrives, then the parsed error comes once
    let body = "{\n    \"error\": {\n        \"message\": \"m\",\n        \"type\": \"t\"\n    }\n}";
    let (head, tail) = body.split_at(20);
    let mut d = DecoderState::new();
    assert_eq!(d.process_chunk(&bytes(head)), vec![]);
    let out = d.process_chunk(&bytes(tail));
    assert_eq!(out.len(), 1);
    match &out[0] {
        StreamEvent::Error(StreamError::Upstream(e)) => {
            assert_eq!(e.message, "m");
            assert_eq!(e.error_type, "t");
        }
        other => panic!("unexpected event {other:?}"),
    }
}

#[test]
fn error_body_in_single_byte_chunks_is_parsed_whole() {
    let body = "{\n  \"error\": {\n    \"message\": \"rate limited\",\n    \"type\": \"rate_limit\"\n  }\n}";
    let mut d = DecoderState::new();
    let mut out = Vec::new();
    for b in body.as_bytes() {
        out.extend(d.process_chunk(&vec![*b]));
    }
    assert_eq!(out.len(), 1);
    match &out[0] {
        StreamEvent::Error(StreamError::Upstream(e)) => {
            assert_eq!(e.message, "rate limited");
            assert_eq!(e.error_type, "rate_limit");
        }
        other => panic!("unexpected event {other:?}"),
    }
}

#[test]
fn stray_comment_lines_are_discarded() {
    let events = run(&[
        ": keep-alive\n",
        "data: {\"object\":\"x\",\"model\":\"m\",\"choices\":[{\"delta\":{\"content\":\"ok\"}}]}\n",
        ": another comment\ndata: [DONE]\n",
    ]);
    assert_eq!(
        events,
        vec![StreamEvent::Data("ok".to_string()), StreamEvent::Done]
    );
}

#[test]
fn invalid_encoding_is_reported_once() {
    let mut d = DecoderState::new();
    let out = d.process_chunk(&vec![0xff, 0xfe]);
    assert_eq!(
        out,
        vec![StreamEvent::Error(StreamError::InvalidEncoding)]
    );
}

#[test]
fn incomplete_tail_is_buffered_not_an_error() {
    let mut d = DecoderState::new();
    let out = d.process_chunk(&vec![0xc3]);
    assert_eq!(out, vec![]);
    let out2 = d.process_chunk(&vec![0xa9, 0x0a]);
    // 0xC3 0xA9 decode to a character on a line of its own; the line
    // carries no data prefix, so nothing is emitted and nothing is lost
    assert_eq!(out2, vec![]);
}

#[test]
fn transport_error_event() {
    let d = DecoderState::new();
    let e = d.transport_error("connection reset".to_string());
    assert_eq!(
        e,
        StreamEvent::Error(StreamError::Transport("connection reset".to_string()))
    );
}

#[test]
fn unrecognized_finish_reason_fails_the_chunk() {
    let events = run(&[
        "data: {\"object\":\"x\",\"model\":\"m\",\"choices\":[{\"delta\":{\"content\":\"hi\"},\"finish_reason\":\"weird\"}]}\n",
    ]);
    assert_eq!(events, vec![]);
}

#[test]
fn recognized_finish_reason_parses() {
    let events = run(&[
        "data: {\"object\":\"x\",\"model\":\"m\",\"choices\":[{\"delta\":{\"content\":\"hi\"},\"finish_reason\":\"stop\",\"index\":0}]}\n",
    ]);
    assert_eq!(events, vec![StreamEvent::Data("hi".to_string())]);
}

#[test]
fn unspaced_data_prefix_is_accepted() {
    let events = run(&[
        "data:{\"object\":\"x\",\"model\":\"m\",\"choices\":[{\"delta\":{\"content\":\"hi\"}}]}\n",
    ]);
    assert_eq!(events, vec![StreamEvent::Data("hi".to_string())]);
}

#[test]
fn string_escapes_in_content() {
    let events = run(&[
        "data: {\"object\":\"x\",\"model\":\"m\",\"choices\":[{\"delta\":{\"content\":\"a\\nb\\u0041\"}}]}\n",
    ]);
    assert_eq!(events, vec![StreamEvent::Data("a\nbA".to_string())]);
}

#[test]
fn surrogate_pair_escape_in_content() {
    let events = run(&[
        "data: {\"object\":\"x\",\"model\":\"m\",\"choices\":[{\"delta\":{\"content\":\"\\ud83d\\ude00!\"}}]}\n",
    ]);
    assert_eq!(events, vec![StreamEvent::Data("\u{1f600}!".to_string())]);
}

#[test]
fn lone_surrogate_escape_fails_the_chunk() {
    let events = run(&[
        "data: {\"object\":\"x\",\"model\":\"m\",\"choices\":[{\"delta\":{\"content\":\"\\ud83d\"}}]}\n",
    ]);
    assert_eq!(events, vec![]);
}

#[test]
fn vertical_tab_is_trimmed_from_line_ends() {
    let events = run(&[
        "\x0bdata: {\"object\":\"x\",\"model\":\"m\",\"choices\":[{\"delta\":{\"content\":\"hi\"}}]}\x0b\n",
    ]);
    assert_eq!(events, vec![StreamEvent::Data("hi".to_string())]);
}

#[test]
fn empty_choices_yields_no_event() {
    let events = run(&[
        "data: {\"object\":\"x\",\"model\":\"m\",\"choices\":[]}\n",
    ]);
    assert_eq!(events, vec![]);
}

#[test]
fn events_of_one_chunk_keep_line_order() {
    let events = run(&[
        "data: {\"object\":\"x\",\"model\":\"m\",\"choices\":[{\"delta\":{\"content\":\"a\"}}]}\ndata: {\"object\":\"x\",\"model\":\"m\",\"choices\":[{\"delta\":{\"content\":\"b\"}}]}\n\ndata: [DONE]\n",
    ]);
    assert_eq!(
        events,
        vec![
            StreamEvent::Data("a".to_string()),
            StreamEvent::Data("b".to_string()),
            StreamEvent::Done
        ]
    );
}

#[test]
fn carriage_returns_are_trimmed() {
    let events = run(&[
        "data: {\"object\":\"x\",\"model\":\"m\",\"choices\":[{\"delta\":{\"content\":\"hi\"}}]}\r\ndata: [DONE]\r\n",
    ]);
    assert_eq!(
        events,
        vec![StreamEvent::Data("hi".to_string()), StreamEvent::Done]
    );
}

#[test]
fn missing_required_member_keeps_line_pending() {
    // `model` is missing: the payload never parses, so no event comes
    // even after the stream moves on
    let events = run(&[
        "data: {\"object\":\"x\",\"choices\":[{\"delta\":{\"content\":\"hi\"}}]}\n\n",
    ]);
    assert_eq!(events, vec![]);
}
