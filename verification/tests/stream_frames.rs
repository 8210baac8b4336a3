//! Frame reassembly and delta extraction over raw byte chunks.

use quack::extract::{extract_content, extract_frame_deltas, process_chunk, Delta, ParsedRecord};
use quack::frames::{feed, find_double_newline};

fn text_deltas(deltas: &[Delta]) -> Vec<String> {
    let mut out = Vec::new();
    for d in deltas {
        if let Delta::Text(s) = d {
            out.push(s.clone());
        }
    }
    out
}

#[test]
fn find_double_newline_first_match() {
    assert_eq!(find_double_newline(b"abc\n\ndef\n\n"), Some(3));
    assert_eq!(find_double_newline(b"abc\ndef"), None);
    assert_eq!(find_double_newline(b""), None);
    assert_eq!(find_double_newline(b"\n\n"), Some(0));
}

#[test]
fn feed_drains_complete_frames() {
    let mut buffer: Vec<u8> = Vec::new();
    let frames = feed(&mut buffer, b"one\n\ntwo\n\npartial");
    assert_eq!(frames.len(), 2);
    assert_eq!(frames[0], b"one\n\n");
    assert_eq!(frames[1], b"two\n\n");
    assert_eq!(buffer, b"partial");
}

#[test]
fn feed_handles_delimiter_split_across_chunks() {
    let mut buffer: Vec<u8> = Vec::new();
    let frames = feed(&mut buffer, b"hello\n");
    assert!(frames.is_empty());
    assert_eq!(buffer, b"hello\n");
    let frames = feed(&mut buffer, b"\nworld");
    assert_eq!(frames.len(), 1);
    assert_eq!(frames[0], b"hello\n\n");
    assert_eq!(buffer, b"world");
}

#[test]
fn feed_chunked_equals_feed_whole() {
    let stream: &[u8] = b"data: a\n\ndata: b\n\ndata: c\n\ntail";
    let mut whole_buf: Vec<u8> = Vec::new();
    let whole = feed(&mut whole_buf, stream);
    for cut in 0..stream.len() {
        let mut buf: Vec<u8> = Vec::new();
        let mut frames = feed(&mut buf, &stream[..cut]);
        frames.extend(feed(&mut buf, &stream[cut..]));
        assert_eq!(frames, whole);
        assert_eq!(buf, whole_buf);
    }
}

#[test]
fn extract_reads_delta_content_shape() {
    let frame = b"data: {\"choices\":[{\"delta\":{\"content\":\"hello\"}}]}\n\n";
    let deltas = extract_frame_deltas(frame);
    assert_eq!(deltas.len(), 1);
    assert_eq!(text_deltas(&deltas), vec!["hello".to_string()]);
}

#[test]
fn extract_reads_direct_choice_content_shape() {
    let frame = b"data: {\"choices\":[{\"content\":\"direct\"}]}\n\n";
    let deltas = extract_frame_deltas(frame);
    assert_eq!(text_deltas(&deltas), vec!["direct".to_string()]);
}

#[test]
fn extract_reads_doubly_nested_shape() {
    let frame = b"data: {\"choices\":[{\"delta\":{\"delta\":{\"content\":\"deep\"}}}]}\n\n";
    let deltas = extract_frame_deltas(frame);
    assert_eq!(text_deltas(&deltas), vec!["deep".to_string()]);
}

#[test]
fn extract_prefers_delta_shape_over_direct() {
    let frame =
        b"data: {\"choices\":[{\"delta\":{\"content\":\"first\"},\"content\":\"second\"}]}\n\n";
    let deltas = extract_frame_deltas(frame);
    assert_eq!(text_deltas(&deltas), vec!["first".to_string()]);
}

#[test]
fn extractor_priority_on_records() {
    let all = ParsedRecord {
        delta_content: Some("a".to_string()),
        choice_content: Some("b".to_string()),
        nested_content: Some("c".to_string()),
    };
    assert_eq!(extract_content(all).as_deref(), Some("a"));
    let no_delta = ParsedRecord {
        delta_content: None,
        choice_content: Some("b".to_string()),
        nested_content: Some("c".to_string()),
    };
    assert_eq!(extract_content(no_delta).as_deref(), Some("b"));
    let only_nested = ParsedRecord {
        delta_content: None,
        choice_content: None,
        nested_content: Some("c".to_string()),
    };
    assert_eq!(extract_content(only_nested).as_deref(), Some("c"));
    let none = ParsedRecord {
        delta_content: None,
        choice_content: None,
        nested_content: None,
    };
    assert_eq!(extract_content(none), None);
}

#[test]
fn sentinel_frame_yields_end_of_stream_only() {
    let deltas = extract_frame_deltas(b"data: [DONE]\n\n");
    assert_eq!(deltas.len(), 1);
    assert!(matches!(deltas[0], Delta::EndOfStream));
}

#[test]
fn bare_sentinel_without_marker() {
    let deltas = extract_frame_deltas(b"[DONE]\n\n");
    assert_eq!(deltas.len(), 1);
    assert!(matches!(deltas[0], Delta::EndOfStream));
}

#[test]
fn unparseable_lines_are_skipped_not_fatal() {
    let frame = b"data: not json\njunk\ndata: {\"choices\":[{\"delta\":{\"content\":\"ok\"}}]}\n\n";
    let deltas = extract_frame_deltas(frame);
    assert_eq!(text_deltas(&deltas), vec!["ok".to_string()]);
}

#[test]
fn record_without_known_shape_yields_nothing() {
    let deltas = extract_frame_deltas(b"data: {\"choices\":[{\"finish_reason\":\"stop\"}]}\n\n");
    assert!(deltas.is_empty());
}

#[test]
fn frame_with_multiple_lines_yields_deltas_in_line_order() {
    let frame = b"data: {\"choices\":[{\"delta\":{\"content\":\"one\"}}]}\ndata: {\"choices\":[{\"delta\":{\"content\":\"two\"}}]}\n\n";
    let deltas = extract_frame_deltas(frame);
    assert_eq!(text_deltas(&deltas), vec!["one".to_string(), "two".to_string()]);
}

#[test]
fn process_chunk_streams_deltas_across_chunks() {
    let mut buffer: Vec<u8> = Vec::new();
    let d1 = process_chunk(&mut buffer, b"data: {\"choices\":[{\"delta\":{\"content\":\"Fix: \"}}]}\n\ndata: {\"choices\":[{\"delta\":");
    assert_eq!(text_deltas(&d1), vec!["Fix: ".to_string()]);
    let d2 = process_chunk(&mut buffer, b"{\"content\":\"use bar\"}}]}\n\ndata: [DONE]\n\n");
    assert_eq!(text_deltas(&d2), vec!["use bar".to_string()]);
    assert!(matches!(d2.last(), Some(Delta::EndOfStream)));
    assert!(buffer.is_empty());
}
