use potyi::lsp::framing::{frame, HeaderReader, MAX_HEADERS};
use serde_json::Value;

/// Reads one message from `input` at `*at`, as the language-server
/// connection does: header lines up to the blank line, then the body.
fn read_message(input: &[u8], at: &mut usize) -> Result<Value, String> {
    let mut headers = HeaderReader::new();
    let length = loop {
        let limit = headers.line_limit();
        let start = *at;
        let mut end = start;
        while end < input.len() && end - start < limit {
            end += 1;
            if input[end - 1] == b'\n' {
                break;
            }
        }
        *at = end;
        let line = std::str::from_utf8(&input[start..end]).map_err(|e| e.to_string())?;
        if let Some(n) = headers.line(line)? {
            break n;
        }
    };
    if input.len() - *at < length {
        return Err("failed to fill whole buffer".to_string());
    }
    let body = &input[*at..*at + length];
    *at += length;
    serde_json::from_slice(body).map_err(|e| e.to_string())
}

#[test]
fn framed_unicode_messages_and_multiple_frames() {
    let value: Value = serde_json::from_str(r#"{"text":"héllo 🦀"}"#).unwrap();
    let mut bytes = frame(&serde_json::to_vec(&value).unwrap()).unwrap();
    bytes.extend(frame(&serde_json::to_vec(&Value::Null).unwrap()).unwrap());
    let mut at = 0;
    assert_eq!(read_message(&bytes, &mut at).unwrap(), value);
    assert_eq!(read_message(&bytes, &mut at).unwrap(), Value::Null);
}

#[test]
fn rejects_bad_or_unbounded_messages() {
    for input in [
        "\r\n",
        "Content-Length: 999999999\r\n\r\n",
        "Content-Length: 2\r\nContent-Length: 2\r\n\r\n{}",
        "Content-Length: 3\r\n\r\n{}",
    ] {
        assert!(read_message(input.as_bytes(), &mut 0).is_err());
    }
    assert!(read_message(&vec![b'x'; MAX_HEADERS + 1], &mut 0).is_err());
}

#[test]
fn header_lines_are_checked() {
    let mut headers = HeaderReader::new();
    assert_eq!(headers.line("content-length:  12 \r\n"), Ok(None));
    assert_eq!(headers.line("Content-Type: application/json\r\n"), Ok(None));
    assert_eq!(headers.line("\r\n"), Ok(Some(12)));
    let mut headers = HeaderReader::new();
    assert_eq!(headers.line("No colon here\r\n"), Err("Invalid LSP header".to_string()));
    let mut headers = HeaderReader::new();
    assert_eq!(headers.line(""), Err("LSP closed its output or sent an oversized header".to_string()));
    let mut headers = HeaderReader::new();
    assert!(headers.line("Content-Length: twelve\r\n").is_err());
    let mut headers = HeaderReader::new();
    assert_eq!(headers.line("Content-Length: 0\r\n"), Ok(None));
    assert_eq!(headers.line("\r\n"), Err("Missing or oversized LSP Content-Length".to_string()));
    assert_eq!(frame(b"{}").unwrap(), b"Content-Length: 2\r\n\r\n{}".to_vec());
}
