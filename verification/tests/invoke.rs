use rag_gateway::answer::Answer;
use rag_gateway::invoke::{conclude, decode_streams, Completion, InvokeError, RawOutput};

fn exited(stdout: &[u8], stderr: &[u8]) -> Completion {
    Completion::Exited { stdout: stdout.to_vec(), stderr: stderr.to_vec() }
}

#[test]
fn tool_that_cannot_be_started_gives_a_spawn_error() {
    assert_eq!(conclude(&Completion::SpawnFailed), Err(InvokeError::SpawnError));
}

#[test]
fn tool_that_cannot_be_awaited_gives_a_process_error() {
    assert_eq!(conclude(&Completion::WaitFailed), Err(InvokeError::ProcessError));
}

#[test]
fn finished_tool_gives_the_answer() {
    let end = conclude(&exited(
        b"The sky is blue.\n***Links***:\nhttps://a.example\nhttps://b.example\n",
        b"loading model\n",
    ));
    assert_eq!(
        end,
        Ok(Answer {
            answer: "The sky is blue.\n".to_string(),
            output: "loading model\n".to_string(),
            references: vec!["https://a.example".to_string(), "https://b.example".to_string()],
        })
    );
}

#[test]
fn finished_tool_without_output_gives_an_empty_answer() {
    let end = conclude(&exited(b"", b""));
    assert_eq!(
        end,
        Ok(Answer { answer: String::new(), output: String::new(), references: vec![] })
    );
}

#[test]
fn output_that_is_no_text_gives_an_encoding_error() {
    assert_eq!(conclude(&exited(b"answer \xff", b"")), Err(InvokeError::EncodingError));
    assert_eq!(conclude(&exited(b"answer", b"\xc3")), Err(InvokeError::EncodingError));
    assert_eq!(conclude(&exited(b"\x80", b"\x80")), Err(InvokeError::EncodingError));
}

#[test]
fn decode_streams_reads_both_streams() {
    let raw = decode_streams("caf\u{00e9}".as_bytes(), b"warning");
    assert_eq!(
        raw,
        Ok(RawOutput { stdout: "caf\u{00e9}".to_string(), stderr: "warning".to_string() })
    );
}

#[test]
fn decode_streams_refuses_what_is_not_utf8() {
    // a lone continuation byte
    assert_eq!(decode_streams(b"\x80", b""), Err(InvokeError::EncodingError));
    // a character cut short
    assert_eq!(decode_streams(b"\xe4\xb8", b""), Err(InvokeError::EncodingError));
    // an overlong encoding
    assert_eq!(decode_streams(b"\xc0\xaf", b""), Err(InvokeError::EncodingError));
    // a surrogate
    assert_eq!(decode_streams(b"\xed\xa0\x80", b""), Err(InvokeError::EncodingError));
    // beyond the last code point
    assert_eq!(decode_streams(b"\xf4\x90\x80\x80", b""), Err(InvokeError::EncodingError));
    // the diagnostic stream counts as well
    assert_eq!(decode_streams(b"fine", b"\xff"), Err(InvokeError::EncodingError));
}

#[test]
fn decode_streams_accepts_each_width() {
    let text = "a\u{00e9}\u{4e16}\u{1F600}";
    let raw = decode_streams(text.as_bytes(), text.as_bytes());
    assert_eq!(raw, Ok(RawOutput { stdout: text.to_string(), stderr: text.to_string() }));
}

#[test]
fn each_error_has_its_message() {
    assert_eq!(InvokeError::SpawnError.message(), "the answering tool could not be started");
    assert_eq!(InvokeError::ProcessError.message(), "the answering tool could not be waited on");
    assert_eq!(
        InvokeError::EncodingError.message(),
        "the answering tool printed what is not UTF-8 text"
    );
}
