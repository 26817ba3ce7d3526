use rag_gateway::answer::{parse_output, Answer, MARKER};

fn strings(items: &[&str]) -> Vec<String> {
    items.iter().map(|s| s.to_string()).collect()
}

fn answer(text: &str, output: &str, references: &[&str]) -> Answer {
    Answer { answer: text.to_string(), output: output.to_string(), references: strings(references) }
}

#[test]
fn answer_with_two_references() {
    let got = parse_output(
        "The sky is blue.\n***Links***:\nhttps://a.example\nhttps://b.example\n",
        "",
    );
    assert_eq!(got.answer, "The sky is blue.\n");
    assert_eq!(got.references, strings(&["https://a.example", "https://b.example"]));
    assert_eq!(got.output, "");
}

#[test]
fn answer_without_marker() {
    let got = parse_output("No references here.", "");
    assert_eq!(got, answer("No references here.", "", &[]));
}

#[test]
fn marker_is_the_documented_line() {
    assert_eq!(MARKER, "***Links***:\n");
    assert_eq!(MARKER.len(), 13);
}

#[test]
fn empty_output_is_an_empty_answer() {
    assert_eq!(parse_output("", ""), answer("", "", &[]));
}

#[test]
fn marker_with_nothing_behind_it() {
    let got = parse_output("Short answer.\n***Links***:\n", "");
    assert_eq!(got, answer("Short answer.\n", "", &[]));
}

#[test]
fn marker_with_only_line_ends_behind_it() {
    let got = parse_output("Short answer.\n***Links***:\n\n\n\n", "");
    assert_eq!(got, answer("Short answer.\n", "", &[]));
}

#[test]
fn marker_alone() {
    assert_eq!(parse_output("***Links***:\n", ""), answer("", "", &[]));
}

#[test]
fn marker_at_the_start() {
    let got = parse_output("***Links***:\nhttps://a.example", "");
    assert_eq!(got, answer("", "", &["https://a.example"]));
}

#[test]
fn blank_lines_among_references_are_dropped() {
    let got = parse_output("A\n***Links***:\n\nhttps://a.example\n\n\nhttps://b.example\n\nhttps://c.example", "");
    assert_eq!(
        got,
        answer("A\n", "", &["https://a.example", "https://b.example", "https://c.example"])
    );
}

#[test]
fn last_reference_needs_no_line_end() {
    let got = parse_output("A***Links***:\none\ntwo", "");
    assert_eq!(got, answer("A", "", &["one", "two"]));
}

#[test]
fn lines_of_spaces_are_kept() {
    let got = parse_output("A\n***Links***:\n \nx\n\t\n", "");
    assert_eq!(got, answer("A\n", "", &[" ", "x", "\t"]));
}

#[test]
fn carriage_returns_stay_in_the_lines() {
    let got = parse_output("A\r\n***Links***:\nx\r\n\r\ny\r\n", "");
    assert_eq!(got, answer("A\r\n", "", &["x\r", "\r", "y\r"]));
}

#[test]
fn only_the_first_marker_cuts() {
    let got = parse_output("A\n***Links***:\nx\n***Links***:\ny\n", "");
    assert_eq!(got, answer("A\n", "", &["x", "***Links***:", "y"]));
}

#[test]
fn second_marker_right_behind_the_first() {
    let got = parse_output("A***Links***:\n***Links***:\n", "");
    assert_eq!(got, answer("A", "", &["***Links***:"]));
}

#[test]
fn marker_without_its_line_end_is_no_marker() {
    let text = "A\n***Links***:";
    assert_eq!(parse_output(text, ""), answer(text, "", &[]));
    let spaced = "A\n***Links***: \nx\n";
    assert_eq!(parse_output(spaced, ""), answer(spaced, "", &[]));
}

#[test]
fn marker_in_the_middle_of_a_line() {
    let got = parse_output("see ***Links***:\nx", "");
    assert_eq!(got, answer("see ", "", &["x"]));
}

#[test]
fn almost_a_marker_before_the_marker() {
    let got = parse_output("***Links**\n****Links***:\nx", "");
    assert_eq!(got, answer("***Links**\n*", "", &["x"]));
}

#[test]
fn text_of_many_bytes_a_character() {
    let got = parse_output(
        "Der Himmel ist blau \u{1F600} \u{00e9}\u{4e16}\n***Links***:\nhttps://a.example/\u{00fc}\n\u{754c}\n",
        "",
    );
    assert_eq!(
        got,
        answer(
            "Der Himmel ist blau \u{1F600} \u{00e9}\u{4e16}\n",
            "",
            &["https://a.example/\u{00fc}", "\u{754c}"]
        )
    );
}

#[test]
fn diagnostics_pass_through_unchanged() {
    let stderr = "warning: slow\n***Links***:\nnot a reference\n";
    let got = parse_output("A\n***Links***:\nx\n", stderr);
    assert_eq!(got, answer("A\n", stderr, &["x"]));
    let plain = parse_output("A", stderr);
    assert_eq!(plain, answer("A", stderr, &[]));
}

#[test]
fn same_output_same_answer() {
    let stdout = "A\n***Links***:\nx\n\ny\n";
    assert_eq!(parse_output(stdout, "e"), parse_output(stdout, "e"));
}

#[test]
fn answer_read_again_is_unchanged() {
    let first = parse_output("A\n***Links***:\nx\n***Links***:\ny\n", "");
    let again = parse_output(&first.answer, "");
    assert_eq!(again, answer("A\n", "", &[]));
}

#[test]
fn answer_never_holds_the_marker() {
    let outputs = [
        "",
        "plain",
        "***Links***:\n",
        "a***Links***:\nb***Links***:\nc",
        "***Links***Links***:\n***Links***:\n",
    ];
    for stdout in outputs {
        let got = parse_output(stdout, "");
        assert!(!got.answer.contains(MARKER));
        for reference in &got.references {
            assert!(!reference.is_empty());
            assert!(!reference.contains('\n'));
        }
    }
}

#[test]
fn agrees_with_the_standard_library() {
    let outputs = [
        "",
        "\n",
        "plain\ntext\n",
        "***Links***:\n",
        "a\n***Links***:\n\n\nb\n\nc",
        "x***Links***:\n***Links***:\n\n***Links***:\n",
        "caf\u{00e9}***Links***:\n\u{00e9}\n\n\u{1F600}\n",
    ];
    for stdout in outputs {
        let got = parse_output(stdout, "");
        match stdout.find(MARKER) {
            Some(at) => {
                assert_eq!(got.answer, &stdout[..at]);
                let lines: Vec<String> = stdout[at + MARKER.len()..]
                    .split('\n')
                    .filter(|line| !line.is_empty())
                    .map(|line| line.to_string())
                    .collect();
                assert_eq!(got.references, lines);
            }
            None => {
                assert_eq!(got.answer, stdout);
                assert!(got.references.is_empty());
            }
        }
    }
}
