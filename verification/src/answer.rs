//! The answer that is read out of the tool's output.
//!
//! The tool prints a free text. It may go on with a marker line and, behind
//! it, one reference per line. The text before the first marker is the
//! answer; the lines behind it that are not empty are the references.

use crate::pattern::{first_occurrence, lemma_first_occurrence, occurs_at};
use crate::text::{collect_lines, filled_lines, split_once};
use vstd::prelude::*;
use vstd::string::*;

verus! {

/// The marker line, with its line end, as the tool prints it.
pub const MARKER: &'static str = "***Links***:\n";

/// The characters of the marker.
pub open spec fn marker() -> Seq<char> {
    seq!['*', '*', '*', 'L', 'i', 'n', 'k', 's', '*', '*', '*', ':', '\n']
}

/// `MARKER` holds the characters of `marker()`.
pub proof fn lemma_marker_text()
    ensures
        MARKER@ == marker(),
{
    reveal_strlit("***Links***:\n");
    assert(MARKER@ =~= marker());
}

/// Two occurrences of the marker do not overlap: the marker ends with a line
/// end and holds no other.
pub proof fn lemma_marker_apart(text: Seq<char>, first: int, second: int)
    requires
        occurs_at(text, marker(), first),
        occurs_at(text, marker(), second),
        first < second,
    ensures
        first + marker().len() <= second,
{
    if second < first + marker().len() {
        let width = marker().len() as int;
        let early = text.subrange(first, first + width);
        let late = text.subrange(second, second + width);
        let end = first + width - 1;
        assert(early[width - 1] == text[end]);
        assert(late[end - second] == text[end]);
        assert(marker()[end - second] == '\n');
    }
}

/// An answer with what the tool said beside it and the references it gave.
#[derive(Debug, PartialEq, Eq)]
pub struct Answer {
    /// The answer's text.
    pub answer: String,
    /// The tool's diagnostic output, as it came.
    pub output: String,
    /// The references, in the order in which the tool gave them.
    pub references: Vec<String>,
}

/// An `Answer` as plain sequences of characters.
pub struct AnswerView {
    pub answer: Seq<char>,
    pub output: Seq<char>,
    pub references: Seq<Seq<char>>,
}

impl View for Answer {
    type V = AnswerView;

    open spec fn view(&self) -> AnswerView {
        AnswerView {
            answer: self.answer@,
            output: self.output@,
            references: self.references.deep_view(),
        }
    }
}

/// What `stdout` and `stderr` of the tool are read as.
pub open spec fn parse(stdout: Seq<char>, stderr: Seq<char>) -> AnswerView {
    match first_occurrence(stdout, marker()) {
        Some(at) => AnswerView {
            answer: stdout.subrange(0, at),
            output: stderr,
            references: filled_lines(stdout.subrange(at + marker().len(), stdout.len() as int)),
        },
        None => AnswerView { answer: stdout, output: stderr, references: Seq::empty() },
    }
}

/// Reads the tool's output: the answer, the references behind the first
/// marker, and the diagnostic output unchanged.
pub fn parse_output(stdout: &str, stderr: &str) -> (answer: Answer)
    ensures
        answer@ == parse(stdout@, stderr@),
{
    proof {
        lemma_marker_text();
        lemma_first_occurrence(stdout@, marker());
    }
    match split_once(stdout, MARKER) {
        Some((text, listing)) => {
            let references = collect_lines(listing);
            let answer = Answer {
                answer: text.to_owned(),
                output: stderr.to_owned(),
                references,
            };
            proof {
                let at = text@.len() as int;
                assert(stdout@.subrange(0, at) =~= text@);
                assert(stdout@.subrange(at + marker().len(), stdout@.len() as int) =~= listing@);
            }
            answer
        },
        None => {
            let answer = Answer {
                answer: stdout.to_owned(),
                output: stderr.to_owned(),
                references: Vec::new(),
            };
            proof {
                assert(answer.references.deep_view() =~= Seq::<Seq<char>>::empty());
            }
            answer
        },
    }
}

} // verus!
