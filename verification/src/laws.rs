//! What holds of every output that is read, proved once for all of them.

use crate::answer::{lemma_marker_apart, marker, parse, Answer};
use crate::pattern::{
    first_occurrence, first_occurs_at, lemma_first_occurrence, occurs, occurs_at,
};
use crate::text::{
    filled_lines, join_lines, lemma_filled_lines, lemma_newline_at, lemma_non_empty_prepend,
    lemma_non_empty_single, lemma_split_joined, lemma_split_on_step, lemma_split_on_whole,
    newline, non_empty, split_on,
};
use vstd::prelude::*;

verus! {

/// An output that holds the marker once, at `at`, is read as the text before
/// `at`, with the lines behind the marker that are not empty as references,
/// in their order.
pub proof fn law_single_marker(stdout: Seq<char>, stderr: Seq<char>, at: int)
    requires
        occurs_at(stdout, marker(), at),
        forall|k: int| k != at ==> !occurs_at(stdout, marker(), k),
    ensures
        parse(stdout, stderr).answer == stdout.subrange(0, at),
        parse(stdout, stderr).references == non_empty(
            split_on(stdout.subrange(at + marker().len(), stdout.len() as int), newline()),
        ),
        parse(stdout, stderr).output == stderr,
{
    assert(first_occurs_at(stdout, marker(), at));
    lemma_first_occurrence(stdout, marker());
}

/// Where the marker stands more than once, the first occurrence is the cut:
/// what follows it, later markers too, is read as lines.
pub proof fn law_first_marker(stdout: Seq<char>, stderr: Seq<char>, at: int)
    requires
        first_occurs_at(stdout, marker(), at),
    ensures
        parse(stdout, stderr).answer == stdout.subrange(0, at),
        parse(stdout, stderr).references == filled_lines(
            stdout.subrange(at + marker().len(), stdout.len() as int),
        ),
        parse(stdout, stderr).output == stderr,
{
    lemma_first_occurrence(stdout, marker());
}

/// An output without the marker is the answer as it stands, and has no
/// references.
pub proof fn law_no_marker(stdout: Seq<char>, stderr: Seq<char>)
    requires
        !occurs(stdout, marker()),
    ensures
        parse(stdout, stderr).answer == stdout,
        parse(stdout, stderr).references == Seq::<Seq<char>>::empty(),
        parse(stdout, stderr).output == stderr,
{
    lemma_first_occurrence(stdout, marker());
}

/// Two answers read from the same output are the same.
pub proof fn law_same_output_same_answer(
    first: Answer,
    second: Answer,
    stdout: Seq<char>,
    stderr: Seq<char>,
)
    requires
        first@ == parse(stdout, stderr),
        second@ == parse(stdout, stderr),
    ensures
        first@ == second@,
        first.answer@ == second.answer@,
        first.output@ == second.output@,
        first.references.deep_view() == second.references.deep_view(),
{
}

/// The answer never holds the marker, and nothing is lost in the cut: an
/// output with a marker is its answer, the marker, and a rest whose lines
/// that are not empty are the references.
pub proof fn law_cut_is_clean(stdout: Seq<char>, stderr: Seq<char>)
    ensures
        !occurs(parse(stdout, stderr).answer, marker()),
        occurs(stdout, marker()) ==> exists|rest: Seq<char>|
            {
                &&& stdout == parse(stdout, stderr).answer + marker() + rest
                &&& parse(stdout, stderr).references == filled_lines(rest)
            },
{
    lemma_first_occurrence(stdout, marker());
    let answer = parse(stdout, stderr).answer;
    let width = marker().len() as int;
    match first_occurrence(stdout, marker()) {
        Some(at) => {
            assert(first_occurs_at(stdout, marker(), at));
            assert forall|k: int| !occurs_at(answer, marker(), k) by {
                if occurs_at(answer, marker(), k) {
                    assert(stdout.subrange(k, k + width) =~= answer.subrange(k, k + width));
                    assert(occurs_at(stdout, marker(), k));
                }
            }
            let rest = stdout.subrange(at + width, stdout.len() as int);
            assert(stdout =~= answer + marker() + rest);
        },
        None => {},
    }
}

/// An answer read again is unchanged and brings no references.
pub proof fn law_answer_reads_as_itself(stdout: Seq<char>, stderr: Seq<char>)
    ensures
        parse(parse(stdout, stderr).answer, stderr).answer == parse(stdout, stderr).answer,
        parse(parse(stdout, stderr).answer, stderr).references == Seq::<Seq<char>>::empty(),
{
    law_cut_is_clean(stdout, stderr);
    law_no_marker(parse(stdout, stderr).answer, stderr);
}

/// A marker with nothing behind it but line ends, or nothing at all, gives no
/// references.
pub proof fn law_no_lines_no_references(stdout: Seq<char>, stderr: Seq<char>, at: int)
    requires
        first_occurs_at(stdout, marker(), at),
        forall|i: int| at + marker().len() <= i < stdout.len() ==> stdout[i] == '\n',
    ensures
        parse(stdout, stderr).references == Seq::<Seq<char>>::empty(),
{
    law_first_marker(stdout, stderr, at);
    let rest = stdout.subrange(at + marker().len(), stdout.len() as int);
    assert forall|i: int| 0 <= i < rest.len() implies rest[i] == '\n' by {
        assert(rest[i] == stdout[at + marker().len() + i]);
    }
    lemma_blank_text(rest);
}

/// A text of line ends alone has no line that is not empty.
pub proof fn lemma_blank_text(text: Seq<char>)
    requires
        forall|i: int| 0 <= i < text.len() ==> text[i] == '\n',
    ensures
        filled_lines(text) == Seq::<Seq<char>>::empty(),
    decreases text.len(),
{
    let none = Seq::<char>::empty();
    if text.len() == 0 {
        assert forall|k: int| !occurs_at(text, newline(), k) by {
            lemma_newline_at(text, k);
        }
        lemma_split_on_whole(text, newline());
        lemma_non_empty_single(text);
    } else {
        let rest = text.subrange(1, text.len() as int);
        assert forall|i: int| 0 <= i < rest.len() implies rest[i] == '\n' by {
            assert(rest[i] == text[i + 1]);
        }
        lemma_blank_text(rest);
        lemma_newline_at(text, 0);
        assert(text =~= none + newline() + rest);
        lemma_split_on_step(text, newline(), none, rest);
        lemma_non_empty_prepend(none, split_on(rest, newline()));
    }
}

/// Blank lines among the references are dropped and the others kept in their
/// order: an answer without a marker, then the marker, then `lines` joined,
/// is read as that answer with those of `lines` that are not empty.
pub proof fn law_blank_lines_dropped(
    answer: Seq<char>,
    lines: Seq<Seq<char>>,
    stderr: Seq<char>,
)
    requires
        !occurs(answer, marker()),
        forall|i: int| 0 <= i < lines.len() ==> !(#[trigger] lines[i]).contains('\n'),
    ensures
        parse(answer + marker() + join_lines(lines), stderr).answer == answer,
        parse(answer + marker() + join_lines(lines), stderr).references == non_empty(lines),
{
    let listing = join_lines(lines);
    let stdout = answer + marker() + listing;
    let at = answer.len() as int;
    let width = marker().len() as int;
    assert(stdout.subrange(at, at + width) =~= marker());
    assert forall|k: int| 0 <= k < at implies !occurs_at(stdout, marker(), k) by {
        if occurs_at(stdout, marker(), k) {
            lemma_marker_apart(stdout, k, at);
            assert(answer.subrange(k, k + width) =~= stdout.subrange(k, k + width));
            assert(occurs_at(answer, marker(), k));
        }
    }
    law_first_marker(stdout, stderr, at);
    assert(stdout.subrange(0, at) =~= answer);
    assert(stdout.subrange(at + width, stdout.len() as int) =~= listing);
    if lines.len() == 0 {
        lemma_blank_text(listing);
        assert(non_empty(lines) =~= Seq::<Seq<char>>::empty()) by {
            reveal(Seq::filter);
        }
    } else {
        lemma_split_joined(lines);
    }
}

/// Each reference holds a character and no line end.
pub proof fn law_references_are_lines(stdout: Seq<char>, stderr: Seq<char>)
    ensures
        forall|i: int|
            0 <= i < parse(stdout, stderr).references.len() ==> {
                &&& (#[trigger] parse(stdout, stderr).references[i]).len() > 0
                &&& !parse(stdout, stderr).references[i].contains('\n')
            },
{
    lemma_first_occurrence(stdout, marker());
    match first_occurrence(stdout, marker()) {
        Some(at) => {
            lemma_filled_lines(stdout.subrange(at + marker().len(), stdout.len() as int));
        },
        None => {},
    }
}

} // verus!
