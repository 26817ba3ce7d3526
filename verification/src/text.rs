//! Cutting strings at a pattern, and a text into its lines.

use crate::encoding::{lemma_absent_when_encoding_absent, lemma_cut_at_encoded_pattern};
use crate::pattern::{
    find_first, first_occurrence, first_occurs_at, lemma_first_occurrence, occurs, occurs_at,
};
use vstd::prelude::*;
use vstd::string::*;
use vstd::utf8::*;

verus! {

/// The pieces of `text` between the occurrences of `sep`, found from left to
/// right. There is always at least one piece; a text that ends with `sep`
/// ends with an empty piece.
pub open spec fn split_on<T>(text: Seq<T>, sep: Seq<T>) -> Seq<Seq<T>>
    recommends
        sep.len() > 0,
    decreases text.len(),
    when sep.len() > 0
    via split_on_decreases::<T>
{
    match first_occurrence(text, sep) {
        Some(at) => seq![text.subrange(0, at)] + split_on(
            text.subrange(at + sep.len(), text.len() as int),
            sep,
        ),
        None => seq![text],
    }
}

#[via_fn]
proof fn split_on_decreases<T>(text: Seq<T>, sep: Seq<T>) {
    lemma_first_occurrence(text, sep);
    if let Some(at) = first_occurrence(text, sep) {
        assert(first_occurs_at(text, sep, at));
    }
}

/// The pieces that are not empty, in their order.
pub open spec fn non_empty<T>(pieces: Seq<Seq<T>>) -> Seq<Seq<T>> {
    pieces.filter(|piece: Seq<T>| piece.len() > 0)
}

/// The line separator.
pub open spec fn newline() -> Seq<char> {
    seq!['\n']
}

/// The lines of `text` that are not empty, in their order.
pub open spec fn filled_lines(text: Seq<char>) -> Seq<Seq<char>> {
    non_empty(split_on(text, newline()))
}

/// Cuts `text` at the first occurrence of `pat`: what stands before it and
/// what stands behind it.
pub fn split_once<'a>(text: &'a str, pat: &str) -> (parts: Option<(&'a str, &'a str)>)
    ensures
        parts is Some <==> occurs(text@, pat@),
        parts matches Some((before, after)) ==> {
            &&& text@ == before@ + pat@ + after@
            &&& first_occurs_at(text@, pat@, before@.len() as int)
        },
{
    let bytes = text.as_bytes();
    let needle = pat.as_bytes();
    match find_first(bytes, needle) {
        None => {
            proof {
                lemma_absent_when_encoding_absent(text@, pat@);
            }
            None
        },
        Some(at) => {
            proof {
                lemma_cut_at_encoded_pattern(text@, pat@, at as int);
            }
            let (before, tail) = text.split_at(at);
            let (_, after) = tail.split_at(needle.len());
            proof {
                encode_utf8_decode_utf8(before@);
                encode_utf8_decode_utf8(after@);
                assert(tail.spec_bytes().subrange(
                    needle@.len() as int,
                    tail.spec_bytes().len() as int,
                ) =~= bytes@.subrange(at + needle@.len(), bytes@.len() as int));
                assert(occurs_at(text@, pat@, before@.len() as int));
            }
            Some((before, after))
        },
    }
}

/// How `split_on` unfolds where the first separator is known.
pub proof fn lemma_split_on_step<T>(text: Seq<T>, sep: Seq<T>, head: Seq<T>, rest: Seq<T>)
    requires
        sep.len() > 0,
        text == head + sep + rest,
        first_occurs_at(text, sep, head.len() as int),
    ensures
        split_on(text, sep) == seq![head] + split_on(rest, sep),
{
    lemma_first_occurrence(text, sep);
    let at = head.len() as int;
    assert(text.subrange(0, at) =~= head);
    assert(text.subrange(at + sep.len(), text.len() as int) =~= rest);
}

/// A text without a separator is one piece.
pub proof fn lemma_split_on_whole<T>(text: Seq<T>, sep: Seq<T>)
    requires
        sep.len() > 0,
        !occurs(text, sep),
    ensures
        split_on(text, sep) == seq![text],
{
    lemma_first_occurrence(text, sep);
}

/// What a piece in front adds to the pieces that are not empty.
pub proof fn lemma_non_empty_prepend<T>(piece: Seq<T>, pieces: Seq<Seq<T>>)
    ensures
        non_empty(seq![piece] + pieces) == if piece.len() > 0 {
            seq![piece] + non_empty(pieces)
        } else {
            non_empty(pieces)
        },
{
    let filled = |piece: Seq<T>| piece.len() > 0;
    pieces.lemma_filter_prepend(piece, filled);
    assert(Seq::<Seq<T>>::empty() + pieces.filter(filled) =~= pieces.filter(filled));
}

/// The only piece alone.
pub proof fn lemma_non_empty_single<T>(piece: Seq<T>)
    ensures
        non_empty(seq![piece]) == if piece.len() > 0 {
            seq![piece]
        } else {
            Seq::<Seq<T>>::empty()
        },
{
    let none = Seq::<Seq<T>>::empty();
    lemma_non_empty_prepend(piece, none);
    assert(seq![piece] + none =~= seq![piece]);
    assert(non_empty(none) =~= none) by {
        reveal(Seq::filter);
    }
}

/// The lines joined again, with a line separator between each two.
pub open spec fn join_lines(lines: Seq<Seq<char>>) -> Seq<char>
    decreases lines.len(),
{
    if lines.len() == 0 {
        Seq::empty()
    } else if lines.len() == 1 {
        lines[0]
    } else {
        lines[0] + newline() + join_lines(lines.drop_first())
    }
}

/// The line separator stands at an index exactly where a line end stands there.
pub proof fn lemma_newline_at(text: Seq<char>, at: int)
    ensures
        occurs_at(text, newline(), at) <==> 0 <= at < text.len() && text[at] == '\n',
{
    if 0 <= at < text.len() {
        let window = text.subrange(at, at + 1);
        assert(window[0] == text[at]);
        if text[at] == '\n' {
            assert(window =~= newline());
        }
    }
}

/// A text holds the line separator exactly where it holds a line end.
pub proof fn lemma_newline_occurs(text: Seq<char>)
    ensures
        occurs(text, newline()) <==> text.contains('\n'),
{
    if occurs(text, newline()) {
        let at = choose|at: int| occurs_at(text, newline(), at);
        lemma_newline_at(text, at);
        assert(text[at] == '\n');
    }
    if text.contains('\n') {
        let at = choose|at: int| 0 <= at < text.len() && text[at] == '\n';
        lemma_newline_at(text, at);
    }
}

/// A text always has a first piece.
pub proof fn lemma_split_on_len<T>(text: Seq<T>, sep: Seq<T>)
    requires
        sep.len() > 0,
    ensures
        split_on(text, sep).len() >= 1,
{
    lemma_first_occurrence(text, sep);
}

/// Splitting undoes joining: lines without a line end in them, joined, split
/// into the same lines.
pub proof fn lemma_split_joined(lines: Seq<Seq<char>>)
    requires
        lines.len() >= 1,
        forall|i: int| 0 <= i < lines.len() ==> !(#[trigger] lines[i]).contains('\n'),
    ensures
        split_on(join_lines(lines), newline()) == lines,
    decreases lines.len(),
{
    let first = lines[0];
    if lines.len() == 1 {
        lemma_newline_occurs(first);
        lemma_split_on_whole(first, newline());
        assert(seq![first] =~= lines);
    } else {
        let others = lines.drop_first();
        assert forall|i: int| 0 <= i < others.len() implies !(#[trigger] others[i]).contains(
            '\n',
        ) by {
            assert(others[i] == lines[i + 1]);
        }
        lemma_split_joined(others);
        let joined = join_lines(lines);
        let at = first.len() as int;
        lemma_newline_at(joined, at);
        assert forall|k: int| 0 <= k < at implies !occurs_at(joined, newline(), k) by {
            lemma_newline_at(joined, k);
            assert(joined[k] == first[k]);
        }
        lemma_split_on_step(joined, newline(), first, join_lines(others));
        assert(seq![first] + others =~= lines);
    }
}

/// Joining undoes splitting: the pieces of a text, joined, are the text, and
/// no piece holds a line end.
pub proof fn lemma_join_split(text: Seq<char>)
    ensures
        join_lines(split_on(text, newline())) == text,
        forall|i: int|
            0 <= i < split_on(text, newline()).len() ==> !(#[trigger] split_on(
                text,
                newline(),
            )[i]).contains('\n'),
    decreases text.len(),
{
    lemma_first_occurrence(text, newline());
    lemma_newline_occurs(text);
    match first_occurrence(text, newline()) {
        Some(at) => {
            assert(first_occurs_at(text, newline(), at));
            let head = text.subrange(0, at);
            let rest = text.subrange(at + 1, text.len() as int);
            let pieces = split_on(rest, newline());
            lemma_join_split(rest);
            lemma_split_on_len(rest, newline());
            let all = seq![head] + pieces;
            assert(all.drop_first() =~= pieces);
            assert(text =~= head + newline() + rest);
            assert(!head.contains('\n')) by {
                if head.contains('\n') {
                    let k = choose|k: int| 0 <= k < head.len() && head[k] == '\n';
                    lemma_newline_at(text, k);
                }
            }
            assert forall|i: int| 0 <= i < all.len() implies !(#[trigger] all[i]).contains(
                '\n',
            ) by {
                if i > 0 {
                    assert(all[i] == pieces[i - 1]);
                }
            }
        },
        None => {},
    }
}

/// Each of the lines that are not empty holds a character and no line end.
pub proof fn lemma_filled_lines(text: Seq<char>)
    ensures
        forall|i: int|
            0 <= i < filled_lines(text).len() ==> {
                &&& (#[trigger] filled_lines(text)[i]).len() > 0
                &&& !filled_lines(text)[i].contains('\n')
            },
{
    let pieces = split_on(text, newline());
    let filled = |piece: Seq<char>| piece.len() > 0;
    lemma_join_split(text);
    assert forall|i: int| 0 <= i < filled_lines(text).len() implies {
        &&& (#[trigger] filled_lines(text)[i]).len() > 0
        &&& !filled_lines(text)[i].contains('\n')
    } by {
        pieces.lemma_filter_pred(filled, i);
        let line = pieces.filter(filled)[i];
        assert(pieces.filter(filled).contains(line));
        pieces.lemma_filter_contains_rev(filled, line);
        let j = choose|j: int| 0 <= j < pieces.len() && pieces[j] == line;
        assert(!pieces[j].contains('\n'));
    }
}

/// The lines of `text` that are not empty, in their order.
pub fn collect_lines(text: &str) -> (lines: Vec<String>)
    ensures
        lines.deep_view() == filled_lines(text@),
{
    let mut lines: Vec<String> = Vec::new();
    let mut left: &str = text;
    proof {
        reveal_strlit("\n");
        assert("\n"@ =~= newline());
        assert(lines.deep_view() + filled_lines(left@) =~= filled_lines(text@));
    }
    loop
        invariant
            "\n"@ == newline(),
            lines.deep_view() + filled_lines(left@) == filled_lines(text@),
        decreases left@.len(),
    {
        let ghost before = lines.deep_view();
        match split_once(left, "\n") {
            Some((line, rest)) => {
                proof {
                    lemma_split_on_step(left@, newline(), line@, rest@);
                    lemma_non_empty_prepend(line@, split_on(rest@, newline()));
                }
                if !line.is_empty() {
                    lines.push(line.to_owned());
                    proof {
                        assert(lines.deep_view() =~= before + seq![line@]);
                        assert((before + seq![line@]) + filled_lines(rest@) =~= before + (
                        seq![line@] + filled_lines(rest@)));
                    }
                }
                left = rest;
            },
            None => {
                proof {
                    lemma_split_on_whole(left@, newline());
                    lemma_non_empty_single(left@);
                }
                if !left.is_empty() {
                    lines.push(left.to_owned());
                    proof {
                        assert(lines.deep_view() =~= before + seq![left@]);
                    }
                } else {
                    proof {
                        assert(before + Seq::<Seq<char>>::empty() =~= before);
                    }
                }
                return lines;
            },
        }
    }
}

} // verus!
