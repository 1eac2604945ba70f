//! What a build says: the line that an error is on, and the hint in the status line.

use vstd::prelude::*;

use crate::number::{
    char_is_digit, decimal, is_digit, lemma_decimal_reads_back, lemma_numbers_read_back, read_usize,
    usize_of,
};
use crate::text::{
    cut, cut_text, head, join, join_text, lemma_cut, lemma_cut_at, lemma_span, lemma_span_bounds,
    made_of, occurs_at, opt_text, owned, pieces, span, texts, to_chars, to_text, word_list, words,
};

verus! {

/// The predicate "is a digit".
pub open spec fn digit_pred() -> spec_fn(char) -> bool {
    |c: char| is_digit(c)
}

/// The number behind the first `line ` of an error.
pub open spec fn error_line(error: Seq<char>) -> Option<usize> {
    match cut(error, "line "@) {
        Some((_, rest)) => {
            let n = span(rest, digit_pred());
            if n == 0 {
                None
            } else {
                usize_of(rest.take(n as int))
            }
        },
        None => None,
    }
}

/// An error without what stands before its line number.
pub open spec fn short_error(message: Seq<char>) -> Seq<char> {
    match cut(message, "line "@) {
        Some((_, rest)) => rest,
        None => message,
    }
}

/// A text on one line: its words with one blank between each two.
pub open spec fn flat(message: Seq<char>) -> Seq<char> {
    join(words(message), " "@)
}

/// The hint in the status line: the error of the line that the caret is on.
pub open spec fn hint_of(error: Option<(usize, Seq<char>)>, caret_line: usize) -> Option<Seq<char>> {
    match error {
        Some((line, message)) => if line == caret_line {
            Some(short_error(flat(message)))
        } else {
            None
        },
        None => None,
    }
}

/// The error of a build, over plain values.
pub open spec fn error_text(error: Option<(usize, String)>) -> Option<(usize, Seq<char>)> {
    match error {
        Some(e) => Some((e.0, e.1@)),
        None => None,
    }
}

/// Pulls a line number (from one on) out of a build error such as `line 12:5: message`. `None`
/// where the error has no line.
pub fn extract_error_line(error: &str) -> (r: Option<usize>)
    ensures
        r == error_line(error@),
{
    let chars = to_chars(error);
    match cut_text(chars.as_slice(), "line ") {
        Some((_before, rest)) => {
            let mut n: usize = 0;
            while n < rest.len() && char_is_digit(rest[n])
                invariant
                    n <= rest@.len(),
                    forall|i: int| 0 <= i < n ==> is_digit(#[trigger] rest@[i]),
                decreases rest@.len() - n,
            {
                n = n + 1;
            }
            proof {
                lemma_span(rest@, digit_pred(), n as int);
            }
            if n == 0 {
                None
            } else {
                read_usize(head(rest, n))
            }
        },
        None => None,
    }
}

/// Strips the `Parse error: line ` (or just `line `) prefix from a build error, so that the status
/// hint shows the bare `<line>:<col>: <message>`. Anything without `line ` is returned as it is.
pub fn format_status_error(message: &str) -> (r: String)
    ensures
        r@ == short_error(message@),
{
    let chars = to_chars(message);
    match cut_text(chars.as_slice(), "line ") {
        Some((_before, rest)) => to_text(rest),
        None => owned(message),
    }
}

/// A text on one line.
fn flatten(message: &str) -> (r: String)
    ensures
        r@ == flat(message@),
{
    let chars = to_chars(message);
    let list = word_list(chars.as_slice());
    let mut parts: Vec<String> = Vec::new();
    for i in 0..list.len()
        invariant
            texts(parts@) == pieces(list@).take(i as int),
    {
        let ghost before = parts@;
        parts.push(to_text(list[i]));
        proof {
            assert(texts(parts@) =~= texts(before).push(pieces(list@)[i as int]));
            assert(pieces(list@).take(i + 1) =~= pieces(list@).take(i as int).push(
                pieces(list@)[i as int],
            ));
        }
    }
    assert(pieces(list@).take(list@.len() as int) =~= pieces(list@));
    join_text(&parts, " ")
}

/// The hint in the status line: the latest build error, while the caret is on its line.
pub fn status_hint(error: &Option<(usize, String)>, caret_line: usize) -> (r: Option<String>)
    ensures
        opt_text(r) == hint_of(error_text(*error), caret_line),
{
    match error {
        Some((line, message)) => {
            if *line == caret_line {
                let one_line = flatten(message.as_str());
                Some(format_status_error(one_line.as_str()))
            } else {
                None
            }
        },
        None => None,
    }
}

/// Where an error has a line, what the status line shows of it starts with that number.
pub proof fn lemma_hint_starts_with_line(error: Seq<char>)
    requires
        error_line(error) is Some,
    ensures
        ({
            let shown = short_error(error);
            let n = span(shown, digit_pred());
            0 < n && usize_of(shown.take(n as int)) == error_line(error)
        }),
{
}

/// The line of an error is the number right behind its first `line `; what the status line shows of
/// it starts there.
pub proof fn lemma_error_line_read(before: Seq<char>, line: nat, rest: Seq<char>)
    requires
        forall|j: int|
            0 <= j < before.len() ==> !#[trigger] occurs_at(
                before + "line "@ + (decimal(line) + rest),
                "line "@,
                j,
            ),
        rest.len() > 0 ==> !is_digit(rest[0]),
    ensures
        error_line(before + "line "@ + (decimal(line) + rest)) == if line <= usize::MAX {
            Some(line as usize)
        } else {
            None
        },
        short_error(before + "line "@ + (decimal(line) + rest)) == decimal(line) + rest,
{
    let tail = decimal(line) + rest;
    lemma_cut_at(before, "line "@, tail);
    lemma_decimal_reads_back(line);
    lemma_numbers_read_back(line as int);
    let d = decimal(line);
    assert forall|i: int| 0 <= i < d.len() implies digit_pred()(#[trigger] tail[i]) by {
        assert(tail[i] == d[i]);
    }
    if rest.len() > 0 {
        assert(tail[d.len() as int] == rest[0]);
    }
    lemma_span(tail, digit_pred(), d.len() as int);
    assert(tail.take(d.len() as int) =~= d);
}

/// An error without `line `, or without a digit right behind it, has no line; without `line ` it is
/// shown whole.
pub proof fn lemma_error_without_line(error: Seq<char>)
    ensures
        (forall|a: Seq<char>, b: Seq<char>| !#[trigger] made_of(error, a, "line "@, b))
            ==> error_line(error) is None && short_error(error) == error,
        error_line(error) is Some ==> short_error(error).len() > 0 && is_digit(short_error(error)[0]),
{
    lemma_cut(error, "line "@);
    match cut(error, "line "@) {
        Some((a, b)) => {
            assert(made_of(error, a, "line "@, b));
            lemma_span_bounds(b, digit_pred());
            if error_line(error) is Some {
                assert(digit_pred()(b[0]));
            }
        },
        None => {},
    }
}

/// The hint is shown exactly while the caret is on the line of the error, and it is the error on
/// one line, without what stands before its line number.
pub proof fn lemma_hint_follows_caret(line: usize, message: Seq<char>, caret_line: usize)
    ensures
        hint_of(None, caret_line) is None,
        hint_of(Some((line, message)), caret_line) == if caret_line == line {
            Some(short_error(flat(message)))
        } else {
            None
        },
        flat(message) == join(words(message), seq![' ']),
{
    reveal_strlit(" ");
    assert(" "@ =~= seq![' ']);
}

} // verus!
