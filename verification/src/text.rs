//! Plain text over sequences of characters: searching, trimming, splitting and joining.
//!
//! The specification functions say what each operation yields on a `Seq<char>`; the executable
//! functions work on character slices, so that positions count characters.

use vstd::prelude::*;
use vstd::slice::slice_subrange;

verus! {

/// `String::push` adds its character at the end of the string.
pub assume_specification[ std::string::String::push ](s: &mut std::string::String, c: char)
    ensures
        final(s)@ == old(s)@.push(c),
;

/// The characters with the Unicode property White_Space.
pub open spec fn is_space(c: char) -> bool {
    ||| 0x09 <= c as u32 <= 0x0d
    ||| c as u32 == 0x20
    ||| c as u32 == 0x85
    ||| c as u32 == 0xa0
    ||| c as u32 == 0x1680
    ||| 0x2000 <= c as u32 <= 0x200a
    ||| c as u32 == 0x2028
    ||| c as u32 == 0x2029
    ||| c as u32 == 0x202f
    ||| c as u32 == 0x205f
    ||| c as u32 == 0x3000
}

/// The predicate "is white space".
pub open spec fn space() -> spec_fn(char) -> bool {
    |c: char| is_space(c)
}

/// The predicate "is not white space".
pub open spec fn ink() -> spec_fn(char) -> bool {
    |c: char| !is_space(c)
}

/// The predicate "is the character `d`".
pub open spec fn same_as(d: char) -> spec_fn(char) -> bool {
    |c: char| c == d
}

/// The predicate "is another character than `d`".
pub open spec fn other_than(d: char) -> spec_fn(char) -> bool {
    |c: char| c != d
}

/// How many characters at the start of `s` satisfy `p`, up to the first that does not.
pub open spec fn span(s: Seq<char>, p: spec_fn(char) -> bool) -> nat
    decreases s.len(),
{
    if s.len() > 0 && p(s[0]) {
        1 + span(s.drop_first(), p)
    } else {
        0
    }
}

/// How many characters at the end of `s` satisfy `p`, back to the last that does not.
pub open spec fn span_back(s: Seq<char>, p: spec_fn(char) -> bool) -> nat
    decreases s.len(),
{
    if s.len() > 0 && p(s.last()) {
        1 + span_back(s.drop_last(), p)
    } else {
        0
    }
}

/// `s` without the characters at its start that satisfy `p`.
pub open spec fn strip_front(s: Seq<char>, p: spec_fn(char) -> bool) -> Seq<char> {
    s.skip(span(s, p) as int)
}

/// `s` without the characters at its end that satisfy `p`.
pub open spec fn strip_back(s: Seq<char>, p: spec_fn(char) -> bool) -> Seq<char> {
    s.take(s.len() - span_back(s, p))
}

/// `s` without white space at either end.
pub open spec fn trim(s: Seq<char>) -> Seq<char> {
    strip_back(strip_front(s, space()), space())
}

/// The position of the first `c` in `s`.
pub open spec fn index(s: Seq<char>, c: char) -> Option<int> {
    let n = span(s, other_than(c)) as int;
    if n < s.len() {
        Some(n)
    } else {
        None
    }
}

/// The position of the last `c` in `s`.
pub open spec fn last_index(s: Seq<char>, c: char) -> Option<int> {
    let n = span_back(s, other_than(c)) as int;
    if n < s.len() {
        Some(s.len() - 1 - n)
    } else {
        None
    }
}

/// `pat` stands in `s` at position `i`.
pub open spec fn occurs_at(s: Seq<char>, pat: Seq<char>, i: int) -> bool {
    &&& 0 <= i
    &&& i + pat.len() <= s.len()
    &&& s.subrange(i, i + pat.len()) == pat
}

/// The first position in `s`, from `i` on, at which `pat` stands.
pub open spec fn find_from(s: Seq<char>, pat: Seq<char>, i: int) -> Option<int>
    decreases s.len() + 1 - i,
{
    if i < 0 || i + pat.len() > s.len() {
        None
    } else if occurs_at(s, pat, i) {
        Some(i)
    } else {
        find_from(s, pat, i + 1)
    }
}

/// The first position in `s` at which `pat` stands.
pub open spec fn find(s: Seq<char>, pat: Seq<char>) -> Option<int> {
    find_from(s, pat, 0)
}

/// `pat` stands somewhere in `s`.
pub open spec fn mentions(s: Seq<char>, pat: Seq<char>) -> bool {
    find(s, pat) is Some
}

/// What stands before and behind the first `pat` in `s`.
pub open spec fn cut(s: Seq<char>, pat: Seq<char>) -> Option<(Seq<char>, Seq<char>)> {
    match find(s, pat) {
        Some(i) => Some((s.take(i), s.skip(i + pat.len()))),
        None => None,
    }
}

/// `s` starts with `pat`.
pub open spec fn starts_with(s: Seq<char>, pat: Seq<char>) -> bool {
    occurs_at(s, pat, 0)
}

/// `s` starts with the character `c`.
pub open spec fn starts_with_char(s: Seq<char>, c: char) -> bool {
    s.len() > 0 && s[0] == c
}

/// `s` ends with the character `c`.
pub open spec fn ends_with_char(s: Seq<char>, c: char) -> bool {
    s.len() > 0 && s.last() == c
}

/// The pieces of `s` between the characters `sep`: one more than there are of these.
pub open spec fn split(s: Seq<char>, sep: char) -> Seq<Seq<char>>
    decreases s.len(),
{
    match index(s, sep) {
        Some(i) => if 0 <= i < s.len() {
            seq![s.take(i)] + split(s.skip(i + 1), sep)
        } else {
            seq![s]
        },
        None => seq![s],
    }
}

/// What stands before and after the first `sep` of `s`.
pub open spec fn split_once(s: Seq<char>, sep: char) -> Option<(Seq<char>, Seq<char>)> {
    match index(s, sep) {
        Some(i) => Some((s.take(i), s.skip(i + 1))),
        None => None,
    }
}

/// `s` without one carriage return at its end.
pub open spec fn strip_return(s: Seq<char>) -> Seq<char> {
    if ends_with_char(s, '\r') {
        s.drop_last()
    } else {
        s
    }
}

/// The lines of `s`: each ends before a line feed, or before a carriage return and a line feed.
/// The last line needs no ending.
pub open spec fn lines(s: Seq<char>) -> Seq<Seq<char>>
    decreases s.len(),
{
    if s.len() == 0 {
        seq![]
    } else {
        match index(s, '\n') {
            Some(i) => if 0 <= i < s.len() {
                seq![strip_return(s.take(i))] + lines(s.skip(i + 1))
            } else {
                seq![s]
            },
            None => seq![s],
        }
    }
}

/// The words of `s`: its longest stretches without white space.
pub open spec fn words(s: Seq<char>) -> Seq<Seq<char>>
    decreases s.len(),
{
    let t = strip_front(s, space());
    let n = span(t, ink()) as int;
    if 0 < n <= t.len() <= s.len() {
        seq![t.take(n)] + words(t.skip(n))
    } else {
        seq![]
    }
}

/// The parts one after the other, with `sep` between each two.
pub open spec fn join(parts: Seq<Seq<char>>, sep: Seq<char>) -> Seq<char>
    decreases parts.len(),
{
    if parts.len() == 0 {
        seq![]
    } else if parts.len() == 1 {
        parts[0]
    } else {
        join(parts.drop_last(), sep) + sep + parts.last()
    }
}

/// An ASCII capital letter as a small letter; any other character as it is.
pub open spec fn lower_char(c: char) -> char {
    if 'A' as u32 <= c as u32 <= 'Z' as u32 {
        ((c as u32 + 32) as u8) as char
    } else {
        c
    }
}

/// `s` with its ASCII capital letters as small letters.
pub open spec fn lower(s: Seq<char>) -> Seq<char> {
    s.map_values(|c: char| lower_char(c))
}

/// The texts that a list of character slices shows.
pub open spec fn pieces(v: Seq<&[char]>) -> Seq<Seq<char>> {
    v.map_values(|p: &[char]| p@)
}

/// The texts that a list of strings shows.
pub open spec fn texts(v: Seq<String>) -> Seq<Seq<char>> {
    v.map_values(|p: String| p@)
}

/// The text that an optional string shows.
pub open spec fn opt_text(o: Option<String>) -> Option<Seq<char>> {
    match o {
        Some(s) => Some(s@),
        None => None,
    }
}

/// The text that an optional string slice shows.
pub open spec fn opt_str(o: Option<&str>) -> Option<Seq<char>> {
    match o {
        Some(s) => Some(s@),
        None => None,
    }
}

/// `span` is the one length at which the characters stop to satisfy `p`.
pub proof fn lemma_span(s: Seq<char>, p: spec_fn(char) -> bool, n: int)
    requires
        0 <= n <= s.len(),
        forall|i: int| 0 <= i < n ==> p(#[trigger] s[i]),
        n < s.len() ==> !p(s[n]),
    ensures
        span(s, p) == n,
    decreases s.len(),
{
    if n > 0 {
        let t = s.drop_first();
        assert forall|i: int| 0 <= i < n - 1 implies p(#[trigger] t[i]) by {
            assert(t[i] == s[i + 1]);
        }
        if n < s.len() {
            assert(t[n - 1] == s[n]);
        }
        assert(p(s[0]));
        lemma_span(t, p, n - 1);
    }
}

/// `span_back` is the one length at which the characters, from the end, stop to satisfy `p`.
pub proof fn lemma_span_back(s: Seq<char>, p: spec_fn(char) -> bool, n: int)
    requires
        0 <= n <= s.len(),
        forall|i: int| s.len() - n <= i < s.len() ==> p(#[trigger] s[i]),
        n < s.len() ==> !p(s[s.len() - 1 - n]),
    ensures
        span_back(s, p) == n,
    decreases s.len(),
{
    if n > 0 {
        let t = s.drop_last();
        assert(p(s[s.len() - 1]));
        assert forall|i: int| t.len() - (n - 1) <= i < t.len() implies p(#[trigger] t[i]) by {
            assert(t[i] == s[i]);
        }
        if n < s.len() {
            assert(t[t.len() - 1 - (n - 1)] == s[s.len() - 1 - n]);
        }
        lemma_span_back(t, p, n - 1);
    }
}

/// What `span` counts: the characters before it satisfy `p`, the one at it does not.
pub proof fn lemma_span_bounds(s: Seq<char>, p: spec_fn(char) -> bool)
    ensures
        span(s, p) <= s.len(),
        forall|i: int| 0 <= i < span(s, p) ==> p(#[trigger] s[i]),
        span(s, p) < s.len() ==> !p(s[span(s, p) as int]),
    decreases s.len(),
{
    if s.len() > 0 && p(s[0]) {
        let t = s.drop_first();
        lemma_span_bounds(t, p);
        assert forall|i: int| 0 <= i < span(s, p) implies p(#[trigger] s[i]) by {
            if i > 0 {
                assert(s[i] == t[i - 1]);
            }
        }
        if span(s, p) < s.len() {
            assert(s[span(s, p) as int] == t[span(t, p) as int]);
        }
    }
}

/// What `span_back` counts: the characters behind it satisfy `p`, the one before them does not.
pub proof fn lemma_span_back_bounds(s: Seq<char>, p: spec_fn(char) -> bool)
    ensures
        span_back(s, p) <= s.len(),
        forall|i: int| s.len() - span_back(s, p) <= i < s.len() ==> p(#[trigger] s[i]),
        span_back(s, p) < s.len() ==> !p(s[s.len() - 1 - span_back(s, p)]),
    decreases s.len(),
{
    if s.len() > 0 && p(s.last()) {
        let t = s.drop_last();
        lemma_span_back_bounds(t, p);
        assert forall|i: int| s.len() - span_back(s, p) <= i < s.len() implies p(
            #[trigger] s[i],
        ) by {
            if i < s.len() - 1 {
                assert(s[i] == t[i]);
            }
        }
        if span_back(s, p) < s.len() {
            assert(s[s.len() - 1 - span_back(s, p)] == t[t.len() - 1 - span_back(t, p)]);
        }
    }
}

/// There is at least one piece.
pub proof fn lemma_split_some(s: Seq<char>, sep: char)
    ensures
        split(s, sep).len() > 0,
{
}

/// More text behind `s` only changes the last piece and what follows it.
pub proof fn lemma_split_more(s: Seq<char>, more: Seq<char>, sep: char)
    ensures
        split(s + more, sep) == split(s, sep).drop_last() + split(
            split(s, sep).last() + more,
            sep,
        ),
    decreases s.len(),
{
    lemma_span_bounds(s, other_than(sep));
    match index(s, sep) {
        Some(i) => {
            let rest = s.skip(i + 1);
            lemma_span(s + more, other_than(sep), i);
            assert((s + more).take(i) =~= s.take(i));
            assert((s + more).skip(i + 1) =~= rest + more);
            lemma_split_more(rest, more, sep);
            lemma_split_some(rest, sep);
            assert(split(s, sep) == seq![s.take(i)] + split(rest, sep));
            assert(split(s, sep).last() == split(rest, sep).last());
            assert(split(s, sep).drop_last() =~= seq![s.take(i)] + split(rest, sep).drop_last());
            assert(split(s + more, sep) =~= seq![s.take(i)] + split(rest + more, sep));
        },
        None => {
            assert(split(s, sep) =~= seq![s]);
            assert(split(s, sep).drop_last() =~= seq![]);
            assert(split(s + more, sep) =~= seq![] + split(s + more, sep));
        },
    }
}

/// A part in front of others is joined in front of them.
pub proof fn lemma_join_first(first: Seq<char>, parts: Seq<Seq<char>>, sep: Seq<char>)
    requires
        parts.len() > 0,
    ensures
        join(seq![first] + parts, sep) == first + sep + join(parts, sep),
    decreases parts.len(),
{
    let all = seq![first] + parts;
    assert(all.last() == parts.last());
    if parts.len() == 1 {
        assert(all.drop_last() =~= seq![first]);
        assert(join(seq![first], sep) == first);
    } else {
        assert(all.drop_last() =~= seq![first] + parts.drop_last());
        lemma_join_first(first, parts.drop_last(), sep);
        assert(join(all, sep) =~= first + sep + join(parts, sep));
    }
}

/// The pieces joined again are the text.
pub proof fn lemma_split_joins(s: Seq<char>, sep: char)
    ensures
        join(split(s, sep), seq![sep]) == s,
    decreases s.len(),
{
    lemma_span_bounds(s, other_than(sep));
    match index(s, sep) {
        Some(i) => {
            let rest = s.skip(i + 1);
            lemma_split_joins(rest, sep);
            lemma_split_some(rest, sep);
            lemma_join_first(s.take(i), split(rest, sep), seq![sep]);
            assert(s =~= s.take(i) + seq![sep] + rest);
        },
        None => {},
    }
}

/// Text that neither starts nor ends with white space is left whole by `trim`.
pub proof fn lemma_trim_ink(s: Seq<char>)
    requires
        s.len() > 0 ==> !is_space(s[0]) && !is_space(s.last()),
    ensures
        trim(s) == s,
{
    lemma_span(s, space(), 0);
    assert(strip_front(s, space()) =~= s);
    lemma_span_back(s, space(), 0);
    assert(strip_back(s, space()) =~= s);
}

/// A search finds the least position at which the pattern stands, if there is one.
pub proof fn lemma_find(s: Seq<char>, pat: Seq<char>, from: int)
    requires
        0 <= from,
    ensures
        match find_from(s, pat, from) {
            Some(i) => from <= i && occurs_at(s, pat, i) && forall|j: int|
                from <= j < i ==> !#[trigger] occurs_at(s, pat, j),
            None => forall|j: int| from <= j ==> !#[trigger] occurs_at(s, pat, j),
        },
    decreases s.len() + 1 - from,
{
    if from + pat.len() <= s.len() && !occurs_at(s, pat, from) {
        lemma_find(s, pat, from + 1);
    }
}

/// `s` is made of `a`, `pat` and `b`.
pub open spec fn made_of(s: Seq<char>, a: Seq<char>, pat: Seq<char>, b: Seq<char>) -> bool {
    s == a + pat + b
}

/// `pat` stands at the position behind `a` exactly where the text is `a`, `pat` and something more.
pub proof fn lemma_occurs(s: Seq<char>, pat: Seq<char>, i: int)
    ensures
        occurs_at(s, pat, i) <==> 0 <= i && i + pat.len() <= s.len() && made_of(
            s,
            s.take(i),
            pat,
            s.skip(i + pat.len()),
        ),
        occurs_at(s, pat, i) <==> 0 <= i && i + pat.len() <= s.len() && forall|k: int|
            0 <= k < pat.len() ==> #[trigger] s[i + k] == pat[k],
{
    if 0 <= i && i + pat.len() <= s.len() {
        let t = s.subrange(i, i + pat.len());
        let made = s.take(i) + pat + s.skip(i + pat.len());
        if t == pat {
            assert forall|k: int| 0 <= k < pat.len() implies #[trigger] s[i + k] == pat[k] by {
                assert(t[k] == s[i + k]);
            }
            assert(s =~= made);
        }
        if s == made {
            assert forall|k: int| 0 <= k < pat.len() implies t[k] == pat[k] by {
                assert(made[i + k] == pat[k]);
            }
            assert(t =~= pat);
        }
        if forall|k: int| 0 <= k < pat.len() ==> #[trigger] s[i + k] == pat[k] {
            assert forall|k: int| 0 <= k < pat.len() implies t[k] == pat[k] by {
                assert(s[i + k] == pat[k]);
            }
            assert(t =~= pat);
        }
    }
}

/// A text mentions a pattern exactly where the pattern stands between two parts of it.
pub proof fn lemma_mentions(s: Seq<char>, pat: Seq<char>)
    ensures
        mentions(s, pat) <==> exists|a: Seq<char>, b: Seq<char>| #[trigger] made_of(s, a, pat, b),
{
    lemma_find(s, pat, 0);
    if mentions(s, pat) {
        let i = find(s, pat)->0;
        lemma_occurs(s, pat, i);
        assert(made_of(s, s.take(i), pat, s.skip(i + pat.len())));
    }
    if exists|a: Seq<char>, b: Seq<char>| #[trigger] made_of(s, a, pat, b) {
        let (a, b) = choose|a: Seq<char>, b: Seq<char>| #[trigger] made_of(s, a, pat, b);
        assert(s.take(a.len() as int) =~= a);
        assert(s.skip((a.len() + pat.len()) as int) =~= b);
        lemma_occurs(s, pat, a.len() as int);
    }
}

/// A text is cut at the first place where the pattern stands: what stands before it, the pattern
/// and what stands behind it are the text, and the pattern does not start any earlier. A text that
/// cannot be cut does not hold the pattern.
pub proof fn lemma_cut(s: Seq<char>, pat: Seq<char>)
    ensures
        match cut(s, pat) {
            Some((a, b)) => s == a + pat + b && forall|j: int|
                0 <= j < a.len() ==> !#[trigger] occurs_at(s, pat, j),
            None => forall|j: int| !#[trigger] occurs_at(s, pat, j),
        },
{
    lemma_find(s, pat, 0);
    if let Some(i) = find(s, pat) {
        lemma_occurs(s, pat, i);
    }
}

/// Where the pattern does not start inside `a`, the text `a`, `pat`, `b` is cut between them.
pub proof fn lemma_cut_at(a: Seq<char>, pat: Seq<char>, b: Seq<char>)
    requires
        forall|j: int| 0 <= j < a.len() ==> !#[trigger] occurs_at(a + pat + b, pat, j),
    ensures
        cut(a + pat + b, pat) == Some((a, b)),
{
    let s = a + pat + b;
    let n = a.len() as int;
    assert(s.take(n) =~= a);
    assert(s.skip(n + pat.len()) =~= b);
    lemma_occurs(s, pat, n);
    lemma_find(s, pat, 0);
    let i = find(s, pat)->0;
    assert(occurs_at(s, pat, n));
    assert(i == n);
}

/// Where the first character of the pattern does not stand in `a`, the text is cut behind `a`.
pub proof fn lemma_cut_behind(a: Seq<char>, pat: Seq<char>, b: Seq<char>)
    requires
        pat.len() > 0,
        !a.contains(pat[0]),
    ensures
        cut(a + pat + b, pat) == Some((a, b)),
{
    let s = a + pat + b;
    assert forall|j: int| 0 <= j < a.len() implies !#[trigger] occurs_at(s, pat, j) by {
        lemma_occurs(s, pat, j);
        if occurs_at(s, pat, j) {
            assert(s[j + 0] == pat[0]);
            assert(a[j] == pat[0]);
        }
    }
    lemma_cut_at(a, pat, b);
}

/// The first place of a character: it stands there and nowhere before; there is none exactly where
/// the text does not hold the character.
pub proof fn lemma_index(s: Seq<char>, c: char)
    ensures
        match index(s, c) {
            Some(i) => 0 <= i < s.len() && s[i] == c && !s.take(i).contains(c),
            None => !s.contains(c),
        },
{
    lemma_span_bounds(s, other_than(c));
    let n = span(s, other_than(c)) as int;
    assert forall|i: int| 0 <= i < n implies #[trigger] s[i] != c by {
        assert(other_than(c)(s[i]));
    }
    if s.take(n).contains(c) {
        let k = choose|k: int| 0 <= k < n && s.take(n)[k] == c;
        assert(s[k] == c);
    }
}

/// The last place of a character: it stands there and nowhere behind; there is none exactly where
/// the text does not hold the character.
pub proof fn lemma_last_index(s: Seq<char>, c: char)
    ensures
        match last_index(s, c) {
            Some(i) => 0 <= i < s.len() && s[i] == c && !s.skip(i + 1).contains(c),
            None => !s.contains(c),
        },
{
    lemma_span_back_bounds(s, other_than(c));
    let n = span_back(s, other_than(c)) as int;
    assert forall|i: int| s.len() - n <= i < s.len() implies #[trigger] s[i] != c by {
        assert(other_than(c)(s[i]));
    }
    let rest = s.skip(s.len() - n);
    if rest.contains(c) {
        let k = choose|k: int| 0 <= k < rest.len() && rest[k] == c;
        assert(s[s.len() - n + k] == c);
    }
}

/// The first `c` of the text `a`, `c`, `b` stands behind `a`, where `a` has none.
pub proof fn lemma_index_at(a: Seq<char>, c: char, b: Seq<char>)
    requires
        !a.contains(c),
    ensures
        index(a + seq![c] + b, c) == Some(a.len() as int),
        split_once(a + seq![c] + b, c) == Some((a, b)),
{
    let s = a + seq![c] + b;
    assert forall|i: int| 0 <= i < a.len() implies other_than(c)(#[trigger] s[i]) by {
        assert(s[i] == a[i]);
    }
    lemma_span(s, other_than(c), a.len() as int);
    assert(s.take(a.len() as int) =~= a);
    assert(s.skip((a.len() + 1) as int) =~= b);
}

/// A text is split once at the first place of the character, and not where it does not hold it.
pub proof fn lemma_split_once(s: Seq<char>, c: char)
    ensures
        match split_once(s, c) {
            Some((a, b)) => s == a + seq![c] + b && !a.contains(c),
            None => !s.contains(c),
        },
{
    lemma_index(s, c);
    if let Some(i) = index(s, c) {
        assert(s =~= s.take(i) + seq![c] + s.skip(i + 1));
    }
}

/// A text without the separator is one piece.
pub proof fn lemma_split_whole(s: Seq<char>, sep: char)
    requires
        !s.contains(sep),
    ensures
        split(s, sep) == seq![s],
{
    lemma_index(s, sep);
    if let Some(i) = index(s, sep) {
        assert(s.contains(s[i]));
    }
}

/// Two texts with the separator between them have the pieces of the one and of the other.
pub proof fn lemma_split_at(a: Seq<char>, b: Seq<char>, sep: char)
    ensures
        split(a + seq![sep] + b, sep) == split(a, sep) + split(b, sep),
    decreases a.len(),
{
    let s = a + seq![sep] + b;
    lemma_index(a, sep);
    match index(a, sep) {
        Some(i) => {
            let rest = a.skip(i + 1);
            assert(s =~= a.take(i) + seq![sep] + (rest + seq![sep] + b));
            lemma_index_at(a.take(i), sep, rest + seq![sep] + b);
            lemma_split_at(rest, b, sep);
            assert(s.take(i) =~= a.take(i));
            assert(s.skip(i + 1) =~= rest + seq![sep] + b);
            assert(split(s, sep) =~= seq![a.take(i)] + (split(rest, sep) + split(b, sep)));
            assert(split(s, sep) =~= split(a, sep) + split(b, sep));
        },
        None => {
            lemma_split_whole(a, sep);
            lemma_index_at(a, sep, b);
            assert(s.take(a.len() as int) =~= a);
            assert(s.skip((a.len() + 1) as int) =~= b);
            assert(split(s, sep) =~= seq![a] + split(b, sep));
        },
    }
}

/// No piece holds the separator.
pub proof fn lemma_split_pieces(s: Seq<char>, sep: char, k: int)
    requires
        0 <= k < split(s, sep).len(),
    ensures
        !split(s, sep)[k].contains(sep),
    decreases s.len(),
{
    lemma_index(s, sep);
    if let Some(i) = index(s, sep) {
        if k > 0 {
            assert(split(s, sep)[k] == split(s.skip(i + 1), sep)[k - 1]);
            lemma_split_pieces(s.skip(i + 1), sep, k - 1);
        } else {
            assert(split(s, sep)[0] == s.take(i));
        }
    }
}

/// Splitting undoes joining: where no part holds the separator, the parts come back.
pub proof fn lemma_joined_splits(parts: Seq<Seq<char>>, sep: char)
    requires
        parts.len() > 0,
        forall|i: int| 0 <= i < parts.len() ==> !(#[trigger] parts[i]).contains(sep),
    ensures
        split(join(parts, seq![sep]), sep) == parts,
    decreases parts.len(),
{
    if parts.len() == 1 {
        lemma_split_whole(parts[0], sep);
        assert(parts =~= seq![parts[0]]);
    } else {
        let fewer = parts.drop_last();
        assert forall|i: int| 0 <= i < fewer.len() implies !(#[trigger] fewer[i]).contains(sep) by {
            assert(fewer[i] == parts[i]);
        }
        lemma_joined_splits(fewer, sep);
        lemma_split_at(join(fewer, seq![sep]), parts.last(), sep);
        lemma_split_whole(parts.last(), sep);
        assert(parts =~= fewer + seq![parts.last()]);
    }
}

/// All characters of `s` are white space.
pub open spec fn blank(s: Seq<char>) -> bool {
    forall|i: int| 0 <= i < s.len() ==> is_space(#[trigger] s[i])
}

/// Trimming takes white space off both ends, as much as there is, and nothing else: it leaves the
/// one part that white space surrounds and that has none at its ends.
pub proof fn lemma_trim(s: Seq<char>)
    ensures
        trim(s).len() > 0 ==> !is_space(trim(s)[0]) && !is_space(trim(s).last()),
        exists|a: Seq<char>, b: Seq<char>|
            blank(a) && blank(b) && #[trigger] made_of(s, a, trim(s), b),
{
    lemma_span_bounds(s, space());
    let n = span(s, space()) as int;
    let t = strip_front(s, space());
    lemma_span_back_bounds(t, space());
    let m = t.len() - span_back(t, space());
    let a = s.take(n);
    let b = t.skip(m);
    assert forall|i: int| 0 <= i < a.len() implies is_space(#[trigger] a[i]) by {
        assert(space()(s[i]));
    }
    assert forall|i: int| 0 <= i < b.len() implies is_space(#[trigger] b[i]) by {
        assert(space()(t[m + i]));
    }
    assert(made_of(s, a, trim(s), b)) by {
        assert(s =~= a + trim(s) + b);
    }
    if trim(s).len() > 0 {
        assert(trim(s)[0] == s[n]);
        assert(!space()(s[n]));
        assert(trim(s).last() == t[m - 1]);
        assert(!space()(t[t.len() - 1 - span_back(t, space())]));
    }
}

/// White space around a text that has none at its ends is what trimming takes off.
pub proof fn lemma_trim_around(a: Seq<char>, s: Seq<char>, b: Seq<char>)
    requires
        blank(a),
        blank(b),
        s.len() > 0 ==> !is_space(s[0]) && !is_space(s.last()),
    ensures
        trim(a + s + b) == s,
{
    let all = a + s + b;
    if s.len() > 0 {
        assert forall|i: int| 0 <= i < a.len() implies space()(#[trigger] all[i]) by {
            assert(all[i] == a[i]);
        }
        assert(all[a.len() as int] == s[0]);
        lemma_span(all, space(), a.len() as int);
        let t = strip_front(all, space());
        assert(t =~= s + b);
        assert forall|i: int| t.len() - b.len() <= i < t.len() implies space()(#[trigger] t[i]) by {
            assert(t[i] == b[i - s.len()]);
        }
        assert(t[t.len() - 1 - b.len()] == s.last());
        lemma_span_back(t, space(), b.len() as int);
        assert(trim(all) =~= s);
    } else {
        assert forall|i: int| 0 <= i < all.len() implies space()(#[trigger] all[i]) by {
            if i < a.len() {
                assert(all[i] == a[i]);
            } else {
                assert(all[i] == b[i - a.len()]);
            }
        }
        lemma_span(all, space(), all.len() as int);
        let t = strip_front(all, space());
        assert(t.len() == 0);
        lemma_span_back(t, space(), 0);
        assert(trim(all) =~= s);
    }
}

/// White space in front of a text, or behind it, does not count when it is trimmed.
pub proof fn lemma_trim_padded(a: Seq<char>, s: Seq<char>, b: Seq<char>)
    requires
        blank(a),
        blank(b),
    ensures
        trim(a + s + b) == trim(s),
{
    lemma_trim(s);
    let (x, y) = choose|x: Seq<char>, y: Seq<char>|
        blank(x) && blank(y) && #[trigger] made_of(s, x, trim(s), y);
    let front = a + x;
    let back = y + b;
    assert forall|i: int| 0 <= i < front.len() implies is_space(#[trigger] front[i]) by {
        if i >= a.len() {
            assert(front[i] == x[i - a.len()]);
        }
    }
    assert forall|i: int| 0 <= i < back.len() implies is_space(#[trigger] back[i]) by {
        if i >= y.len() {
            assert(back[i] == b[i - y.len()]);
        }
    }
    assert(a + s + b =~= front + trim(s) + back);
    lemma_trim_around(front, trim(s), back);
}

/// The characters that count as white space.
pub proof fn lemma_white_space(c: char)
    ensures
        is_space(c) <==> seq![
            9u32,
            10,
            11,
            12,
            13,
            32,
            133,
            160,
            5760,
            8192,
            8193,
            8194,
            8195,
            8196,
            8197,
            8198,
            8199,
            8200,
            8201,
            8202,
            8232,
            8233,
            8239,
            8287,
            12288,
        ].contains(c as u32),
{
    let all = seq![
        9u32,
        10,
        11,
        12,
        13,
        32,
        133,
        160,
        5760,
        8192,
        8193,
        8194,
        8195,
        8196,
        8197,
        8198,
        8199,
        8200,
        8201,
        8202,
        8232,
        8233,
        8239,
        8287,
        12288,
    ];
    assert(all[0] == 9 && all[1] == 10 && all[2] == 11 && all[3] == 12 && all[4] == 13);
    assert(all[5] == 32 && all[6] == 133 && all[7] == 160 && all[8] == 5760);
    assert(all[9] == 8192 && all[10] == 8193 && all[11] == 8194 && all[12] == 8195);
    assert(all[13] == 8196 && all[14] == 8197 && all[15] == 8198 && all[16] == 8199);
    assert(all[17] == 8200 && all[18] == 8201 && all[19] == 8202 && all[20] == 8232);
    assert(all[21] == 8233 && all[22] == 8239 && all[23] == 8287 && all[24] == 12288);
}

/// Lines end at line feeds: the line before the first is one, without a carriage return at its
/// end, and behind it the others follow. A text without a line feed is one line, and no text none.
pub proof fn lemma_lines(a: Seq<char>, b: Seq<char>)
    requires
        !a.contains('\n'),
    ensures
        lines(Seq::<char>::empty()) == Seq::<Seq<char>>::empty(),
        a.len() > 0 ==> lines(a) == seq![a],
        (a.len() == 0 || a.last() != '\r') ==> lines(a + seq!['\n'] + b) == seq![a] + lines(b),
        lines(a + seq!['\r'] + seq!['\n'] + b) == seq![a] + lines(b),
{
    lemma_index(a, '\n');
    if let Some(i) = index(a, '\n') {
        assert(a.contains(a[i]));
    }
    let s = a + seq!['\n'] + b;
    lemma_index_at(a, '\n', b);
    assert(s.take(a.len() as int) =~= a);
    assert(s.skip((a.len() + 1) as int) =~= b);
    let r = a + seq!['\r'];
    assert forall|i: int| 0 <= i < r.len() implies r[i] != '\n' by {
        if i < a.len() {
            assert(a.contains(a[i]));
        }
    }
    let t = r + seq!['\n'] + b;
    lemma_index_at(r, '\n', b);
    assert(t.take(r.len() as int) =~= r);
    assert(t.skip((r.len() + 1) as int) =~= b);
    assert(r.drop_last() =~= a);
}

/// Words are the stretches between white space: a stretch in front of white space is the first
/// word, white space in front does not count, and white space alone holds no word.
pub proof fn lemma_words(gap: Seq<char>, word: Seq<char>, rest: Seq<char>)
    requires
        blank(gap),
        word.len() > 0,
        forall|i: int| 0 <= i < word.len() ==> !is_space(#[trigger] word[i]),
        rest.len() > 0 ==> is_space(rest[0]),
    ensures
        words(gap + word + rest) == seq![word] + words(rest),
        words(gap) == Seq::<Seq<char>>::empty(),
{
    let s = gap + word + rest;
    assert forall|i: int| 0 <= i < gap.len() implies space()(#[trigger] s[i]) by {
        assert(s[i] == gap[i]);
    }
    assert(s[gap.len() as int] == word[0]);
    lemma_span(s, space(), gap.len() as int);
    let t = strip_front(s, space());
    assert(t =~= word + rest);
    assert forall|i: int| 0 <= i < word.len() implies ink()(#[trigger] t[i]) by {
        assert(t[i] == word[i]);
    }
    if rest.len() > 0 {
        assert(t[word.len() as int] == rest[0]);
    }
    lemma_span(t, ink(), word.len() as int);
    assert(t.take(word.len() as int) =~= word);
    assert(t.skip(word.len() as int) =~= rest);
    assert forall|i: int| 0 <= i < gap.len() implies space()(#[trigger] gap[i]) by {}
    lemma_span(gap, space(), gap.len() as int);
    let u = strip_front(gap, space());
    assert(u.len() == 0);
    lemma_span(u, ink(), 0);
}

/// A text in small letters: capital letters become the small letter of the same place in the
/// alphabet, other characters stay.
pub proof fn lemma_lower(s: Seq<char>, i: int)
    requires
        0 <= i < s.len(),
    ensures
        lower(s).len() == s.len(),
        65 <= s[i] as u32 <= 90 ==> lower(s)[i] as u32 == s[i] as u32 + 32,
        !(65 <= s[i] as u32 <= 90) ==> lower(s)[i] == s[i],
{
}

/// Joining sets the separator between the parts, and nothing else.
pub proof fn lemma_join(parts: Seq<Seq<char>>, sep: Seq<char>, part: Seq<char>)
    ensures
        join(Seq::<Seq<char>>::empty(), sep) == Seq::<char>::empty(),
        join(seq![part], sep) == part,
        parts.len() > 0 ==> join(parts.push(part), sep) == join(parts, sep) + sep + part,
{
    assert(parts.push(part).drop_last() =~= parts);
}

/// Characters are taken off the ends as long as they are the given one.
pub proof fn lemma_strip_char(s: Seq<char>, c: char, n: nat)
    requires
        s.len() > 0 ==> s[0] != c && s.last() != c,
    ensures
        strip_front(Seq::new(n, |i: int| c) + s, same_as(c)) == s,
        strip_back(s + Seq::new(n, |i: int| c), same_as(c)) == s,
{
    let many = Seq::new(n, |i: int| c);
    let a = many + s;
    let b = s + many;
    assert forall|i: int| 0 <= i < n implies same_as(c)(#[trigger] a[i]) by {
        assert(a[i] == many[i]);
    }
    if s.len() > 0 {
        assert(a[n as int] == s[0]);
        assert(b[b.len() - 1 - n] == s.last());
    }
    lemma_span(a, same_as(c), n as int);
    assert(strip_front(a, same_as(c)) =~= s);
    assert forall|i: int| b.len() - n <= i < b.len() implies same_as(c)(#[trigger] b[i]) by {
        assert(b[i] == many[i - s.len()]);
    }
    lemma_span_back(b, same_as(c), n as int);
    assert(strip_back(b, same_as(c)) =~= s);
}

/// The characters of `s`, in order.
pub fn to_chars(s: &str) -> (out: Vec<char>)
    ensures
        out@ == s@,
{
    let mut out: Vec<char> = Vec::new();
    for c in it: s.chars()
        invariant
            it.seq() == s@,
            out@ == s@.take(it.index() as int),
    {
        out.push(c);
        assert(out@ == s@.take(it.index() + 1));
    }
    assert(s@.take(s@.len() as int) == s@);
    out
}

/// The string made of the characters of `text`, in order.
pub fn to_text(text: &[char]) -> (out: String)
    ensures
        out@ == text@,
{
    let mut out: String = String::new();
    for i in 0..text.len()
        invariant
            out@ == text@.take(i as int),
    {
        out.push(text[i]);
        assert(out@ == text@.take(i + 1));
    }
    assert(text@.take(text@.len() as int) == text@);
    out
}

/// Tells whether `c` is white space.
pub fn char_is_space(c: char) -> (r: bool)
    ensures
        r == is_space(c),
{
    let n: u32 = c as u32;
    (0x09 <= n && n <= 0x0d) || n == 0x20 || n == 0x85 || n == 0xa0 || n == 0x1680 || (0x2000 <= n
        && n <= 0x200a) || n == 0x2028 || n == 0x2029 || n == 0x202f || n == 0x205f || n == 0x3000
}

/// The part of `s` from position `i` on.
pub fn tail(s: &[char], i: usize) -> (r: &[char])
    requires
        i <= s@.len(),
    ensures
        r@ == s@.skip(i as int),
{
    let r = slice_subrange(s, i, s.len());
    assert(r@ == s@.skip(i as int));
    r
}

/// The part of `s` before position `i`.
pub fn head(s: &[char], i: usize) -> (r: &[char])
    requires
        i <= s@.len(),
    ensures
        r@ == s@.take(i as int),
{
    let r = slice_subrange(s, 0, i);
    assert(r@ == s@.take(i as int));
    r
}

/// Tells whether two texts are the same.
pub fn same_chars(a: &[char], b: &[char]) -> (r: bool)
    ensures
        r == (a@ == b@),
{
    if a.len() != b.len() {
        return false;
    }
    for i in 0..a.len()
        invariant
            a@.len() == b@.len(),
            forall|j: int| 0 <= j < i ==> a@[j] == b@[j],
    {
        if a[i] != b[i] {
            assert(a@[i as int] != b@[i as int]);
            return false;
        }
    }
    assert(a@ =~= b@);
    true
}

/// Tells whether two texts are the same.
pub fn same_text(a: &[char], b: &str) -> (r: bool)
    ensures
        r == (a@ == b@),
{
    let b = to_chars(b);
    same_chars(a, b.as_slice())
}

/// Tells whether two strings are the same.
pub fn same_str(a: &str, b: &str) -> (r: bool)
    ensures
        r == (a@ == b@),
{
    let a = to_chars(a);
    same_text(a.as_slice(), b)
}

/// Tells whether `pat` stands in `s` at position `i`.
fn occurs(s: &[char], pat: &[char], i: usize) -> (r: bool)
    requires
        i + pat@.len() <= s@.len(),
    ensures
        r == occurs_at(s@, pat@, i as int),
{
    assert(s@.len() == s.len());
    same_chars(slice_subrange(s, i, i + pat.len()), pat)
}

/// The first position in `s` at which `pat` stands.
pub fn find_chars(s: &[char], pat: &[char]) -> (r: Option<usize>)
    ensures
        match r {
            Some(i) => find(s@, pat@) == Some(i as int) && i + pat@.len() <= s@.len(),
            None => find(s@, pat@) is None,
        },
{
    if pat.len() > s.len() {
        return None;
    }
    let top: usize = s.len() - pat.len();
    let mut i: usize = 0;
    while i <= top
        invariant
            top == s@.len() - pat@.len(),
            0 <= i <= top + 1,
            find(s@, pat@) == find_from(s@, pat@, i as int),
        decreases top + 1 - i,
    {
        if occurs(s, pat, i) {
            return Some(i);
        }
        if i == top {
            return None;
        }
        i = i + 1;
    }
    None
}

/// The first position in `s` at which `pat` stands.
pub fn find_text(s: &[char], pat: &str) -> (r: Option<usize>)
    ensures
        match r {
            Some(i) => find(s@, pat@) == Some(i as int) && i + pat@.len() <= s@.len(),
            None => find(s@, pat@) is None,
        },
{
    let pat = to_chars(pat);
    find_chars(s, pat.as_slice())
}

/// What stands before and behind the first `pat` in `s`.
pub fn cut_text<'a>(s: &'a [char], pat: &str) -> (r: Option<(&'a [char], &'a [char])>)
    ensures
        match r {
            Some(p) => cut(s@, pat@) == Some((p.0@, p.1@)) && find(s@, pat@) == Some(
                p.0@.len() as int,
            ) && p.0@.len() + pat@.len() + p.1@.len() == s@.len(),
            None => cut(s@, pat@) is None,
        },
{
    let pat = to_chars(pat);
    match find_chars(s, pat.as_slice()) {
        Some(i) => {
            assert(s@.len() == s.len());
            Some((head(s, i), tail(s, i + pat.len())))
        },
        None => None,
    }
}

/// Tells whether `pat` stands somewhere in `s`.
pub fn has_text(s: &[char], pat: &str) -> (r: bool)
    ensures
        r == mentions(s@, pat@),
{
    find_text(s, pat).is_some()
}

/// `s` behind the prefix `pat`, where it has that prefix.
pub fn after_prefix<'a>(s: &'a [char], pat: &str) -> (r: Option<&'a [char]>)
    ensures
        match r {
            Some(t) => starts_with(s@, pat@) && t@ == s@.skip(pat@.len() as int),
            None => !starts_with(s@, pat@),
        },
{
    let pat = to_chars(pat);
    if pat.len() <= s.len() && occurs(s, pat.as_slice(), 0) {
        Some(tail(s, pat.len()))
    } else {
        None
    }
}

/// The position of the first `c` in `s`.
pub fn index_of(s: &[char], c: char) -> (r: Option<usize>)
    ensures
        match r {
            Some(i) => index(s@, c) == Some(i as int) && i < s@.len() && i < usize::MAX
                && s@[i as int] == c,
            None => index(s@, c) is None,
        },
{
    for i in 0..s.len()
        invariant
            forall|j: int| 0 <= j < i ==> s@[j] != c,
    {
        if s[i] == c {
            proof {
                lemma_span(s@, other_than(c), i as int);
            }
            return Some(i);
        }
    }
    proof {
        lemma_span(s@, other_than(c), s@.len() as int);
    }
    None
}

/// The position of the last `c` in `s`.
pub fn last_index_of(s: &[char], c: char) -> (r: Option<usize>)
    ensures
        match r {
            Some(i) => last_index(s@, c) == Some(i as int) && i < s@.len() && s@[i as int] == c,
            None => last_index(s@, c) is None,
        },
{
    let mut i: usize = s.len();
    while i > 0
        invariant
            i <= s@.len(),
            forall|j: int| i <= j < s@.len() ==> s@[j] != c,
        decreases i,
    {
        i = i - 1;
        if s[i] == c {
            proof {
                lemma_span_back(s@, other_than(c), s@.len() - 1 - i);
            }
            return Some(i);
        }
    }
    proof {
        lemma_span_back(s@, other_than(c), s@.len() as int);
    }
    None
}

/// Tells whether `s` starts with the character `c`.
pub fn begins_with(s: &[char], c: char) -> (r: bool)
    ensures
        r == starts_with_char(s@, c),
{
    s.len() > 0 && s[0] == c
}

/// Tells whether `s` ends with the character `c`.
pub fn finishes_with(s: &[char], c: char) -> (r: bool)
    ensures
        r == ends_with_char(s@, c),
{
    s.len() > 0 && s[s.len() - 1] == c
}

/// `s` without white space at its start.
pub fn trim_left(s: &[char]) -> (r: &[char])
    ensures
        r@ == strip_front(s@, space()),
{
    let mut i: usize = 0;
    while i < s.len() && char_is_space(s[i])
        invariant
            i <= s@.len(),
            forall|j: int| 0 <= j < i ==> is_space(#[trigger] s@[j]),
        decreases s@.len() - i,
    {
        i = i + 1;
    }
    proof {
        lemma_span(s@, space(), i as int);
    }
    tail(s, i)
}

/// `s` without white space at either end.
pub fn trimmed(s: &[char]) -> (r: &[char])
    ensures
        r@ == trim(s@),
{
    let t = trim_left(s);
    let mut n: usize = t.len();
    while n > 0 && char_is_space(t[n - 1])
        invariant
            n <= t@.len(),
            forall|j: int| n <= j < t@.len() ==> is_space(#[trigger] t@[j]),
        decreases n,
    {
        n = n - 1;
    }
    proof {
        lemma_span_back(t@, space(), t@.len() - n);
    }
    head(t, n)
}

/// `s` without the characters `c` at its start.
pub fn trim_front_char(s: &[char], c: char) -> (r: &[char])
    ensures
        r@ == strip_front(s@, same_as(c)),
{
    let mut i: usize = 0;
    while i < s.len() && s[i] == c
        invariant
            i <= s@.len(),
            forall|j: int| 0 <= j < i ==> s@[j] == c,
        decreases s@.len() - i,
    {
        i = i + 1;
    }
    proof {
        lemma_span(s@, same_as(c), i as int);
    }
    tail(s, i)
}

/// `s` without the characters `c` at its end.
pub fn trim_back_char(s: &[char], c: char) -> (r: &[char])
    ensures
        r@ == strip_back(s@, same_as(c)),
{
    let mut n: usize = s.len();
    while n > 0 && s[n - 1] == c
        invariant
            n <= s@.len(),
            forall|j: int| n <= j < s@.len() ==> s@[j] == c,
        decreases n,
    {
        n = n - 1;
    }
    proof {
        lemma_span_back(s@, same_as(c), s@.len() - n);
    }
    head(s, n)
}

/// What stands before and after the first `sep` of `s`.
pub fn cut_once(s: &[char], sep: char) -> (r: Option<(&[char], &[char])>)
    ensures
        match r {
            Some(p) => split_once(s@, sep) == Some((p.0@, p.1@)),
            None => split_once(s@, sep) is None,
        },
{
    match index_of(s, sep) {
        Some(i) => Some((head(s, i), tail(s, i + 1))),
        None => None,
    }
}

/// The pieces of `s` between the characters `sep`.
pub fn split_on(s: &[char], sep: char) -> (out: Vec<&[char]>)
    ensures
        pieces(out@) == split(s@, sep),
        out@.len() > 0,
{
    let mut out: Vec<&[char]> = Vec::new();
    let mut rest: &[char] = s;
    loop
        invariant_except_break
            pieces(out@) + split(rest@, sep) == split(s@, sep),
        ensures
            pieces(out@) == split(s@, sep),
            out@.len() > 0,
        decreases rest@.len(),
    {
        let ghost before = out@;
        let ghost old_rest = rest@;
        match index_of(rest, sep) {
            Some(i) => {
                out.push(head(rest, i));
                rest = tail(rest, i + 1);
                proof {
                    let one = seq![old_rest.take(i as int)];
                    assert(pieces(out@) =~= pieces(before) + one);
                    assert(split(old_rest, sep) =~= one + split(rest@, sep));
                    assert(pieces(before) + (one + split(rest@, sep)) =~= (pieces(before) + one)
                        + split(rest@, sep));
                }
            },
            None => {
                out.push(rest);
                proof {
                    assert(pieces(out@) =~= pieces(before) + seq![old_rest]);
                }
                break ;
            },
        }
    }
    out
}

/// The lines of `s`.
pub fn line_list(s: &[char]) -> (out: Vec<&[char]>)
    ensures
        pieces(out@) == lines(s@),
{
    let mut out: Vec<&[char]> = Vec::new();
    let mut rest: &[char] = s;
    proof {
        assert(pieces(out@) + lines(rest@) =~= lines(s@));
    }
    while rest.len() > 0
        invariant
            pieces(out@) + lines(rest@) == lines(s@),
        decreases rest@.len(),
    {
        let ghost before = out@;
        let ghost old_rest = rest@;
        match index_of(rest, '\n') {
            Some(i) => {
                let row = head(rest, i);
                let row = if finishes_with(row, '\r') {
                    head(row, row.len() - 1)
                } else {
                    row
                };
                out.push(row);
                rest = tail(rest, i + 1);
                proof {
                    let one = seq![strip_return(old_rest.take(i as int))];
                    assert(row@ =~= strip_return(old_rest.take(i as int)));
                    assert(pieces(out@) =~= pieces(before) + one);
                    assert(lines(old_rest) =~= one + lines(rest@));
                    assert(pieces(before) + (one + lines(rest@)) =~= (pieces(before) + one)
                        + lines(rest@));
                }
            },
            None => {
                out.push(rest);
                rest = tail(rest, rest.len());
                proof {
                    assert(pieces(out@) =~= pieces(before) + seq![old_rest]);
                    assert(pieces(out@) + lines(rest@) =~= pieces(out@));
                }
            },
        }
    }
    proof {
        assert(pieces(out@) + lines(rest@) =~= pieces(out@));
    }
    out
}

/// The words of `s`.
pub fn word_list(s: &[char]) -> (out: Vec<&[char]>)
    ensures
        pieces(out@) == words(s@),
{
    let mut out: Vec<&[char]> = Vec::new();
    let mut rest: &[char] = trim_left(s);
    proof {
        lemma_words_trimmed(s@);
        assert(pieces(out@) + words(rest@) =~= words(s@));
    }
    while rest.len() > 0
        invariant
            pieces(out@) + words(rest@) == words(s@),
            rest@.len() > 0 ==> !is_space(rest@[0]),
        decreases rest@.len(),
    {
        let ghost before = out@;
        let ghost old_rest = rest@;
        let mut n: usize = 0;
        while n < rest.len() && !char_is_space(rest[n])
            invariant
                n <= rest@.len(),
                forall|j: int| 0 <= j < n ==> !is_space(#[trigger] rest@[j]),
            decreases rest@.len() - n,
        {
            n = n + 1;
        }
        proof {
            lemma_span(old_rest, space(), 0);
            lemma_span(old_rest, ink(), n as int);
            assert(strip_front(old_rest, space()) =~= old_rest);
        }
        let word = head(rest, n);
        let after = tail(rest, n);
        rest = trim_left(after);
        out.push(word);
        proof {
            lemma_span_bounds(after@, space());
            lemma_words_trimmed(after@);
            let one = seq![old_rest.take(n as int)];
            assert(pieces(out@) =~= pieces(before) + one);
            assert(words(old_rest) =~= one + words(rest@));
            assert(pieces(before) + (one + words(rest@)) =~= (pieces(before) + one) + words(rest@));
        }
    }
    proof {
        lemma_span(rest@, space(), 0);
        assert(words(rest@) =~= seq![]);
        assert(pieces(out@) + words(rest@) =~= pieces(out@));
    }
    out
}

/// White space in front changes no word.
proof fn lemma_words_trimmed(s: Seq<char>)
    ensures
        words(strip_front(s, space())) == words(s),
        strip_front(s, space()).len() > 0 ==> !is_space(strip_front(s, space())[0]),
{
    lemma_span_bounds(s, space());
    let t = strip_front(s, space());
    lemma_span(t, space(), 0);
    assert(strip_front(t, space()) =~= t);
}

/// The parts one after the other, with `sep` between each two.
pub fn join_text(parts: &Vec<String>, sep: &str) -> (out: String)
    ensures
        out@ == join(texts(parts@), sep@),
{
    let mut out: String = String::new();
    let ghost all = texts(parts@);
    for i in 0..parts.len()
        invariant
            all == texts(parts@),
            out@ == join(all.take(i as int), sep@),
    {
        proof {
            assert(all.take(i + 1).drop_last() =~= all.take(i as int));
            assert(all.take(i + 1).last() == parts@[i as int]@);
        }
        if i > 0 {
            out.append(sep);
        }
        out.append(parts[i].as_str());
        assert(out@ =~= join(all.take(i + 1), sep@));
    }
    assert(all.take(all.len() as int) =~= all);
    out
}

/// `s` with its ASCII capital letters as small letters.
pub fn lowered(s: &[char]) -> (out: Vec<char>)
    ensures
        out@ == lower(s@),
{
    let mut out: Vec<char> = Vec::new();
    for i in 0..s.len()
        invariant
            out@ == lower(s@.take(i as int)),
    {
        let c = s[i];
        let n: u32 = c as u32;
        let d = if 65 <= n && n <= 90 {
            ((n + 32) as u8) as char
        } else {
            c
        };
        out.push(d);
        assert(out@ =~= lower(s@.take(i + 1)));
    }
    assert(s@.take(s@.len() as int) =~= s@);
    out
}

/// A copy of the string slice as a string.
pub fn owned(s: &str) -> (r: String)
    ensures
        r@ == s@,
{
    s.to_string()
}

/// A copy of an optional string.
pub fn copy_opt(o: &Option<String>) -> (r: Option<String>)
    ensures
        opt_text(r) == opt_text(*o),
{
    match o {
        Some(s) => Some(s.clone()),
        None => None,
    }
}

} // verus!
