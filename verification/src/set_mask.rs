//! Pascal sets: 256 members, kept as a bit mask of four words, shown as a set literal.

use vstd::prelude::*;

use crate::number::{
    decimal, digit, digits, hex_of, i64_of, is_digit, lemma_decimal_reads_back, lemma_digit_is_ink,
    lemma_digits_count, lemma_numbers_read_back, natural, push_decimal, read_hex, read_i64, show,
};
use crate::text::{
    after_prefix, cut, is_space, join, join_text, lemma_cut, lemma_cut_behind, lemma_index,
    lemma_occurs, lemma_split_at, lemma_split_whole, lemma_strip_char, lemma_trim_around,
    lemma_trim_ink, lemma_trim_padded, pieces, same_as, split,
    split_on, starts_with, strip_back, strip_front, texts, to_chars, trim, trim_back_char,
    trim_front_char, trimmed,
};

verus! {

/// How many members a set can have.
pub const SET_SIZE: u32 = 256;

/// How many members one word of the mask holds.
pub const WORD_BITS: u32 = 64;

/// The word with the same bits as `n`: a negative number counts down from two to the 64th.
pub open spec fn bits_of(n: i64) -> u64 {
    if n < 0 {
        (n + 0x1_0000_0000_0000_0000) as u64
    } else {
        n as u64
    }
}

/// The word that an entry such as `[0] = 0x0a` or `[1] = 5` gives: what stands between its first
/// and second equals sign, as a hexadecimal or a signed decimal number.
pub open spec fn set_word(entry: Seq<char>) -> Option<u64> {
    let sides = split(entry, '=');
    if sides.len() < 2 {
        None
    } else {
        let v = trim(sides[1]);
        if starts_with(v, "0x"@) {
            hex_of(trim(v.skip("0x"@.len() as int)))
        } else {
            match i64_of(v) {
                Some(n) => Some(bits_of(n)),
                None => None,
            }
        }
    }
}

/// The words of a list of entries, where every entry gives one.
pub open spec fn set_words(entries: Seq<Seq<char>>) -> Option<Seq<u64>> {
    if forall|i: int| 0 <= i < entries.len() ==> set_word(#[trigger] entries[i]) is Some {
        Some(Seq::new(entries.len(), |i: int| set_word(entries[i])->0))
    } else {
        None
    }
}

/// The first four words, with zeros for those that are missing.
pub open spec fn mask_of(words: Seq<u64>) -> Seq<u64> {
    Seq::new(
        4,
        |i: int|
            if i < words.len() {
                words[i]
            } else {
                0
            },
    )
}

/// `n` is a member of the set with the given mask.
pub open spec fn in_set(mask: Seq<u64>, n: nat) -> bool {
    (mask[(n / 64) as int] >> ((n % 64) as u64)) & 1 == 1
}

/// The members of the set that are less than `n`, in rising order.
pub open spec fn members_below(mask: Seq<u64>, n: nat) -> Seq<nat>
    decreases n,
{
    if n == 0 {
        seq![]
    } else if in_set(mask, (n - 1) as nat) {
        members_below(mask, (n - 1) as nat).push((n - 1) as nat)
    } else {
        members_below(mask, (n - 1) as nat)
    }
}

/// The members of the set, in rising order.
pub open spec fn members(mask: Seq<u64>) -> Seq<nat> {
    members_below(mask, 256)
}

/// The position at which the run of consecutive numbers that starts at position `i` ends.
pub open spec fn run_end(m: Seq<nat>, i: int) -> int
    decreases m.len() - i,
{
    if 0 <= i && i + 1 < m.len() && m[i + 1] == m[i] + 1 {
        run_end(m, i + 1)
    } else {
        i
    }
}

/// The runs of consecutive numbers in `m` from position `i` on, each as its first and last number.
pub open spec fn runs_from(m: Seq<nat>, i: int) -> Seq<(nat, nat)>
    decreases m.len() - i,
{
    let e = run_end(m, i);
    if 0 <= i <= e < m.len() {
        seq![(m[i], m[e])] + runs_from(m, e + 1)
    } else {
        seq![]
    }
}

/// One run as text: a number, a pair, or a range.
pub open spec fn run_text(run: (nat, nat)) -> Seq<char> {
    if run.0 == run.1 {
        decimal(run.0)
    } else if run.1 == run.0 + 1 {
        decimal(run.0) + ","@ + decimal(run.1)
    } else {
        decimal(run.0) + ".."@ + decimal(run.1)
    }
}

/// The runs as texts.
pub open spec fn run_texts(runs: Seq<(nat, nat)>) -> Seq<Seq<char>> {
    runs.map_values(|r: (nat, nat)| run_text(r))
}

/// The set literal of the set with the given mask.
pub open spec fn set_literal(mask: Seq<u64>) -> Seq<char> {
    let m = members(mask);
    if m.len() == 0 {
        "[]"@
    } else {
        "["@ + join(run_texts(runs_from(m, 0)), ", "@) + "]"@
    }
}

/// The entries between the parentheses of a dump such as `([0] = 10, [1] = 0)`.
pub open spec fn mask_entries(raw: Seq<char>) -> Seq<Seq<char>> {
    split(strip_back(strip_front(trim(raw), same_as('(')), same_as(')')), ',')
}

/// The set literal for the dump of a mask, where every entry of the dump is a word.
pub open spec fn decoded_set(raw: Seq<char>) -> Option<Seq<char>> {
    match set_words(mask_entries(raw)) {
        Some(words) => Some(set_literal(mask_of(words))),
        None => None,
    }
}

/// The numbers that a list of ordinals shows.
spec fn nats(v: Seq<u32>) -> Seq<nat> {
    v.map_values(|n: u32| n as nat)
}

/// The members below a bound rise, and are those numbers below it that are in the set.
proof fn lemma_members_below(mask: Seq<u64>, n: nat)
    ensures
        forall|i: int| 0 <= i < members_below(mask, n).len() ==> {
            &&& (#[trigger] members_below(mask, n)[i]) < n
            &&& in_set(mask, members_below(mask, n)[i])
        },
        forall|i: int, j: int|
            0 <= i < j < members_below(mask, n).len() ==> members_below(mask, n)[i]
                < members_below(mask, n)[j],
        forall|k: nat|
            k < n && #[trigger] in_set(mask, k) ==> members_below(mask, n).contains(k),
    decreases n,
{
    if n > 0 {
        let p = (n - 1) as nat;
        lemma_members_below(mask, p);
        let lo = members_below(mask, p);
        let hi = members_below(mask, n);
        if in_set(mask, p) {
            assert(hi.last() == p);
            assert forall|k: nat| k < n && #[trigger] in_set(mask, k) implies hi.contains(k) by {
                if k < p {
                    let i = choose|i: int| 0 <= i < lo.len() && lo[i] == k;
                    assert(hi[i] == k);
                } else {
                    assert(hi[hi.len() - 1] == k);
                }
            }
        }
    }
}

/// A run ends inside the list, and holds consecutive numbers up to a gap.
proof fn lemma_run_end(m: Seq<nat>, i: int)
    requires
        0 <= i < m.len(),
    ensures
        i <= run_end(m, i) < m.len(),
        forall|j: int| i <= j <= run_end(m, i) ==> (#[trigger] m[j]) == m[i] + (j - i),
        run_end(m, i) + 1 < m.len() ==> m[run_end(m, i) + 1] != m[run_end(m, i)] + 1,
    decreases m.len() - i,
{
    if i + 1 < m.len() && m[i + 1] == m[i] + 1 {
        lemma_run_end(m, i + 1);
        assert forall|j: int| i <= j <= run_end(m, i) implies (#[trigger] m[j]) == m[i] + (j - i) by {
            if j > i {
                assert(m[j] == m[i + 1] + (j - (i + 1)));
            }
        }
    }
}

/// The runs of a rising list cover its numbers from a position on, each number of a run is in the
/// list, and between two runs at least one number is missing.
proof fn lemma_runs_from(m: Seq<nat>, i: int)
    requires
        0 <= i <= m.len(),
        forall|a: int, b: int| 0 <= a < b < m.len() ==> m[a] < m[b],
    ensures
        forall|j: int|
            i <= j < m.len() ==> exists|k: int|
                0 <= k < runs_from(m, i).len() && (#[trigger] runs_from(m, i)[k]).0 <= #[trigger] m[j]
                    <= runs_from(m, i)[k].1,
        forall|k: int, n: nat|
            0 <= k < runs_from(m, i).len() && (#[trigger] runs_from(m, i)[k]).0 <= n
                <= runs_from(m, i)[k].1 ==> #[trigger] m.contains(n),
        forall|k: int|
            0 <= k < runs_from(m, i).len() ==> m[i] <= (#[trigger] runs_from(m, i)[k]).0
                <= runs_from(m, i)[k].1,
        forall|k: int, l: int|
            0 <= k < l < runs_from(m, i).len() ==> (#[trigger] runs_from(m, i)[k]).1 + 1 < (
            #[trigger] runs_from(m, i)[l]).0,
    decreases m.len() - i,
{
    let all = runs_from(m, i);
    if i < m.len() {
        lemma_run_end(m, i);
        let e = run_end(m, i);
        let rest = runs_from(m, e + 1);
        lemma_runs_from(m, e + 1);
        assert(all =~= seq![(m[i], m[e])] + rest);
        assert forall|j: int| i <= j < m.len() implies exists|k: int|
            0 <= k < all.len() && (#[trigger] all[k]).0 <= #[trigger] m[j] <= all[k].1 by {
            if j <= e {
                assert(all[0].0 <= m[j] <= all[0].1);
            } else {
                let k = choose|k: int|
                    0 <= k < rest.len() && (#[trigger] rest[k]).0 <= m[j] <= rest[k].1;
                assert(all[k + 1] == rest[k]);
            }
        }
        assert forall|k: int, n: nat|
            0 <= k < all.len() && (#[trigger] all[k]).0 <= n <= all[k].1 implies #[trigger] m.contains(
            n,
        ) by {
            if k == 0 {
                assert(m[i + (n - m[i])] == n);
            } else {
                assert(all[k] == rest[k - 1]);
            }
        }
        assert forall|k: int| 0 <= k < all.len() implies m[i] <= (#[trigger] all[k]).0
            <= all[k].1 by {
            if k > 0 {
                assert(all[k] == rest[k - 1]);
                assert(e + 1 < m.len());
                assert(m[i] < m[e + 1]);
            }
        }
        assert forall|k: int, l: int| 0 <= k < l < all.len() implies (#[trigger] all[k]).1 + 1 < (
        #[trigger] all[l]).0 by {
            assert(all[l] == rest[l - 1]);
            if k == 0 {
                assert(e + 1 < m.len());
                assert(m[e] < m[e + 1]);
                assert(m[e + 1] <= rest[l - 1].0);
            } else {
                assert(all[k] == rest[k - 1]);
            }
        }
    }
}

/// The runs that a set literal lists cover exactly the members of the set.
pub proof fn lemma_literal_lists_members(mask: Seq<u64>, n: nat)
    requires
        n < 256,
    ensures
        in_set(mask, n) <==> exists|k: int|
            0 <= k < runs_from(members(mask), 0).len() && (#[trigger] runs_from(
                members(mask),
                0,
            )[k]).0 <= n <= runs_from(members(mask), 0)[k].1,
{
    let m = members(mask);
    let runs = runs_from(m, 0);
    lemma_members_below(mask, 256);
    lemma_runs_from(m, 0);
    if in_set(mask, n) {
        assert(m.contains(n));
        let j = choose|j: int| 0 <= j < m.len() && m[j] == n;
        assert(m[j] == n);
        let k = choose|k: int| 0 <= k < runs.len() && (#[trigger] runs[k]).0 <= m[j] <= runs[k].1;
        assert(runs[k].0 <= n <= runs[k].1);
    }
    if exists|k: int| 0 <= k < runs.len() && (#[trigger] runs[k]).0 <= n <= runs[k].1 {
        assert(m.contains(n));
    }
}

/// The runs that a set literal lists rise, and are as long as can be: between two of them at least
/// one number is missing.
pub proof fn lemma_literal_runs_apart(mask: Seq<u64>, k: int, l: int)
    requires
        0 <= k < l < runs_from(members(mask), 0).len(),
    ensures
        runs_from(members(mask), 0)[k].0 <= runs_from(members(mask), 0)[k].1,
        runs_from(members(mask), 0)[k].1 + 1 < runs_from(members(mask), 0)[l].0,
{
    lemma_members_below(mask, 256);
    lemma_runs_from(members(mask), 0);
}

/// A piece of a set literal names `n`: it is the number, or a range `a..b` that holds it.
pub open spec fn piece_names(piece: Seq<char>, n: nat) -> bool {
    match cut(trim(piece), ".."@) {
        Some((from, to)) => match (natural(from, 10), natural(to, 10)) {
            (Some(lo), Some(hi)) => lo <= n <= hi,
            _ => false,
        },
        None => natural(trim(piece), 10) == Some(n),
    }
}

/// One of the pieces between the commas names `n`.
pub open spec fn list_names(list: Seq<char>, n: nat) -> bool {
    exists|i: int| 0 <= i < split(list, ',').len() && piece_names(#[trigger] split(list, ',')[i], n)
}

/// A set literal names `n`, as a reader of Pascal takes it: between the brackets stand numbers and
/// ranges, with commas between them.
pub open spec fn literal_names(literal: Seq<char>, n: nat) -> bool {
    &&& literal.len() >= 2
    &&& literal[0] == '['
    &&& literal.last() == ']'
    &&& list_names(literal.subrange(1, literal.len() - 1), n)
}

/// Two lists with a comma between them name what the one or the other names.
proof fn lemma_names_both(a: Seq<char>, b: Seq<char>, n: nat)
    ensures
        list_names(a + seq![','] + b, n) <==> list_names(a, n) || list_names(b, n),
{
    let all = split(a + seq![','] + b, ',');
    let x = split(a, ',');
    let y = split(b, ',');
    lemma_split_at(a, b, ',');
    if list_names(a + seq![','] + b, n) {
        let i = choose|i: int| 0 <= i < all.len() && piece_names(#[trigger] all[i], n);
        if i < x.len() {
            assert(piece_names(x[i], n));
        } else {
            assert(piece_names(y[i - x.len()], n));
        }
    }
    if list_names(a, n) {
        let i = choose|i: int| 0 <= i < x.len() && piece_names(#[trigger] x[i], n);
        assert(piece_names(all[i], n));
    }
    if list_names(b, n) {
        let i = choose|i: int| 0 <= i < y.len() && piece_names(#[trigger] y[i], n);
        assert(piece_names(all[i + x.len()], n));
    }
}

/// A list without commas is one piece.
proof fn lemma_names_one(s: Seq<char>, n: nat)
    requires
        !s.contains(','),
    ensures
        list_names(s, n) <==> piece_names(s, n),
{
    lemma_split_whole(s, ',');
    assert(split(s, ',')[0] == s);
}

/// A blank in front of a list changes nothing.
proof fn lemma_names_blank(s: Seq<char>, n: nat)
    ensures
        list_names(seq![' '] + s, n) <==> list_names(s, n),
{
    lemma_index(s, ',');
    let gap = seq![' '];
    let none = Seq::<char>::empty();
    match crate::text::index(s, ',') {
        Some(i) => {
            let a = s.take(i);
            let b = s.skip(i + 1);
            assert(s =~= a + seq![','] + b);
            assert(gap + s =~= (gap + a) + seq![','] + b);
            lemma_names_both(a, b, n);
            lemma_names_both(gap + a, b, n);
            assert forall|k: int| 0 <= k < (gap + a).len() implies (gap + a)[k] != ',' by {
                if k > 0 {
                    assert(a.contains(a[k - 1]));
                }
            }
            lemma_names_one(a, n);
            lemma_names_one(gap + a, n);
            assert(gap + a + none =~= gap + a);
            lemma_trim_padded(gap, a, none);
        },
        None => {
            assert forall|k: int| 0 <= k < (gap + s).len() implies (gap + s)[k] != ',' by {
                if k > 0 {
                    assert(s.contains(s[k - 1]));
                }
            }
            lemma_names_one(s, n);
            lemma_names_one(gap + s, n);
            assert(gap + s + none =~= gap + s);
            lemma_trim_padded(gap, s, none);
        },
    }
}

/// A list of parts names what one of the parts names.
proof fn lemma_names_join(parts: Seq<Seq<char>>, n: nat)
    requires
        parts.len() > 0,
    ensures
        list_names(join(parts, ", "@), n) <==> exists|k: int|
            0 <= k < parts.len() && list_names(#[trigger] parts[k], n),
    decreases parts.len(),
{
    reveal_strlit(", ");
    if parts.len() == 1 {
        if list_names(parts[0], n) {
            assert(list_names(parts[0], n));
        }
    } else {
        let fewer = parts.drop_last();
        let last = parts.last();
        lemma_names_join(fewer, n);
        assert(join(parts, ", "@) =~= join(fewer, ", "@) + seq![','] + (seq![' '] + last));
        lemma_names_both(join(fewer, ", "@), seq![' '] + last, n);
        lemma_names_blank(last, n);
        if exists|k: int| 0 <= k < fewer.len() && list_names(#[trigger] fewer[k], n) {
            let k = choose|k: int| 0 <= k < fewer.len() && list_names(#[trigger] fewer[k], n);
            assert(list_names(parts[k], n));
        }
        if list_names(last, n) {
            assert(list_names(parts[parts.len() - 1], n));
        }
        if exists|k: int| 0 <= k < parts.len() && list_names(#[trigger] parts[k], n) {
            let k = choose|k: int| 0 <= k < parts.len() && list_names(#[trigger] parts[k], n);
            if k < fewer.len() {
                assert(list_names(fewer[k], n));
            }
        }
    }
}

/// A decimal number holds no other characters than digits, reads back, and is not trimmed.
proof fn lemma_plain_decimal(n: nat)
    ensures
        forall|c: char| !is_digit(c) ==> !#[trigger] decimal(n).contains(c),
        natural(decimal(n), 10) == Some(n),
        decimal(n).len() > 0,
        !is_space(decimal(n)[0]),
        !is_space(decimal(n).last()),
        trim(decimal(n)) == decimal(n),
{
    lemma_decimal_reads_back(n);
    let d = decimal(n);
    assert(is_digit(d[0]));
    assert(is_digit(d[d.len() - 1]));
    lemma_digit_is_ink(d[0]);
    lemma_digit_is_ink(d[d.len() - 1]);
    lemma_trim_ink(d);
}

/// The text of one run names the numbers of the run.
proof fn lemma_names_run(run: (nat, nat), n: nat)
    requires
        run.0 <= run.1,
    ensures
        list_names(run_text(run), n) <==> run.0 <= n <= run.1,
{
    reveal_strlit("..");
    reveal_strlit(",");
    lemma_plain_decimal(run.0);
    lemma_plain_decimal(run.1);
    let a = decimal(run.0);
    let b = decimal(run.1);
    lemma_names_number(run.0, n);
    lemma_names_number(run.1, n);
    if run.0 == run.1 {
    } else if run.1 == run.0 + 1 {
        assert(run_text(run) =~= a + seq![','] + b);
        lemma_names_both(a, b, n);
    } else {
        let t = a + ".."@ + b;
        assert forall|k: int| 0 <= k < t.len() implies t[k] != ',' by {
            if k < a.len() {
                assert(a.contains(a[k]));
            } else if k >= a.len() + 2 {
                assert(b.contains(b[k - a.len() - 2]));
            }
        }
        lemma_names_one(t, n);
        assert(t[0] == a[0] && t.last() == b.last());
        lemma_trim_ink(t);
        lemma_cut_behind(a, ".."@, b);
    }
}

/// A number as a list names itself.
proof fn lemma_names_number(m: nat, n: nat)
    ensures
        list_names(decimal(m), n) <==> n == m,
{
    reveal_strlit("..");
    lemma_plain_decimal(m);
    let d = decimal(m);
    lemma_names_one(d, n);
    lemma_cut(d, ".."@);
    if let Some((x, y)) = cut(d, ".."@) {
        assert(d == x + ".."@ + y);
        assert(d[x.len() as int] == '.');
        assert(d.contains('.'));
    }
}

/// Reading a set literal back gives the set: the numbers that it names, ranges taken whole, are
/// exactly the members, that is the numbers below 256 whose bit is set in the mask.
pub proof fn lemma_literal_reads_back(mask: Seq<u64>, n: nat)
    requires
        mask.len() == 4,
    ensures
        literal_names(set_literal(mask), n) <==> n < 256 && (mask[(n / 64) as int] >> ((n
            % 64) as u64)) & 1 == 1,
{
    reveal_strlit("[]");
    reveal_strlit("[");
    reveal_strlit("]");
    let m = members(mask);
    lemma_members_below(mask, 256);
    if n < 256 && in_set(mask, n) {
        assert(m.contains(n));
    }
    if m.len() == 0 {
        let inner = set_literal(mask).subrange(1, 1);
        assert(inner =~= Seq::<char>::empty());
        lemma_names_one(inner, n);
        lemma_trim_ink(inner);
        reveal_strlit("..");
    } else {
        let runs = runs_from(m, 0);
        let parts = run_texts(runs);
        lemma_runs_from(m, 0);
        let text = set_literal(mask);
        assert(text.subrange(1, text.len() - 1) =~= join(parts, ", "@));
        assert(runs.len() > 0) by {
            lemma_run_end(m, 0);
        }
        lemma_names_join(parts, n);
        if exists|k: int| 0 <= k < parts.len() && list_names(#[trigger] parts[k], n) {
            let k = choose|k: int| 0 <= k < parts.len() && list_names(#[trigger] parts[k], n);
            lemma_names_run(runs[k], n);
            assert(runs[k].0 <= n <= runs[k].1);
            assert(m.contains(n));
            let j = choose|j: int| 0 <= j < m.len() && m[j] == n;
            assert(m[j] < 256 && in_set(mask, m[j]));
        }
        if n < 256 && in_set(mask, n) {
            lemma_literal_lists_members(mask, n);
            let k = choose|k: int| 0 <= k < runs.len() && (#[trigger] runs[k]).0 <= n <= runs[k].1;
            lemma_names_run(runs[k], n);
            assert(list_names(parts[k], n));
        }
    }
}

/// The literal is written out run by run: a stretch of members that no member stands next to is
/// one part, a number, a pair with a comma, or from three on a range from its first to its last.
pub proof fn lemma_literal_writes_runs(mask: Seq<u64>, from: nat, to: nat) -> (parts: Seq<Seq<char>>)
    requires
        mask.len() == 4,
        from <= to < 256,
        forall|n: nat| from <= n <= to ==> #[trigger] in_set(mask, n),
        from > 0 ==> !in_set(mask, (from - 1) as nat),
        to < 255 ==> !in_set(mask, (to + 1) as nat),
    ensures
        set_literal(mask) == "["@ + join(parts, ", "@) + "]"@,
        parts.contains(
            if from == to {
                decimal(from)
            } else if to == from + 1 {
                decimal(from) + ","@ + decimal(to)
            } else {
                decimal(from) + ".."@ + decimal(to)
            },
        ),
{
    let m = members(mask);
    let runs = runs_from(m, 0);
    lemma_members_below(mask, 256);
    lemma_runs_from(m, 0);
    assert(in_set(mask, from));
    assert(in_set(mask, to));
    lemma_literal_lists_members(mask, from);
    let k = choose|k: int| 0 <= k < runs.len() && (#[trigger] runs[k]).0 <= from <= runs[k].1;
    lemma_literal_lists_members(mask, to);
    let l = choose|l: int| 0 <= l < runs.len() && (#[trigger] runs[l]).0 <= to <= runs[l].1;
    if k < l {
        let gap = (runs[k].1 + 1) as nat;
        assert(runs[k].1 + 1 < runs[l].0);
        assert(in_set(mask, gap));
        lemma_literal_lists_members(mask, gap);
        let j = choose|j: int| 0 <= j < runs.len() && (#[trigger] runs[j]).0 <= gap <= runs[j].1;
        if j < k {
            assert(runs[j].1 + 1 < runs[k].0);
        } else if j > k {
            assert(runs[k].1 + 1 < runs[j].0);
        }
        assert(false);
    }
    if l < k {
        assert(runs[l].1 + 1 < runs[k].0);
        assert(false);
    }
    if runs[k].0 < from {
        let below = (from - 1) as nat;
        assert(m.contains(below));
        let j = choose|j: int| 0 <= j < m.len() && m[j] == below;
        assert(in_set(mask, m[j]));
    }
    if runs[k].1 > to {
        let above = (to + 1) as nat;
        assert(m.contains(above));
        let j = choose|j: int| 0 <= j < m.len() && m[j] == above;
        assert(m[j] < 256 && in_set(mask, m[j]));
    }
    assert(runs[k] == (from, to));
    let parts = run_texts(runs);
    assert(parts[k] == run_text((from, to)));
    parts
}

/// The signed number that has the bits of `w`.
pub open spec fn as_signed(w: u64) -> int {
    if w >= 0x8000_0000_0000_0000 {
        w - 0x1_0000_0000_0000_0000
    } else {
        w as int
    }
}

/// `text` is a way in which the debugger writes the word `w`: as a signed number, or as `0x` and
/// hexadecimal digits.
pub open spec fn writes_word(text: Seq<char>, w: u64) -> bool {
    ||| text == show(as_signed(w))
    ||| text.len() > 2 && text.take(2) == "0x"@ && digits(text.skip(2), 16) == Some(w as nat)
}

/// The entry number `k` of a dump: its index in brackets, an equals sign and its value.
pub open spec fn dump_entry(k: int, text: Seq<char>) -> Seq<char> {
    "["@ + decimal(k as nat) + "] = "@ + text
}

/// The dump of an array with the given values.
pub open spec fn array_dump(values: Seq<Seq<char>>) -> Seq<char> {
    "("@ + join(Seq::new(values.len(), |k: int| dump_entry(k, values[k])), ", "@) + ")"@
}

/// A run of digits to base sixteen has hexadecimal digits only.
proof fn lemma_hex_digits(s: Seq<char>)
    ensures
        digits(s, 16) is Some ==> forall|i: int|
            0 <= i < s.len() ==> digit(#[trigger] s[i], 16) is Some,
    decreases s.len(),
{
    if s.len() > 0 {
        lemma_hex_digits(s.drop_last());
        assert(s.drop_last().push(s.last()) =~= s);
        lemma_digits_count(s.drop_last(), s.last(), 16);
        assert forall|i: int| 0 <= i < s.len() && digits(s, 16) is Some implies digit(
            #[trigger] s[i],
            16,
        ) is Some by {
            if i < s.len() - 1 {
                assert(s.drop_last()[i] == s[i]);
            }
        }
    }
}

/// What a written word is made of: no separators, no white space at its ends.
proof fn lemma_written_word(text: Seq<char>, w: u64)
    requires
        writes_word(text, w),
    ensures
        text.len() > 0,
        !text.contains('='),
        !text.contains(','),
        !is_space(text[0]),
        !is_space(text.last()),
        text.last() != ')',
        text.last() != '(',
{
    reveal_strlit("0x");
    let n = as_signed(w);
    if text == show(n) {
        let d = decimal(if n < 0 {
            (-n) as nat
        } else {
            n as nat
        });
        lemma_decimal_reads_back(if n < 0 {
            (-n) as nat
        } else {
            n as nat
        });
        assert(is_digit(d[0]) && is_digit(d[d.len() - 1]));
        assert(text.last() == d[d.len() - 1]);
        lemma_digit_is_ink(text.last());
        lemma_digit_is_ink(text[0]);
        assert forall|k: int| 0 <= k < text.len() implies is_digit(text[k]) || text[k] == '-' by {
            if n < 0 && k > 0 {
                assert(text[k] == d[k - 1]);
            }
        }
    } else {
        let h = text.skip(2);
        lemma_hex_digits(h);
        assert(text.take(2)[0] == '0' && text.take(2)[1] == 'x');
        assert forall|k: int| 2 <= k < text.len() implies digit(text[k], 16) is Some by {
            assert(h[k - 2] == text[k]);
        }
        assert(digit(text[text.len() - 1], 16) is Some);
        lemma_digit_is_ink(text[text.len() - 1]);
        assert(text[0] == '0');
    }
}

/// An entry of a dump gives the word that it writes.
proof fn lemma_entry_word(gap: Seq<char>, k: int, text: Seq<char>, w: u64)
    requires
        writes_word(text, w),
        0 <= k,
        gap == Seq::<char>::empty() || gap == seq![' '],
    ensures
        set_word(gap + dump_entry(k, text)) == Some(w),
{
    reveal_strlit("[");
    reveal_strlit("] = ");
    reveal_strlit("0x");
    lemma_written_word(text, w);
    lemma_plain_decimal(k as nat);
    let d = decimal(k as nat);
    let left = gap + "["@ + d + seq![']', ' '];
    let right = seq![' '] + text;
    let entry = gap + dump_entry(k, text);
    assert(entry =~= left + seq!['='] + right);
    assert forall|i: int| 0 <= i < left.len() implies left[i] != '=' by {
        let g = gap.len() as int;
        if i >= g + 1 && i < g + 1 + d.len() {
            assert(left[i] == d[i - g - 1]);
            assert(d.contains(d[i - g - 1]));
        }
    }
    assert forall|i: int| 0 <= i < right.len() implies right[i] != '=' by {
        if i > 0 {
            assert(text.contains(text[i - 1]));
        }
    }
    lemma_split_at(left, right, '=');
    lemma_split_whole(left, '=');
    lemma_split_whole(right, '=');
    let sides = split(entry, '=');
    assert(sides =~= seq![left, right]);
    let none = Seq::<char>::empty();
    assert(right =~= seq![' '] + text + none);
    lemma_trim_around(seq![' '], text, none);
    let n = as_signed(w);
    lemma_occurs(text, "0x"@, 0);
    if text == show(n) {
        lemma_numbers_read_back(n);
        assert(bits_of(n as i64) == w);
        if starts_with(text, "0x"@) {
            assert(text[0int + 0int] == "0x"@[0] && text[0int + 1int] == "0x"@[1]);
            let d = decimal(n as nat);
            lemma_decimal_reads_back(n as nat);
            assert(is_digit(d[1]));
            assert(false);
        }
    } else {
        assert(text.subrange(0, 2) =~= text.take(2));
        let h = text.skip(2);
        lemma_hex_digits(h);
        assert(digit(h[0], 16) is Some && digit(h[h.len() - 1], 16) is Some);
        lemma_digit_is_ink(h[0]);
        lemma_digit_is_ink(h[h.len() - 1]);
        lemma_trim_ink(h);
    }
}

/// The pieces of parts joined with a comma and a blank: all but the first start with the blank.
proof fn lemma_split_listed(parts: Seq<Seq<char>>)
    requires
        parts.len() > 0,
        forall|i: int| 0 <= i < parts.len() ==> !(#[trigger] parts[i]).contains(','),
    ensures
        split(join(parts, ", "@), ',') == Seq::new(
            parts.len(),
            |k: int|
                if k == 0 {
                    parts[0]
                } else {
                    seq![' '] + parts[k]
                },
        ),
    decreases parts.len(),
{
    reveal_strlit(", ");
    if parts.len() == 1 {
        lemma_split_whole(parts[0], ',');
        assert(split(parts[0], ',') =~= Seq::new(
            parts.len(),
            |k: int|
                if k == 0 {
                    parts[0]
                } else {
                    seq![' '] + parts[k]
                },
        ));
    } else {
        let fewer = parts.drop_last();
        let last = seq![' '] + parts.last();
        assert forall|i: int| 0 <= i < fewer.len() implies !(#[trigger] fewer[i]).contains(',') by {
            assert(fewer[i] == parts[i]);
        }
        lemma_split_listed(fewer);
        assert(join(parts, ", "@) =~= join(fewer, ", "@) + seq![','] + last);
        assert forall|i: int| 0 <= i < last.len() implies last[i] != ',' by {
            if i > 0 {
                assert(parts[parts.len() - 1].contains(last[i]));
            }
        }
        lemma_split_at(join(fewer, ", "@), last, ',');
        lemma_split_whole(last, ',');
        assert(split(join(parts, ", "@), ',') =~= Seq::new(
            parts.len(),
            |k: int|
                if k == 0 {
                    parts[0]
                } else {
                    seq![' '] + parts[k]
                },
        ));
    }
}

/// A joined list starts as its first part does and ends as its last.
pub(crate) proof fn lemma_join_ends(parts: Seq<Seq<char>>, sep: Seq<char>)
    requires
        parts.len() > 0,
        parts[0].len() > 0,
        parts.last().len() > 0,
    ensures
        join(parts, sep).len() > 0,
        join(parts, sep)[0] == parts[0][0],
        join(parts, sep).last() == parts.last().last(),
    decreases parts.len(),
{
    if parts.len() > 1 {
        let fewer = parts.drop_last();
        lemma_join_first_char(fewer, sep);
        let j = join(parts, sep);
        assert(j == join(fewer, sep) + sep + parts.last());
        assert(j[0] == join(fewer, sep)[0]);
        assert(j.last() == parts.last().last());
    }
}

/// A joined list starts as its first part does.
proof fn lemma_join_first_char(parts: Seq<Seq<char>>, sep: Seq<char>)
    requires
        parts.len() > 0,
        parts[0].len() > 0,
    ensures
        join(parts, sep).len() > 0,
        join(parts, sep)[0] == parts[0][0],
    decreases parts.len(),
{
    if parts.len() > 1 {
        lemma_join_first_char(parts.drop_last(), sep);
        assert(join(parts, sep)[0] == join(parts.drop_last(), sep)[0]);
    }
}

/// The dump of a mask is decoded: whatever way each word is written, the literal names exactly the
/// numbers below 256 whose bit is set, bit `n % 64` of word `n / 64`. Words that are missing are
/// zero, and words behind the fourth do not count.
pub proof fn lemma_dump_decodes(values: Seq<Seq<char>>, words: Seq<u64>, n: nat)
    requires
        values.len() > 0,
        values.len() == words.len(),
        forall|k: int| 0 <= k < values.len() ==> writes_word(#[trigger] values[k], words[k]),
    ensures
        decoded_set(array_dump(values)) is Some,
        literal_names(decoded_set(array_dump(values))->0, n) <==> n < 256 && n / 64 < words.len()
            && (words[(n / 64) as int] >> ((n % 64) as u64)) & 1 == 1,
{
    reveal_strlit("(");
    reveal_strlit(")");
    reveal_strlit("[");
    reveal_strlit("] = ");
    let entries = Seq::new(values.len(), |k: int| dump_entry(k, values[k]));
    let inner = join(entries, ", "@);
    let raw = array_dump(values);
    assert forall|k: int| 0 <= k < entries.len() implies !(#[trigger] entries[k]).contains(',') by {
        lemma_written_word(values[k], words[k]);
        lemma_plain_decimal(k as nat);
        let d = decimal(k as nat);
        let e = entries[k];
        assert forall|i: int| 0 <= i < e.len() implies e[i] != ',' by {
            if 1 <= i < 1 + d.len() {
                assert(d.contains(d[i - 1]));
            } else if i >= 5 + d.len() {
                assert(values[k].contains(values[k][i - 5 - d.len()]));
            }
        }
    }
    let last = values.len() - 1;
    lemma_written_word(values[last], words[last]);
    assert(entries.last() == dump_entry(last, values[last]));
    assert(entries.last().last() == values[last].last());
    assert(entries[0][0] == '[');
    lemma_join_ends(entries, ", "@);
    assert(raw[0] == '(' && raw.last() == ')');
    lemma_trim_ink(raw);
    lemma_strip_char(inner + seq![')'], '(', 1);
    assert(Seq::new(1, |i: int| '(') =~= seq!['(']);
    assert(raw =~= seq!['('] + (inner + seq![')']));
    lemma_strip_char(inner, ')', 1);
    assert(Seq::new(1, |i: int| ')') =~= seq![')']);
    assert(strip_back(strip_front(trim(raw), same_as('(')), same_as(')')) == inner);
    lemma_split_listed(entries);
    let parts = mask_entries(raw);
    assert forall|k: int| 0 <= k < parts.len() implies set_word(#[trigger] parts[k]) == Some(
        words[k],
    ) by {
        let none = Seq::<char>::empty();
        if k == 0 {
            lemma_entry_word(none, 0, values[0], words[0]);
            assert(none + dump_entry(0, values[0]) =~= dump_entry(0, values[0]));
        } else {
            lemma_entry_word(seq![' '], k, values[k], words[k]);
        }
    }
    assert(set_words(parts) is Some);
    assert(set_words(parts)->0 =~= words);
    let mask = mask_of(words);
    lemma_literal_reads_back(mask, n);
    if n < 256 {
        let w = (n / 64) as int;
        assert(0 <= w < 4);
        if w >= words.len() {
            let b = (n % 64) as u64;
            assert((0u64 >> b) & 1 == 0) by (bit_vector);
        }
    }
}

/// A dump with an entry that has no equals sign is no mask.
pub proof fn lemma_no_mask_without_values(raw: Seq<char>, k: int)
    requires
        0 <= k < mask_entries(raw).len(),
        !mask_entries(raw)[k].contains('='),
    ensures
        decoded_set(raw) is None,
{
    lemma_split_whole(mask_entries(raw)[k], '=');
    assert(set_word(mask_entries(raw)[k]) is None);
}

/// The word that an entry of a mask dump gives.
fn read_word(entry: &[char]) -> (r: Option<u64>)
    ensures
        r == set_word(entry@),
{
    let sides = split_on(entry, '=');
    assert(pieces(sides@).len() == sides@.len());
    if sides.len() < 2 {
        return None;
    }
    assert(pieces(sides@)[1] == sides@[1]@);
    let v = trimmed(sides[1]);
    match after_prefix(v, "0x") {
        Some(rest) => read_hex(trimmed(rest)),
        None => match read_i64(v) {
            Some(n) => {
                if n < 0 {
                    let w: i128 = n as i128 + 0x1_0000_0000_0000_0000;
                    Some(w as u64)
                } else {
                    Some(n as u64)
                }
            },
            None => None,
        },
    }
}

/// The mask that a list of entries gives, where every entry gives a word.
fn read_mask(entries: &Vec<&[char]>) -> (r: Option<Vec<u64>>)
    ensures
        match r {
            Some(mask) => {
                &&& set_words(pieces(entries@)) matches Some(words)
                &&& mask@ == mask_of(words)
            },
            None => set_words(pieces(entries@)) is None,
        },
{
    let ghost all = pieces(entries@);
    let mut mask: Vec<u64> = Vec::new();
    for i in 0..entries.len()
        invariant
            all == pieces(entries@),
            forall|j: int| 0 <= j < i ==> set_word(#[trigger] all[j]) is Some,
            mask@.len() == (if i < 4 {
                i as int
            } else {
                4
            }),
            forall|j: int| 0 <= j < mask@.len() ==> mask@[j] == set_word(all[j])->0,
    {
        assert(all[i as int] == entries@[i as int]@);
        match read_word(entries[i]) {
            Some(w) => {
                if mask.len() < 4 {
                    mask.push(w);
                }
            },
            None => {
                return None;
            },
        }
    }
    let ghost words = Seq::new(all.len(), |i: int| set_word(all[i])->0);
    assert(set_words(all) == Some(words));
    while mask.len() < 4
        invariant
            mask@.len() <= 4,
            words.len() == all.len(),
            forall|j: int| 0 <= j < all.len() ==> words[j] == set_word(#[trigger] all[j])->0,
            mask@.len() < all.len() ==> mask@.len() == 4,
            forall|j: int|
                0 <= j < mask@.len() ==> mask@[j] == (if j < all.len() {
                    set_word(all[j])->0
                } else {
                    0
                }),
        decreases 4 - mask@.len(),
    {
        mask.push(0);
    }
    assert(mask@ =~= mask_of(words));
    Some(mask)
}

/// The members of the set, in rising order.
fn list_members(mask: &Vec<u64>) -> (out: Vec<u32>)
    requires
        mask@.len() == 4,
    ensures
        nats(out@) == members(mask@),
        forall|i: int| 0 <= i < out@.len() ==> out@[i] < 256,
{
    let mut out: Vec<u32> = Vec::new();
    let mut n: u32 = 0;
    assert(nats(out@) =~= members_below(mask@, 0));
    while n < SET_SIZE
        invariant
            n <= 256,
            mask@.len() == 4,
            nats(out@) == members_below(mask@, n as nat),
            forall|i: int| 0 <= i < out@.len() ==> out@[i] < 256,
        decreases 256 - n,
    {
        let w: u64 = mask[(n / WORD_BITS) as usize];
        let b: u64 = (n % WORD_BITS) as u64;
        if (w >> b) & 1 == 1 {
            out.push(n);
            assert(nats(out@) =~= members_below(mask@, n as nat).push(n as nat));
        }
        n = n + 1;
    }
    out
}

/// The texts of the runs of consecutive numbers in a list.
fn list_runs(m: &Vec<u32>) -> (out: Vec<String>)
    requires
        forall|i: int| 0 <= i < m@.len() ==> m@[i] < 256,
    ensures
        texts(out@) == run_texts(runs_from(nats(m@), 0)),
{
    let ghost all = nats(m@);
    let mut out: Vec<String> = Vec::new();
    let mut i: usize = 0;
    assert(texts(out@) + run_texts(runs_from(all, 0)) =~= run_texts(runs_from(all, 0)));
    while i < m.len()
        invariant
            all == nats(m@),
            i <= m@.len(),
            forall|i: int| 0 <= i < m@.len() ==> m@[i] < 256,
            texts(out@) + run_texts(runs_from(all, i as int)) == run_texts(runs_from(all, 0)),
        decreases m@.len() - i,
    {
        let start: usize = i;
        let mut e: usize = i;
        while e < m.len() - 1 && m[e + 1] == m[e] + 1
            invariant
                all == nats(m@),
                start <= e < m@.len(),
                forall|i: int| 0 <= i < m@.len() ==> m@[i] < 256,
                run_end(all, start as int) == run_end(all, e as int),
            decreases m@.len() - e,
        {
            e = e + 1;
        }
        let first: u32 = m[start];
        let last: u32 = m[e];
        let mut part: String = String::new();
        push_decimal(&mut part, first as u64);
        if last == first {
        } else if last == first + 1 {
            part.append(",");
            push_decimal(&mut part, last as u64);
        } else {
            part.append("..");
            push_decimal(&mut part, last as u64);
        }
        proof {
            let run = (all[start as int], all[e as int]);
            assert(part@ =~= run_text(run));
            let rest = run_texts(runs_from(all, e + 1));
            assert(run_texts(runs_from(all, start as int)) =~= seq![run_text(run)] + rest);
            assert(texts(out@.push(part)) =~= texts(out@) + seq![run_text(run)]);
            assert(texts(out@) + (seq![run_text(run)] + rest) =~= (texts(out@) + seq![
                run_text(run),
            ]) + rest);
        }
        out.push(part);
        i = e + 1;
    }
    assert(texts(out@) + run_texts(runs_from(all, i as int)) =~= texts(out@));
    out
}

/// Decodes the dump of a set mask, such as
/// `([0] = 0x000000000000000a, [1] = 0, [2] = 0, [3] = 0)`, into a set literal, here `[1, 3]`.
pub fn decode_set_bitmask(raw: &str) -> (r: Option<String>)
    ensures
        match r {
            Some(s) => decoded_set(raw@) == Some(s@),
            None => decoded_set(raw@) is None,
        },
{
    let raw = to_chars(raw);
    let inner = trim_back_char(trim_front_char(trimmed(raw.as_slice()), '('), ')');
    let entries = split_on(inner, ',');
    let mask = match read_mask(&entries) {
        Some(mask) => mask,
        None => {
            return None;
        },
    };
    let ordinals = list_members(&mask);
    assert(nats(ordinals@).len() == ordinals@.len());
    if ordinals.len() == 0 {
        return Some("[]".to_string());
    }
    let parts = list_runs(&ordinals);
    let mut out: String = "[".to_string();
    let body = join_text(&parts, ", ");
    out.append(body.as_str());
    out.append("]");
    Some(out)
}

} // verus!
