//! Type-aware value editor: what the dialog that opens on a watch row lets the user type, and the
//! expression that sets the variable to it.

use vstd::prelude::*;

use crate::commands::CM_OK;
use crate::number::{
    decimal, i64_of, is_digit, lemma_decimal_reads_back, lemma_numbers_read_back,
    lemma_only_numbers_are_read, lemma_show_reads_back, read_i64, show, show_i64,
};
use crate::text::{
    blank, is_space, lemma_span, lemma_span_back, lemma_trim_around, lemma_trim_ink, lower, lowered, opt_str, opt_text, owned, same_as, same_text,
    strip_back, strip_front, to_chars, to_text, trim, trim_back_char, trim_front_char, trimmed,
};
use crate::variable::VarType;

verus! {

/// A filter of turbo-vision on what is typed into an input line.
#[verifier::external_type_specification]
#[verifier::external_body]
pub struct ExFilterValidator(turbo_vision::views::validator::FilterValidator);

/// The characters that a filter holds: it lets a text through that is made of these.
pub uninterp spec fn accepted(
    filter: turbo_vision::views::validator::FilterValidator,
) -> Set<char>;

/// `FilterValidator::new`: the filter holds the characters of `chars`.
#[verifier::external_body]
fn filter_of(chars: &str) -> (r: turbo_vision::views::validator::FilterValidator)
    ensures
        accepted(r) == chars@.to_set(),
{
    turbo_vision::views::validator::FilterValidator::new(chars)
}

/// The characters that can be typed for a value of the type, where not all can.
pub open spec fn typed_chars(ty: VarType) -> Option<Seq<char>> {
    match ty {
        VarType::Integer => Some("0123456789-"@),
        VarType::Real => Some("0123456789-+.eE"@),
        VarType::Boolean => Some("truefalse"@),
        _ => None,
    }
}

/// The text that the input line opens with: the value, without quotes where it is a character.
pub open spec fn initial_text(ty: VarType, current: Seq<char>) -> Seq<char> {
    match ty {
        VarType::Char => strip_back(strip_front(current, same_as('\'')), same_as('\'')),
        _ => current,
    }
}

/// How many characters can be typed.
pub open spec fn typed_len(ty: VarType) -> usize {
    match ty {
        VarType::Char => 1,
        VarType::Boolean => 5,
        VarType::Integer => 32,
        VarType::Real => 64,
        _ => 256,
    }
}

/// A character between quotes.
pub open spec fn char_literal(c: char) -> Seq<char> {
    if c == '\\' {
        seq!['\'', '\\', '\\', '\'']
    } else if c == '\'' {
        seq!['\'', '\\', '\'', '\'']
    } else {
        seq!['\'', c, '\'']
    }
}

/// The truth value that a text spells.
pub open spec fn truth_of(s: Seq<char>) -> Option<Seq<char>> {
    let t = lower(s);
    if t == "true"@ || t == "1"@ {
        Some("true"@)
    } else if t == "false"@ || t == "0"@ {
        Some("false"@)
    } else {
        None
    }
}

/// The expression that sets a variable of the type to what was typed. `number` is the typed text
/// read as a number with a fraction and written out again, where it is one.
pub open spec fn setter_expr(ty: VarType, raw: Seq<char>, number: Option<Seq<char>>) -> Option<
    Seq<char>,
> {
    let t = trim(raw);
    match ty {
        VarType::Integer => match i64_of(t) {
            Some(n) => Some(show(n as int)),
            None => None,
        },
        VarType::Real => number,
        VarType::Boolean => truth_of(t),
        VarType::Char => if t.len() == 1 {
            Some(char_literal(t[0]))
        } else {
            None
        },
        VarType::String | VarType::Other => None,
    }
}

/// The title of the dialog.
pub open spec fn title_of(name: Seq<char>, ty: VarType) -> Seq<char> {
    "Set "@ + name + " ("@ + ty.name() + ")"@
}

/// The text that the input line opens with: a value the user can edit directly. The quotes of a
/// character are taken off; every other type is shown as it is.
pub fn setter_initial_text(ty: VarType, current: &str) -> (r: String)
    ensures
        r@ == initial_text(ty, current@),
{
    match ty {
        VarType::Char => {
            let chars = to_chars(current);
            to_text(trim_back_char(trim_front_char(chars.as_slice(), '\''), '\''))
        },
        _ => current.to_string(),
    }
}

/// How many characters can be typed for a value of the type.
pub fn max_length_for(ty: VarType) -> (r: usize)
    ensures
        r == typed_len(ty),
{
    match ty {
        VarType::Char => 1,
        VarType::Boolean => 5,
        VarType::Integer => 32,
        VarType::Real => 64,
        _ => 256,
    }
}

/// The filter on what is typed for a value of the type, where there is one.
pub fn type_filter_validator(ty: VarType) -> (r: Option<
    turbo_vision::views::validator::FilterValidator,
>)
    ensures
        match (r, typed_chars(ty)) {
            (Some(v), Some(chars)) => accepted(v) == chars.to_set(),
            (None, None) => true,
            _ => false,
        },
{
    match ty {
        VarType::Integer => Some(filter_of("0123456789-")),
        VarType::Real => Some(filter_of("0123456789-+.eE")),
        VarType::Boolean => Some(filter_of("truefalse")),
        _ => None,
    }
}

/// The part of the typed text that is read: all but white space at its ends.
pub fn setter_text(raw: &str) -> (r: String)
    ensures
        r@ == trim(raw@),
{
    let chars = to_chars(raw);
    to_text(trimmed(chars.as_slice()))
}

/// Translates the typed value into a C/C++ expression for `expr <name> = <expr>`. `None` when the
/// typed value does not match the type. `number` is [`setter_text`] of the typed value read as a
/// number with a fraction and written out again, where it is one.
pub fn format_setter_expr(ty: VarType, raw: &str, number: Option<&str>) -> (r: Option<String>)
    ensures
        opt_text(r) == setter_expr(ty, raw@, opt_str(number)),
{
    let chars = to_chars(raw);
    let t = trimmed(chars.as_slice());
    match ty {
        VarType::Integer => match read_i64(t) {
            Some(n) => Some(show_i64(n)),
            None => None,
        },
        VarType::Real => match number {
            Some(n) => Some(owned(n)),
            None => None,
        },
        VarType::Boolean => {
            let low = lowered(t);
            let low = low.as_slice();
            if same_text(low, "true") || same_text(low, "1") {
                Some(owned("true"))
            } else if same_text(low, "false") || same_text(low, "0") {
                Some(owned("false"))
            } else {
                None
            }
        },
        VarType::Char => {
            if t.len() != 1 {
                return None;
            }
            let c = t[0];
            let mut out: String = String::new();
            out.push('\'');
            if c == '\\' || c == '\'' {
                out.push('\\');
            }
            out.push(c);
            out.push('\'');
            assert(out@ =~= char_literal(c));
            Some(out)
        },
        VarType::String | VarType::Other => None,
    }
}

/// The title of the dialog.
pub fn set_value_title(name: &str, ty: VarType) -> (r: String)
    ensures
        r@ == title_of(name@, ty),
{
    let mut out: String = owned("Set ");
    out.append(name);
    out.append(" (");
    out.append(ty.label());
    out.append(")");
    out
}

/// What the dialog gives: the typed text where it was closed with OK and is not empty.
pub fn entered_value(command: u16, text: String) -> (r: Option<String>)
    ensures
        opt_text(r) == if command == CM_OK && text@.len() > 0 {
            Some(text@)
        } else {
            None
        },
{
    if command == CM_OK && !text.as_str().is_empty() {
        Some(text)
    } else {
        None
    }
}

/// A variable whose type is read-only in the watch gets no expression, whatever is typed.
pub proof fn lemma_read_only_types_refuse(ty: VarType, raw: Seq<char>, number: Option<Seq<char>>)
    requires
        !ty.settable(),
    ensures
        setter_expr(ty, raw, number) is None,
{
}

/// A digit is no white space.
proof fn lemma_digit_ink(c: char)
    requires
        is_digit(c),
    ensures
        !is_space(c),
{
}

/// An integer that is typed as the watch shows it is set as it is.
pub proof fn lemma_integer_setter_round_trips(n: i64, number: Option<Seq<char>>)
    ensures
        setter_expr(VarType::Integer, show(n as int), number) == Some(show(n as int)),
{
    let s = show(n as int);
    lemma_show_reads_back(n as int);
    if n < 0 {
        let d = decimal((-n) as nat);
        lemma_decimal_reads_back((-n) as nat);
        assert(is_digit(d[d.len() - 1]));
        lemma_digit_ink(d[d.len() - 1]);
        assert(s[0] == '-' && s.last() == d[d.len() - 1]);
    } else {
        lemma_decimal_reads_back(n as nat);
        assert(is_digit(s[0]) && is_digit(s[s.len() - 1]));
        lemma_digit_ink(s[0]);
        lemma_digit_ink(s.last());
    }
    lemma_trim_ink(s);
}

/// What a truth value is set to is `true` or `false`, and typing that gives it again.
pub proof fn lemma_boolean_setter_settles(raw: Seq<char>, number: Option<Seq<char>>)
    ensures
        match setter_expr(VarType::Boolean, raw, number) {
            Some(expr) => (expr == "true"@ || expr == "false"@) && setter_expr(
                VarType::Boolean,
                expr,
                number,
            ) == Some(expr),
            None => true,
        },
{
    reveal_strlit("true");
    reveal_strlit("false");
    reveal_strlit("1");
    assert("false"@.len() == 5 && "true"@.len() == 4 && "1"@.len() == 1);
    lemma_trim_ink("true"@);
    lemma_trim_ink("false"@);
    assert(lower("true"@) =~= "true"@);
    assert(lower("false"@) =~= "false"@);
}

/// A character that the watch shows between quotes opens in the editor without them, and set
/// again it is what was shown.
pub proof fn lemma_char_setter_round_trips(c: char, number: Option<Seq<char>>)
    requires
        c != '\'',
        c != '\\',
        !is_space(c),
    ensures
        initial_text(VarType::Char, seq!['\'', c, '\'']) == seq![c],
        setter_expr(VarType::Char, seq![c], number) == Some(seq!['\'', c, '\'']),
{
    let s = seq!['\'', c, '\''];
    lemma_span(s, same_as('\''), 1);
    let t = strip_front(s, same_as('\''));
    assert(t =~= seq![c, '\'']);
    lemma_span_back(t, same_as('\''), 1);
    assert(strip_back(t, same_as('\'')) =~= seq![c]);
    lemma_trim_ink(seq![c]);
}

/// A number is set as it was typed, white space around it aside, and what is no number of 64 bits
/// is refused.
pub proof fn lemma_integer_set_as_typed(
    a: Seq<char>,
    n: int,
    b: Seq<char>,
    raw: Seq<char>,
    number: Option<Seq<char>>,
)
    requires
        blank(a),
        blank(b),
    ensures
        setter_expr(VarType::Integer, a + show(n) + b, number) == if -0x8000_0000_0000_0000 <= n
            <= 0x7fff_ffff_ffff_ffff {
            Some(show(n))
        } else {
            None
        },
        setter_expr(VarType::Integer, raw, number) is Some ==> trim(raw).len() > 0 && forall|i: int|
            1 <= i < trim(raw).len() ==> is_digit(#[trigger] trim(raw)[i]),
{
    let s = show(n);
    lemma_numbers_read_back(n);
    let d = decimal(if n < 0 {
        (-n) as nat
    } else {
        n as nat
    });
    lemma_decimal_reads_back(if n < 0 {
        (-n) as nat
    } else {
        n as nat
    });
    assert(is_digit(d[0]) && is_digit(d[d.len() - 1]));
    assert(s.last() == d[d.len() - 1]);
    lemma_digit_ink(d[d.len() - 1]);
    lemma_digit_ink(d[0]);
    lemma_trim_around(a, s, b);
    lemma_only_numbers_are_read(trim(raw));
}

/// A truth value is set to `true` where `true` or `1` was typed and to `false` where `false` or `0`
/// was, in small or capital letters and with white space around it; anything else is refused.
pub proof fn lemma_truth_set_as_typed(raw: Seq<char>, number: Option<Seq<char>>)
    ensures
        setter_expr(VarType::Boolean, raw, number) == Some("true"@) <==> lower(trim(raw)) == "true"@
            || lower(trim(raw)) == "1"@,
        setter_expr(VarType::Boolean, raw, number) == Some("false"@) <==> lower(trim(raw))
            == "false"@ || lower(trim(raw)) == "0"@,
        setter_expr(VarType::Boolean, raw, number) is Some ==> setter_expr(
            VarType::Boolean,
            raw,
            number,
        ) == Some("true"@) || setter_expr(VarType::Boolean, raw, number) == Some("false"@),
{
    reveal_strlit("true");
    reveal_strlit("false");
    reveal_strlit("0");
    reveal_strlit("1");
    assert("true"@.len() == 4 && "false"@.len() == 5 && "0"@.len() == 1 && "1"@.len() == 1);
    assert("0"@[0] == '0' && "1"@[0] == '1');
}

/// A single character is set between quotes, with a backslash before a quote and a backslash; no
/// character or several are refused. White space around it does not count.
pub proof fn lemma_character_set_as_typed(
    a: Seq<char>,
    c: char,
    b: Seq<char>,
    raw: Seq<char>,
    number: Option<Seq<char>>,
)
    requires
        blank(a),
        blank(b),
        !is_space(c),
    ensures
        setter_expr(VarType::Char, a + seq![c] + b, number) == Some(
            if c == '\\' || c == '\'' {
                seq!['\'', '\\', c, '\'']
            } else {
                seq!['\'', c, '\'']
            },
        ),
        trim(raw).len() != 1 ==> setter_expr(VarType::Char, raw, number) is None,
{
    lemma_trim_around(a, seq![c], b);
}

/// A number with a fraction is set as it was read and written out again, and refused where it is
/// none; strings and other values are never set.
pub proof fn lemma_real_set_as_read(raw: Seq<char>, number: Option<Seq<char>>)
    ensures
        setter_expr(VarType::Real, raw, number) == number,
        setter_expr(VarType::String, raw, number) is None,
        setter_expr(VarType::Other, raw, number) is None,
{
}

/// All that a value can be set to can be typed: the characters are let through, and there is room
/// for them.
pub proof fn lemma_values_can_be_typed(n: i64, i: int)
    ensures
        typed_chars(VarType::Integer) is Some,
        0 <= i < show(n as int).len() ==> typed_chars(VarType::Integer)->0.contains(
            show(n as int)[i],
        ),
        !typed_chars(VarType::Integer)->0.contains('.'),
        !typed_chars(VarType::Integer)->0.contains('+'),
        typed_chars(VarType::Real) is Some,
        0 <= i < show(n as int).len() ==> typed_chars(VarType::Real)->0.contains(
            show(n as int)[i],
        ),
        typed_chars(VarType::Real)->0.contains('.'),
        typed_chars(VarType::Real)->0.contains('e'),
        typed_chars(VarType::Real)->0.contains('E'),
        typed_chars(VarType::Real)->0.contains('+'),
        typed_chars(VarType::Boolean) is Some,
        0 <= i < 4 ==> typed_chars(VarType::Boolean)->0.contains("true"@[i]),
        0 <= i < 5 ==> typed_chars(VarType::Boolean)->0.contains("false"@[i]),
        typed_chars(VarType::Char) is None,
        typed_chars(VarType::String) is None,
        typed_chars(VarType::Other) is None,
        typed_len(VarType::Char) == 1,
        typed_len(VarType::Boolean) == 5,
        typed_len(VarType::Integer) == 32,
        typed_len(VarType::Real) == 64,
        typed_len(VarType::String) == 256,
        typed_len(VarType::Other) == 256,
{
    reveal_strlit("0123456789-");
    reveal_strlit("0123456789-+.eE");
    reveal_strlit("truefalse");
    reveal_strlit("true");
    reveal_strlit("false");
    let ints = "0123456789-"@;
    let reals = "0123456789-+.eE"@;
    let words = "truefalse"@;
    let s = show(n as int);
    let d = decimal(if n < 0 {
        (-n) as nat
    } else {
        n as nat
    });
    lemma_decimal_reads_back(if n < 0 {
        (-n) as nat
    } else {
        n as nat
    });
    assert(ints =~= seq!['0', '1', '2', '3', '4', '5', '6', '7', '8', '9', '-']);
    assert(reals =~= seq![
        '0',
        '1',
        '2',
        '3',
        '4',
        '5',
        '6',
        '7',
        '8',
        '9',
        '-',
        '+',
        '.',
        'e',
        'E',
    ]);
    assert(words =~= seq!['t', 'r', 'u', 'e', 'f', 'a', 'l', 's', 'e']);
    assert("true"@ =~= seq!['t', 'r', 'u', 'e']);
    assert("false"@ =~= seq!['f', 'a', 'l', 's', 'e']);
    assert(reals[10] == '-' && reals[11] == '+' && reals[12] == '.' && reals[13] == 'e' && reals[14]
        == 'E');
    assert(ints[10] == '-');
    if 0 <= i < s.len() {
        if n < 0 && i > 0 {
            assert(s[i] == d[i - 1]);
        } else if n >= 0 {
            assert(s[i] == d[i]);
        }
        lemma_digit_listed(s[i]);
    }
    if 0 <= i < 4 {
        assert(words[i] == "true"@[i]);
    }
    if 0 <= i < 5 {
        assert(words[i + 4] == "false"@[i]);
    }
}

/// A digit stands in the lists of characters, at its own place.
proof fn lemma_digit_listed(c: char)
    requires
        is_digit(c) || c == '-',
    ensures
        seq!['0', '1', '2', '3', '4', '5', '6', '7', '8', '9', '-'].contains(c),
        seq![
            '0',
            '1',
            '2',
            '3',
            '4',
            '5',
            '6',
            '7',
            '8',
            '9',
            '-',
            '+',
            '.',
            'e',
            'E',
        ].contains(c),
{
    let ints = seq!['0', '1', '2', '3', '4', '5', '6', '7', '8', '9', '-'];
    let reals = seq!['0', '1', '2', '3', '4', '5', '6', '7', '8', '9', '-', '+', '.', 'e', 'E'];
    let k = if c == '-' {
        10
    } else {
        c as int - 48
    };
    assert(ints[k] == c);
    assert(reals[k] == c);
}

/// The dialog opens on the value as the watch shows it; of a character the quotes are taken off.
pub proof fn lemma_dialog_opens_on_value(ty: VarType, current: Seq<char>, name: Seq<char>)
    ensures
        ty != VarType::Char ==> initial_text(ty, current) == current,
        title_of(name, ty) == "Set "@ + name + " ("@ + ty.name() + ")"@,
{
}

} // verus!
