//! Variables of the debugged program: what the debugger prints of one, and how the watch window
//! shows it.

use vstd::prelude::*;

use crate::number::{
    decimal, i64_of, is_digit, lemma_decimal_reads_back, lemma_digit_is_ink,
    lemma_numbers_read_back, push_signed, read_i64, show,
};
use crate::set_mask::{
    array_dump, decode_set_bitmask, decoded_set, dump_entry, lemma_dump_decodes, literal_names,
    writes_word,
};
use crate::text::{
    begins_with, blank, cut, cut_text, ends_with_char, finishes_with, has_text, head, index,
    index_of, is_space, join, last_index, last_index_of, lemma_cut, lemma_cut_at, lemma_cut_behind,
    lemma_index, lemma_index_at, lemma_join_first, lemma_last_index, lemma_mentions, lemma_occurs,
    lemma_span_back, lemma_trim_around, lemma_trim_ink, made_of, mentions, occurs_at, opt_str,
    same_as, same_str, same_text, starts_with_char, strip_back, tail, to_chars, to_text, trim,
    trim_back_char, trimmed,
};

verus! {

/// Coarse Pascal-flavoured classification of a variable's type, used to drive the type-aware value
/// editor in the watch window.
#[derive(Debug, Clone, Copy, PartialEq, Eq, Structural)]
pub enum VarType {
    Integer,
    Real,
    Boolean,
    Char,
    String,
    Other,
}

impl VarType {
    /// The name of the type in messages.
    pub open spec fn name(self) -> Seq<char> {
        match self {
            VarType::Integer => "integer"@,
            VarType::Real => "real"@,
            VarType::Boolean => "boolean"@,
            VarType::Char => "char"@,
            VarType::String => "string"@,
            VarType::Other => "value"@,
        }
    }

    /// A value of the type can be set from the watch window.
    pub open spec fn settable(self) -> bool {
        self != VarType::Other && self != VarType::String
    }

    /// The name of the type in messages.
    pub fn label(self) -> (r: &'static str)
        ensures
            r@ == self.name(),
    {
        match self {
            VarType::Integer => "integer",
            VarType::Real => "real",
            VarType::Boolean => "boolean",
            VarType::Char => "char",
            VarType::String => "string",
            VarType::Other => "value",
        }
    }

    /// True when a setter can be formatted for the type and user input can be validated; anything
    /// else is read-only in the watch.
    pub fn is_editable(self) -> (r: bool)
        ensures
            r == self.settable(),
    {
        match self {
            VarType::Other => false,
            VarType::String => false,
            _ => true,
        }
    }
}

/// `t` is one of the type names of whole numbers.
pub open spec fn is_integer_type(t: Seq<char>) -> bool {
    ||| t == "long"@
    ||| t == "unsigned long"@
    ||| t == "long long"@
    ||| t == "unsigned long long"@
    ||| t == "int"@
    ||| t == "unsigned int"@
    ||| t == "short"@
    ||| t == "unsigned short"@
    ||| t == "i64"@
    ||| t == "i32"@
    ||| t == "i16"@
    ||| t == "i8"@
    ||| t == "u64"@
    ||| t == "u32"@
    ||| t == "u16"@
    ||| t == "u8"@
}

/// `t` is one of the type names of character strings.
pub open spec fn is_string_type(t: Seq<char>) -> bool {
    t == "char *"@ || t == "const char *"@
}

/// `t` is one of the type names of single characters.
pub open spec fn is_char_type(t: Seq<char>) -> bool {
    t == "char"@ || t == "signed char"@
}

/// `t` is one of the type names of truth values.
pub open spec fn is_bool_type(t: Seq<char>) -> bool {
    t == "bool"@ || t == "unsigned char"@
}

/// The class of the type that the debugger writes as `type_str`.
pub open spec fn class_of(type_str: Seq<char>) -> VarType {
    let t = trim(type_str);
    if is_string_type(t) {
        VarType::String
    } else if is_char_type(t) {
        VarType::Char
    } else if is_bool_type(t) {
        VarType::Boolean
    } else if t == "double"@ || t == "float"@ {
        VarType::Real
    } else if is_integer_type(t) {
        VarType::Integer
    } else {
        VarType::Other
    }
}

/// What stands between the first and the last `q` of `s`, where there are two.
pub open spec fn quoted(s: Seq<char>, q: char) -> Option<(int, int)> {
    match (index(s, q), last_index(s, q)) {
        (Some(a), Some(b)) => if a < b {
            Some((a, b))
        } else {
            None
        },
        _ => None,
    }
}

/// A null pointer: `addr` is address zero, or `raw` names it.
pub open spec fn is_null(addr: Seq<char>, raw: Seq<char>) -> bool {
    ||| addr == "0x0000000000000000"@
    ||| addr == "0x0"@
    ||| mentions(raw, "nil"@)
    ||| mentions(raw, "NULL"@)
}

/// A truth value as a word, where it is one of the debugger's ways to write it.
pub open spec fn shown_bool(raw: Seq<char>) -> Seq<char> {
    if raw == "0"@ || raw == "'\\0'"@ || raw == "false"@ {
        "false"@
    } else if raw == "1"@ || raw == "'\\x01'"@ || raw == "true"@ {
        "true"@
    } else {
        raw
    }
}

/// The character with the code `n` in quotes where it is printable ASCII, else its code.
pub open spec fn shown_code(n: i64) -> Seq<char> {
    if 32 <= n < 127 {
        seq!['\'', (n as u8) as char, '\'']
    } else {
        "#"@ + show(n as int)
    }
}

/// A number with decimals without the zeros at its end, nor a decimal point there.
pub open spec fn shown_real(text: Seq<char>) -> Seq<char> {
    strip_back(strip_back(text, same_as('0')), same_as('.'))
}

/// `s` without its index marks `[N] = `.
pub open spec fn without_indices(s: Seq<char>) -> Seq<char>
    decreases s.len(),
{
    match index(s, '[') {
        Some(i) => match cut(s.skip(i), "] = "@) {
            Some((mark, after)) => if 0 <= i <= s.len() && i + after.len() < s.len() {
                without_indices(s.take(i) + after)
            } else {
                s
            },
            None => s,
        },
        None => s,
    }
}

/// `t` is one of the type names of a set mask.
pub open spec fn is_set_type(t: Seq<char>) -> bool {
    t == "long[4]"@ || t == "unsigned long[4]"@ || t == "i64[4]"@
}

/// The value of a variable of type `t` as the watch window shows it. `raw` is what the debugger
/// prints; `decimals` is `raw` with ten decimals, where it is a number with decimals.
pub open spec fn shown_value(t: Seq<char>, raw: Seq<char>, decimals: Option<Seq<char>>) -> Seq<char> {
    if is_string_type(t) && quoted(raw, '"') is Some {
        let q = quoted(raw, '"')->0;
        seq!['\''] + raw.subrange(q.0 + 1, q.1) + seq!['\'']
    } else if is_string_type(t) && is_null(trim(raw), raw) {
        "''"@
    } else if ends_with_char(t, '*') && !mentions(t, "char"@) {
        if is_null(trim(raw), trim(raw)) {
            "nil"@
        } else {
            "^"@ + raw
        }
    } else if is_bool_type(t) {
        shown_bool(raw)
    } else if is_char_type(t) && quoted(raw, '\'') is Some {
        let q = quoted(raw, '\'')->0;
        raw.subrange(q.0, q.1 + 1)
    } else if is_char_type(t) && i64_of(trim(raw)) is Some {
        shown_code(i64_of(trim(raw))->0)
    } else if t == "double"@ && decimals is Some {
        shown_real(decimals->0)
    } else if is_set_type(t) && starts_with_char(raw, '(') && decoded_set(raw) is Some {
        decoded_set(raw)->0
    } else if index(t, '[') is Some && starts_with_char(raw, '(') {
        without_indices(raw)
    } else {
        raw
    }
}

/// The type, the name and the value that a line such as `(long) x = 42` gives.
pub open spec fn variable_parts(line: Seq<char>) -> Option<(Seq<char>, Seq<char>, Seq<char>)> {
    let t = trim(line);
    if !starts_with_char(t, '(') {
        None
    } else {
        match cut(t, ") "@) {
            Some((opened, rest)) => match cut(rest, " = "@) {
                Some((name, value)) => Some((opened.skip(1), trim(name), trim(value))),
                None => None,
            },
            None => None,
        }
    }
}

/// `name` is a variable of the runtime, which the watch window does not show.
pub open spec fn is_internal(name: Seq<char>) -> bool {
    name == "_capture"@ || name == "_end_bp"@ || name == "_bruto_capture_fp"@
}

/// The name, the value to show and the type that a line gives, where it prints a variable of the
/// program. `decimals` is the value with ten decimals, where it is a number with decimals.
pub open spec fn variable_of(line: Seq<char>, decimals: Option<Seq<char>>) -> Option<
    (Seq<char>, Seq<char>, Seq<char>),
> {
    match variable_parts(line) {
        Some((type_str, name, raw)) => if is_internal(name) {
            None
        } else {
            Some((name, shown_value(type_str, raw, decimals), type_str))
        },
        None => None,
    }
}

/// Maps a type as the debugger writes it (the bit between parentheses, e.g. "long", "char *",
/// "double") to its class.
pub fn classify_var_type(type_str: &str) -> (r: VarType)
    ensures
        r == class_of(type_str@),
{
    let chars = to_chars(type_str);
    let t = trimmed(chars.as_slice());
    if same_text(t, "char *") || same_text(t, "const char *") {
        return VarType::String;
    }
    if same_text(t, "char") || same_text(t, "signed char") {
        return VarType::Char;
    }
    if same_text(t, "bool") || same_text(t, "unsigned char") {
        return VarType::Boolean;
    }
    if same_text(t, "double") || same_text(t, "float") {
        return VarType::Real;
    }
    if same_text(t, "long") || same_text(t, "unsigned long") || same_text(t, "long long")
        || same_text(t, "unsigned long long") || same_text(t, "int") || same_text(t, "unsigned int")
        || same_text(t, "short") || same_text(t, "unsigned short") || same_text(t, "i64")
        || same_text(t, "i32") || same_text(t, "i16") || same_text(t, "i8") || same_text(t, "u64")
        || same_text(t, "u32") || same_text(t, "u16") || same_text(t, "u8") {
        return VarType::Integer;
    }
    VarType::Other
}

/// The positions of the first and the last `q` of `s`, where there are two.
fn find_quotes(s: &[char], q: char) -> (r: Option<(usize, usize)>)
    ensures
        match r {
            Some(p) => quoted(s@, q) == Some((p.0 as int, p.1 as int)) && p.0 < p.1 < s@.len()
                && p.1 < usize::MAX,
            None => quoted(s@, q) is None,
        },
{
    match index_of(s, q) {
        Some(a) => match last_index_of(s, q) {
            Some(b) => if a < b {
                assert(s@.len() == s.len());
                Some((a, b))
            } else {
                None
            },
            None => None,
        },
        None => None,
    }
}

/// Tells whether the text names a null pointer.
fn names_null(addr: &[char], raw: &[char]) -> (r: bool)
    ensures
        r == is_null(addr@, raw@),
{
    same_text(addr, "0x0000000000000000") || same_text(addr, "0x0") || has_text(raw, "nil")
        || has_text(raw, "NULL")
}

/// `raw` without its index marks.
fn strip_indices(raw: &[char]) -> (out: String)
    ensures
        out@ == without_indices(raw@),
{
    let mut cleaned: Vec<char> = Vec::new();
    for i in 0..raw.len()
        invariant
            cleaned@ == raw@.take(i as int),
    {
        cleaned.push(raw[i]);
        assert(cleaned@ =~= raw@.take(i + 1));
    }
    assert(cleaned@ =~= raw@);
    loop
        invariant
            without_indices(cleaned@) == without_indices(raw@),
        ensures
            cleaned@ == without_indices(raw@),
        decreases cleaned@.len(),
    {
        let s = cleaned.as_slice();
        let start = match index_of(s, '[') {
            Some(start) => start,
            None => {
                break ;
            },
        };
        let after = match cut_text(tail(s, start), "] = ") {
            Some((_mark, after)) => after,
            None => {
                break ;
            },
        };
        proof {
            reveal_strlit("] = ");
        }
        let mut next: Vec<char> = Vec::new();
        for i in 0..start
            invariant
                start <= s@.len(),
                next@ == s@.take(i as int),
        {
            next.push(s[i]);
            assert(next@ =~= s@.take(i + 1));
        }
        for i in 0..after.len()
            invariant
                start <= s@.len(),
                next@ == s@.take(start as int) + after@.take(i as int),
        {
            next.push(after[i]);
            assert(next@ =~= s@.take(start as int) + after@.take(i + 1));
        }
        assert(next@ =~= s@.take(start as int) + after@);
        cleaned = next;
    }
    to_text(cleaned.as_slice())
}

/// Formats a variable value for the watch window based on its type. `decimals` is `raw` with ten
/// decimals, where it is a number with decimals.
pub fn format_variable_value(type_str: &str, raw: &str, decimals: Option<&str>) -> (r: String)
    ensures
        r@ == shown_value(type_str@, raw@, opt_str(decimals)),
{
    let type_chars = to_chars(type_str);
    let t = type_chars.as_slice();
    let raw_chars = to_chars(raw);
    let value = raw_chars.as_slice();

    // String (char *): the quoted content, as in 0x100003f80 "Hello".
    if same_text(t, "char *") || same_text(t, "const char *") {
        if let Some((a, b)) = find_quotes(value, '"') {
            let mut out: String = String::new();
            out.push('\'');
            let inner = to_text(tail(head(value, b), a + 1));
            out.append(inner.as_str());
            out.push('\'');
            assert(out@ =~= seq!['\''] + raw@.subrange(a + 1, b as int) + seq!['\'']);
            return out;
        }
        if names_null(trimmed(value), value) {
            return "''".to_string();
        }
    }
    // Pointer types: the address, or nil.
    if finishes_with(t, '*') && !has_text(t, "char") {
        let addr = trimmed(value);
        if names_null(addr, addr) {
            return "nil".to_string();
        }
        let mut out: String = "^".to_string();
        out.append(raw);
        return out;
    }
    // Boolean
    if same_text(t, "bool") || same_text(t, "unsigned char") {
        if same_text(value, "0") || same_text(value, "'\\0'") || same_text(value, "false") {
            return "false".to_string();
        }
        if same_text(value, "1") || same_text(value, "'\\x01'") || same_text(value, "true") {
            return "true".to_string();
        }
        return raw.to_string();
    }
    // Char: as a character. The debugger may print 65 'A' or just 65.
    if same_text(t, "char") || same_text(t, "signed char") {
        if let Some((a, b)) = find_quotes(value, '\'') {
            let out = to_text(tail(head(value, b + 1), a));
            assert(out@ =~= raw@.subrange(a as int, b + 1));
            return out;
        }
        if let Some(n) = read_i64(trimmed(value)) {
            if 32 <= n && n < 127 {
                let mut out: String = String::new();
                out.push('\'');
                out.push((n as u8) as char);
                out.push('\'');
                assert(out@ =~= shown_code(n));
                return out;
            }
            let mut out: String = "#".to_string();
            push_signed(&mut out, n);
            return out;
        }
    }
    // Number with decimals: without trailing zeros.
    if same_text(t, "double") {
        if let Some(text) = decimals {
            let text = to_chars(text);
            return to_text(trim_back_char(trim_back_char(text.as_slice(), '0'), '.'));
        }
    }
    // Set mask: as a Pascal set literal.
    if (same_text(t, "long[4]") || same_text(t, "unsigned long[4]") || same_text(t, "i64[4]"))
        && begins_with(value, '(') {
        if let Some(s) = decode_set_bitmask(raw) {
            return s;
        }
    }
    // Array: ([0] = 1, [1] = 4, ...) without the index notation.
    if index_of(t, '[').is_some() && begins_with(value, '(') {
        return strip_indices(value);
    }
    // Records read well as they are.
    raw.to_string()
}

/// Splits a line such as `(long) x = 42` into type, name and value.
pub fn split_variable_line(line: &str) -> (r: Option<(String, String, String)>)
    ensures
        match r {
            Some(v) => variable_parts(line@) == Some((v.0@, v.1@, v.2@)),
            None => variable_parts(line@) is None,
        },
{
    let chars = to_chars(line);
    let t = trimmed(chars.as_slice());
    if !begins_with(t, '(') {
        return None;
    }
    match cut_text(t, ") ") {
        Some((opened, rest)) => {
            proof {
                reveal_strlit(") ");
                crate::text::lemma_find(t@, ") "@, 0);
                if opened@.len() == 0 {
                    assert(occurs_at(t@, ") "@, 0));
                    assert(t@.subrange(0, 2)[0] == ") "@[0]);
                }
            }
            match cut_text(rest, " = ") {
                Some((name, value)) => Some(
                    (to_text(tail(opened, 1)), to_text(trimmed(name)), to_text(trimmed(value))),
                ),
                None => None,
            }
        },
        None => None,
    }
}

/// The value on the line of a variable with decimals, as the debugger prints it.
pub fn real_literal(line: &str) -> (r: Option<String>)
    ensures
        match r {
            Some(v) => {
                &&& variable_parts(line@) matches Some((type_str, _, raw))
                &&& type_str == "double"@
                &&& v@ == raw
            },
            None => !(variable_parts(line@) matches Some((type_str, _, _)) && type_str
                == "double"@),
        },
{
    match split_variable_line(line) {
        Some((type_str, _name, raw)) => if same_str(type_str.as_str(), "double") {
            Some(raw)
        } else {
            None
        },
        None => None,
    }
}

/// The name, the value to show and the type of the variable that a line prints. Variables of the
/// runtime are left out. `decimals` is the value with ten decimals, where it is a number with
/// decimals.
pub fn parse_variable_line(line: &str, decimals: Option<&str>) -> (r: Option<(String, String, String)>)
    ensures
        match r {
            Some(v) => variable_of(line@, opt_str(decimals)) == Some((v.0@, v.1@, v.2@)),
            None => variable_of(line@, opt_str(decimals)) is None,
        },
{
    match split_variable_line(line) {
        Some((type_str, name, raw)) => {
            if same_str(name.as_str(), "_capture") || same_str(name.as_str(), "_end_bp")
                || same_str(name.as_str(), "_bruto_capture_fp") {
                return None;
            }
            let value = format_variable_value(type_str.as_str(), raw.as_str(), decimals);
            Some((name, value, type_str))
        },
        None => None,
    }
}

/// The names of types that values are told apart by, spelled out.
proof fn lemma_type_names()
    ensures
        "char *"@ == seq!['c', 'h', 'a', 'r', ' ', '*'],
        "const char *"@ == seq!['c', 'o', 'n', 's', 't', ' ', 'c', 'h', 'a', 'r', ' ', '*'],
        "char"@ == seq!['c', 'h', 'a', 'r'],
        "signed char"@ == seq!['s', 'i', 'g', 'n', 'e', 'd', ' ', 'c', 'h', 'a', 'r'],
        "bool"@ == seq!['b', 'o', 'o', 'l'],
        "unsigned char"@ == seq![
            'u',
            'n',
            's',
            'i',
            'g',
            'n',
            'e',
            'd',
            ' ',
            'c',
            'h',
            'a',
            'r',
        ],
        "double"@ == seq!['d', 'o', 'u', 'b', 'l', 'e'],
        "float"@ == seq!['f', 'l', 'o', 'a', 't'],
        "long[4]"@ == seq!['l', 'o', 'n', 'g', '[', '4', ']'],
        "unsigned long[4]"@ == seq![
            'u',
            'n',
            's',
            'i',
            'g',
            'n',
            'e',
            'd',
            ' ',
            'l',
            'o',
            'n',
            'g',
            '[',
            '4',
            ']',
        ],
        "i64[4]"@ == seq!['i', '6', '4', '[', '4', ']'],
{
    reveal_strlit("char *");
    reveal_strlit("const char *");
    reveal_strlit("char");
    reveal_strlit("signed char");
    reveal_strlit("bool");
    reveal_strlit("unsigned char");
    reveal_strlit("double");
    reveal_strlit("float");
    reveal_strlit("long[4]");
    reveal_strlit("unsigned long[4]");
    reveal_strlit("i64[4]");
    assert("char *"@ =~= seq!['c', 'h', 'a', 'r', ' ', '*']);
    assert("const char *"@ =~= seq!['c', 'o', 'n', 's', 't', ' ', 'c', 'h', 'a', 'r', ' ', '*']);
    assert("char"@ =~= seq!['c', 'h', 'a', 'r']);
    assert("signed char"@ =~= seq!['s', 'i', 'g', 'n', 'e', 'd', ' ', 'c', 'h', 'a', 'r']);
    assert("bool"@ =~= seq!['b', 'o', 'o', 'l']);
    assert("unsigned char"@ =~= seq![
        'u',
        'n',
        's',
        'i',
        'g',
        'n',
        'e',
        'd',
        ' ',
        'c',
        'h',
        'a',
        'r',
    ]);
    assert("double"@ =~= seq!['d', 'o', 'u', 'b', 'l', 'e']);
    assert("float"@ =~= seq!['f', 'l', 'o', 'a', 't']);
    assert("long[4]"@ =~= seq!['l', 'o', 'n', 'g', '[', '4', ']']);
    assert("unsigned long[4]"@ =~= seq![
        'u',
        'n',
        's',
        'i',
        'g',
        'n',
        'e',
        'd',
        ' ',
        'l',
        'o',
        'n',
        'g',
        '[',
        '4',
        ']',
    ]);
    assert("i64[4]"@ =~= seq!['i', '6', '4', '[', '4', ']']);
}

/// A truth value keeps its meaning: it is shown as `true` exactly where the debugger prints `1`,
/// `'\x01'` or `true`, as `false` exactly where it prints `0`, `'\0'` or `false`, and otherwise as
/// it was printed.
pub proof fn lemma_truth_is_kept(t: Seq<char>, raw: Seq<char>, decimals: Option<Seq<char>>)
    requires
        t == "bool"@ || t == "unsigned char"@,
    ensures
        shown_value(t, raw, decimals) == "true"@ <==> raw == "1"@ || raw == "'\\x01'"@ || raw
            == "true"@,
        shown_value(t, raw, decimals) == "false"@ <==> raw == "0"@ || raw == "'\\0'"@ || raw
            == "false"@,
        shown_value(t, raw, decimals) == "true"@ || shown_value(t, raw, decimals) == "false"@
            || shown_value(t, raw, decimals) == raw,
{
    lemma_type_names();
    reveal_strlit("true");
    reveal_strlit("false");
    reveal_strlit("0");
    reveal_strlit("1");
    reveal_strlit("'\\0'");
    reveal_strlit("'\\x01'");
    assert("true"@.len() == 4 && "false"@.len() == 5 && "0"@.len() == 1 && "1"@.len() == 1);
    assert("0"@[0] == '0' && "1"@[0] == '1' && "true"@[0] == 't');
    assert("'\\0'"@.len() == 4 && "'\\0'"@[0] == '\'' && "'\\x01'"@.len() == 6);
    assert(t.last() != '*');
    assert(t.len() == 4 || t.len() == 13);
}

/// Text names the null pointer: it is address zero, or `nil` or `NULL` stands in it.
pub open spec fn null_text(addr: Seq<char>, raw: Seq<char>) -> bool {
    ||| addr == "0x0"@
    ||| addr == "0x0000000000000000"@
    ||| exists|a: Seq<char>, b: Seq<char>| #[trigger] made_of(raw, a, "nil"@, b)
    ||| exists|a: Seq<char>, b: Seq<char>| #[trigger] made_of(raw, a, "NULL"@, b)
}

/// A pointer to anything but characters is shown as `nil` where it is null, and else as a caret and
/// what the debugger prints.
pub proof fn lemma_pointer_shows_address(t: Seq<char>, raw: Seq<char>, decimals: Option<Seq<char>>)
    requires
        t.len() > 0,
        t.last() == '*',
        forall|a: Seq<char>, b: Seq<char>| !#[trigger] made_of(t, a, "char"@, b),
    ensures
        null_text(trim(raw), trim(raw)) ==> shown_value(t, raw, decimals) == "nil"@,
        !null_text(trim(raw), trim(raw)) ==> shown_value(t, raw, decimals) == "^"@ + raw,
{
    lemma_type_names();
    lemma_mentions(t, "char"@);
    lemma_mentions(trim(raw), "nil"@);
    lemma_mentions(trim(raw), "NULL"@);
    if is_string_type(t) {
        if t == "char *"@ {
            assert(t =~= Seq::<char>::empty() + "char"@ + seq![' ', '*']);
            assert(made_of(t, Seq::<char>::empty(), "char"@, seq![' ', '*']));
        } else {
            let front = seq!['c', 'o', 'n', 's', 't', ' '];
            assert(t =~= front + "char"@ + seq![' ', '*']);
            assert(made_of(t, front, "char"@, seq![' ', '*']));
        }
    }
}

/// The type names of character strings mention characters.
proof fn lemma_string_types(t: Seq<char>)
    requires
        t == "char *"@ || t == "const char *"@,
    ensures
        mentions(t, "char"@),
        !t.contains('['),
        !is_bool_type(t),
        !is_char_type(t),
        t != "double"@,
        !is_set_type(t),
{
    lemma_type_names();
    lemma_mentions(t, "char"@);
    if t == "char *"@ {
        assert(t =~= Seq::<char>::empty() + "char"@ + seq![' ', '*']);
        assert(made_of(t, Seq::<char>::empty(), "char"@, seq![' ', '*']));
    } else {
        let front = seq!['c', 'o', 'n', 's', 't', ' '];
        assert(t =~= front + "char"@ + seq![' ', '*']);
        assert(made_of(t, front, "char"@, seq![' ', '*']));
    }
    assert(t.last() == '*');
    assert(t.len() == 6 || t.len() == 12);
}

/// The first and the last of two or more quotes.
proof fn lemma_quoted(before: Seq<char>, body: Seq<char>, after: Seq<char>, q: char)
    requires
        !before.contains(q),
        !after.contains(q),
    ensures
        quoted(before + seq![q] + body + seq![q] + after, q) == Some(
            (before.len() as int, (before.len() + 1 + body.len()) as int),
        ),
{
    let s = before + seq![q] + body + seq![q] + after;
    assert(s =~= before + seq![q] + (body + seq![q] + after));
    lemma_index_at(before, q, body + seq![q] + after);
    lemma_last_index(s, q);
    let n = (before.len() + 1 + body.len()) as int;
    assert(s[n] == q);
    assert(s.contains(q));
    let k = last_index(s, q)->0;
    if k > n {
        assert(s[k] == after[k - n - 1]);
        assert(after.contains(q));
    }
    if k < n {
        assert(s.skip(k + 1)[n - k - 1] == s[n]);
        assert(s.skip(k + 1).contains(q));
    }
}

/// A text without the quote is not quoted.
proof fn lemma_unquoted(s: Seq<char>, q: char)
    requires
        !s.contains(q),
    ensures
        quoted(s, q) is None,
{
    lemma_index(s, q);
    if let Some(i) = index(s, q) {
        assert(s.contains(s[i]));
    }
}

/// A string is shown as what stands between its double quotes, in single quotes; without quotes a
/// null pointer is the empty string, and anything else is shown as it was printed.
pub proof fn lemma_string_shows_content(
    t: Seq<char>,
    before: Seq<char>,
    body: Seq<char>,
    after: Seq<char>,
    decimals: Option<Seq<char>>,
)
    requires
        t == "char *"@ || t == "const char *"@,
        !before.contains('"'),
        !after.contains('"'),
    ensures
        shown_value(t, before + seq!['"'] + body + seq!['"'] + after, decimals) == seq!['\'']
            + body + seq!['\''],
        shown_value(t, before, decimals) == if null_text(trim(before), before) {
            seq!['\'', '\'']
        } else {
            before
        },
{
    reveal_strlit("''");
    lemma_string_types(t);
    lemma_quoted(before, body, after, '"');
    let raw = before + seq!['"'] + body + seq!['"'] + after;
    let n = before.len() as int;
    assert(raw.subrange(n + 1, n + 1 + body.len()) =~= body);
    lemma_unquoted(before, '"');
    lemma_mentions(before, "nil"@);
    lemma_mentions(before, "NULL"@);
    lemma_index(t, '[');
    if let Some(i) = index(t, '[') {
        assert(t.contains(t[i]));
    }
    assert("''"@ =~= seq!['\'', '\'']);
}

/// A character is shown in the quotes that the debugger prints it in; where only its code is
/// printed, as that character in quotes if it is printable ASCII, else as `#` and the code.
pub proof fn lemma_char_shows_character(
    t: Seq<char>,
    before: Seq<char>,
    body: Seq<char>,
    after: Seq<char>,
    code: i64,
    decimals: Option<Seq<char>>,
)
    requires
        t == "char"@ || t == "signed char"@,
        !before.contains('\''),
        !after.contains('\''),
    ensures
        shown_value(t, before + seq!['\''] + body + seq!['\''] + after, decimals) == seq!['\'']
            + body + seq!['\''],
        32 <= code < 127 ==> shown_value(t, show(code as int), decimals) == seq![
            '\'',
            (code as u8) as char,
            '\'',
        ],
        !(32 <= code < 127) ==> shown_value(t, show(code as int), decimals) == seq!['#'] + show(
            code as int,
        ),
        i64_of(trim(before)) is None ==> shown_value(t, before, decimals) == before,
{
    lemma_type_names();
    reveal_strlit("#");
    assert(t.last() == 'r');
    assert(t.len() == 4 || t.len() == 11);
    assert(t[0] == 'c' || t[0] == 's');
    lemma_quoted(before, body, after, '\'');
    let raw = before + seq!['\''] + body + seq!['\''] + after;
    let n = before.len() as int;
    assert(raw.subrange(n, n + 1 + body.len() + 1) =~= seq!['\''] + body + seq!['\'']);
    lemma_number_is_plain(code as int);
    lemma_unquoted(show(code as int), '\'');
    lemma_numbers_read_back(code as int);
    lemma_trim_ink(show(code as int));
    assert("#"@ =~= seq!['#']);
    lemma_unquoted(before, '\'');
    lemma_index(t, '[');
    if let Some(i) = index(t, '[') {
        assert(t[i] == '[');
    }
}

/// A written number has no quotes, and no white space at its ends.
proof fn lemma_number_is_plain(n: int)
    ensures
        !show(n).contains('\''),
        show(n).len() > 0,
        !is_space(show(n)[0]),
        !is_space(show(n).last()),
{
    let d = decimal(if n < 0 {
        (-n) as nat
    } else {
        n as nat
    });
    lemma_decimal_reads_back(if n < 0 {
        (-n) as nat
    } else {
        n as nat
    });
    let s = show(n);
    assert(is_digit(d[0]) && is_digit(d[d.len() - 1]));
    assert(s.last() == d[d.len() - 1]);
    lemma_digit_is_ink(s.last());
    lemma_digit_is_ink(s[0]);
    assert forall|k: int| 0 <= k < s.len() implies s[k] != '\'' by {
        if n < 0 && k > 0 {
            assert(s[k] == d[k - 1]);
        }
        assert(is_digit(s[k]) || s[k] == '-');
    }
}

/// A number with decimals is shown without the zeros at its end, and without the point where
/// nothing stands behind it any more; a value that is no such number is shown as it was printed.
pub proof fn lemma_real_drops_zeros(
    raw: Seq<char>,
    whole: Seq<char>,
    fraction: Seq<char>,
    zeros: nat,
)
    requires
        !whole.contains('.'),
        fraction.len() > 0 ==> fraction.last() != '0' && fraction.last() != '.',
    ensures
        shown_value(
            "double"@,
            raw,
            Some(whole + seq!['.'] + fraction + Seq::new(zeros, |i: int| '0')),
        ) == if fraction.len() > 0 {
            whole + seq!['.'] + fraction
        } else {
            whole
        },
        shown_value("double"@, raw, None) == raw,
{
    lemma_type_names();
    let many = Seq::new(zeros, |i: int| '0');
    let front = whole + seq!['.'] + fraction;
    let all = front + many;
    assert forall|i: int| all.len() - zeros <= i < all.len() implies same_as('0')(
        #[trigger] all[i],
    ) by {
        assert(all[i] == many[i - front.len()]);
    }
    assert(all[all.len() - 1 - zeros] == front.last());
    lemma_span_back(all, same_as('0'), zeros as int);
    assert(strip_back(all, same_as('0')) =~= front);
    if fraction.len() > 0 {
        assert(front.last() == fraction.last());
        lemma_span_back(front, same_as('.'), 0);
        assert(strip_back(front, same_as('.')) =~= front);
    } else {
        assert(front =~= whole + seq!['.']);
        if whole.len() > 0 {
            assert(whole.contains(whole[whole.len() - 1]));
            assert(front[front.len() - 2] == whole[whole.len() - 1]);
        }
        lemma_span_back(front, same_as('.'), 1);
        assert(strip_back(front, same_as('.')) =~= whole);
    }
    lemma_index("double"@, '[');
    if let Some(i) = index("double"@, '[') {
        assert("double"@[i] == '[');
    }
}

/// A text without brackets has no index marks.
pub proof fn lemma_no_marks(s: Seq<char>)
    requires
        !s.contains('['),
    ensures
        without_indices(s) == s,
{
    lemma_index(s, '[');
    if let Some(i) = index(s, '[') {
        assert(s.contains(s[i]));
    }
}

/// The first index mark of a text is taken out, and then those behind it.
pub proof fn lemma_first_mark(before: Seq<char>, mark: Seq<char>, after: Seq<char>)
    requires
        !before.contains('['),
        !mark.contains(']'),
    ensures
        without_indices(before + seq!['['] + mark + "] = "@ + after) == without_indices(
            before + after,
        ),
{
    reveal_strlit("] = ");
    let s = before + seq!['['] + mark + "] = "@ + after;
    let rest = mark + "] = "@ + after;
    assert(s =~= before + seq!['['] + rest);
    lemma_index_at(before, '[', rest);
    let n = before.len() as int;
    let open = seq!['['] + mark;
    assert(s.skip(n) =~= open + "] = "@ + after);
    assert forall|k: int| 0 <= k < open.len() implies open[k] != ']' by {
        if k > 0 {
            assert(mark.contains(mark[k - 1]));
        }
    }
    lemma_cut_behind(open, "] = "@, after);
    assert(s.take(n) =~= before);
}

/// Entries of a dump from position `k` on, behind text without brackets, lose their marks.
proof fn lemma_entries_unmarked(before: Seq<char>, values: Seq<Seq<char>>, k: int)
    requires
        0 <= k < values.len(),
        !before.contains('['),
        forall|i: int| 0 <= i < values.len() ==> !(#[trigger] values[i]).contains('['),
    ensures
        without_indices(
            before + join(
                Seq::new((values.len() - k) as nat, |i: int| dump_entry(k + i, values[k + i])),
                ", "@,
            ) + ")"@,
        ) == before + join(values.skip(k), ", "@) + ")"@,
    decreases values.len() - k,
{
    reveal_strlit(", ");
    reveal_strlit(")");
    reveal_strlit("[");
    reveal_strlit("] = ");
    let entries = Seq::new((values.len() - k) as nat, |i: int| dump_entry(k + i, values[k + i]));
    let d = decimal(k as nat);
    lemma_decimal_reads_back(k as nat);
    assert forall|i: int| 0 <= i < d.len() implies d[i] != ']' by {
        assert(is_digit(d[i]));
    }
    if k == values.len() - 1 {
        assert(entries =~= seq![dump_entry(k, values[k])]);
        assert(values.skip(k) =~= seq![values[k]]);
        let s = before + dump_entry(k, values[k]) + ")"@;
        assert(s =~= before + seq!['['] + d + "] = "@ + (values[k] + ")"@));
        lemma_first_mark(before, d, values[k] + ")"@);
        let t = before + (values[k] + ")"@);
        assert forall|i: int| 0 <= i < t.len() implies t[i] != '[' by {
            if i < before.len() {
                assert(before.contains(before[i]));
            } else if i < before.len() + values[k].len() {
                assert(values[k].contains(values[k][i - before.len()]));
            }
        }
        lemma_no_marks(t);
        assert(t =~= before + values[k] + ")"@);
    } else {
        let rest = Seq::new(
            (values.len() - (k + 1)) as nat,
            |i: int| dump_entry(k + 1 + i, values[k + 1 + i]),
        );
        assert(entries =~= seq![dump_entry(k, values[k])] + rest);
        lemma_join_first(dump_entry(k, values[k]), rest, ", "@);
        let tail = values[k] + ", "@ + join(rest, ", "@) + ")"@;
        let s = before + join(entries, ", "@) + ")"@;
        assert(s =~= before + seq!['['] + d + "] = "@ + tail);
        lemma_first_mark(before, d, tail);
        let next = before + values[k] + ", "@;
        assert(before + tail =~= next + join(rest, ", "@) + ")"@);
        assert forall|i: int| 0 <= i < next.len() implies next[i] != '[' by {
            if i < before.len() {
                assert(before.contains(before[i]));
            } else if i < before.len() + values[k].len() {
                assert(values[k].contains(values[k][i - before.len()]));
            }
        }
        lemma_entries_unmarked(next, values, k + 1);
        let others = values.skip(k + 1);
        assert(values.skip(k) =~= seq![values[k]] + others);
        lemma_join_first(values[k], others, ", "@);
        assert(before + join(values.skip(k), ", "@) + ")"@ =~= next + join(others, ", "@) + ")"@);
    }
}

/// An array is shown as the list of its values: the debugger's index marks go away, and every value
/// stays, in order.
pub proof fn lemma_array_lists_values(
    t: Seq<char>,
    values: Seq<Seq<char>>,
    decimals: Option<Seq<char>>,
)
    requires
        t.contains('['),
        t.last() != '*',
        t != "long[4]"@ && t != "unsigned long[4]"@ && t != "i64[4]"@,
        values.len() > 0,
        forall|i: int| 0 <= i < values.len() ==> !(#[trigger] values[i]).contains('['),
    ensures
        shown_value(t, array_dump(values), decimals) == "("@ + join(values, ", "@) + ")"@,
{
    lemma_type_names();
    reveal_strlit("(");
    let raw = array_dump(values);
    assert(raw[0] == '(');
    lemma_index(t, '[');
    let p = choose|p: int| 0 <= p < t.len() && t[p] == '[';
    assert(t[p] == '[');
    let entries = Seq::new(values.len(), |k: int| dump_entry(k, values[k]));
    assert(entries =~= Seq::new(
        (values.len() - 0) as nat,
        |i: int| dump_entry(0 + i, values[0 + i]),
    ));
    lemma_entries_unmarked("("@, values, 0);
    assert(values.skip(0) =~= values);
}

/// A set is shown as a literal that names exactly its members.
pub proof fn lemma_set_shows_members(
    t: Seq<char>,
    values: Seq<Seq<char>>,
    words: Seq<u64>,
    n: nat,
    decimals: Option<Seq<char>>,
)
    requires
        t == "long[4]"@ || t == "unsigned long[4]"@ || t == "i64[4]"@,
        values.len() == 4,
        words.len() == 4,
        forall|k: int| 0 <= k < values.len() ==> writes_word(#[trigger] values[k], words[k]),
    ensures
        literal_names(shown_value(t, array_dump(values), decimals), n) <==> n < 256 && (words[(n
            / 64) as int] >> ((n % 64) as u64)) & 1 == 1,
{
    lemma_type_names();
    reveal_strlit("(");
    assert(array_dump(values)[0] == '(');
    assert(t.last() == ']');
    assert(t.len() == 7 || t.len() == 16 || (t.len() == 6 && t[0] == 'i'));
    lemma_dump_decodes(values, words, n);
}

/// A value of a type that is told apart by nothing is shown as it was printed: numbers, records
/// and whatever else.
pub proof fn lemma_other_values_unchanged(
    t: Seq<char>,
    raw: Seq<char>,
    decimals: Option<Seq<char>>,
)
    requires
        t.len() == 0 || t.last() != '*',
        t != "bool"@ && t != "unsigned char"@ && t != "char"@ && t != "signed char"@,
        t != "double"@,
        !t.contains('[') || raw.len() == 0 || raw[0] != '(',
    ensures
        shown_value(t, raw, decimals) == raw,
{
    lemma_type_names();
    lemma_index(t, '[');
    if let Some(i) = index(t, '[') {
        assert(t.contains(t[i]));
    }
    if is_set_type(t) {
        assert(t == "long[4]"@ ==> t[4] == '[');
        assert(t == "unsigned long[4]"@ ==> t[13] == '[');
        assert(t == "i64[4]"@ ==> t[3] == '[');
    }
}

/// A line such as `(long) x = 42` prints a variable: its type stands in the parentheses, its name
/// before the equals sign and its value behind it; white space around the line does not count. The
/// variable is reported with the value as its type has it shown, unless it is one of the runtime.
pub proof fn lemma_variable_line(
    before: Seq<char>,
    t: Seq<char>,
    name: Seq<char>,
    value: Seq<char>,
    after: Seq<char>,
    decimals: Option<Seq<char>>,
)
    requires
        blank(before),
        blank(after),
        !t.contains(')'),
        name.len() > 0 && !is_space(name[0]) && !is_space(name.last()),
        !name.contains('='),
        value.len() > 0 && !is_space(value[0]) && !is_space(value.last()),
    ensures
        variable_parts(before + ("("@ + t + ") "@ + name + " = "@ + value) + after) == Some(
            (t, name, value),
        ),
        variable_of(before + ("("@ + t + ") "@ + name + " = "@ + value) + after, decimals)
            == if name == "_capture"@ || name == "_end_bp"@ || name == "_bruto_capture_fp"@ {
            None
        } else {
            Some((name, shown_value(t, value, decimals), t))
        },
{
    reveal_strlit("(");
    reveal_strlit(") ");
    reveal_strlit(" = ");
    let inner = "("@ + t + ") "@ + name + " = "@ + value;
    assert(inner[0] == '(' && inner.last() == value.last());
    lemma_trim_around(before, inner, after);
    let open = "("@ + t;
    let rest = name + " = "@ + value;
    assert(inner =~= open + ") "@ + rest);
    assert forall|k: int| 0 <= k < open.len() implies open[k] != ')' by {
        if k > 0 {
            assert(t.contains(t[k - 1]));
        }
    }
    lemma_cut_behind(open, ") "@, rest);
    assert(open.skip(1) =~= t);
    assert forall|j: int| 0 <= j < name.len() implies !#[trigger] occurs_at(rest, " = "@, j) by {
        lemma_occurs(rest, " = "@, j);
        if occurs_at(rest, " = "@, j) {
            assert(rest[j + 1] == " = "@[1]);
            if j + 1 < name.len() {
                assert(name.contains(name[j + 1]));
            } else {
                assert(rest[j + 1] == ' ');
            }
        }
    }
    lemma_cut_at(name, " = "@, value);
    lemma_trim_ink(name);
    lemma_trim_ink(value);
}

/// A line that does not open with a parenthesis, or where the parenthesis is not closed before a
/// blank, prints no variable; nor does one without an equals sign between blanks.
pub proof fn lemma_other_lines(line: Seq<char>, decimals: Option<Seq<char>>)
    ensures
        variable_of(line, decimals) is Some ==> {
            &&& trim(line).len() > 0 && trim(line)[0] == '('
            &&& exists|a: Seq<char>, b: Seq<char>| #[trigger] made_of(trim(line), a, ") "@, b)
            &&& exists|a: Seq<char>, b: Seq<char>| #[trigger] made_of(trim(line), a, " = "@, b)
        },
{
    let s = trim(line);
    lemma_cut(s, ") "@);
    if variable_of(line, decimals) is Some {
        let (a, b) = cut(s, ") "@)->0;
        assert(made_of(s, a, ") "@, b));
        lemma_cut(b, " = "@);
        let (c, d) = cut(b, " = "@)->0;
        assert(s =~= (a + ") "@ + c) + " = "@ + d);
        assert(made_of(s, a + ") "@ + c, " = "@, d));
    }
}

/// The class of a type goes by its name, white space around it aside.
pub proof fn lemma_class_by_name(before: Seq<char>, t: Seq<char>, after: Seq<char>)
    requires
        blank(before),
        blank(after),
        t.len() > 0 ==> !is_space(t[0]) && !is_space(t.last()),
    ensures
        class_of(before + t + after) == VarType::String <==> t == "char *"@ || t == "const char *"@,
        class_of(before + t + after) == VarType::Char <==> t == "char"@ || t == "signed char"@,
        class_of(before + t + after) == VarType::Boolean <==> t == "bool"@ || t == "unsigned char"@,
        class_of(before + t + after) == VarType::Real <==> t == "double"@ || t == "float"@,
        class_of(before + t + after) == VarType::Integer <==> seq![
            "long"@,
            "unsigned long"@,
            "long long"@,
            "unsigned long long"@,
            "int"@,
            "unsigned int"@,
            "short"@,
            "unsigned short"@,
            "i64"@,
            "i32"@,
            "i16"@,
            "i8"@,
            "u64"@,
            "u32"@,
            "u16"@,
            "u8"@,
        ].contains(t),
{
    lemma_trim_around(before, t, after);
    lemma_type_names();
    reveal_strlit("long");
    reveal_strlit("unsigned long");
    reveal_strlit("long long");
    reveal_strlit("unsigned long long");
    reveal_strlit("int");
    reveal_strlit("unsigned int");
    reveal_strlit("short");
    reveal_strlit("unsigned short");
    reveal_strlit("i64");
    reveal_strlit("i32");
    reveal_strlit("i16");
    reveal_strlit("i8");
    reveal_strlit("u64");
    reveal_strlit("u32");
    reveal_strlit("u16");
    reveal_strlit("u8");
    let ints = seq![
        "long"@,
        "unsigned long"@,
        "long long"@,
        "unsigned long long"@,
        "int"@,
        "unsigned int"@,
        "short"@,
        "unsigned short"@,
        "i64"@,
        "i32"@,
        "i16"@,
        "i8"@,
        "u64"@,
        "u32"@,
        "u16"@,
        "u8"@,
    ];
    assert(ints[0] == "long"@ && ints[1] == "unsigned long"@ && ints[2] == "long long"@);
    assert(ints[3] == "unsigned long long"@ && ints[4] == "int"@ && ints[5] == "unsigned int"@);
    assert(ints[6] == "short"@ && ints[7] == "unsigned short"@ && ints[8] == "i64"@);
    assert(ints[9] == "i32"@ && ints[10] == "i16"@ && ints[11] == "i8"@ && ints[12] == "u64"@);
    assert(ints[13] == "u32"@ && ints[14] == "u16"@ && ints[15] == "u8"@);
    assert(is_integer_type(t) <==> ints.contains(t));
    assert("long"@.len() == 4 && "long"@[0] == 'l');
    assert("unsigned long"@.len() == 13 && "unsigned long"@[9] == 'l');
    assert("long long"@.len() == 9 && "unsigned long long"@.len() == 18);
    assert("int"@.len() == 3 && "unsigned int"@.len() == 12 && "unsigned int"@[0] == 'u');
    assert("short"@.len() == 5 && "short"@[0] == 's' && "unsigned short"@.len() == 14);
    assert("i64"@.len() == 3 && "i32"@.len() == 3 && "i16"@.len() == 3 && "i8"@.len() == 2);
    assert("u64"@.len() == 3 && "u32"@.len() == 3 && "u16"@.len() == 3 && "u8"@.len() == 2);
}

/// Numbers, truth values and characters can be set from the watch window, strings and other values
/// cannot; each class has a name of its own.
pub proof fn lemma_classes(a: VarType, b: VarType)
    ensures
        a.settable() <==> a == VarType::Integer || a == VarType::Real || a == VarType::Boolean || a
            == VarType::Char,
        a.name() == b.name() ==> a == b,
        VarType::Integer.name() == "integer"@,
        VarType::Real.name() == "real"@,
        VarType::Boolean.name() == "boolean"@,
        VarType::Char.name() == "char"@,
        VarType::String.name() == "string"@,
        VarType::Other.name() == "value"@,
{
    reveal_strlit("integer");
    reveal_strlit("real");
    reveal_strlit("boolean");
    reveal_strlit("char");
    reveal_strlit("string");
    reveal_strlit("value");
    assert("integer"@[0] == 'i' && "real"@[0] == 'r' && "boolean"@[0] == 'b');
    assert("char"@[0] == 'c' && "string"@[0] == 's' && "value"@[0] == 'v');
}

} // verus!
