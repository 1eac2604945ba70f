//! Pascal-aware metadata of variables: reading it, and formatting values by it.

use vstd::prelude::*;

use crate::number::{
    decimal, i64_of, is_digit, lemma_decimal_reads_back, lemma_digit_is_ink,
    lemma_numbers_read_back, push_signed, read_i64, show,
};
use crate::set_mask::{decode_set_bitmask, decoded_set};
use crate::text::{
    after_prefix, begins_with, blank, cut, cut_once, cut_text, is_space, join, join_text,
    lemma_index_at, lemma_split_at, lemma_split_whole, lemma_trim_around, lemma_trim_ink, line_list,
    lines, opt_text, pieces, same_as, same_str, same_text, split, split_on, split_once, starts_with,
    starts_with_char, strip_back, strip_front, texts, to_chars, to_text, trim, trim_back_char,
    trim_front_char, trimmed,
};

verus! {

/// What is known of one variable beyond its debugger type.
#[derive(Debug, Clone)]
pub enum VarMeta {
    /// The names of the values, in ordinal order.
    Enum(Vec<String>),
    /// A bit mask of four words.
    SetMask,
    /// A record with a tag and cases.
    VariantRecord {
        tag_name: Option<String>,
        /// Name and short type of each field outside the cases.
        fixed_fields: Vec<(String, String)>,
        /// The tag values of each case, and its fields.
        cases: Vec<(Vec<i64>, Vec<(String, String)>)>,
    },
}

/// A list of names, each with a text.
pub type Pairs = Seq<(Seq<char>, Seq<char>)>;

/// The cases of a variant record: tag values, and fields.
pub type Cases = Seq<(Seq<i64>, Pairs)>;

/// What a `VarMeta` says, over plain sequences.
pub enum MetaView {
    Enum(Seq<Seq<char>>),
    Mask,
    Record { tag: Option<Seq<char>>, fixed: Pairs, cases: Cases },
}

/// The texts of a list of pairs of strings.
pub open spec fn pair_texts(v: Seq<(String, String)>) -> Pairs {
    v.map_values(|p: (String, String)| (p.0@, p.1@))
}

/// The contents of a list of cases.
pub open spec fn case_texts(v: Seq<(Vec<i64>, Vec<(String, String)>)>) -> Cases {
    v.map_values(|c: (Vec<i64>, Vec<(String, String)>)| (c.0@, pair_texts(c.1@)))
}

impl View for VarMeta {
    type V = MetaView;

    open spec fn view(&self) -> MetaView {
        match self {
            VarMeta::Enum(values) => MetaView::Enum(texts(values@)),
            VarMeta::SetMask => MetaView::Mask,
            VarMeta::VariantRecord { tag_name, fixed_fields, cases } => MetaView::Record {
                tag: opt_text(*tag_name),
                fixed: pair_texts(fixed_fields@),
                cases: case_texts(cases@),
            },
        }
    }
}

/// The numbers among the given texts.
pub open spec fn numbers(list: Seq<Seq<char>>) -> Seq<i64>
    decreases list.len(),
{
    if list.len() == 0 {
        seq![]
    } else {
        match i64_of(list.last()) {
            Some(n) => numbers(list.drop_last()).push(n),
            None => numbers(list.drop_last()),
        }
    }
}

/// The pairs `name=text` among the given texts.
pub open spec fn equations(list: Seq<Seq<char>>) -> Pairs
    decreases list.len(),
{
    if list.len() == 0 {
        seq![]
    } else {
        match split_once(list.last(), '=') {
            Some(p) => equations(list.drop_last()).push(p),
            None => equations(list.drop_last()),
        }
    }
}

/// One part of the description of a variant record.
pub enum RecordPart {
    Nothing,
    Tag(Seq<char>),
    Case(Seq<i64>, Pairs),
    Fixed(Seq<char>, Seq<char>),
}

/// What one part of the description of a variant record says: `__tag=name`,
/// `__case[values]=field=type,...`, or `field=type`.
pub open spec fn record_part(part: Seq<char>) -> RecordPart {
    if starts_with(part, "__tag="@) {
        RecordPart::Tag(part.skip("__tag="@.len() as int))
    } else if starts_with(part, "__case["@) {
        match cut(part.skip("__case["@.len() as int), "]="@) {
            Some((values, fields)) => RecordPart::Case(
                numbers(split(values, ',')),
                equations(split(fields, ',')),
            ),
            None => RecordPart::Nothing,
        }
    } else {
        match split_once(part, '=') {
            Some((name, short_type)) => RecordPart::Fixed(name, short_type),
            None => RecordPart::Nothing,
        }
    }
}

/// The record that the given parts describe; a later tag replaces an earlier one.
pub open spec fn record_of(parts: Seq<Seq<char>>) -> (Option<Seq<char>>, Pairs, Cases)
    decreases parts.len(),
{
    if parts.len() == 0 {
        (None, seq![], seq![])
    } else {
        let (tag, fixed, cases) = record_of(parts.drop_last());
        match record_part(parts.last()) {
            RecordPart::Nothing => (tag, fixed, cases),
            RecordPart::Tag(name) => (Some(name), fixed, cases),
            RecordPart::Case(values, fields) => (tag, fixed, cases.push((values, fields))),
            RecordPart::Fixed(name, short_type) => (tag, fixed.push((name, short_type)), cases),
        }
    }
}

/// The metadata that the description of a variant record gives.
pub open spec fn vrec_of(body: Seq<char>) -> MetaView {
    let (tag, fixed, cases) = record_of(split(body, ';'));
    MetaView::Record { tag, fixed, cases }
}

/// The name and the metadata that a line `name|kind|extra` gives, where the kind is known.
pub open spec fn meta_entry(line: Seq<char>) -> Option<(Seq<char>, MetaView)> {
    match split_once(line, '|') {
        Some((name, rest)) => {
            let (kind, extra) = match split_once(rest, '|') {
                Some((kind, extra)) => (kind, extra),
                None => (rest, Seq::<char>::empty()),
            };
            if kind == "enum"@ {
                Some((name, MetaView::Enum(split(extra, ','))))
            } else if kind == "set"@ {
                Some((name, MetaView::Mask))
            } else if kind == "vrec"@ {
                Some((name, vrec_of(extra)))
            } else {
                None
            }
        },
        None => None,
    }
}

/// The metadata that the given lines give, by name; a later line replaces an earlier one.
pub open spec fn meta_table(rows: Seq<Seq<char>>) -> Map<Seq<char>, MetaView>
    decreases rows.len(),
{
    if rows.len() == 0 {
        Map::empty()
    } else {
        match meta_entry(rows.last()) {
            Some((name, meta)) => meta_table(rows.drop_last()).insert(name, meta),
            None => meta_table(rows.drop_last()),
        }
    }
}

/// `c` opens a nested value.
pub open spec fn opens(c: char) -> bool {
    c == '(' || c == '{' || c == '['
}

/// `c` closes a nested value.
pub open spec fn closes(c: char) -> bool {
    c == ')' || c == '}' || c == ']'
}

/// How many brackets are open in `s` before position `i`.
pub open spec fn depth(s: Seq<char>, i: int) -> int
    decreases i,
{
    if i <= 0 {
        0
    } else if opens(s[i - 1]) {
        depth(s, i - 1) + 1
    } else if closes(s[i - 1]) {
        depth(s, i - 1) - 1
    } else {
        depth(s, i - 1)
    }
}

/// At position `i` of `s` stands a comma outside all brackets.
pub open spec fn top_comma(s: Seq<char>, i: int) -> bool {
    s[i] == ',' && depth(s, i) == 0
}

/// The parts of `s` from `start` on, cut at the commas outside all brackets from position `i` on.
/// An empty last part is left out.
pub open spec fn top_from(s: Seq<char>, start: int, i: int) -> Seq<Seq<char>>
    decreases s.len() - i,
{
    if i >= s.len() {
        if start < s.len() {
            seq![s.subrange(start, s.len() as int)]
        } else {
            seq![]
        }
    } else if top_comma(s, i) {
        seq![s.subrange(start, i)] + top_from(s, i + 1, i + 1)
    } else {
        top_from(s, start, i + 1)
    }
}

/// The parts of `s` between the commas outside all brackets.
pub open spec fn top_level(s: Seq<char>) -> Seq<Seq<char>> {
    top_from(s, 0, 0)
}

/// The field names and values of a record dump such as `(color = 7, kind = 1)`, given its entries.
pub open spec fn field_values(entries: Seq<Seq<char>>) -> Pairs
    decreases entries.len(),
{
    if entries.len() == 0 {
        seq![]
    } else {
        match split_once(trim(entries.last()), '=') {
            Some((n, v)) => field_values(entries.drop_last()).push((trim(n), trim(v))),
            None => field_values(entries.drop_last()),
        }
    }
}

/// The field names and values of a record dump.
pub open spec fn dump_fields(raw: Seq<char>) -> Pairs {
    field_values(top_level(strip_back(strip_front(trim(raw), same_as('(')), same_as(')'))))
}

/// `name` is the name of one of the pairs.
pub open spec fn named(pairs: Pairs, name: Seq<char>) -> bool {
    exists|i: int| 0 <= i < pairs.len() && (#[trigger] pairs[i]).0 == name
}

/// The text of the first pair with the given name, from position `i` on.
pub open spec fn value_from(pairs: Pairs, name: Seq<char>, i: int) -> Option<Seq<char>>
    decreases pairs.len() - i,
{
    if i >= pairs.len() {
        None
    } else if pairs[i].0 == name {
        Some(pairs[i].1)
    } else {
        value_from(pairs, name, i + 1)
    }
}

/// The value of the tag field, where the record has one and it is a number.
pub open spec fn tag_value(tag: Option<Seq<char>>, fields: Pairs) -> Option<i64> {
    match tag {
        Some(name) => match value_from(fields, name, 0) {
            Some(v) => i64_of(v),
            None => None,
        },
        None => None,
    }
}

/// The fields of the first case, from case `i` on, that has the tag value `v`.
pub open spec fn case_from(cases: Cases, v: i64, i: int) -> Pairs
    decreases cases.len() - i,
{
    if i >= cases.len() {
        seq![]
    } else if cases[i].0.contains(v) {
        cases[i].1
    } else {
        case_from(cases, v, i + 1)
    }
}

/// The fields of the active case: none where the tag selects no case.
pub open spec fn active_fields(tag: Option<Seq<char>>, cases: Cases, fields: Pairs) -> Pairs {
    match tag_value(tag, fields) {
        Some(v) => case_from(cases, v, 0),
        None => seq![],
    }
}

/// `name` is a field of one of the cases.
pub open spec fn in_some_case(cases: Cases, name: Seq<char>) -> bool {
    exists|i: int| 0 <= i < cases.len() && named((#[trigger] cases[i]).1, name)
}

/// The field `name` of a variant record is shown: it is a field of the active case, or it is a
/// fixed field or the tag and belongs to no other case.
pub open spec fn shows_field(
    tag: Option<Seq<char>>,
    fixed: Pairs,
    cases: Cases,
    active: Pairs,
    name: Seq<char>,
) -> bool {
    ||| named(active, name)
    ||| (named(fixed, name) || tag == Some(name)) && !in_some_case(cases, name)
}

/// The text `name=value` of a field.
pub open spec fn field_text(field: (Seq<char>, Seq<char>)) -> Seq<char> {
    field.0 + "="@ + field.1
}

/// The fields that are shown, as `name=value`.
pub open spec fn shown_fields(
    tag: Option<Seq<char>>,
    fixed: Pairs,
    cases: Cases,
    active: Pairs,
    fields: Pairs,
) -> Seq<Seq<char>>
    decreases fields.len(),
{
    if fields.len() == 0 {
        seq![]
    } else {
        let before = shown_fields(tag, fixed, cases, active, fields.drop_last());
        let (name, value) = fields.last();
        if shows_field(tag, fixed, cases, active, name) {
            before.push(field_text((name, value)))
        } else {
            before
        }
    }
}

/// A variant record as the watch window shows it: of the fields of the cases, only those of the
/// active case.
pub open spec fn shown_record(
    tag: Option<Seq<char>>,
    fixed: Pairs,
    cases: Cases,
    raw: Seq<char>,
) -> Seq<char> {
    let fields = dump_fields(raw);
    let active = active_fields(tag, cases, fields);
    "("@ + join(shown_fields(tag, fixed, cases, active, fields), ", "@) + ")"@
}

/// A value as the metadata of its variable has it shown, where it fits the metadata.
pub open spec fn shown_by_meta(meta: MetaView, raw: Seq<char>) -> Option<Seq<char>> {
    match meta {
        MetaView::Enum(values) => match i64_of(trim(raw)) {
            Some(n) => if 0 <= n < values.len() {
                Some(values[n as int] + " ("@ + show(n as int) + ")"@)
            } else {
                None
            },
            None => None,
        },
        MetaView::Mask => if starts_with_char(raw, '[') {
            Some(raw)
        } else {
            decoded_set(raw)
        },
        MetaView::Record { tag, fixed, cases } => Some(shown_record(tag, fixed, cases, raw)),
    }
}

/// Metadata by variable name.
pub struct MetaTable {
    entries: Vec<(String, VarMeta)>,
}

/// The map that a list of entries makes; a later entry replaces an earlier one.
pub open spec fn entry_map(entries: Seq<(String, VarMeta)>) -> Map<Seq<char>, MetaView>
    decreases entries.len(),
{
    if entries.len() == 0 {
        Map::empty()
    } else {
        entry_map(entries.drop_last()).insert(entries.last().0@, entries.last().1@)
    }
}

impl View for MetaTable {
    type V = Map<Seq<char>, MetaView>;

    closed spec fn view(&self) -> Map<Seq<char>, MetaView> {
        entry_map(self.entries@)
    }
}

/// Where none of the last entries has the name, they do not count for it.
proof fn lemma_entry_map_skip(entries: Seq<(String, VarMeta)>, i: int, name: Seq<char>)
    requires
        0 <= i <= entries.len(),
        forall|j: int| i <= j < entries.len() ==> (#[trigger] entries[j]).0@ != name,
    ensures
        entry_map(entries).dom().contains(name) == entry_map(entries.take(i)).dom().contains(name),
        entry_map(entries).dom().contains(name) ==> entry_map(entries)[name] == entry_map(
            entries.take(i),
        )[name],
    decreases entries.len() - i,
{
    if i < entries.len() {
        lemma_entry_map_skip(entries, i + 1, name);
        assert(entries.take(i + 1).drop_last() =~= entries.take(i));
        assert(entries.take(i + 1).last() == entries[i]);
    } else {
        assert(entries.take(i) =~= entries);
    }
}

/// The file that holds the metadata of a program.
pub fn metadata_path(exe_path: &str) -> (r: String)
    ensures
        r@ == exe_path@ + ".bruto-meta"@,
{
    let mut out: String = exe_path.to_string();
    out.append(".bruto-meta");
    out
}

impl MetaTable {
    /// A table without entries.
    pub fn new() -> (r: MetaTable)
        ensures
            r@ == Map::<Seq<char>, MetaView>::empty(),
    {
        MetaTable { entries: Vec::new() }
    }

    /// Sets the metadata of the variable `name`.
    pub fn insert(&mut self, name: String, meta: VarMeta)
        ensures
            final(self)@ == old(self)@.insert(name@, meta@),
    {
        self.entries.push((name, meta));
        assert(self.entries@.drop_last() =~= old(self).entries@);
    }

    /// The metadata of the variable `name`.
    pub fn get(&self, name: &str) -> (r: Option<&VarMeta>)
        ensures
            match r {
                Some(meta) => self@.dom().contains(name@) && self@[name@] == meta@,
                None => !self@.dom().contains(name@),
            },
    {
        let mut i: usize = self.entries.len();
        while i > 0
            invariant
                i <= self.entries@.len(),
                forall|j: int|
                    i <= j < self.entries@.len() ==> (#[trigger] self.entries@[j]).0@ != name@,
            decreases i,
        {
            i = i - 1;
            if same_str(self.entries[i].0.as_str(), name) {
                proof {
                    lemma_entry_map_skip(self.entries@, i + 1, name@);
                    assert(self.entries@.take(i + 1).last() == self.entries@[i as int]);
                }
                return Some(&self.entries[i].1);
            }
        }
        proof {
            lemma_entry_map_skip(self.entries@, 0, name@);
            assert(self.entries@.take(0) =~= seq![]);
        }
        None
    }

    /// The table that the lines of a metadata file make.
    pub fn parse(contents: &str) -> (r: MetaTable)
        ensures
            r@ == meta_table(lines(contents@)),
    {
        let mut table = MetaTable::new();
        let chars = to_chars(contents);
        let rows = line_list(chars.as_slice());
        let ghost all = pieces(rows@);
        assert(all.take(0) =~= seq![]);
        for i in 0..rows.len()
            invariant
                all == pieces(rows@),
                table@ == meta_table(all.take(i as int)),
        {
            assert(all.take(i + 1).drop_last() =~= all.take(i as int));
            assert(all.take(i + 1).last() == rows@[i as int]@);
            if let Some((name, meta)) = parse_meta_line(rows[i]) {
                table.insert(name, meta);
            }
        }
        assert(all.take(all.len() as int) =~= all);
        table
    }
}

/// The texts of the pieces, as strings.
fn owned_pieces(v: &Vec<&[char]>) -> (out: Vec<String>)
    ensures
        texts(out@) == pieces(v@),
{
    let mut out: Vec<String> = Vec::new();
    for i in 0..v.len()
        invariant
            out@.len() == i,
            forall|j: int| 0 <= j < i ==> (#[trigger] out@[j])@ == v@[j]@,
    {
        out.push(to_text(v[i]));
    }
    assert(texts(out@) =~= pieces(v@));
    out
}

/// The name and the metadata that a line of a metadata file gives.
fn parse_meta_line(line: &[char]) -> (r: Option<(String, VarMeta)>)
    ensures
        match r {
            Some(e) => meta_entry(line@) == Some((e.0@, e.1@)),
            None => meta_entry(line@) is None,
        },
{
    let (name, rest) = match cut_once(line, '|') {
        Some(p) => p,
        None => {
            return None;
        },
    };
    let empty: Vec<char> = Vec::new();
    let (kind, extra) = match cut_once(rest, '|') {
        Some(p) => p,
        None => (rest, empty.as_slice()),
    };
    assert(empty@ =~= Seq::<char>::empty());
    if same_text(kind, "enum") {
        let values = owned_pieces(&split_on(extra, ','));
        Some((to_text(name), VarMeta::Enum(values)))
    } else if same_text(kind, "set") {
        Some((to_text(name), VarMeta::SetMask))
    } else if same_text(kind, "vrec") {
        let body = to_text(extra);
        Some((to_text(name), parse_vrec(body.as_str())))
    } else {
        None
    }
}

/// The numbers among the given texts.
fn read_numbers(list: &Vec<&[char]>) -> (out: Vec<i64>)
    ensures
        out@ == numbers(pieces(list@)),
{
    let ghost all = pieces(list@);
    let mut out: Vec<i64> = Vec::new();
    assert(all.take(0) =~= seq![]);
    for i in 0..list.len()
        invariant
            all == pieces(list@),
            out@ == numbers(all.take(i as int)),
    {
        assert(all.take(i + 1).drop_last() =~= all.take(i as int));
        assert(all.take(i + 1).last() == list@[i as int]@);
        if let Some(n) = read_i64(list[i]) {
            out.push(n);
        }
    }
    assert(all.take(all.len() as int) =~= all);
    out
}

/// The pairs `name=text` among the given texts.
fn read_equations(list: &Vec<&[char]>) -> (out: Vec<(String, String)>)
    ensures
        pair_texts(out@) == equations(pieces(list@)),
{
    let ghost all = pieces(list@);
    let mut out: Vec<(String, String)> = Vec::new();
    assert(all.take(0) =~= seq![]);
    assert(pair_texts(out@) =~= seq![]);
    for i in 0..list.len()
        invariant
            all == pieces(list@),
            pair_texts(out@) == equations(all.take(i as int)),
    {
        assert(all.take(i + 1).drop_last() =~= all.take(i as int));
        assert(all.take(i + 1).last() == list@[i as int]@);
        if let Some((n, t)) = cut_once(list[i], '=') {
            let ghost before = out@;
            out.push((to_text(n), to_text(t)));
            assert(pair_texts(out@) =~= pair_texts(before).push((n@, t@)));
        }
    }
    assert(all.take(all.len() as int) =~= all);
    out
}

/// Parses the body of a `name|vrec|<body>` metadata line.
pub fn parse_vrec(body: &str) -> (r: VarMeta)
    ensures
        r@ == vrec_of(body@),
{
    let chars = to_chars(body);
    let parts = split_on(chars.as_slice(), ';');
    let ghost all = pieces(parts@);
    let mut tag_name: Option<String> = None;
    let mut fixed: Vec<(String, String)> = Vec::new();
    let mut cases: Vec<(Vec<i64>, Vec<(String, String)>)> = Vec::new();
    assert(all.take(0) =~= seq![]);
    assert(pair_texts(fixed@) =~= seq![]);
    assert(case_texts(cases@) =~= seq![]);
    for i in 0..parts.len()
        invariant
            all == pieces(parts@),
            (opt_text(tag_name), pair_texts(fixed@), case_texts(cases@)) == record_of(
                all.take(i as int),
            ),
    {
        assert(all.take(i + 1).drop_last() =~= all.take(i as int));
        assert(all.take(i + 1).last() == parts@[i as int]@);
        let part = parts[i];
        if let Some(rest) = after_prefix(part, "__tag=") {
            tag_name = Some(to_text(rest));
        } else if let Some(rest) = after_prefix(part, "__case[") {
            if let Some((values, fields)) = cut_text(rest, "]=") {
                let vals = read_numbers(&split_on(values, ','));
                let fs = read_equations(&split_on(fields, ','));
                let ghost before = cases@;
                let ghost added = (vals@, pair_texts(fs@));
                cases.push((vals, fs));
                assert(case_texts(cases@) =~= case_texts(before).push(added));
            }
        } else if let Some((n, t)) = cut_once(part, '=') {
            let ghost before = fixed@;
            fixed.push((to_text(n), to_text(t)));
            assert(pair_texts(fixed@) =~= pair_texts(before).push((n@, t@)));
        }
    }
    assert(all.take(all.len() as int) =~= all);
    VarMeta::VariantRecord { tag_name, fixed_fields: fixed, cases }
}

/// Splits `inner` at the commas outside all brackets.
pub fn split_top_level(inner: &str) -> (out: Vec<String>)
    ensures
        texts(out@) == top_level(inner@),
{
    let chars = to_chars(inner);
    let ghost s = chars@;
    let mut out: Vec<String> = Vec::new();
    let mut buf: String = String::new();
    let ghost mut start: int = 0;
    let mut level: i128 = 0;
    assert(texts(out@) + top_from(s, 0, 0) =~= top_level(s));
    assert(buf@ =~= s.subrange(0, 0));
    for i in 0..chars.len()
        invariant
            s == chars@,
            0 <= start <= i,
            -i <= level <= i,
            level == depth(s, i as int),
            buf@ == s.subrange(start, i as int),
            texts(out@) + top_from(s, start, i as int) == top_level(s),
    {
        let c = chars[i];
        if c == ',' && level == 0 {
            let ghost before = texts(out@);
            let ghost one = s.subrange(start, i as int);
            out.push(buf);
            buf = String::new();
            proof {
                let rest = top_from(s, i + 1, i + 1);
                assert(texts(out@) =~= before + seq![one]);
                assert(before + (seq![one] + rest) =~= (before + seq![one]) + rest);
                start = i + 1;
                assert(buf@ =~= s.subrange(start, i + 1));
            }
        } else {
            if c == '(' || c == '{' || c == '[' {
                level = level + 1;
            } else if c == ')' || c == '}' || c == ']' {
                level = level - 1;
            }
            buf.push(c);
            assert(buf@ =~= s.subrange(start, i + 1));
        }
    }
    let ghost before = texts(out@);
    if !buf.as_str().is_empty() {
        out.push(buf);
        assert(texts(out@) =~= before + seq![s.subrange(start, s.len() as int)]);
    } else {
        assert(before + top_from(s, start, s.len() as int) =~= before);
    }
    out
}

/// The field names and values of a record dump.
fn read_fields(raw: &[char]) -> (out: Vec<(String, String)>)
    ensures
        pair_texts(out@) == dump_fields(raw@),
{
    let inner = to_text(trim_back_char(trim_front_char(trimmed(raw), '('), ')'));
    let entries = split_top_level(inner.as_str());
    let ghost all = texts(entries@);
    let mut out: Vec<(String, String)> = Vec::new();
    assert(all.take(0) =~= seq![]);
    assert(pair_texts(out@) =~= seq![]);
    for i in 0..entries.len()
        invariant
            all == texts(entries@),
            pair_texts(out@) == field_values(all.take(i as int)),
    {
        assert(all.take(i + 1).drop_last() =~= all.take(i as int));
        assert(all.take(i + 1).last() == entries@[i as int]@);
        let chars = to_chars(entries[i].as_str());
        if let Some((n, v)) = cut_once(trimmed(chars.as_slice()), '=') {
            let ghost before = out@;
            out.push((to_text(trimmed(n)), to_text(trimmed(v))));
            assert(pair_texts(out@) =~= pair_texts(before).push((trim(n@), trim(v@))));
        }
    }
    assert(all.take(all.len() as int) =~= all);
    out
}

/// Tells whether one of the pairs has the given name.
fn has_name(list: &Vec<(String, String)>, name: &str) -> (r: bool)
    ensures
        r == named(pair_texts(list@), name@),
{
    for i in 0..list.len()
        invariant
            forall|j: int| 0 <= j < i ==> (#[trigger] pair_texts(list@)[j]).0 != name@,
    {
        assert(pair_texts(list@)[i as int].0 == list@[i as int].0@);
        if same_str(list[i].0.as_str(), name) {
            return true;
        }
    }
    false
}

/// Tells whether one of the cases has a field with the given name.
fn some_case_has(cases: &Vec<(Vec<i64>, Vec<(String, String)>)>, name: &str) -> (r: bool)
    ensures
        r == in_some_case(case_texts(cases@), name@),
{
    for i in 0..cases.len()
        invariant
            forall|j: int| 0 <= j < i ==> !named((#[trigger] case_texts(cases@)[j]).1, name@),
    {
        assert(case_texts(cases@)[i as int].1 == pair_texts(cases@[i as int].1@));
        if has_name(&cases[i].1, name) {
            return true;
        }
    }
    false
}

/// Tells whether `v` is one of the numbers.
fn has_number(list: &Vec<i64>, v: i64) -> (r: bool)
    ensures
        r == list@.contains(v),
{
    for i in 0..list.len()
        invariant
            forall|j: int| 0 <= j < i ==> list@[j] != v,
    {
        if list[i] == v {
            return true;
        }
    }
    false
}

/// The value of the tag field, where the record has one and it is a number.
fn find_tag(tag: &Option<String>, fields: &Vec<(String, String)>) -> (r: Option<i64>)
    ensures
        r == tag_value(opt_text(*tag), pair_texts(fields@)),
{
    let name = match tag {
        Some(name) => name,
        None => {
            return None;
        },
    };
    let ghost all = pair_texts(fields@);
    for i in 0..fields.len()
        invariant
            all == pair_texts(fields@),
            opt_text(*tag) == Some(name@),
            value_from(all, name@, 0) == value_from(all, name@, i as int),
    {
        assert(all[i as int] == (fields@[i as int].0@, fields@[i as int].1@));
        if same_str(fields[i].0.as_str(), name.as_str()) {
            let v = to_chars(fields[i].1.as_str());
            return read_i64(v.as_slice());
        }
    }
    None
}

/// The position of the first case with the given tag value.
fn find_case(cases: &Vec<(Vec<i64>, Vec<(String, String)>)>, v: i64) -> (r: Option<usize>)
    ensures
        match r {
            Some(i) => i < cases@.len() && case_from(case_texts(cases@), v, 0) == pair_texts(
                cases@[i as int].1@,
            ),
            None => case_from(case_texts(cases@), v, 0) == Seq::<(Seq<char>, Seq<char>)>::empty(),
        },
{
    let ghost all = case_texts(cases@);
    for i in 0..cases.len()
        invariant
            all == case_texts(cases@),
            case_from(all, v, 0) == case_from(all, v, i as int),
    {
        assert(all[i as int] == (cases@[i as int].0@, pair_texts(cases@[i as int].1@)));
        if has_number(&cases[i].0, v) {
            return Some(i);
        }
    }
    None
}

/// A variant record as the watch window shows it.
fn format_record(
    tag: &Option<String>,
    fixed: &Vec<(String, String)>,
    cases: &Vec<(Vec<i64>, Vec<(String, String)>)>,
    raw: &[char],
) -> (out: String)
    ensures
        out@ == shown_record(opt_text(*tag), pair_texts(fixed@), case_texts(cases@), raw@),
{
    let fields = read_fields(raw);
    let no_fields: Vec<(String, String)> = Vec::new();
    assert(pair_texts(no_fields@) =~= seq![]);
    let active = match find_tag(tag, &fields) {
        Some(v) => match find_case(cases, v) {
            Some(i) => &cases[i].1,
            None => &no_fields,
        },
        None => &no_fields,
    };
    let ghost all = pair_texts(fields@);
    let ghost gt = opt_text(*tag);
    let ghost gf = pair_texts(fixed@);
    let ghost gc = case_texts(cases@);
    let ghost ga = pair_texts(active@);
    assert(ga == active_fields(gt, gc, all));
    let mut keep: Vec<String> = Vec::new();
    assert(all.take(0) =~= seq![]);
    assert(texts(keep@) =~= seq![]);
    for i in 0..fields.len()
        invariant
            all == pair_texts(fields@),
            gt == opt_text(*tag),
            gf == pair_texts(fixed@),
            gc == case_texts(cases@),
            ga == pair_texts(active@),
            texts(keep@) == shown_fields(gt, gf, gc, ga, all.take(i as int)),
    {
        assert(all.take(i + 1).drop_last() =~= all.take(i as int));
        assert(all.take(i + 1).last() == (fields@[i as int].0@, fields@[i as int].1@));
        let name = fields[i].0.as_str();
        let is_active = has_name(active, name);
        let is_tag = match tag {
            Some(t) => same_str(t.as_str(), name),
            None => false,
        };
        if is_active || ((has_name(fixed, name) || is_tag) && !some_case_has(cases, name)) {
            let ghost before = keep@;
            let mut shown: String = fields[i].0.clone();
            shown.append("=");
            shown.append(fields[i].1.as_str());
            keep.push(shown);
            assert(texts(keep@) =~= texts(before).push(
                fields@[i as int].0@ + "="@ + fields@[i as int].1@,
            ));
        }
    }
    assert(all.take(all.len() as int) =~= all);
    let mut out: String = "(".to_string();
    let body = join_text(&keep, ", ");
    out.append(body.as_str());
    out.append(")");
    out
}

/// Applies Pascal-aware formatting to a value.
pub fn format_with_meta(meta: &VarMeta, raw: &str) -> (r: Option<String>)
    ensures
        match r {
            Some(s) => shown_by_meta(meta@, raw@) == Some(s@),
            None => shown_by_meta(meta@, raw@) is None,
        },
{
    let chars = to_chars(raw);
    match meta {
        VarMeta::Enum(values) => {
            // A number such as "2": the name of that value.
            match read_i64(trimmed(chars.as_slice())) {
                Some(n) => {
                    assert(texts(values@).len() == values@.len());
                    if 0 <= n && (n as u64) < values.len() as u64 {
                        let mut out: String = values[n as usize].clone();
                        assert(out@ == texts(values@)[n as int]);
                        out.append(" (");
                        push_signed(&mut out, n);
                        out.append(")");
                        Some(out)
                    } else {
                        None
                    }
                },
                None => None,
            }
        },
        VarMeta::SetMask => {
            // Already decoded, or a dump of the mask.
            if begins_with(chars.as_slice(), '[') {
                return Some(raw.to_string());
            }
            decode_set_bitmask(raw)
        },
        VarMeta::VariantRecord { tag_name, fixed_fields, cases } => {
            // A dump of all fields: those of every case appear. The tag picks the active case.
            Some(format_record(tag_name, fixed_fields, cases, chars.as_slice()))
        },
    }
}

/// A variant record shows exactly the fields that are due, each as `name=value`.
pub proof fn lemma_record_shows_due_fields(
    tag: Option<Seq<char>>,
    fixed: Pairs,
    cases: Cases,
    active: Pairs,
    fields: Pairs,
)
    ensures
        forall|text: Seq<char>| #[trigger]
            shown_fields(tag, fixed, cases, active, fields).contains(text) <==> exists|i: int|
                0 <= i < fields.len() && shows_field(
                    tag,
                    fixed,
                    cases,
                    active,
                    (#[trigger] fields[i]).0,
                ) && text == field_text(fields[i]),
    decreases fields.len(),
{
    let all = shown_fields(tag, fixed, cases, active, fields);
    if fields.len() > 0 {
        let fewer = fields.drop_last();
        let before = shown_fields(tag, fixed, cases, active, fewer);
        let last = fields.len() - 1;
        lemma_record_shows_due_fields(tag, fixed, cases, active, fewer);
        assert forall|text: Seq<char>| #[trigger] all.contains(text) <==> exists|i: int|
            0 <= i < fields.len() && shows_field(
                tag,
                fixed,
                cases,
                active,
                (#[trigger] fields[i]).0,
            ) && text == field_text(fields[i]) by {
            if all.contains(text) {
                let k = choose|k: int| 0 <= k < all.len() && all[k] == text;
                if k < before.len() {
                    assert(before[k] == text);
                    assert(before.contains(text));
                    let i = choose|i: int|
                        0 <= i < fewer.len() && shows_field(
                            tag,
                            fixed,
                            cases,
                            active,
                            (#[trigger] fewer[i]).0,
                        ) && text == field_text(fewer[i]);
                    assert(fields[i] == fewer[i]);
                } else {
                    assert(text == field_text(fields[last]));
                }
            }
            if exists|i: int|
                0 <= i < fields.len() && shows_field(
                    tag,
                    fixed,
                    cases,
                    active,
                    (#[trigger] fields[i]).0,
                ) && text == field_text(fields[i]) {
                let i = choose|i: int|
                    0 <= i < fields.len() && shows_field(
                        tag,
                        fixed,
                        cases,
                        active,
                        (#[trigger] fields[i]).0,
                    ) && text == field_text(fields[i]);
                if i < last {
                    assert(fields[i] == fewer[i]);
                    assert(before.contains(text));
                    let k = choose|k: int| 0 <= k < before.len() && before[k] == text;
                    assert(all[k] == text);
                } else {
                    assert(all.last() == text);
                    assert(all[all.len() - 1] == text);
                }
            }
        }
    }
}

/// Of the fields of the cases, only those of the active case are shown: none at all where the tag
/// is missing, is no number or selects no case.
pub proof fn lemma_inactive_cases_hidden(
    tag: Option<Seq<char>>,
    fixed: Pairs,
    cases: Cases,
    fields: Pairs,
    name: Seq<char>,
)
    requires
        in_some_case(cases, name),
    ensures
        shows_field(tag, fixed, cases, active_fields(tag, cases, fields), name) == named(
            active_fields(tag, cases, fields),
            name,
        ),
        match tag_value(tag, fields) {
            Some(v) => (forall|i: int|
                0 <= i < cases.len() ==> !(#[trigger] cases[i]).0.contains(v)) ==> !shows_field(
                tag,
                fixed,
                cases,
                active_fields(tag, cases, fields),
                name,
            ),
            None => !shows_field(tag, fixed, cases, active_fields(tag, cases, fields), name),
        },
{
    match tag_value(tag, fields) {
        Some(v) => {
            if forall|i: int| 0 <= i < cases.len() ==> !(#[trigger] cases[i]).0.contains(v) {
                lemma_no_case(cases, v, 0);
            }
        },
        None => {},
    }
}

/// Where no case has the tag value, no fields are active.
proof fn lemma_no_case(cases: Cases, v: i64, i: int)
    requires
        0 <= i,
        forall|k: int| 0 <= k < cases.len() ==> !(#[trigger] cases[k]).0.contains(v),
    ensures
        case_from(cases, v, i).len() == 0,
    decreases cases.len() - i,
{
    if i < cases.len() {
        lemma_no_case(cases, v, i + 1);
    }
}

/// The field `f` is the first of `fields` with the name of the tag, and its value is the number `v`.
pub open spec fn tag_reads(tag: Option<Seq<char>>, fields: Pairs, f: int, v: i64) -> bool {
    &&& 0 <= f < fields.len()
    &&& tag == Some(fields[f].0)
    &&& i64_of(fields[f].1) == Some(v)
    &&& forall|g: int| 0 <= g < f ==> (#[trigger] fields[g]).0 != fields[f].0
}

/// Case `i` is the first that lists the tag value `v` among its values, at any place.
pub open spec fn first_listing(cases: Cases, v: i64, i: int) -> bool {
    &&& 0 <= i < cases.len()
    &&& exists|p: int| 0 <= p < cases[i].0.len() && #[trigger] cases[i].0[p] == v
    &&& forall|k: int, p: int|
        0 <= k < i && 0 <= p < cases[k].0.len() ==> #[trigger] cases[k].0[p] != v
}

/// The tag selects a case, and the case has a field of that name.
pub open spec fn in_selected_case(
    tag: Option<Seq<char>>,
    cases: Cases,
    fields: Pairs,
    name: Seq<char>,
) -> bool {
    exists|f: int, v: i64, i: int, j: int| #[trigger]
        tag_reads(tag, fields, f, v) && #[trigger] first_listing(cases, v, i) && 0 <= j
            < cases[i].1.len() && (#[trigger] cases[i].1[j]).0 == name
}

/// A field of a variant record is due: it belongs to the case that the tag selects, or it is the
/// tag or a field outside the cases, and no case has a field of that name.
pub open spec fn field_due(
    tag: Option<Seq<char>>,
    fixed: Pairs,
    cases: Cases,
    fields: Pairs,
    name: Seq<char>,
) -> bool {
    ||| in_selected_case(tag, cases, fields, name)
    ||| {
        &&& tag == Some(name) || exists|j: int| 0 <= j < fixed.len() && (#[trigger] fixed[j]).0 == name
        &&& forall|i: int, j: int|
            0 <= i < cases.len() && 0 <= j < cases[i].1.len() ==> (#[trigger] cases[i].1[j]).0 != name
    }
}

/// The value of the tag is that of the first field of its name.
proof fn lemma_value_from(pairs: Pairs, name: Seq<char>, f: int, i: int)
    requires
        0 <= i <= f < pairs.len(),
        pairs[f].0 == name,
        forall|g: int| i <= g < f ==> (#[trigger] pairs[g]).0 != name,
    ensures
        value_from(pairs, name, i) == Some(pairs[f].1),
    decreases f - i,
{
    if i < f {
        assert(pairs[i].0 != name);
        lemma_value_from(pairs, name, f, i + 1);
    }
}

/// A value that is found is that of the first field of the name.
proof fn lemma_value_found(pairs: Pairs, name: Seq<char>, i: int) -> (f: int)
    requires
        0 <= i,
        value_from(pairs, name, i) is Some,
    ensures
        i <= f < pairs.len(),
        pairs[f].0 == name,
        value_from(pairs, name, i) == Some(pairs[f].1),
        forall|g: int| i <= g < f ==> (#[trigger] pairs[g]).0 != name,
    decreases pairs.len() - i,
{
    if pairs[i].0 == name {
        i
    } else {
        lemma_value_found(pairs, name, i + 1)
    }
}

/// The fields of the first case that lists the value.
proof fn lemma_case_from(cases: Cases, v: i64, i: int, from: int)
    requires
        0 <= from <= i,
        first_listing(cases, v, i),
    ensures
        case_from(cases, v, from) == cases[i].1,
    decreases i - from,
{
    let p = choose|p: int| 0 <= p < cases[i].0.len() && #[trigger] cases[i].0[p] == v;
    assert(cases[i].0.contains(v));
    if from < i {
        if cases[from].0.contains(v) {
            let q = choose|q: int| 0 <= q < cases[from].0.len() && cases[from].0[q] == v;
            assert(cases[from].0[q] != v);
        }
        lemma_case_from(cases, v, i, from + 1);
    }
}

/// Active fields are those of a first case that lists the value.
proof fn lemma_case_found(cases: Cases, v: i64, from: int) -> (i: int)
    requires
        0 <= from,
        case_from(cases, v, from).len() > 0,
        forall|k: int, p: int|
            0 <= k < from && k < cases.len() && 0 <= p < cases[k].0.len() ==> #[trigger] cases[k].0[p] != v,
    ensures
        first_listing(cases, v, i),
        case_from(cases, v, from) == cases[i].1,
    decreases cases.len() - from,
{
    if cases[from].0.contains(v) {
        let q = choose|q: int| 0 <= q < cases[from].0.len() && cases[from].0[q] == v;
        assert(cases[from].0[q] == v);
        from
    } else {
        assert forall|k: int, p: int|
            0 <= k < from + 1 && k < cases.len() && 0 <= p < cases[k].0.len() implies #[trigger] cases[k].0[p] != v by {
            if k == from && cases[k].0[p] == v {
                assert(cases[k].0.contains(v));
            }
        }
        lemma_case_found(cases, v, from + 1)
    }
}

/// The tag selects the first case that lists its value, wherever in the list of the case the value
/// stands: the fields of that case are the active ones.
pub proof fn lemma_tag_selects_case(
    tag: Option<Seq<char>>,
    cases: Cases,
    fields: Pairs,
    f: int,
    v: i64,
    i: int,
)
    requires
        tag_reads(tag, fields, f, v),
        first_listing(cases, v, i),
    ensures
        active_fields(tag, cases, fields) == cases[i].1,
{
    lemma_value_from(fields, fields[f].0, f, 0);
    lemma_case_from(cases, v, i, 0);
}

/// A field is shown exactly where it is due.
proof fn lemma_shows_due(
    tag: Option<Seq<char>>,
    fixed: Pairs,
    cases: Cases,
    fields: Pairs,
    name: Seq<char>,
)
    ensures
        shows_field(tag, fixed, cases, active_fields(tag, cases, fields), name) == field_due(
            tag,
            fixed,
            cases,
            fields,
            name,
        ),
{
    let active = active_fields(tag, cases, fields);
    if named(active, name) {
        let j = choose|j: int| 0 <= j < active.len() && (#[trigger] active[j]).0 == name;
        let v = tag_value(tag, fields)->0;
        let f = lemma_value_found(fields, tag->0, 0);
        let i = lemma_case_found(cases, v, 0);
        assert(tag_reads(tag, fields, f, v));
        assert(cases[i].1[j].0 == name);
        assert(in_selected_case(tag, cases, fields, name));
    }
    if in_selected_case(tag, cases, fields, name) {
        let (f, v, i, j) = choose|f: int, v: i64, i: int, j: int| #[trigger]
            tag_reads(tag, fields, f, v) && #[trigger] first_listing(cases, v, i) && 0 <= j
                < cases[i].1.len() && (#[trigger] cases[i].1[j]).0 == name;
        lemma_tag_selects_case(tag, cases, fields, f, v, i);
        assert(active[j].0 == name);
    }
    if in_some_case(cases, name) {
        let i = choose|i: int| 0 <= i < cases.len() && named((#[trigger] cases[i]).1, name);
        let j = choose|j: int| 0 <= j < cases[i].1.len() && (#[trigger] cases[i].1[j]).0 == name;
        assert(cases[i].1[j].0 == name);
    } else {
        assert forall|i: int, j: int|
            0 <= i < cases.len() && 0 <= j < cases[i].1.len() implies (#[trigger] cases[i].1[j]).0
            != name by {
            assert(!named(cases[i].1, name));
        }
    }
}

/// The fields that are shown are the due ones, in the order of the dump, each as `name=value`.
pub proof fn lemma_due_fields_in_order(
    tag: Option<Seq<char>>,
    fixed: Pairs,
    cases: Cases,
    fields: Pairs,
)
    ensures
        shown_fields(tag, fixed, cases, active_fields(tag, cases, fields), fields)
            == fields.filter(
            |f: (Seq<char>, Seq<char>)| field_due(tag, fixed, cases, fields, f.0),
        ).map_values(|f: (Seq<char>, Seq<char>)| f.0 + seq!['='] + f.1),
{
    lemma_due_fields_prefix(tag, fixed, cases, fields, fields.len() as int);
    assert(fields.take(fields.len() as int) =~= fields);
}

/// The same of the first `n` fields.
proof fn lemma_due_fields_prefix(
    tag: Option<Seq<char>>,
    fixed: Pairs,
    cases: Cases,
    fields: Pairs,
    n: int,
)
    requires
        0 <= n <= fields.len(),
    ensures
        shown_fields(tag, fixed, cases, active_fields(tag, cases, fields), fields.take(n))
            == fields.take(n).filter(
            |f: (Seq<char>, Seq<char>)| field_due(tag, fixed, cases, fields, f.0),
        ).map_values(|f: (Seq<char>, Seq<char>)| f.0 + seq!['='] + f.1),
    decreases n,
{
    reveal(Seq::filter);
    reveal_strlit("=");
    let due = |f: (Seq<char>, Seq<char>)| field_due(tag, fixed, cases, fields, f.0);
    let text = |f: (Seq<char>, Seq<char>)| f.0 + seq!['='] + f.1;
    let active = active_fields(tag, cases, fields);
    let some = fields.take(n);
    if n == 0 {
        assert(some.filter(due).map_values(text) =~= seq![]);
    } else {
        lemma_due_fields_prefix(tag, fixed, cases, fields, n - 1);
        let fewer = fields.take(n - 1);
        assert(some.drop_last() =~= fewer);
        let last = some.last();
        lemma_shows_due(tag, fixed, cases, fields, last.0);
        assert("="@ =~= seq!['=']);
        if due(last) {
            assert(some.filter(due) == fewer.filter(due).push(last));
            assert(some.filter(due).map_values(text) =~= fewer.filter(due).map_values(text).push(
                text(last),
            ));
        } else {
            assert(some.filter(due) == fewer.filter(due));
        }
    }
}

/// `c` is a comma or a bracket.
pub open spec fn divides(c: char) -> bool {
    ||| c == ','
    ||| c == '('
    ||| c == ')'
    ||| c == '{'
    ||| c == '}'
    ||| c == '['
    ||| c == ']'
}

/// `s` has no comma and no bracket.
pub open spec fn undivided(s: Seq<char>) -> bool {
    forall|i: int| 0 <= i < s.len() ==> !divides(#[trigger] s[i])
}

/// `s` is a value in brackets, such as `(x = 1, y = 2)` or `[3]`: no bracket stands inside.
pub open spec fn bracketed(s: Seq<char>) -> bool {
    &&& s.len() >= 2
    &&& (s[0] == '(' && s.last() == ')') || (s[0] == '{' && s.last() == '}') || (s[0] == '['
        && s.last() == ']')
    &&& forall|i: int|
        1 <= i < s.len() - 1 ==> #[trigger] s[i] == ',' || !divides(s[i])
}

/// `s` has no white space at its ends, and something between them.
pub open spec fn solid(s: Seq<char>) -> bool {
    s.len() > 0 && !is_space(s[0]) && !is_space(s.last())
}

/// A field as the debugger prints it: a name, and a value that is plain or in brackets.
pub open spec fn printable(field: (Seq<char>, Seq<char>)) -> bool {
    &&& solid(field.0)
    &&& undivided(field.0)
    &&& !field.0.contains('=')
    &&& solid(field.1)
    &&& undivided(field.1) || bracketed(field.1)
}

/// The dump of a record with the given fields.
pub open spec fn record_dump(fields: Pairs) -> Seq<char> {
    "("@ + join(
        fields.map_values(|f: (Seq<char>, Seq<char>)| f.0 + " = "@ + f.1),
        ", "@,
    ) + ")"@
}

/// Brackets that are open behind `a` stay open in what follows.
proof fn lemma_depth_behind(a: Seq<char>, b: Seq<char>, i: int)
    requires
        0 <= i <= b.len(),
    ensures
        depth(a + b, a.len() + i) == depth(a, a.len() as int) + depth(b, i),
    decreases i,
{
    if i == 0 {
        lemma_depth_inside(a, b, a.len() as int);
    } else {
        lemma_depth_behind(a, b, i - 1);
        assert((a + b)[a.len() + i - 1] == b[i - 1]);
    }
}

/// What follows does not change how many brackets are open.
proof fn lemma_depth_inside(a: Seq<char>, b: Seq<char>, i: int)
    requires
        0 <= i <= a.len(),
    ensures
        depth(a + b, i) == depth(a, i),
    decreases i,
{
    if i > 0 {
        lemma_depth_inside(a, b, i - 1);
        assert((a + b)[i - 1] == a[i - 1]);
    }
}

/// A text without brackets opens none.
proof fn lemma_depth_flat(s: Seq<char>, i: int)
    requires
        0 <= i <= s.len(),
        forall|k: int| 0 <= k < i ==> !opens(#[trigger] s[k]) && !closes(s[k]),
    ensures
        depth(s, i) == 0,
    decreases i,
{
    if i > 0 {
        lemma_depth_flat(s, i - 1);
        assert(!opens(s[i - 1]));
    }
}

/// `s` has no comma outside its brackets, and closes all that it opens.
spec fn one_part(s: Seq<char>) -> bool {
    &&& depth(s, s.len() as int) == 0
    &&& forall|i: int| 0 <= i < s.len() ==> !top_comma(s, i)
}

/// A value in brackets is one part.
proof fn lemma_bracketed_part(s: Seq<char>)
    requires
        bracketed(s),
    ensures
        one_part(s),
{
    let n = s.len() as int;
    assert forall|i: int| 1 <= i < n implies depth(s, i) == 1 by {
        lemma_bracketed_depth(s, i);
    }
    assert(depth(s, 0) == 0);
    assert(depth(s, n - 1) == 1);
    assert(s[n - 1] == s.last());
}

/// Inside a value in brackets one bracket is open.
proof fn lemma_bracketed_depth(s: Seq<char>, i: int)
    requires
        bracketed(s),
        1 <= i < s.len(),
    ensures
        depth(s, i) == 1,
    decreases i,
{
    assert(depth(s, 0) == 0);
    if i > 1 {
        lemma_bracketed_depth(s, i - 1);
        assert(s[i - 1] == ',' || !divides(s[i - 1]));
    }
}

/// A printable field is one part of a dump.
proof fn lemma_field_part(gap: Seq<char>, field: (Seq<char>, Seq<char>))
    requires
        printable(field),
        gap == Seq::<char>::empty() || gap == seq![' '],
    ensures
        one_part(gap + (field.0 + " = "@ + field.1)),
{
    reveal_strlit(" = ");
    let front = gap + field.0 + " = "@;
    let s = gap + (field.0 + " = "@ + field.1);
    assert(s =~= front + field.1);
    assert forall|k: int| 0 <= k < front.len() implies !opens(#[trigger] front[k]) && !closes(
        front[k],
    ) && front[k] != ',' by {
        let g = gap.len() as int;
        if g <= k < g + field.0.len() {
            assert(front[k] == field.0[k - g]);
            assert(!divides(field.0[k - g]));
        }
    }
    lemma_depth_flat(front, front.len() as int);
    if undivided(field.1) {
        assert forall|k: int| 0 <= k < field.1.len() implies !opens(#[trigger] field.1[k])
            && !closes(field.1[k]) && field.1[k] != ',' by {
            assert(!divides(field.1[k]));
        }
        lemma_depth_flat(field.1, field.1.len() as int);
    } else {
        lemma_bracketed_part(field.1);
    }
    lemma_depth_behind(front, field.1, field.1.len() as int);
    assert forall|i: int| 0 <= i < s.len() implies !top_comma(s, i) by {
        if i < front.len() {
            assert(s[i] == front[i]);
        } else {
            let k = i - front.len();
            assert(s[i] == field.1[k]);
            lemma_depth_behind(front, field.1, k);
            if undivided(field.1) {
                assert(!divides(field.1[k]));
            } else {
                assert(!top_comma(field.1, k));
            }
        }
    }
}

/// Behind a part and its comma, the rest is split by itself.
proof fn lemma_top_behind(a: Seq<char>, b: Seq<char>, start: int, i: int)
    requires
        depth(a, a.len() as int) == 0,
        0 <= start <= i <= b.len(),
    ensures
        top_from(a + b, a.len() + start, a.len() + i) == top_from(b, start, i),
    decreases b.len() - i,
{
    let s = a + b;
    if i >= b.len() {
        assert(s.subrange(a.len() + start, s.len() as int) =~= b.subrange(start, b.len() as int));
    } else {
        lemma_depth_behind(a, b, i);
        assert(s[a.len() + i] == b[i]);
        if top_comma(b, i) {
            assert(s.subrange(a.len() + start, a.len() + i) =~= b.subrange(start, i));
            lemma_top_behind(a, b, i + 1, i + 1);
        } else {
            lemma_top_behind(a, b, start, i + 1);
        }
    }
}

/// Inside one part nothing is cut.
proof fn lemma_top_inside(a: Seq<char>, b: Seq<char>, i: int)
    requires
        one_part(a),
        0 <= i <= a.len(),
    ensures
        top_from(a + b, 0, i) == top_from(a + b, 0, a.len() as int),
    decreases a.len() - i,
{
    if i < a.len() {
        lemma_depth_inside(a, b, i);
        assert((a + b)[i] == a[i]);
        assert(!top_comma(a, i));
        lemma_top_inside(a, b, i + 1);
    }
}

/// A part, a comma and more are the part and the parts of the rest.
proof fn lemma_top_split(a: Seq<char>, b: Seq<char>)
    requires
        one_part(a),
    ensures
        top_level(a + seq![','] + b) == seq![a] + top_level(b),
        a.len() > 0 ==> top_level(a) == seq![a],
{
    let c = a + seq![','];
    let s = c + b;
    let n = a.len() as int;
    lemma_top_inside(a, seq![','] + b, 0);
    assert(a + (seq![','] + b) =~= s);
    lemma_depth_inside(a, seq![','] + b, n);
    assert(s[n] == ',');
    assert(s.subrange(0, n) =~= a);
    lemma_depth_inside(a, seq![','], n);
    assert(depth(c, n + 1) == 0) by {
        assert(c[n] == ',');
    }
    lemma_top_behind(c, b, 0, 0);
    let none = Seq::<char>::empty();
    lemma_top_inside(a, none, 0);
    assert(a + none =~= a);
    assert(a.subrange(0, n) =~= a);
}

/// The entries of a dump.
proof fn lemma_dump_entries(parts: Seq<Seq<char>>)
    requires
        parts.len() > 0,
        forall|k: int| 0 <= k < parts.len() ==> (#[trigger] parts[k]).len() > 0,
        forall|k: int| 0 <= k < parts.len() ==> one_part(#[trigger] parts[k]),
        forall|k: int| 0 <= k < parts.len() ==> one_part(seq![' '] + #[trigger] parts[k]),
    ensures
        top_level(join(parts, ", "@)) == Seq::new(
            parts.len(),
            |k: int|
                if k == 0 {
                    parts[0]
                } else {
                    seq![' '] + parts[k]
                },
        ),
        top_level(seq![' '] + join(parts, ", "@)) == parts.map_values(
            |p: Seq<char>| seq![' '] + p,
        ),
    decreases parts.len(),
{
    reveal_strlit(", ");
    let gap = seq![' '];
    let none = Seq::<char>::empty();
    let want = Seq::new(
        parts.len(),
        |k: int|
            if k == 0 {
                parts[0]
            } else {
                seq![' '] + parts[k]
            },
    );
    let padded = parts.map_values(|p: Seq<char>| seq![' '] + p);
    let first = parts[0];
    assert(one_part(first));
    assert(one_part(gap + first));
    if parts.len() == 1 {
        lemma_top_split(first, none);
        lemma_top_split(gap + first, none);
        assert(seq![first] =~= want);
        assert(seq![gap + first] =~= padded);
    } else {
        let rest = parts.drop_first();
        assert forall|k: int| 0 <= k < rest.len() implies (#[trigger] rest[k]).len() > 0
            && one_part(rest[k]) && one_part(gap + rest[k]) by {
            assert(rest[k] == parts[k + 1]);
        }
        lemma_dump_entries(rest);
        crate::text::lemma_join_first(first, rest, ", "@);
        assert(seq![first] + rest =~= parts);
        let tail = gap + join(rest, ", "@);
        assert(join(parts, ", "@) =~= first + seq![','] + tail);
        assert(gap + join(parts, ", "@) =~= (gap + first) + seq![','] + tail);
        lemma_top_split(first, tail);
        lemma_top_split(gap + first, tail);
        let others = rest.map_values(|p: Seq<char>| seq![' '] + p);
        assert(seq![first] + others =~= want);
        assert(seq![gap + first] + others =~= padded);
    }
}

/// One entry of a dump gives its field.
proof fn lemma_entry_field(gap: Seq<char>, field: (Seq<char>, Seq<char>))
    requires
        printable(field),
        gap == Seq::<char>::empty() || gap == seq![' '],
    ensures
        ({
            let entry = trim(gap + (field.0 + " = "@ + field.1));
            &&& split_once(entry, '=') is Some
            &&& trim((split_once(entry, '=')->0).0) == field.0
            &&& trim((split_once(entry, '=')->0).1) == field.1
        }),
{
    reveal_strlit(" = ");
    let none = Seq::<char>::empty();
    let whole = field.0 + " = "@ + field.1;
    assert(whole[0] == field.0[0] && whole.last() == field.1.last());
    assert(gap + whole + none =~= gap + whole);
    lemma_trim_around(gap, whole, none);
    let left = field.0 + seq![' '];
    let right = seq![' '] + field.1;
    assert(whole =~= left + seq!['='] + right);
    assert forall|k: int| 0 <= k < left.len() implies left[k] != '=' by {
        if k < field.0.len() {
            assert(field.0.contains(field.0[k]));
        }
    }
    lemma_index_at(left, '=', right);
    assert(left =~= none + field.0 + seq![' ']);
    lemma_trim_around(none, field.0, seq![' ']);
    assert(right =~= seq![' '] + field.1 + none);
    lemma_trim_around(seq![' '], field.1, none);
}

/// The dump of a record gives its fields back: names and values, in order, with values in brackets
/// kept whole.
pub proof fn lemma_dump_reads_back(fields: Pairs)
    requires
        forall|k: int| 0 <= k < fields.len() ==> printable(#[trigger] fields[k]),
        fields.len() > 0 ==> fields.last().1.last() != ')',
    ensures
        dump_fields(record_dump(fields)) == fields,
{
    reveal_strlit("(");
    reveal_strlit(")");
    reveal_strlit(" = ");
    let parts = fields.map_values(|f: (Seq<char>, Seq<char>)| f.0 + " = "@ + f.1);
    let inner = join(parts, ", "@);
    let raw = record_dump(fields);
    assert(raw[0] == '(' && raw.last() == ')');
    lemma_trim_ink(raw);
    assert(raw =~= seq!['('] + (inner + seq![')']));
    assert(Seq::new(1, |i: int| '(') =~= seq!['(']);
    assert(Seq::new(1, |i: int| ')') =~= seq![')']);
    if fields.len() == 0 {
        assert(inner =~= Seq::<char>::empty());
        assert(raw =~= seq!['(', ')']);
        crate::text::lemma_span(raw, same_as('('), 1);
        let r = strip_front(raw, same_as('('));
        assert(r =~= seq![')']);
        crate::text::lemma_span_back(r, same_as(')'), 1);
        assert(strip_back(r, same_as(')')) =~= Seq::<char>::empty());
        assert(top_level(Seq::<char>::empty()) =~= seq![]);
        assert(dump_fields(raw) =~= fields);
    } else {
        assert forall|k: int| 0 <= k < parts.len() implies (#[trigger] parts[k]).len() > 0
            && one_part(parts[k]) && one_part(seq![' '] + parts[k]) by {
            assert(printable(fields[k]));
            lemma_field_part(Seq::<char>::empty(), fields[k]);
            assert(Seq::<char>::empty() + parts[k] =~= parts[k]);
            lemma_field_part(seq![' '], fields[k]);
        }
        let last = fields.len() - 1;
        assert(printable(fields[last]));
        assert(printable(fields[0]));
        assert(parts[0][0] == fields[0].0[0]);
        assert(!divides(fields[0].0[0]));
        assert(parts.last() == parts[last]);
        assert(parts.last().last() == fields[last].1.last());
        crate::set_mask::lemma_join_ends(parts, ", "@);
        crate::text::lemma_span(raw, same_as('('), 1);
        let r = strip_front(raw, same_as('('));
        assert(r =~= inner + seq![')']);
        crate::text::lemma_span_back(r, same_as(')'), 1);
        assert(strip_back(r, same_as(')')) =~= inner);
        lemma_dump_entries(parts);
        let entries = top_level(inner);
        lemma_entries_fields(fields, entries, fields.len() as int);
        assert(entries.take(fields.len() as int) =~= entries);
        assert(fields.take(fields.len() as int) =~= fields);
    }
}

/// The first `n` entries of a dump give the first `n` fields.
proof fn lemma_entries_fields(fields: Pairs, entries: Seq<Seq<char>>, n: int)
    requires
        0 <= n <= fields.len(),
        entries.len() == fields.len(),
        forall|k: int| 0 <= k < fields.len() ==> printable(#[trigger] fields[k]),
        forall|k: int|
            0 <= k < fields.len() ==> #[trigger] entries[k] == (if k == 0 {
                Seq::<char>::empty()
            } else {
                seq![' ']
            }) + (fields[k].0 + " = "@ + fields[k].1),
    ensures
        field_values(entries.take(n)) == fields.take(n),
    decreases n,
{
    if n == 0 {
        assert(field_values(entries.take(0)) =~= fields.take(0));
    } else {
        lemma_entries_fields(fields, entries, n - 1);
        let gap = if n == 1 {
            Seq::<char>::empty()
        } else {
            seq![' ']
        };
        lemma_entry_field(gap, fields[n - 1]);
        assert(entries.take(n).drop_last() =~= entries.take(n - 1));
        assert(entries.take(n).last() == entries[n - 1]);
        assert(fields.take(n) =~= fields.take(n - 1).push(fields[n - 1]));
    }
}

/// A variant record is shown by its tag: of the fields of its dump, those that are due, in order,
/// each as `name=value`.
pub proof fn lemma_record_shown_by_tag(
    tag: Option<Seq<char>>,
    fixed: Pairs,
    cases: Cases,
    fields: Pairs,
)
    requires
        forall|k: int| 0 <= k < fields.len() ==> printable(#[trigger] fields[k]),
        fields.len() > 0 ==> fields.last().1.last() != ')',
    ensures
        shown_by_meta(MetaView::Record { tag, fixed, cases }, record_dump(fields)) == Some(
            "("@ + join(
                fields.filter(
                    |f: (Seq<char>, Seq<char>)| field_due(tag, fixed, cases, fields, f.0),
                ).map_values(|f: (Seq<char>, Seq<char>)| f.0 + seq!['='] + f.1),
                ", "@,
            ) + ")"@,
        ),
{
    lemma_dump_reads_back(fields);
    lemma_due_fields_in_order(tag, fixed, cases, fields);
}

/// A value of an enumeration is shown by its name, with its number behind it in parentheses; white
/// space around the number does not count, and a number without a name is not shown this way.
pub proof fn lemma_enum_shows_name(values: Seq<Seq<char>>, n: int, a: Seq<char>, b: Seq<char>)
    requires
        blank(a),
        blank(b),
    ensures
        shown_by_meta(MetaView::Enum(values), a + show(n) + b) == if 0 <= n < values.len() && n
            <= 0x7fff_ffff_ffff_ffff {
            Some(values[n] + " ("@ + decimal(n as nat) + ")"@)
        } else {
            None
        },
{
    lemma_numbers_read_back(n);
    lemma_solid_number(n);
    lemma_trim_around(a, show(n), b);
}

/// A written number has no white space at its ends.
pub(crate) proof fn lemma_solid_number(n: int)
    ensures
        solid(show(n)),
        undivided(show(n)),
        !show(n).contains('='),
{
    let d = decimal(if n < 0 {
        (-n) as nat
    } else {
        n as nat
    });
    lemma_decimal_reads_back(if n < 0 {
        (-n) as nat
    } else {
        n as nat
    });
    let s = show(n);
    assert(is_digit(d[0]) && is_digit(d[d.len() - 1]));
    assert(s.last() == d[d.len() - 1]);
    lemma_digit_is_ink(s.last());
    lemma_digit_is_ink(s[0]);
    assert forall|k: int| 0 <= k < s.len() implies !divides(#[trigger] s[k]) && s[k] != '=' by {
        if n < 0 && k > 0 {
            assert(s[k] == d[k - 1]);
        }
        assert(is_digit(s[k]) || s[k] == '-');
    }
}

/// A set that is already a literal is shown as it is; a dump of its mask is decoded.
pub proof fn lemma_mask_shows_set(raw: Seq<char>)
    ensures
        raw.len() > 0 && raw[0] == '[' ==> shown_by_meta(MetaView::Mask, raw) == Some(raw),
        raw.len() == 0 || raw[0] != '[' ==> shown_by_meta(MetaView::Mask, raw) == decoded_set(raw),
{
}

/// The description of a variant record is read part by part: what stands before and behind a
/// semicolon adds its fields and cases in order, and of two tags the later one counts.
pub proof fn lemma_description_in_parts(a: Seq<char>, b: Seq<char>)
    ensures
        match (vrec_of(a), vrec_of(b)) {
            (
                MetaView::Record { tag: t1, fixed: f1, cases: c1 },
                MetaView::Record { tag: t2, fixed: f2, cases: c2 },
            ) => vrec_of(a + seq![';'] + b) == (MetaView::Record {
                tag: if t2 is Some {
                    t2
                } else {
                    t1
                },
                fixed: f1 + f2,
                cases: c1 + c2,
            }),
            _ => false,
        },
{
    lemma_split_at(a, b, ';');
    lemma_record_of_both(split(a, ';'), split(b, ';'));
}

/// Parts that follow others add to what these describe.
proof fn lemma_record_of_both(a: Seq<Seq<char>>, b: Seq<Seq<char>>)
    ensures
        record_of(a + b).0 == if record_of(b).0 is Some {
            record_of(b).0
        } else {
            record_of(a).0
        },
        record_of(a + b).1 == record_of(a).1 + record_of(b).1,
        record_of(a + b).2 == record_of(a).2 + record_of(b).2,
    decreases b.len(),
{
    if b.len() == 0 {
        assert(a + b =~= a);
        assert(record_of(a).1 + record_of(b).1 =~= record_of(a).1);
        assert(record_of(a).2 + record_of(b).2 =~= record_of(a).2);
    } else {
        lemma_record_of_both(a, b.drop_last());
        assert((a + b).drop_last() =~= a + b.drop_last());
        assert((a + b).last() == b.last());
        assert(record_of(a + b).1 =~= record_of(a).1 + record_of(b).1);
        assert(record_of(a + b).2 =~= record_of(a).2 + record_of(b).2);
    }
}

/// One part of a description, without a semicolon.
proof fn lemma_one_description(part: Seq<char>)
    requires
        !part.contains(';'),
    ensures
        split(part, ';') == seq![part],
        record_of(split(part, ';')) == match record_part(part) {
            RecordPart::Nothing => (None, Seq::<(Seq<char>, Seq<char>)>::empty(), Seq::<(Seq<i64>, Pairs)>::empty()),
            RecordPart::Tag(name) => (Some(name), Seq::<(Seq<char>, Seq<char>)>::empty(), Seq::<(Seq<i64>, Pairs)>::empty()),
            RecordPart::Case(values, fields) => (None, Seq::<(Seq<char>, Seq<char>)>::empty(), seq![(values, fields)]),
            RecordPart::Fixed(name, short_type) => (None, seq![(name, short_type)], Seq::<(Seq<i64>, Pairs)>::empty()),
        },
{
    lemma_split_whole(part, ';');
    let parts = seq![part];
    assert(parts.drop_last() =~= seq![]);
    assert(record_of(parts.drop_last()) == (
        None::<Seq<char>>,
        Seq::<(Seq<char>, Seq<char>)>::empty(),
        Seq::<(Seq<i64>, Pairs)>::empty(),
    ));
    assert(parts.last() == part);
    let none = Seq::<(Seq<char>, Seq<char>)>::empty();
    let no_cases = Seq::<(Seq<i64>, Pairs)>::empty();
    match record_part(part) {
        RecordPart::Case(values, fields) => {
            assert(no_cases.push((values, fields)) =~= seq![(values, fields)]);
        },
        RecordPart::Fixed(name, short_type) => {
            assert(none.push((name, short_type)) =~= seq![(name, short_type)]);
        },
        _ => {},
    }
}

/// `__tag=name` names the tag, and nothing else.
pub proof fn lemma_description_of_tag(name: Seq<char>)
    requires
        !name.contains(';'),
    ensures
        vrec_of("__tag="@ + name) == (MetaView::Record {
            tag: Some(name),
            fixed: seq![],
            cases: seq![],
        }),
{
    reveal_strlit("__tag=");
    let part = "__tag="@ + name;
    assert forall|k: int| 0 <= k < part.len() implies part[k] != ';' by {
        if k >= 6 {
            assert(name.contains(name[k - 6]));
        }
    }
    lemma_one_description(part);
    assert(part.subrange(0, 6) =~= "__tag="@);
    assert(part.skip(6) =~= name);
}

/// `field=type` describes a field outside the cases.
pub proof fn lemma_description_of_field(name: Seq<char>, short_type: Seq<char>)
    requires
        !name.contains(';'),
        !name.contains('='),
        !short_type.contains(';'),
        name.len() < 2 || name[0] != '_' || name[1] != '_',
    ensures
        vrec_of(name + seq!['='] + short_type) == (MetaView::Record {
            tag: None,
            fixed: seq![(name, short_type)],
            cases: seq![],
        }),
{
    reveal_strlit("__tag=");
    reveal_strlit("__case[");
    let part = name + seq!['='] + short_type;
    assert forall|k: int| 0 <= k < part.len() implies part[k] != ';' by {
        if k < name.len() {
            assert(name.contains(name[k]));
        } else if k > name.len() {
            assert(short_type.contains(short_type[k - name.len() - 1]));
        }
    }
    lemma_one_description(part);
    lemma_index_at(name, '=', short_type);
    if starts_with(part, "__tag="@) {
        assert(part.subrange(0, 6)[0] == '_' && part.subrange(0, 6)[1] == '_');
        assert(part[0] == '_' && part[1] == '_');
    }
    if starts_with(part, "__case["@) {
        assert(part.subrange(0, 7)[0] == '_' && part.subrange(0, 7)[1] == '_');
        assert(part[0] == '_' && part[1] == '_');
    }
}

/// `__case[values]=fields` describes a case: its values are the numbers between the commas, and
/// its fields the pairs `field=type` between the commas.
pub proof fn lemma_description_of_case(values: Seq<i64>, fields: Pairs)
    requires
        values.len() > 0,
        fields.len() > 0,
        forall|k: int|
            0 <= k < fields.len() ==> !(#[trigger] fields[k]).0.contains('=')
                && !fields[k].0.contains(',') && !fields[k].0.contains(';')
                && !fields[k].1.contains(',') && !fields[k].1.contains(';'),
    ensures
        vrec_of(
            "__case["@ + join(values.map_values(|v: i64| show(v as int)), seq![',']) + "]="@ + join(
                fields.map_values(|f: (Seq<char>, Seq<char>)| f.0 + seq!['='] + f.1),
                seq![','],
            ),
        ) == (MetaView::Record { tag: None, fixed: seq![], cases: seq![(values, fields)] }),
{
    reveal_strlit("__tag=");
    reveal_strlit("__case[");
    reveal_strlit("]=");
    let nums = values.map_values(|v: i64| show(v as int));
    let pairs = fields.map_values(|f: (Seq<char>, Seq<char>)| f.0 + seq!['='] + f.1);
    let left = join(nums, seq![',']);
    let right = join(pairs, seq![',']);
    let part = "__case["@ + left + "]="@ + right;
    assert forall|k: int| 0 <= k < nums.len() implies !(#[trigger] nums[k]).contains(',')
        && !nums[k].contains(';') && !nums[k].contains(']') by {
        let n = values[k] as int;
        lemma_solid_number(n);
        lemma_number_chars(n);
    }
    assert forall|k: int| 0 <= k < pairs.len() implies !(#[trigger] pairs[k]).contains(',')
        && !pairs[k].contains(';') by {
        let f = fields[k];
        let p = pairs[k];
        assert forall|i: int| 0 <= i < p.len() implies p[i] != ',' && p[i] != ';' by {
            if i < f.0.len() {
                assert(f.0.contains(f.0[i]));
            } else if i > f.0.len() {
                assert(f.1.contains(f.1[i - f.0.len() - 1]));
            }
        }
    }
    lemma_join_avoids(nums, ';');
    lemma_join_avoids(nums, ']');
    lemma_join_avoids(pairs, ';');
    assert forall|k: int| 0 <= k < part.len() implies part[k] != ';' by {
        if 7 <= k < 7 + left.len() {
            assert(left.contains(left[k - 7]));
        } else if k >= 9 + left.len() {
            assert(right.contains(right[k - 9 - left.len()]));
        }
    }
    lemma_one_description(part);
    if starts_with(part, "__tag="@) {
        assert(part.subrange(0, 6)[2] == 't');
        assert(part[2] == 'c');
    }
    assert(part.subrange(0, 7) =~= "__case["@);
    assert(part.skip(7) =~= left + "]="@ + right);
    crate::text::lemma_cut_behind(left, "]="@, right);
    crate::text::lemma_joined_splits(nums, ',');
    crate::text::lemma_joined_splits(pairs, ',');
    lemma_numbers_back(values, values.len() as int);
    lemma_equations_back(fields, fields.len() as int);
    assert(nums.take(nums.len() as int) =~= nums);
    assert(values.take(values.len() as int) =~= values);
    assert(pairs.take(pairs.len() as int) =~= pairs);
    assert(fields.take(fields.len() as int) =~= fields);
}

/// A written number holds digits and a sign only.
proof fn lemma_number_chars(n: int)
    ensures
        !show(n).contains(';'),
        !show(n).contains(']'),
        !show(n).contains(','),
{
    let d = decimal(if n < 0 {
        (-n) as nat
    } else {
        n as nat
    });
    lemma_decimal_reads_back(if n < 0 {
        (-n) as nat
    } else {
        n as nat
    });
    let s = show(n);
    assert forall|k: int| 0 <= k < s.len() implies is_digit(#[trigger] s[k]) || s[k] == '-' by {
        if n < 0 && k > 0 {
            assert(s[k] == d[k - 1]);
        }
    }
}

/// Parts joined with commas hold no other character than the parts do.
proof fn lemma_join_avoids(parts: Seq<Seq<char>>, c: char)
    requires
        c != ',',
        forall|k: int| 0 <= k < parts.len() ==> !(#[trigger] parts[k]).contains(c),
    ensures
        !join(parts, seq![',']).contains(c),
    decreases parts.len(),
{
    if parts.len() == 1 {
        assert(!parts[0].contains(c));
    } else if parts.len() > 1 {
        let fewer = parts.drop_last();
        assert forall|k: int| 0 <= k < fewer.len() implies !(#[trigger] fewer[k]).contains(c) by {
            assert(fewer[k] == parts[k]);
        }
        lemma_join_avoids(fewer, c);
        let j = join(parts, seq![',']);
        let a = join(fewer, seq![',']);
        let last = parts[parts.len() - 1];
        assert(!last.contains(c));
        assert forall|k: int| 0 <= k < j.len() implies j[k] != c by {
            if k < a.len() {
                assert(a.contains(a[k]));
            } else if k > a.len() {
                assert(last.contains(last[k - a.len() - 1]));
            }
        }
    }
}

/// Numbers that were written are read back.
proof fn lemma_numbers_back(values: Seq<i64>, n: int)
    requires
        0 <= n <= values.len(),
    ensures
        numbers(values.map_values(|v: i64| show(v as int)).take(n)) == values.take(n),
    decreases n,
{
    let nums = values.map_values(|v: i64| show(v as int));
    if n == 0 {
        assert(numbers(nums.take(0)) =~= values.take(0));
    } else {
        lemma_numbers_back(values, n - 1);
        lemma_numbers_read_back(values[n - 1] as int);
        assert(nums.take(n).drop_last() =~= nums.take(n - 1));
        assert(nums.take(n).last() == show(values[n - 1] as int));
        assert(values.take(n) =~= values.take(n - 1).push(values[n - 1]));
    }
}

/// Pairs that were written are read back.
proof fn lemma_equations_back(fields: Pairs, n: int)
    requires
        0 <= n <= fields.len(),
        forall|k: int| 0 <= k < fields.len() ==> !(#[trigger] fields[k]).0.contains('='),
    ensures
        equations(
            fields.map_values(|f: (Seq<char>, Seq<char>)| f.0 + seq!['='] + f.1).take(n),
        ) == fields.take(n),
    decreases n,
{
    let pairs = fields.map_values(|f: (Seq<char>, Seq<char>)| f.0 + seq!['='] + f.1);
    if n == 0 {
        assert(equations(pairs.take(0)) =~= fields.take(0));
    } else {
        lemma_equations_back(fields, n - 1);
        lemma_index_at(fields[n - 1].0, '=', fields[n - 1].1);
        assert(pairs.take(n).drop_last() =~= pairs.take(n - 1));
        assert(pairs.take(n).last() == pairs[n - 1]);
        assert(fields.take(n) =~= fields.take(n - 1).push(fields[n - 1]));
    }
}

/// A line of a metadata file: the name, the kind and the rest stand between bars. Enumerations list
/// their values with commas, sets have nothing more, variant records are described, and lines of
/// another kind or without a bar say nothing.
pub proof fn lemma_metadata_line(name: Seq<char>, kind: Seq<char>, extra: Seq<char>, plain: Seq<char>)
    requires
        !name.contains('|'),
        !kind.contains('|'),
        !plain.contains('|'),
    ensures
        meta_entry(name + seq!['|'] + "enum"@ + seq!['|'] + extra) == Some(
            (name, MetaView::Enum(split(extra, ','))),
        ),
        meta_entry(name + seq!['|'] + "set"@) == Some((name, MetaView::Mask)),
        meta_entry(name + seq!['|'] + "set"@ + seq!['|'] + extra) == Some((name, MetaView::Mask)),
        meta_entry(name + seq!['|'] + "vrec"@ + seq!['|'] + extra) == Some((name, vrec_of(extra))),
        kind != "enum"@ && kind != "set"@ && kind != "vrec"@ ==> meta_entry(
            name + seq!['|'] + kind + seq!['|'] + extra,
        ) is None,
        meta_entry(plain) is None,
{
    reveal_strlit("enum");
    reveal_strlit("set");
    reveal_strlit("vrec");
    assert("enum"@.len() == 4 && "set"@.len() == 3 && "vrec"@.len() == 4);
    assert("enum"@[0] == 'e' && "vrec"@[0] == 'v');
    lemma_bars(name, "enum"@, extra);
    lemma_bars(name, "set"@, extra);
    lemma_bars(name, "vrec"@, extra);
    lemma_bars(name, kind, extra);
    lemma_index_at(name, '|', "set"@);
    crate::text::lemma_split_once("set"@, '|');
    crate::text::lemma_split_once(plain, '|');
    if let Some((a, b)) = split_once("set"@, '|') {
        assert("set"@[a.len() as int] == '|');
    }
    if let Some((a, b)) = split_once(plain, '|') {
        assert(plain[a.len() as int] == '|');
    }
}

/// Name, kind and rest between bars.
proof fn lemma_bars(name: Seq<char>, kind: Seq<char>, extra: Seq<char>)
    requires
        !name.contains('|'),
        !kind.contains('|'),
    ensures
        split_once(name + seq!['|'] + kind + seq!['|'] + extra, '|') == Some(
            (name, kind + seq!['|'] + extra),
        ),
        split_once(kind + seq!['|'] + extra, '|') == Some((kind, extra)),
{
    lemma_index_at(name, '|', kind + seq!['|'] + extra);
    assert(name + seq!['|'] + kind + seq!['|'] + extra =~= name + seq!['|'] + (kind + seq!['|']
        + extra));
    lemma_index_at(kind, '|', extra);
}

/// The metadata of a file: what its later lines say replaces what earlier ones say of the same
/// name, and nothing else.
pub proof fn lemma_later_metadata_wins(a: Seq<Seq<char>>, b: Seq<Seq<char>>)
    ensures
        meta_table(a + b) == meta_table(a).union_prefer_right(meta_table(b)),
        forall|line: Seq<char>| #[trigger]
            meta_table(seq![line]) == match meta_entry(line) {
                Some((name, meta)) => map![name => meta],
                None => Map::<Seq<char>, MetaView>::empty(),
            },
    decreases b.len(),
{
    if b.len() == 0 {
        assert(a + b =~= a);
        assert(meta_table(a).union_prefer_right(meta_table(b)) =~= meta_table(a));
    } else {
        lemma_later_metadata_wins(a, b.drop_last());
        assert((a + b).drop_last() =~= a + b.drop_last());
        assert((a + b).last() == b.last());
        assert(meta_table(a + b) =~= meta_table(a).union_prefer_right(meta_table(b)));
    }
    assert forall|line: Seq<char>| #[trigger]
        meta_table(seq![line]) == match meta_entry(line) {
            Some((name, meta)) => map![name => meta],
            None => Map::<Seq<char>, MetaView>::empty(),
        } by {
        let one = seq![line];
        assert(one.drop_last() =~= seq![]);
        assert(one.last() == line);
        assert(meta_table(one.drop_last()) == Map::<Seq<char>, MetaView>::empty());
        if let Some((name, meta)) = meta_entry(line) {
            assert(Map::<Seq<char>, MetaView>::empty().insert(name, meta) =~= map![name => meta]);
        }
    }
}

/// A table knows the names that were entered, each with what was entered last for it.
pub proof fn lemma_last_entry_counts(entries: Seq<(String, VarMeta)>, name: Seq<char>)
    ensures
        entry_map(entries).dom().contains(name) <==> exists|i: int|
            0 <= i < entries.len() && (#[trigger] entries[i]).0@ == name,
        forall|i: int|
            0 <= i < entries.len() && (#[trigger] entries[i]).0@ == name && (forall|j: int|
                i < j < entries.len() ==> (#[trigger] entries[j]).0@ != name)
                ==> entry_map(entries)[name] == entries[i].1@,
    decreases entries.len(),
{
    if entries.len() > 0 {
        let rest = entries.drop_last();
        let n = entries.len() - 1;
        lemma_last_entry_counts(rest, name);
        assert forall|i: int| 0 <= i < n implies entries[i] == rest[i] by {}
        if entry_map(rest).dom().contains(name) {
            let i = choose|i: int| 0 <= i < rest.len() && (#[trigger] rest[i]).0@ == name;
            assert(entries[i].0@ == name);
        }
        if exists|i: int| 0 <= i < entries.len() && (#[trigger] entries[i]).0@ == name {
            let i = choose|i: int| 0 <= i < entries.len() && (#[trigger] entries[i]).0@ == name;
            if i < n {
                assert(rest[i].0@ == name);
            }
        }
        assert forall|i: int|
            0 <= i < entries.len() && (#[trigger] entries[i]).0@ == name && (forall|j: int|
                i < j < entries.len() ==> (#[trigger] entries[j]).0@ != name) implies entry_map(
            entries,
        )[name] == entries[i].1@ by {
            if i < n {
                assert(entries[n].0@ != name);
                assert(rest[i].0@ == name);
                assert forall|j: int| i < j < rest.len() implies (#[trigger] rest[j]).0@ != name by {
                    assert(entries[j].0@ != name);
                }
            }
        }
    }
}

} // verus!
