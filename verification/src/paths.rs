//! File names of paths.

use std::path::Path;

use vstd::prelude::*;

use crate::text::{
    index, lemma_split_at, lemma_split_whole, occurs_at, opt_str, opt_text, owned, split,
    starts_with, starts_with_char,
};

verus! {

/// `path` is made of components between slashes on every platform: it has no other separator, no
/// drive letter and no network prefix.
pub open spec fn slashed(path: Seq<char>) -> bool {
    &&& index(path, '\\') is None
    &&& index(path, ':') is None
    &&& !starts_with(path, "//"@)
}

/// The parts that count: empty ones, which spare slashes make, and single dots do not.
pub open spec fn counted(parts: Seq<Seq<char>>) -> Seq<Seq<char>>
    decreases parts.len(),
{
    if parts.len() == 0 {
        seq![]
    } else if parts.last().len() == 0 || parts.last() == "."@ {
        counted(parts.drop_last())
    } else {
        counted(parts.drop_last()).push(parts.last())
    }
}

/// The components of a path made of slashes, but for a slash or a dot at its start.
pub open spec fn components(path: Seq<char>) -> Seq<Seq<char>> {
    counted(split(path, '/'))
}

/// The name of the file that a path made of slashes leads to: its last component, where there is
/// one and it is not the parent directory.
pub open spec fn final_component(path: Seq<char>) -> Option<Seq<char>> {
    let parts = components(path);
    if parts.len() == 0 || parts.last() == ".."@ {
        None
    } else {
        Some(parts.last())
    }
}

/// What is known on every platform of the last component of `path`: it is a part of the path.
pub open spec fn may_name(path: Seq<char>, name: Option<Seq<char>>) -> bool {
    &&& slashed(path) ==> name == final_component(path)
    &&& name is Some ==> name->0.len() > 0 && exists|i: int| #[trigger]
        occurs_at(path, name->0, i)
}

/// Two paths made of slashes are the same: they have the same components, and both or neither
/// start with a slash, and with a dot.
pub open spec fn same_components(a: Seq<char>, b: Seq<char>) -> bool {
    &&& components(a) == components(b)
    &&& starts_with_char(a, '/') == starts_with_char(b, '/')
    &&& (split(a, '/')[0] == "."@) == (split(b, '/')[0] == "."@)
}

/// What is known on every platform of whether two paths are the same.
pub open spec fn may_match(a: Seq<char>, b: Seq<char>, same: bool) -> bool {
    &&& a == b ==> same
    &&& slashed(a) && slashed(b) ==> same == same_components(a, b)
}

/// `Path::file_name` as text: the last component of the path, where there is one and it is not the
/// parent directory. What separates components differs between platforms, so of a path with a
/// backslash, a colon or two slashes in front it is claimed only that the component is not empty
/// and stands in the path.
#[verifier::external_body]
pub(crate) fn file_name(path: &str) -> (r: Option<String>)
    ensures
        may_name(path@, opt_text(r)),
{
    Path::new(path).file_name().and_then(|n| n.to_str()).map(|n| n.to_string())
}

/// `Path` equality: compares two paths component by component; spare slashes, and dots but at the
/// start, do not count. What separates components differs between platforms, so of a path with a
/// backslash, a colon or two slashes in front nothing is claimed but that it is the same as itself.
#[verifier::external_body]
pub(crate) fn same_path(a: &str, b: &str) -> (r: bool)
    ensures
        may_match(a@, b@, r),
{
    Path::new(a) == Path::new(b)
}

/// A file as messages call it: by its name, or by `fallback` where it has none.
pub open spec fn called(name: Option<Seq<char>>, fallback: Seq<char>) -> Seq<char> {
    match name {
        Some(n) => n,
        None => fallback,
    }
}

/// `name` may be the file name of `path`; where there is no path, there is no name.
pub open spec fn may_name_of(path: Option<Seq<char>>, name: Option<Seq<char>>) -> bool {
    match path {
        Some(p) => may_name(p, name),
        None => name is None,
    }
}

/// `text` is what messages call the file at `path`.
pub open spec fn may_be_called(
    path: Option<Seq<char>>,
    fallback: Seq<char>,
    text: Seq<char>,
) -> bool {
    exists|name: Option<Seq<char>>| #[trigger]
        may_name_of(path, name) && text == called(name, fallback)
}

/// A file as messages call it.
pub fn display_name(path: Option<&str>, fallback: &str) -> (r: String)
    ensures
        may_be_called(opt_str(path), fallback@, r@),
{
    let name = match path {
        Some(p) => file_name(p),
        None => None,
    };
    let ghost known = opt_text(name);
    let r = match name {
        Some(n) => n,
        None => owned(fallback),
    };
    assert(may_name_of(opt_str(path), known));
    r
}

/// The name of a file is its last component: what stands behind the last slash, spare slashes and
/// single dots at the end aside, and nothing where that is two dots or there is nothing.
pub proof fn lemma_name_is_last(dir: Seq<char>, name: Seq<char>)
    requires
        !name.contains('/'),
    ensures
        name.len() > 0 && name != "."@ && name != ".."@ ==> final_component(name) == Some(name)
            && final_component(dir + seq!['/'] + name) == Some(name),
        name == ".."@ ==> final_component(dir + seq!['/'] + name) is None,
        name.len() == 0 || name == "."@ ==> final_component(dir + seq!['/'] + name)
            == final_component(dir),
        final_component(Seq::<char>::empty()) is None,
{
    reveal_strlit(".");
    reveal_strlit("..");
    let none = Seq::<char>::empty();
    lemma_split_at(dir, name, '/');
    lemma_split_whole(name, '/');
    lemma_split_whole(none, '/');
    let front = split(dir, '/');
    let all = split(dir + seq!['/'] + name, '/');
    assert(all =~= front.push(name));
    assert(all.drop_last() =~= front);
    assert(".."@.len() == 2 && "."@.len() == 1);
    let one = seq![name];
    assert(one.drop_last() =~= seq![]);
    assert(counted(one.drop_last()) =~= seq![]);
    let empty = seq![none];
    assert(empty.drop_last() =~= seq![]);
    assert(counted(empty.drop_last()) =~= seq![]);
}

/// Spare slashes, and dots but at the start, do not tell paths apart; a slash in front does.
pub proof fn lemma_same_paths(a: Seq<char>, b: Seq<char>)
    ensures
        components(a + seq!['/'] + b) == components(a) + components(b),
        components(a + seq!['/', '/'] + b) == components(a + seq!['/'] + b),
        components(a + seq!['/', '.', '/'] + b) == components(a + seq!['/'] + b),
        same_components(a, b) <==> components(a) == components(b) && starts_with_char(a, '/')
            == starts_with_char(b, '/') && (split(a, '/')[0] == seq!['.']) == (split(b, '/')[0]
            == seq!['.']),
{
    reveal_strlit(".");
    assert("."@ =~= seq!['.']);
    let none = Seq::<char>::empty();
    let dot = seq!['.'];
    lemma_split_at(a, b, '/');
    lemma_counted_both(split(a, '/'), split(b, '/'));
    let spare = none + seq!['/'] + b;
    assert(a + seq!['/', '/'] + b =~= a + seq!['/'] + spare);
    lemma_split_at(a, spare, '/');
    lemma_split_at(none, b, '/');
    lemma_split_whole(none, '/');
    lemma_counted_both(split(a, '/'), split(spare, '/'));
    lemma_counted_both(seq![none], split(b, '/'));
    assert(seq![none].drop_last() =~= seq![]);
    assert(counted(seq![none]) =~= counted(seq![none].drop_last()));
    assert(counted(seq![none]) + components(b) =~= components(b));
    let dotted = dot + seq!['/'] + b;
    assert(a + seq!['/', '.', '/'] + b =~= a + seq!['/'] + dotted);
    lemma_split_at(a, dotted, '/');
    lemma_split_at(dot, b, '/');
    lemma_split_whole(dot, '/');
    lemma_counted_both(split(a, '/'), split(dotted, '/'));
    lemma_counted_both(seq![dot], split(b, '/'));
    assert("."@ =~= dot);
    assert(seq![dot].drop_last() =~= seq![]);
    assert(counted(seq![dot]) =~= counted(seq![dot].drop_last()));
    assert(counted(seq![dot]) + components(b) =~= components(b));
}

/// The parts that count of two lists, one after the other.
proof fn lemma_counted_both(a: Seq<Seq<char>>, b: Seq<Seq<char>>)
    ensures
        counted(a + b) == counted(a) + counted(b),
    decreases b.len(),
{
    if b.len() == 0 {
        assert(a + b =~= a);
        assert(counted(a) + counted(b) =~= counted(a));
    } else {
        lemma_counted_both(a, b.drop_last());
        assert((a + b).drop_last() =~= a + b.drop_last());
        assert(counted(a + b) =~= counted(a) + counted(b));
    }
}

/// What has no name goes by the fallback, and what has one by its name.
pub proof fn lemma_named_or_fallback(path: Seq<char>, name: Seq<char>, fallback: Seq<char>)
    ensures
        may_be_called(None, fallback, name) <==> name == fallback,
        slashed(path) && final_component(path) is Some ==> (may_be_called(
            Some(path),
            fallback,
            name,
        ) <==> name == final_component(path)->0 && may_name(path, Some(name))),
{
    let none: Option<Seq<char>> = None;
    if name == fallback {
        assert(may_name_of(None, none));
    }
    if may_name(path, Some(name)) {
        assert(may_name_of(Some(path), Some(name)));
    }
}

} // verus!
