//! The windows on the desktop: which has the focus, and which shows a file.

use vstd::prelude::*;

use crate::paths::{file_name, may_match, may_name, same_path};
use crate::text::{opt_text, same_str};

verus! {

/// A window on the desktop.
pub struct DesktopWindow {
    pub focused: bool,
    /// The number of the editor, where the window is one.
    pub editor: Option<usize>,
    /// The file of the editor.
    pub path: Option<String>,
}

/// A window on the desktop, over plain values.
#[verifier::ext_equal]
pub struct WindowView {
    pub focused: bool,
    pub editor: Option<usize>,
    pub path: Option<Seq<char>>,
}

impl View for DesktopWindow {
    type V = WindowView;

    open spec fn view(&self) -> WindowView {
        WindowView { focused: self.focused, editor: self.editor, path: opt_text(self.path) }
    }
}

/// The windows, over plain values.
pub open spec fn window_views(v: Seq<DesktopWindow>) -> Seq<WindowView> {
    v.map_values(|w: DesktopWindow| w@)
}

/// The first position from `i` on that is marked.
pub open spec fn first_from(marks: Seq<bool>, i: int) -> Option<int>
    decreases marks.len() - i,
{
    if i < 0 || i >= marks.len() {
        None
    } else if marks[i] {
        Some(i)
    } else {
        first_from(marks, i + 1)
    }
}

/// The first position that is marked.
pub open spec fn first_marked(marks: Seq<bool>) -> Option<int> {
    first_from(marks, 0)
}

/// Of each window, whether it has the focus.
pub open spec fn with_focus(windows: Seq<WindowView>) -> Seq<bool> {
    windows.map_values(|w: WindowView| w.focused)
}

/// Of each window, whether it is an editor and has the focus.
pub open spec fn editors_with_focus(windows: Seq<WindowView>) -> Seq<bool> {
    windows.map_values(|w: WindowView| w.focused && w.editor is Some)
}

/// The editor that has the focus.
pub open spec fn focused_of(windows: Seq<WindowView>) -> Option<usize> {
    match first_marked(editors_with_focus(windows)) {
        Some(i) => windows[i].editor,
        None => None,
    }
}

/// The position of the first mark.
pub fn find_marked(marks: &Vec<bool>) -> (r: Option<usize>)
    ensures
        match r {
            Some(i) => first_marked(marks@) == Some(i as int) && i < marks@.len() && marks@[i as int],
            None => first_marked(marks@) is None,
        },
{
    for i in 0..marks.len()
        invariant
            first_marked(marks@) == first_from(marks@, i as int),
    {
        if marks[i] {
            return Some(i);
        }
    }
    None
}

/// The position of the first window that has the focus.
pub fn focused_window(windows: &Vec<DesktopWindow>) -> (r: Option<usize>)
    ensures
        match r {
            Some(i) => first_marked(with_focus(window_views(windows@))) == Some(i as int) && i
                < windows@.len(),
            None => first_marked(with_focus(window_views(windows@))) is None,
        },
{
    let mut marks: Vec<bool> = Vec::new();
    for i in 0..windows.len()
        invariant
            marks@.len() == i,
            forall|k: int| 0 <= k < i ==> #[trigger] marks@[k] == windows@[k].focused,
    {
        marks.push(windows[i].focused);
    }
    assert(marks@ =~= with_focus(window_views(windows@)));
    find_marked(&marks)
}

/// The editor that has the focus: the first editor window on the desktop that is focused.
pub fn focused_editor(windows: &Vec<DesktopWindow>) -> (r: Option<usize>)
    ensures
        r == focused_of(window_views(windows@)),
{
    let mut marks: Vec<bool> = Vec::new();
    for i in 0..windows.len()
        invariant
            marks@.len() == i,
            forall|k: int|
                0 <= k < i ==> #[trigger] marks@[k] == (windows@[k].focused
                    && windows@[k].editor is Some),
    {
        marks.push(windows[i].focused && windows[i].editor.is_some());
    }
    assert(marks@ =~= editors_with_focus(window_views(windows@)));
    match find_marked(&marks) {
        Some(i) => windows[i].editor,
        None => None,
    }
}

/// What is known of whether the windows show the file `target`: `marks` says so of each.
pub open spec fn may_show(windows: Seq<WindowView>, target: Seq<char>, marks: Seq<bool>) -> bool {
    &&& marks.len() == windows.len()
    &&& forall|i: int|
        0 <= i < windows.len() ==> match (windows[i].editor, windows[i].path) {
            (Some(_), Some(path)) => may_match(path, target, #[trigger] marks[i]),
            _ => !marks[i],
        }
}

/// The position of the first editor window that shows the file `target`, so that it is not opened
/// twice. Paths are given in canonical form where they have one.
pub fn find_editor_with_path(windows: &Vec<DesktopWindow>, target: &str) -> (r: Option<usize>)
    ensures
        exists|marks: Seq<bool>| #[trigger]
            may_show(window_views(windows@), target@, marks) && match r {
                Some(i) => first_marked(marks) == Some(i as int) && i < windows@.len()
                    && windows@[i as int].editor is Some,
                None => first_marked(marks) is None,
            },
{
    let mut marks: Vec<bool> = Vec::new();
    for i in 0..windows.len()
        invariant
            marks@.len() == i,
            forall|k: int|
                0 <= k < i ==> match (windows@[k]@.editor, windows@[k]@.path) {
                    (Some(_), Some(path)) => may_match(path, target@, #[trigger] marks@[k]),
                    _ => !marks@[k],
                },
    {
        let same = match (&windows[i].editor, &windows[i].path) {
            (Some(_), Some(path)) => same_path(path.as_str(), target),
            _ => false,
        };
        marks.push(same);
    }
    let r = find_marked(&marks);
    assert(may_show(window_views(windows@), target@, marks@));
    r
}

/// Of each window, whether its file has the name `basename`, where `names` gives the file names.
pub open spec fn named_windows(
    windows: Seq<WindowView>,
    names: Seq<Option<Seq<char>>>,
    basename: Seq<char>,
) -> Seq<bool> {
    Seq::new(
        windows.len(),
        |i: int| windows[i].editor is Some && windows[i].path is Some && names[i] == Some(basename),
    )
}

/// `names` may be the file names of the windows.
pub open spec fn may_have_names(windows: Seq<WindowView>, names: Seq<Option<Seq<char>>>) -> bool {
    &&& names.len() == windows.len()
    &&& forall|i: int|
        0 <= i < windows.len() ==> match windows[i].path {
            Some(path) => may_name(path, #[trigger] names[i]),
            None => names[i] is None,
        }
}

/// The names, over plain values.
pub open spec fn name_texts(v: Seq<Option<String>>) -> Seq<Option<Seq<char>>> {
    v.map_values(|n: Option<String>| opt_text(n))
}

/// The position of the first editor window whose file has the name `basename`; `names` are the
/// names of the files of the windows.
pub fn window_named(
    windows: &Vec<DesktopWindow>,
    names: &Vec<Option<String>>,
    basename: &str,
) -> (r: Option<usize>)
    requires
        names@.len() == windows@.len(),
    ensures
        match r {
            Some(i) => first_marked(
                named_windows(window_views(windows@), name_texts(names@), basename@),
            ) == Some(i as int) && i < windows@.len() && windows@[i as int].editor is Some,
            None => first_marked(
                named_windows(window_views(windows@), name_texts(names@), basename@),
            ) is None,
        },
{
    let mut marks: Vec<bool> = Vec::new();
    for i in 0..windows.len()
        invariant
            names@.len() == windows@.len(),
            marks@.len() == i,
            forall|k: int|
                0 <= k < i ==> #[trigger] marks@[k] == (windows@[k].editor is Some
                    && windows@[k].path is Some && opt_text(names@[k]) == Some(basename@)),
    {
        let same = match &names[i] {
            Some(n) => same_str(n.as_str(), basename),
            None => false,
        };
        marks.push(windows[i].editor.is_some() && windows[i].path.is_some() && same);
    }
    assert(marks@ =~= named_windows(window_views(windows@), name_texts(names@), basename@));
    find_marked(&marks)
}

/// The position of the first editor window that shows a file with the name `basename`.
pub fn source_window(windows: &Vec<DesktopWindow>, basename: &str) -> (r: Option<usize>)
    ensures
        exists|names: Seq<Option<Seq<char>>>| #[trigger]
            may_have_names(window_views(windows@), names) && match r {
                Some(i) => first_marked(named_windows(window_views(windows@), names, basename@))
                    == Some(i as int) && i < windows@.len() && windows@[i as int].editor is Some,
                None => first_marked(
                    named_windows(window_views(windows@), names, basename@),
                ) is None,
            },
{
    let mut names: Vec<Option<String>> = Vec::new();
    for i in 0..windows.len()
        invariant
            names@.len() == i,
            forall|k: int|
                0 <= k < i ==> match windows@[k]@.path {
                    Some(path) => may_name(path, opt_text(#[trigger] names@[k])),
                    None => names@[k] is None,
                },
    {
        let name = match &windows[i].path {
            Some(path) => file_name(path.as_str()),
            None => None,
        };
        names.push(name);
    }
    let r = window_named(windows, &names, basename);
    assert(may_have_names(window_views(windows@), name_texts(names@)));
    r
}

/// The first mark is marked, and nothing before it is.
proof fn lemma_first_from(marks: Seq<bool>, i: int)
    requires
        0 <= i,
    ensures
        match first_from(marks, i) {
            Some(k) => i <= k < marks.len() && marks[k] && forall|j: int|
                i <= j < k ==> !#[trigger] marks[j],
            None => forall|j: int| i <= j < marks.len() ==> !#[trigger] marks[j],
        },
    decreases marks.len() - i,
{
    if i < marks.len() && !marks[i] {
        lemma_first_from(marks, i + 1);
    }
}

/// The editor with the focus is that of a focused window, no editor window before it is focused,
/// and there is none exactly where no editor window is focused.
pub proof fn lemma_focused_editor_is_first(windows: Seq<WindowView>)
    ensures
        match focused_of(windows) {
            Some(e) => exists|i: int|
                0 <= i < windows.len() && (#[trigger] windows[i]).focused && windows[i].editor
                    == Some(e) && forall|j: int|
                    0 <= j < i ==> !((#[trigger] windows[j]).focused && windows[j].editor is Some),
            None => forall|j: int|
                0 <= j < windows.len() ==> !((#[trigger] windows[j]).focused
                    && windows[j].editor is Some),
        },
{
    let marks = editors_with_focus(windows);
    lemma_first_from(marks, 0);
    assert forall|j: int| 0 <= j < windows.len() implies marks[j] == ((#[trigger] windows[j]).focused
        && windows[j].editor is Some) by {}
    match first_marked(marks) {
        Some(i) => {
            assert(windows[i].focused);
            assert forall|j: int| 0 <= j < i implies !((#[trigger] windows[j]).focused
                && windows[j].editor is Some) by {
                assert(!marks[j]);
            }
        },
        None => {
            assert forall|j: int| 0 <= j < windows.len() implies !((#[trigger] windows[j]).focused
                && windows[j].editor is Some) by {
                assert(!marks[j]);
            }
        },
    }
}

/// The first mark: it is marked and nothing before it is; there is none exactly where nothing is
/// marked.
pub proof fn lemma_first_mark(marks: Seq<bool>, k: int)
    ensures
        0 <= k < marks.len() && marks[k] && (forall|j: int| 0 <= j < k ==> !#[trigger] marks[j])
            <==> first_marked(marks) == Some(k),
        (forall|j: int| 0 <= j < marks.len() ==> !#[trigger] marks[j]) <==> first_marked(
            marks,
        ) is None,
{
    lemma_first_from(marks, 0);
    if let Some(m) = first_marked(marks) {
        if 0 <= k < m {
            assert(!marks[k]);
        }
    }
}

/// A window has the focus exactly where it says so, and shows a file of a name exactly where it is
/// an editor with a file of that name.
pub proof fn lemma_windows_marked(
    windows: Seq<WindowView>,
    names: Seq<Option<Seq<char>>>,
    basename: Seq<char>,
    i: int,
)
    requires
        0 <= i < windows.len(),
        names.len() == windows.len(),
    ensures
        with_focus(windows).len() == windows.len(),
        with_focus(windows)[i] == windows[i].focused,
        named_windows(windows, names, basename).len() == windows.len(),
        named_windows(windows, names, basename)[i] <==> windows[i].editor is Some
            && windows[i].path is Some && names[i] == Some(basename),
{
}

} // verus!
