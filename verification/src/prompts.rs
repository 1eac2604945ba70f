//! What the user is asked before work is lost: when windows are closed, files overwritten, or
//! changed by others.

use vstd::prelude::*;

use crate::commands::{CM_NO, CM_YES};
use crate::ide_editor::ExternalState;
use crate::text::owned;

verus! {

/// The question before a modified editor is closed.
pub fn modified_prompt(name: &str) -> (r: String)
    ensures
        r@ == name@ + " has been modified.\n\nSave changes?"@,
{
    let mut out: String = owned(name);
    out.append(" has been modified.\n\nSave changes?");
    out
}

/// The question before a file is overwritten.
pub fn overwrite_prompt(name: &str) -> (r: String)
    ensures
        r@ == name@ + " already exists.\n\nOverwrite?"@,
{
    let mut out: String = owned(name);
    out.append(" already exists.\n\nOverwrite?");
    out
}

/// The question before a modified editor reads its file again.
pub fn reload_prompt(name: &str) -> (r: String)
    ensures
        r@ == name@ + " changed on disk.\n\nReload and lose unsaved changes?"@,
{
    let mut out: String = owned(name);
    out.append(" changed on disk.\n\nReload and lose unsaved changes?");
    out
}

/// The question before the window of the debugged program is closed.
pub fn stop_debugging_prompt() -> (r: &'static str)
    ensures
        r@ == "Closing this window will stop debugging.\n\nDo you want to close it?"@,
{
    "Closing this window will stop debugging.\n\nDo you want to close it?"
}

/// The message when a file could not be saved.
pub fn save_failed(error: &str) -> (r: String)
    ensures
        r@ == "Save failed:\n"@ + error@,
{
    let mut out: String = owned("Save failed:\n");
    out.append(error);
    out
}

/// The message when a file could not be opened.
pub fn open_failed(error: &str) -> (r: String)
    ensures
        r@ == "Cannot open file:\n"@ + error@,
{
    let mut out: String = owned("Cannot open file:\n");
    out.append(error);
    out
}

/// How an editor is saved.
#[derive(Debug, Clone, Copy, PartialEq, Eq, Structural)]
pub enum SaveMode {
    /// To its file.
    File,
    /// To a file that the user is asked for.
    Ask,
}

/// How an editor is saved: to its file, where it has one.
pub fn save_mode(has_path: bool) -> (r: SaveMode)
    ensures
        r == if has_path {
            SaveMode::File
        } else {
            SaveMode::Ask
        },
{
    if has_path {
        SaveMode::File
    } else {
        SaveMode::Ask
    }
}

/// Tells whether a file is written: where there is one already, only if the user said yes.
pub fn may_overwrite(exists_already: bool, answer: u16) -> (r: bool)
    ensures
        r == (!exists_already || answer == CM_YES),
{
    !exists_already || answer == CM_YES
}

/// What is done about a file that others may have changed.
#[derive(Debug, Clone, Copy, PartialEq, Eq, Structural)]
pub enum ExternalAction {
    Nothing,
    /// Read the file again.
    Reload,
    /// Ask whether to read the file again.
    Ask,
    /// The editor has no file any more, so that saving asks for one.
    Forget,
}

/// What is done about a file: an editor without changes reads it again, one with changes asks.
pub open spec fn external_reaction(state: ExternalState, dirty: bool) -> ExternalAction {
    match state {
        ExternalState::Unchanged | ExternalState::NoFile => ExternalAction::Nothing,
        ExternalState::Modified => if dirty {
            ExternalAction::Ask
        } else {
            ExternalAction::Reload
        },
        ExternalState::Deleted => ExternalAction::Forget,
    }
}

/// What is done about a file that others may have changed.
pub fn external_action(state: ExternalState, dirty: bool) -> (r: ExternalAction)
    ensures
        r == external_reaction(state, dirty),
{
    match state {
        ExternalState::Unchanged => ExternalAction::Nothing,
        ExternalState::NoFile => ExternalAction::Nothing,
        ExternalState::Modified => {
            if dirty {
                ExternalAction::Ask
            } else {
                ExternalAction::Reload
            }
        },
        ExternalState::Deleted => ExternalAction::Forget,
    }
}

/// Tells whether the answer is yes.
pub fn is_yes(answer: u16) -> (r: bool)
    ensures
        r == (answer == CM_YES),
{
    answer == CM_YES
}

/// An editor that is about to be closed.
#[derive(Debug, Clone, Copy, PartialEq, Eq, Structural)]
pub struct CloseCandidate {
    /// It has changes that are not saved.
    pub dirty: bool,
    /// It has a file.
    pub has_path: bool,
}

/// What is next when editors are closed. Numbers are positions in the list of editors.
#[derive(Debug, Clone, Copy, PartialEq, Eq, Structural)]
pub enum ClosePhase {
    /// Ask whether to save this editor.
    Ask(usize),
    /// Save this editor to its file.
    Save(usize),
    /// Save this editor to a file that the user is asked for.
    SaveAs(usize),
    /// All editors may be closed, or the close is called off.
    Done(bool),
}

/// What is next from editor `i` on: the next one with changes is asked about.
pub open spec fn next_phase(editors: Seq<CloseCandidate>, i: int) -> ClosePhase
    decreases editors.len() - i,
{
    if i < 0 || i >= editors.len() {
        ClosePhase::Done(true)
    } else if editors[i].dirty {
        ClosePhase::Ask(i as usize)
    } else {
        next_phase(editors, i + 1)
    }
}

/// What is next after the user answered.
pub open spec fn answered_phase(
    editors: Seq<CloseCandidate>,
    phase: ClosePhase,
    answer: u16,
) -> ClosePhase {
    match phase {
        ClosePhase::Ask(i) => if answer == CM_YES {
            if editors[i as int].has_path {
                ClosePhase::Save(i)
            } else {
                ClosePhase::SaveAs(i)
            }
        } else if answer == CM_NO {
            next_phase(editors, i + 1)
        } else {
            ClosePhase::Done(false)
        },
        _ => phase,
    }
}

/// What is next after an editor was saved, or could not be.
pub open spec fn saved_phase(editors: Seq<CloseCandidate>, phase: ClosePhase, saved: bool) -> ClosePhase {
    match phase {
        ClosePhase::Save(i) | ClosePhase::SaveAs(i) => if saved {
            next_phase(editors, i + 1)
        } else {
            ClosePhase::Done(false)
        },
        _ => phase,
    }
}

/// The editors that are closed one after the other, each with changes after asking. A cancelled
/// prompt or a failed save calls the close off.
pub struct CloseWalk {
    editors: Vec<CloseCandidate>,
    phase: ClosePhase,
}

/// The walk, over plain values.
#[verifier::ext_equal]
pub struct WalkView {
    pub editors: Seq<CloseCandidate>,
    pub phase: ClosePhase,
}

impl View for CloseWalk {
    type V = WalkView;

    closed spec fn view(&self) -> WalkView {
        WalkView { editors: self.editors@, phase: self.phase }
    }
}

impl WalkView {
    /// The phase is about an editor of the list.
    pub open spec fn valid(self) -> bool {
        match self.phase {
            ClosePhase::Ask(i) | ClosePhase::Save(i) | ClosePhase::SaveAs(i) => i
                < self.editors.len() && self.editors[i as int].dirty,
            ClosePhase::Done(_) => true,
        }
    }
}

/// The next phase is about a later editor with changes.
proof fn lemma_next_phase(editors: Seq<CloseCandidate>, i: int)
    requires
        0 <= i,
        editors.len() <= usize::MAX,
    ensures
        match next_phase(editors, i) {
            ClosePhase::Ask(k) => i <= k < editors.len() && editors[k as int].dirty && forall|j: int|
                i <= j < k ==> !(#[trigger] editors[j]).dirty,
            ClosePhase::Done(all) => all && forall|j: int|
                i <= j < editors.len() ==> !(#[trigger] editors[j]).dirty,
            _ => false,
        },
    decreases editors.len() - i,
{
    if i < editors.len() && !editors[i].dirty {
        lemma_next_phase(editors, i + 1);
    }
}

/// What is next from editor `from` on.
fn phase_from(editors: &Vec<CloseCandidate>, from: usize) -> (r: ClosePhase)
    requires
        from <= editors@.len(),
    ensures
        r == next_phase(editors@, from as int),
{
    for i in from..editors.len()
        invariant
            next_phase(editors@, from as int) == next_phase(editors@, i as int),
    {
        if editors[i].dirty {
            return ClosePhase::Ask(i);
        }
    }
    ClosePhase::Done(true)
}

impl CloseWalk {
    /// The walk over the editors in the order of the list.
    pub fn new(editors: Vec<CloseCandidate>) -> (r: CloseWalk)
        ensures
            r@ == (WalkView { editors: editors@, phase: next_phase(editors@, 0) }),
            r@.valid(),
    {
        let phase = phase_from(&editors, 0);
        proof {
            assert(editors@.len() == editors.len());
            lemma_next_phase(editors@, 0);
        }
        CloseWalk { editors, phase }
    }

    /// What is next.
    pub fn phase(&self) -> (r: ClosePhase)
        ensures
            r == self@.phase,
    {
        self.phase
    }

    /// The user answered with the command `answer`.
    pub fn answered(&mut self, answer: u16)
        requires
            old(self)@.valid(),
        ensures
            final(self)@ == (WalkView {
                phase: answered_phase(old(self)@.editors, old(self)@.phase, answer),
                ..old(self)@
            }),
            final(self)@.valid(),
    {
        proof {
            assert(self.editors@.len() == self.editors.len());
        }
        match self.phase {
            ClosePhase::Ask(i) => {
                if answer == CM_YES {
                    self.phase = if self.editors[i].has_path {
                        ClosePhase::Save(i)
                    } else {
                        ClosePhase::SaveAs(i)
                    };
                } else if answer == CM_NO {
                    self.phase = phase_from(&self.editors, i + 1);
                    proof {
                        lemma_next_phase(self.editors@, i + 1);
                    }
                } else {
                    self.phase = ClosePhase::Done(false);
                }
            },
            _ => {},
        }
    }

    /// The editor was saved, or could not be.
    pub fn saved(&mut self, saved: bool)
        requires
            old(self)@.valid(),
        ensures
            final(self)@ == (WalkView {
                phase: saved_phase(old(self)@.editors, old(self)@.phase, saved),
                ..old(self)@
            }),
            final(self)@.valid(),
    {
        proof {
            assert(self.editors@.len() == self.editors.len());
        }
        match self.phase {
            ClosePhase::Save(i) | ClosePhase::SaveAs(i) => {
                if saved {
                    self.phase = phase_from(&self.editors, i + 1);
                    proof {
                        lemma_next_phase(self.editors@, i + 1);
                    }
                } else {
                    self.phase = ClosePhase::Done(false);
                }
            },
            _ => {},
        }
    }
}

/// What is next once editor `i` was dealt with: the user answered, and where that was yes the
/// editor was saved or could not be.
pub open spec fn dealt_with(
    editors: Seq<CloseCandidate>,
    i: int,
    answer: u16,
    saved: bool,
) -> ClosePhase {
    saved_phase(
        editors,
        answered_phase(editors, ClosePhase::Ask(i as usize), answer),
        saved,
    )
}

/// Whether the editors from `i` on may be closed in the end, where `answers` and `saves` say what
/// comes back for each editor.
pub open spec fn close_result(
    editors: Seq<CloseCandidate>,
    i: int,
    answers: Seq<u16>,
    saves: Seq<bool>,
) -> bool
    decreases editors.len() - i,
{
    match next_phase(editors, i) {
        ClosePhase::Ask(k) => if i <= k < editors.len() {
            match dealt_with(editors, k as int, answers[k as int], saves[k as int]) {
                ClosePhase::Done(all) => all,
                _ => close_result(editors, k + 1, answers, saves),
            }
        } else {
            false
        },
        ClosePhase::Done(all) => all,
        _ => false,
    }
}

/// An editor may be closed: it has no changes, or they were thrown away or saved.
pub open spec fn may_close(editor: CloseCandidate, answer: u16, saved: bool) -> bool {
    !editor.dirty || answer == CM_NO || (answer == CM_YES && saved)
}

/// The editors may be closed exactly where each with changes was saved or the user threw the
/// changes away; no change is lost unasked.
pub proof fn lemma_close_saves_or_asks(
    editors: Seq<CloseCandidate>,
    answers: Seq<u16>,
    saves: Seq<bool>,
)
    requires
        editors.len() <= usize::MAX,
        answers.len() == editors.len(),
        saves.len() == editors.len(),
    ensures
        close_result(editors, 0, answers, saves) == forall|i: int|
            0 <= i < editors.len() ==> may_close(#[trigger] editors[i], answers[i], saves[i]),
{
    lemma_close_from(editors, 0, answers, saves);
}

/// The same from editor `i` on.
proof fn lemma_close_from(
    editors: Seq<CloseCandidate>,
    i: int,
    answers: Seq<u16>,
    saves: Seq<bool>,
)
    requires
        0 <= i,
        editors.len() <= usize::MAX,
        answers.len() == editors.len(),
        saves.len() == editors.len(),
    ensures
        close_result(editors, i, answers, saves) == forall|j: int|
            i <= j < editors.len() ==> may_close(#[trigger] editors[j], answers[j], saves[j]),
    decreases editors.len() - i,
{
    lemma_next_phase(editors, i);
    match next_phase(editors, i) {
        ClosePhase::Ask(k) => {
            lemma_next_phase(editors, k + 1);
            lemma_close_from(editors, k + 1, answers, saves);
            if !may_close(editors[k as int], answers[k as int], saves[k as int]) {
                assert(!(forall|j: int|
                    i <= j < editors.len() ==> may_close(
                        #[trigger] editors[j],
                        answers[j],
                        saves[j],
                    )));
            }
        },
        _ => {},
    }
}

/// An answer decides about the editor that was asked about: yes saves it, to its file where it has
/// one and else to a file that is asked for; no leaves it; anything else calls the close off. Until
/// an editor was saved or left, no other is asked about.
pub proof fn lemma_answer_decides(editors: Seq<CloseCandidate>, i: usize, answer: u16)
    requires
        i < editors.len(),
    ensures
        answered_phase(editors, ClosePhase::Ask(i), CM_YES) == if editors[i as int].has_path {
            ClosePhase::Save(i)
        } else {
            ClosePhase::SaveAs(i)
        },
        answered_phase(editors, ClosePhase::Ask(i), CM_NO) == next_phase(editors, i + 1),
        answer != CM_YES && answer != CM_NO ==> answered_phase(editors, ClosePhase::Ask(i), answer)
            == ClosePhase::Done(false),
        saved_phase(editors, ClosePhase::Save(i), false) == ClosePhase::Done(false),
        saved_phase(editors, ClosePhase::SaveAs(i), false) == ClosePhase::Done(false),
        saved_phase(editors, ClosePhase::Save(i), true) == next_phase(editors, i + 1),
        saved_phase(editors, ClosePhase::SaveAs(i), true) == next_phase(editors, i + 1),
{
}

/// Editors are asked about in order, each with changes and no other.
pub proof fn lemma_asked_in_order(editors: Seq<CloseCandidate>, from: int, k: int)
    requires
        0 <= from,
        editors.len() <= usize::MAX,
    ensures
        from <= k < editors.len() && editors[k].dirty && (forall|j: int|
            from <= j < k ==> !(#[trigger] editors[j]).dirty) ==> next_phase(editors, from)
            == ClosePhase::Ask(k as usize),
        (forall|j: int| from <= j < editors.len() ==> !(#[trigger] editors[j]).dirty)
            ==> next_phase(editors, from) == ClosePhase::Done(true),
{
    lemma_next_phase(editors, from);
    match next_phase(editors, from) {
        ClosePhase::Ask(m) => {
            if from <= k < editors.len() && k < m {
                assert(!editors[k].dirty);
            }
        },
        _ => {},
    }
}

/// Changes in an editor are never lost to a file that others changed: it is read again unasked only
/// where the editor has none, a change is never passed over, and a file that is gone is forgotten.
pub proof fn lemma_external_changes_ask(state: ExternalState, dirty: bool)
    ensures
        external_reaction(state, dirty) == ExternalAction::Reload <==> state
            == ExternalState::Modified && !dirty,
        external_reaction(state, dirty) == ExternalAction::Ask <==> state == ExternalState::Modified
            && dirty,
        external_reaction(state, dirty) == ExternalAction::Forget <==> state
            == ExternalState::Deleted,
{
}

} // verus!
