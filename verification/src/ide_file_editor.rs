//! Breakpoints and the execution line of an editor of source files.

use vstd::prelude::*;

use crate::gutter::{snapped_all, toggled, GutterView};

verus! {

/// An editor of source files that can be debugged.
pub trait IdeFileEditor {
    /// What the gutter of the editor shows.
    spec fn marks(&self) -> GutterView;

    /// Sets the breakpoint on `line`, or takes it away where it is set.
    fn toggle_breakpoint(&mut self, line: usize)
        ensures
            final(self).marks() == (GutterView {
                breakpoints: toggled(old(self).marks().breakpoints, line),
                ..old(self).marks()
            }),
    ;

    /// Takes all breakpoints away.
    fn clear_breakpoints(&mut self)
        ensures
            final(self).marks() == (GutterView {
                breakpoints: Set::empty(),
                ..old(self).marks()
            }),
    ;

    /// The lines with breakpoints, each once, in no particular order.
    fn breakpoint_lines(&self) -> (r: Vec<usize>)
        ensures
            r@.to_set() == self.marks().breakpoints,
            r@.no_duplicates(),
    ;

    /// Moves every breakpoint to the nearest valid line that is not above it; those without such a
    /// line go away.
    fn snap_breakpoints(&mut self, valid_lines: &[usize], total_lines: usize)
        ensures
            final(self).marks() == (GutterView {
                breakpoints: snapped_all(
                    old(self).marks().breakpoints,
                    valid_lines@.to_set(),
                    total_lines,
                ),
                ..old(self).marks()
            }),
    ;

    /// The line at which the program stands.
    fn current_exec_line(&self) -> (r: Option<usize>)
        ensures
            r == self.marks().exec_line,
    ;

    /// Sets the line at which the program stands.
    fn set_current_exec_line(&mut self, line: Option<usize>)
        ensures
            final(self).marks() == (GutterView { exec_line: line, ..old(self).marks() }),
    ;
}

} // verus!
