//! Command and key numbers.
//!
//! The commands of the environment itself are in the range from 400 on; below that stand the
//! commands of turbo-vision that it handles.

use vstd::prelude::*;

verus! {

/// Build the current source file (F9)
pub const CM_BUILD: u16 = 400;

/// Run the compiled executable (Ctrl+F9)
pub const CM_RUN: u16 = 401;

/// Build and then run (Shift+F9)
pub const CM_BUILD_RUN: u16 = 402;

/// Start or continue debugging (F5)
pub const CM_DEBUG_START: u16 = 410;

/// Stop the debugger (Shift+F5)
pub const CM_DEBUG_STOP: u16 = 411;

/// Step over current line (F8)
pub const CM_DEBUG_STEP_OVER: u16 = 412;

/// Step into function call (F7)
pub const CM_DEBUG_STEP_INTO: u16 = 413;

/// Continue execution to next breakpoint (F5 while paused)
pub const CM_DEBUG_CONTINUE: u16 = 414;

/// Toggle breakpoint on current/clicked line
pub const CM_TOGGLE_BREAKPOINT: u16 = 415;

/// Broadcast: debugger hit a breakpoint, payload = line number
pub const CM_DEBUG_HIT_BREAK: u16 = 420;

/// Broadcast: variable values updated
pub const CM_DEBUG_VARS_UPDATE: u16 = 421;

/// Broadcast: highlight execution line
pub const CM_HIGHLIGHT_LINE: u16 = 422;

/// Broadcast: debugger process exited
pub const CM_DEBUG_EXITED: u16 = 423;

/// Show About dialog
pub const CM_ABOUT: u16 = 430;

/// Close request of an editor window, which stands for CM_CLOSE there
/// so that a save prompt comes before the editor is removed.
pub const CM_CLOSE_EDITOR: u16 = 440;

/// Re-open the Watches window (Window menu) after the user closed it.
pub const CM_SHOW_WATCHES: u16 = 441;

/// Re-open the Output window (Window menu) after the user closed it.
pub const CM_SHOW_OUTPUT: u16 = 442;

/// Show / re-open the Call Stack window (hidden by default).
pub const CM_SHOW_CALLSTACK: u16 = 443;

/// Quit the program.
pub const CM_QUIT: u16 = 24;

/// Close the window.
pub const CM_CLOSE: u16 = 25;

/// Close the dialog and take what was entered.
pub const CM_OK: u16 = 10;

/// Close the dialog.
pub const CM_CANCEL: u16 = 11;

/// Close the dialog with the answer yes.
pub const CM_YES: u16 = 12;

/// Close the dialog with the answer no.
pub const CM_NO: u16 = 13;

/// New file.
pub const CM_NEW: u16 = 102;

/// Open a file.
pub const CM_OPEN: u16 = 103;

/// Save the file.
pub const CM_SAVE: u16 = 104;

/// Save the file under another name.
pub const CM_SAVE_AS: u16 = 105;

/// Undo the last edit.
pub const CM_UNDO: u16 = 110;

/// Redo the edit that was undone last.
pub const CM_REDO: u16 = 111;

/// Cut the selection.
pub const CM_CUT: u16 = 112;

/// Copy the selection.
pub const CM_COPY: u16 = 113;

/// Paste the clipboard.
pub const CM_PASTE: u16 = 114;

/// Select all.
pub const CM_SELECT_ALL: u16 = 115;

/// F2.
pub const KB_F2: u16 = 0x3C00;

/// F3.
pub const KB_F3: u16 = 0x3D00;

/// F5.
pub const KB_F5: u16 = 0x3F00;

/// F7.
pub const KB_F7: u16 = 0x4100;

/// F8.
pub const KB_F8: u16 = 0x4200;

/// F9.
pub const KB_F9: u16 = 0x4300;

/// Alt+X.
pub const KB_ALT_X: u16 = 0x2D00;

} // verus!
