# bruto-ide

A text-mode development environment: editor windows with a breakpoint gutter, builds, and a
debugger front end for lldb.

- `src/` is the core, verified with Verus. It decides everything: what commands, keys and debugger
  output mean, what is shown and where, which steps a debugger session takes, and what the user is
  asked before work is lost. Its functions take plain values and give plain values and lists of
  actions back.
- `app/` runs the core on a terminal, with windows of turbo-vision, files and the lldb process.
- `tests/` runs the core on examples.

Modules of the core:

- `ide`: the state of the environment, commands, debugger reports, builds, runs and sessions
- `debugger`, `variable`, `set_mask`, `metadata`: the lldb session and the values it prints
- `tracking`: variables and call-stack frames of a paused program
- `gutter`, `ide_editor`, `ide_file_editor`: breakpoints and editor windows
- `watch_window`, `callstack_window`, `value_editor`: panels and the value dialog
- `desktop`, `layout`, `geometry`, `draw`, `output`, `output_panel`: windows and lines on the screen
- `menus`, `commands`, `prompts`, `build_report`, `trace_log`: menus, questions, messages and the log
- `text`, `number`, `paths`: text, numbers and file names
