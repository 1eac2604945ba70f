//! The other end of a session: what lldb makes of the lines that are written to it. Nothing here
//! runs; the laws of the session are stated against it.

use vstd::prelude::*;

use crate::debugger::{
    after_step, after_steps, breakpoint_command, breakpoint_steps, command_line,
    lemma_breakpoint_steps, lemma_start_runs, lemma_steps_in_parts, start_steps, starting,
    stop_steps, ActionView, SessionView,
};
use crate::number::{decimal, digits, lemma_decimal_reads_back};
use crate::text::starts_with;

verus! {

/// lldb with a program: the line of each breakpoint in the source by its number, the number of the
/// next one, whether there is a breakpoint on `main`, and whether the program was run.
#[verifier::ext_equal]
pub struct LldbView {
    pub points: Map<nat, usize>,
    pub next: nat,
    pub main: bool,
    pub ran: bool,
}

/// lldb when it was just started.
pub open spec fn launched() -> LldbView {
    LldbView { points: Map::empty(), next: 1, main: false, ran: false }
}

/// What stands between `front` and the line feed at the end of the text.
pub open spec fn argument(text: Seq<char>, front: Seq<char>) -> Option<Seq<char>> {
    if starts_with(text, front) && text.len() > front.len() + 1 && text.last() == '\n' {
        Some(text.subrange(front.len() as int, text.len() - 1))
    } else {
        None
    }
}

/// The number of the breakpoint that a line of input deletes.
pub open spec fn deletes(text: Seq<char>) -> Option<nat> {
    match argument(text, "breakpoint delete "@) {
        Some(number) => digits(number, 10),
        None => None,
    }
}

/// The line of the source `file` on which a line of input sets a breakpoint.
pub open spec fn sets(text: Seq<char>, file: Seq<char>) -> Option<nat> {
    match argument(text, "breakpoint set --file "@ + file + " --line "@) {
        Some(line) => digits(line, 10),
        None => None,
    }
}

/// lldb after it read a line of input: breakpoints are numbered in the order in which they are set.
pub open spec fn reads(l: LldbView, file: Seq<char>, text: Seq<char>) -> LldbView {
    if let Some(number) = deletes(text) {
        LldbView { points: l.points.remove(number), ..l }
    } else if let Some(line) = sets(text, file) {
        LldbView { points: l.points.insert(l.next, line as usize), next: l.next + 1, ..l }
    } else if text == "breakpoint set --name main\n"@ {
        LldbView { next: l.next + 1, main: true, ..l }
    } else if text == "run\n"@ {
        LldbView { ran: true, ..l }
    } else {
        l
    }
}

/// lldb after a step of the session was performed on it.
pub open spec fn performs(l: LldbView, file: Seq<char>, step: ActionView) -> LldbView {
    match step {
        ActionView::Launch(_) => launched(),
        ActionView::Send(text) => reads(l, file, text),
        ActionView::SetBreakpoint { line, command } => reads(l, file, command),
        ActionView::Run(text) => reads(l, file, text),
        _ => l,
    }
}

/// lldb after steps of the session were performed on it, one after the other.
pub open spec fn performs_all(l: LldbView, file: Seq<char>, steps: Seq<ActionView>) -> LldbView
    decreases steps.len(),
{
    if steps.len() == 0 {
        l
    } else {
        performs(performs_all(l, file, steps.drop_last()), file, steps.last())
    }
}

/// The session and lldb agree: they have the same breakpoints under the same numbers, and count on
/// from the same number.
pub open spec fn agree(s: SessionView, l: LldbView) -> bool {
    &&& l.next == s.next_bp_id
    &&& forall|line: usize| #[trigger]
        s.breakpoint_ids.dom().contains(line) ==> l.points.dom().contains(
            s.breakpoint_ids[line] as nat,
        ) && l.points[s.breakpoint_ids[line] as nat] == line
    &&& forall|n: nat| #[trigger]
        l.points.dom().contains(n) ==> n < l.next && s.breakpoint_ids.dom().contains(l.points[n])
            && s.breakpoint_ids[l.points[n]] == n
}

/// lldb stops exactly on the given lines of the source.
pub open spec fn stops_on(l: LldbView, lines: Set<usize>) -> bool {
    &&& forall|n: nat| #[trigger] l.points.dom().contains(n) ==> lines.contains(l.points[n])
    &&& forall|line: usize| #[trigger]
        lines.contains(line) ==> exists|n: nat| #[trigger]
            l.points.dom().contains(n) && l.points[n] == line
}

/// Where session and lldb agree, lldb stops on the lines that the session has breakpoints on.
pub proof fn lemma_agreeing_stops(s: SessionView, l: LldbView)
    requires
        agree(s, l),
    ensures
        stops_on(l, s.breakpoint_ids.dom()),
{
    assert forall|line: usize| #[trigger] s.breakpoint_ids.dom().contains(line) implies exists|
        n: nat,
    | #[trigger] l.points.dom().contains(n) && l.points[n] == line by {
        assert(l.points.dom().contains(s.breakpoint_ids[line] as nat));
    }
}

/// Steps performed in two parts come to the same as performed in one.
pub proof fn lemma_performs_in_parts(
    l: LldbView,
    file: Seq<char>,
    a: Seq<ActionView>,
    b: Seq<ActionView>,
)
    ensures
        performs_all(l, file, a + b) == performs_all(performs_all(l, file, a), file, b),
    decreases b.len(),
{
    if b.len() == 0 {
        assert(a + b =~= a);
    } else {
        lemma_performs_in_parts(l, file, a, b.drop_last());
        assert((a + b).drop_last() =~= a + b.drop_last());
    }
}

/// A front, a number and a line feed.
proof fn lemma_argument(front: Seq<char>, n: nat)
    ensures
        argument(front + decimal(n) + seq!['\n'], front) == Some(decimal(n)),
        digits(decimal(n), 10) == Some(n),
{
    lemma_decimal_reads_back(n);
    let text = front + decimal(n) + seq!['\n'];
    assert(text.subrange(0, front.len() as int) =~= front);
    assert(text.subrange(front.len() as int, text.len() - 1) =~= decimal(n));
}

/// A text that differs from the front has no such argument.
proof fn lemma_other_front(text: Seq<char>, front: Seq<char>, i: int)
    requires
        0 <= i < front.len(),
        i < text.len(),
        text[i] != front[i],
    ensures
        argument(text, front) is None,
{
    if starts_with(text, front) {
        assert(text.subrange(0, front.len() as int)[i] == front[i]);
    }
}

/// The line that deletes a breakpoint deletes the one with that number, and the line that sets one
/// sets it on that line.
pub proof fn lemma_commands_read(l: LldbView, file: Seq<char>, number: nat, line: usize)
    ensures
        reads(l, file, command_line("breakpoint delete "@ + decimal(number))) == (LldbView {
            points: l.points.remove(number),
            ..l
        }),
        reads(l, file, command_line(breakpoint_command(file, line))) == (LldbView {
            points: l.points.insert(l.next, line),
            next: l.next + 1,
            ..l
        }),
{
    reveal_strlit("breakpoint delete ");
    reveal_strlit("breakpoint set --file ");
    reveal_strlit(" --line ");
    let del = command_line("breakpoint delete "@ + decimal(number));
    assert(del =~= "breakpoint delete "@ + decimal(number) + seq!['\n']);
    lemma_argument("breakpoint delete "@, number);
    let front = "breakpoint set --file "@ + file + " --line "@;
    let set = command_line(breakpoint_command(file, line));
    assert(set =~= front + decimal(line as nat) + seq!['\n']);
    lemma_argument(front, line as nat);
    assert(set[11] == 's' && "breakpoint delete "@[11] == 'd');
    lemma_other_front(set, "breakpoint delete "@, 11);
}

/// Setting a breakpoint on a line that has none keeps session and lldb in agreement.
pub proof fn lemma_set_keeps_agreement(s: SessionView, l: LldbView, file: Seq<char>, line: usize)
    requires
        agree(s, l),
        !s.breakpoint_ids.dom().contains(line),
        s.next_bp_id < u32::MAX,
    ensures
        ({
            let step = ActionView::SetBreakpoint {
                line,
                command: command_line(breakpoint_command(file, line)),
            };
            &&& agree(after_step(s, step), performs(l, file, step))
            &&& stops_on(performs(l, file, step), s.breakpoint_ids.dom().insert(line))
        }),
{
    lemma_commands_read(l, file, 0, line);
    let step = ActionView::SetBreakpoint {
        line,
        command: command_line(breakpoint_command(file, line)),
    };
    let t = after_step(s, step);
    let m = performs(l, file, step);
    assert forall|x: usize| #[trigger] t.breakpoint_ids.dom().contains(x) implies m.points.dom()
        .contains(t.breakpoint_ids[x] as nat) && m.points[t.breakpoint_ids[x] as nat] == x by {
        if x != line {
            assert(s.breakpoint_ids.dom().contains(x));
            assert(l.points.dom().contains(s.breakpoint_ids[x] as nat));
        }
    }
    assert forall|n: nat| #[trigger] m.points.dom().contains(n) implies n < m.next
        && t.breakpoint_ids.dom().contains(m.points[n]) && t.breakpoint_ids[m.points[n]] == n by {
        if n != l.next {
            assert(l.points.dom().contains(n));
        }
    }
    lemma_agreeing_stops(t, m);
    assert(t.breakpoint_ids.dom() =~= s.breakpoint_ids.dom().insert(line));
}

/// Deleting the breakpoint of a line by its number keeps session and lldb in agreement, and lldb
/// does not stop on the line any more.
pub proof fn lemma_delete_keeps_agreement(s: SessionView, l: LldbView, file: Seq<char>, line: usize)
    requires
        agree(s, l),
        s.breakpoint_ids.dom().contains(line),
    ensures
        ({
            let t = SessionView { breakpoint_ids: s.breakpoint_ids.remove(line), ..s };
            let m = reads(
                l,
                file,
                command_line("breakpoint delete "@ + decimal(s.breakpoint_ids[line] as nat)),
            );
            &&& agree(t, m)
            &&& stops_on(m, s.breakpoint_ids.dom().remove(line))
        }),
{
    let id = s.breakpoint_ids[line] as nat;
    lemma_commands_read(l, file, id, line);
    let t = SessionView { breakpoint_ids: s.breakpoint_ids.remove(line), ..s };
    let m = LldbView { points: l.points.remove(id), ..l };
    assert forall|x: usize| #[trigger] t.breakpoint_ids.dom().contains(x) implies m.points.dom()
        .contains(t.breakpoint_ids[x] as nat) && m.points[t.breakpoint_ids[x] as nat] == x by {
        assert(s.breakpoint_ids.dom().contains(x));
        assert(l.points[s.breakpoint_ids[x] as nat] == x);
    }
    assert forall|n: nat| #[trigger] m.points.dom().contains(n) implies n < m.next
        && t.breakpoint_ids.dom().contains(m.points[n]) && t.breakpoint_ids[m.points[n]] == n by {
        assert(l.points.dom().contains(n));
    }
    lemma_agreeing_stops(t, m);
    assert(t.breakpoint_ids.dom() =~= s.breakpoint_ids.dom().remove(line));
}

/// Setting breakpoints on lines that have none keeps session and lldb in agreement.
pub proof fn lemma_sets_keep_agreement(
    s: SessionView,
    l: LldbView,
    file: Seq<char>,
    at: Seq<usize>,
)
    requires
        agree(s, l),
        at.no_duplicates(),
        forall|i: int| 0 <= i < at.len() ==> !s.breakpoint_ids.dom().contains(#[trigger] at[i]),
        s.next_bp_id + at.len() <= u32::MAX,
    ensures
        agree(
            after_steps(s, breakpoint_steps(file, at)),
            performs_all(l, file, breakpoint_steps(file, at)),
        ),
        performs_all(l, file, breakpoint_steps(file, at)).main == l.main,
        performs_all(l, file, breakpoint_steps(file, at)).ran == l.ran,
    decreases at.len(),
{
    let steps = breakpoint_steps(file, at);
    if at.len() == 0 {
        assert(steps =~= seq![]);
    } else {
        let fewer = at.drop_last();
        assert forall|i: int| 0 <= i < fewer.len() implies !s.breakpoint_ids.dom().contains(
            #[trigger] fewer[i],
        ) by {
            assert(fewer[i] == at[i]);
        }
        lemma_sets_keep_agreement(s, l, file, fewer);
        assert(steps.drop_last() =~= breakpoint_steps(file, fewer));
        lemma_breakpoint_steps(s, file, fewer);
        let t = after_steps(s, breakpoint_steps(file, fewer));
        let m = performs_all(l, file, breakpoint_steps(file, fewer));
        let line = at.last();
        if fewer.contains(line) {
            let k = choose|k: int| 0 <= k < fewer.len() && fewer[k] == line;
            assert(at[k] == at[at.len() - 1]);
        }
        assert(!s.breakpoint_ids.dom().contains(at[at.len() - 1]));
        assert(!t.breakpoint_ids.dom().contains(line));
        lemma_set_keeps_agreement(t, m, file, line);
        lemma_commands_read(m, file, 0, line);
    }
}

/// Four steps, one after the other.
proof fn lemma_performs_four(l: LldbView, file: Seq<char>, steps: Seq<ActionView>)
    requires
        steps.len() == 4,
    ensures
        performs_all(l, file, steps) == performs(
            performs(performs(performs(l, file, steps[0]), file, steps[1]), file, steps[2]),
            file,
            steps[3],
        ),
{
    assert(steps.drop_last() =~= steps.take(3));
    assert(steps.take(3).drop_last() =~= steps.take(2));
    assert(steps.take(2).drop_last() =~= steps.take(1));
    assert(steps.take(1).drop_last() =~= steps.take(0));
    assert(performs_all(l, file, steps.take(0)) == l);
    assert(performs_all(l, file, steps.take(1)) == performs(l, file, steps[0]));
    assert(performs_all(l, file, steps.take(2)) == performs(
        performs(l, file, steps[0]),
        file,
        steps[1],
    ));
    assert(performs_all(l, file, steps.take(3)) == performs(
        performs(performs(l, file, steps[0]), file, steps[1]),
        file,
        steps[2],
    ));
}

/// Lines of input that neither set nor delete a breakpoint.
proof fn lemma_plain_commands(l: LldbView, file: Seq<char>)
    ensures
        reads(l, file, command_line("settings set auto-confirm true"@)) == l,
        reads(l, file, command_line("version"@)) == l,
        reads(l, file, command_line("run"@)) == (LldbView { ran: true, ..l }),
        reads(l, file, command_line("breakpoint set --name main"@)) == (LldbView {
            next: l.next + 1,
            main: true,
            ..l
        }),
{
    reveal_strlit("breakpoint delete ");
    reveal_strlit("breakpoint set --file ");
    reveal_strlit("settings set auto-confirm true");
    reveal_strlit("version");
    reveal_strlit("run");
    reveal_strlit("run\n");
    reveal_strlit("breakpoint set --name main");
    reveal_strlit("breakpoint set --name main\n");
    reveal_strlit(" --line ");
    let del = "breakpoint delete "@;
    let set = "breakpoint set --file "@ + file + " --line "@;
    let a = command_line("settings set auto-confirm true"@);
    let b = command_line("version"@);
    let c = command_line("run"@);
    let d = command_line("breakpoint set --name main"@);
    assert(del[0] == 'b' && set[0] == 'b' && a[0] == 's' && b[0] == 'v' && c[0] == 'r');
    assert(del[11] == 'd' && d[11] == 's' && set[17] == 'f' && d[17] == 'n');
    lemma_other_front(a, del, 0);
    lemma_other_front(a, set, 0);
    lemma_other_front(b, del, 0);
    lemma_other_front(b, set, 0);
    lemma_other_front(c, del, 0);
    lemma_other_front(c, set, 0);
    lemma_other_front(d, del, 11);
    lemma_other_front(d, set, 17);
    assert(c =~= "run\n"@);
    assert(d =~= "breakpoint set --name main\n"@);
    assert(c != "breakpoint set --name main\n"@);
    assert(a[0] != "run\n"@[0] && b[0] != "run\n"@[0]);
    assert(a[0] != "breakpoint set --name main\n"@[0]);
    assert(b[0] != "breakpoint set --name main\n"@[0]);
}

/// A start tells lldb all that was asked for: the program runs, and lldb stops exactly on the lines
/// with breakpoints, which the session knows by the numbers that lldb gave them. Without
/// breakpoints it stops in `main`, and only then.
pub proof fn lemma_start_sets_breakpoints(
    s: SessionView,
    l: LldbView,
    exe: Seq<char>,
    source: Seq<char>,
    file: Seq<char>,
    at: Seq<usize>,
    meta: Option<Seq<char>>,
)
    requires
        s.breakpoint_ids == Map::<usize, u32>::empty(),
        s.next_bp_id == 1,
        at.no_duplicates(),
        at.len() < u32::MAX,
    ensures
        ({
            let t = after_steps(starting(s, source, meta), start_steps(exe, file, at));
            let m = performs_all(l, file, start_steps(exe, file, at));
            &&& m.ran
            &&& stops_on(m, at.to_set())
            &&& m.main == (at.len() == 0)
            &&& at.len() > 0 ==> agree(t, m)
        }),
{
    let begin = starting(s, source, meta);
    let steps = start_steps(exe, file, at);
    let opening = seq![
        ActionView::ClearCapture,
        ActionView::Launch(seq!["lldb"@, "--no-use-colors"@, exe]),
        ActionView::Wait(500),
        ActionView::Send(command_line("settings set auto-confirm true"@)),
    ];
    let stop_in_main = if at.len() == 0 {
        seq![ActionView::Send(command_line("breakpoint set --name main"@))]
    } else {
        Seq::<ActionView>::empty()
    };
    let closing = seq![
        ActionView::Send(command_line("version"@)),
        ActionView::Wait(200),
        ActionView::Drain,
        ActionView::Run(command_line("run"@)),
    ];
    let points = breakpoint_steps(file, at);
    assert(steps == opening + points + stop_in_main + closing);
    lemma_plain_commands(launched(), file);
    lemma_performs_four(l, file, opening);
    assert(performs_all(l, file, opening) == launched());
    lemma_performs_in_parts(l, file, opening, points);
    let s1 = SessionView { connected: true, ..begin };
    assert(agree(s1, launched()));
    lemma_sets_keep_agreement(s1, launched(), file, at);
    let m2 = performs_all(launched(), file, points);
    let t2 = after_steps(s1, points);
    lemma_agreeing_stops(t2, m2);
    lemma_breakpoint_steps(s1, file, at);
    assert(t2.breakpoint_ids.dom() =~= at.to_set()) by {
        assert forall|line: usize| t2.breakpoint_ids.dom().contains(line) == at.to_set().contains(
            line,
        ) by {
            assert(at.contains(line) == at.to_set().contains(line));
        }
    }
    lemma_performs_in_parts(l, file, opening + points, stop_in_main);
    let m3 = performs_all(m2, file, stop_in_main);
    lemma_plain_commands(m2, file);
    if at.len() == 0 {
        let none = Seq::<ActionView>::empty();
        assert(stop_in_main.drop_last() =~= none);
        assert(performs_all(m2, file, none) == m2);
        assert(m3 == performs(m2, file, stop_in_main.last()));
        assert(m3.main);
    } else {
        assert(m3 == m2);
        assert(!m3.main);
    }
    lemma_performs_in_parts(l, file, opening + points + stop_in_main, closing);
    lemma_plain_commands(m3, file);
    lemma_performs_four(m3, file, closing);
    let m = performs_all(l, file, steps);
    assert(m == LldbView { ran: true, ..m3 });
    assert(m.points == m2.points);
    lemma_start_runs(s, exe, source, file, at, meta);
    let t = after_steps(begin, steps);
    if at.len() > 0 {
        lemma_start_session(begin, exe, file, at);
        assert(t.breakpoint_ids == t2.breakpoint_ids);
        assert(t.next_bp_id == t2.next_bp_id);
    }
}

/// The breakpoints of the session after a start are those that the steps for them set.
proof fn lemma_start_session(begin: SessionView, exe: Seq<char>, file: Seq<char>, at: Seq<usize>)
    requires
        at.len() > 0,
    ensures
        after_steps(begin, start_steps(exe, file, at)).breakpoint_ids == after_steps(
            SessionView { connected: true, ..begin },
            breakpoint_steps(file, at),
        ).breakpoint_ids,
        after_steps(begin, start_steps(exe, file, at)).next_bp_id == after_steps(
            SessionView { connected: true, ..begin },
            breakpoint_steps(file, at),
        ).next_bp_id,
{
    let opening = seq![
        ActionView::ClearCapture,
        ActionView::Launch(seq!["lldb"@, "--no-use-colors"@, exe]),
        ActionView::Wait(500),
        ActionView::Send(command_line("settings set auto-confirm true"@)),
    ];
    let closing = seq![
        ActionView::Send(command_line("version"@)),
        ActionView::Wait(200),
        ActionView::Drain,
        ActionView::Run(command_line("run"@)),
    ];
    let points = breakpoint_steps(file, at);
    let steps = start_steps(exe, file, at);
    assert(steps =~= opening + points + closing);
    lemma_steps_in_parts(begin, opening, points);
    lemma_steps_in_parts(begin, opening + points, closing);
    lemma_after_four(begin, opening);
    lemma_after_four(after_steps(after_steps(begin, opening), points), closing);
}

/// Four steps of the session, one after the other.
proof fn lemma_after_four(s: SessionView, steps: Seq<ActionView>)
    requires
        steps.len() == 4,
    ensures
        after_steps(s, steps) == after_step(
            after_step(after_step(after_step(s, steps[0]), steps[1]), steps[2]),
            steps[3],
        ),
{
    assert(steps.drop_last() =~= steps.take(3));
    assert(steps.take(3).drop_last() =~= steps.take(2));
    assert(steps.take(2).drop_last() =~= steps.take(1));
    assert(steps.take(1).drop_last() =~= steps.take(0));
    assert(after_steps(s, steps.take(0)) == s);
    assert(after_steps(s, steps.take(1)) == after_step(s, steps[0]));
    assert(after_steps(s, steps.take(2)) == after_step(after_step(s, steps[0]), steps[1]));
    assert(after_steps(s, steps.take(3)) == after_step(
        after_step(after_step(s, steps[0]), steps[1]),
        steps[2],
    ));
}

/// A start launches lldb on the program before anything is written to it, and runs the program
/// last, once.
pub proof fn lemma_start_in_order(exe: Seq<char>, file: Seq<char>, at: Seq<usize>, i: int)
    requires
        0 <= i < start_steps(exe, file, at).len(),
    ensures
        start_steps(exe, file, at)[i] is Launch ==> start_steps(exe, file, at)[i]
            == ActionView::Launch(seq!["lldb"@, "--no-use-colors"@, exe]),
        start_steps(exe, file, at)[i] is Launch <==> i == 1,
        i < 1 ==> start_steps(exe, file, at)[i] == ActionView::ClearCapture,
        start_steps(exe, file, at)[i] is Run <==> i == start_steps(exe, file, at).len() - 1,
        start_steps(exe, file, at)[i] is Run ==> start_steps(exe, file, at)[i] == ActionView::Run(
            "run"@.push('\n'),
        ),
        !(start_steps(exe, file, at)[i] is Kill),
{
}

/// The end of a session ends the program and lldb: where lldb takes commands it is told to kill the
/// program and to quit, and in any case the process is ended last.
pub proof fn lemma_stop_in_order(s: SessionView)
    ensures
        stop_steps(s).last() == ActionView::Kill,
        s.connected ==> stop_steps(s)[0] == ActionView::Send("process kill"@.push('\n')),
        s.connected ==> stop_steps(s)[stop_steps(s).len() - 2] == ActionView::Send(
            "quit"@.push('\n'),
        ),
        !s.connected ==> stop_steps(s).len() == 1,
{
}

} // verus!
