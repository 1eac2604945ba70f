//! What is known of a paused program: its variables and the frames of its call stack, gathered
//! from reports that come one after the other.

use vstd::prelude::*;

use crate::debugger::{frame_texts, var_texts};
use crate::text::same_str;
use crate::variable::VarType;

verus! {

/// A variable: its name, its value and its type.
pub type VarView = (Seq<char>, Seq<char>, VarType);

/// A frame: its index and its text.
pub type FrameView = (usize, Seq<char>);

/// The position of the first variable of that name from `i` on, or the end.
pub open spec fn var_pos(vars: Seq<VarView>, name: Seq<char>, i: int) -> int
    decreases vars.len() - i,
{
    if i < 0 || i >= vars.len() {
        vars.len() as int
    } else if vars[i].0 == name {
        i
    } else {
        var_pos(vars, name, i + 1)
    }
}

/// The variables after one was reported: it takes the place of the one of its name, or comes last.
pub open spec fn with_variable(vars: Seq<VarView>, v: VarView) -> Seq<VarView> {
    let p = var_pos(vars, v.0, 0);
    if p < vars.len() {
        vars.update(p, v)
    } else {
        vars.push(v)
    }
}

/// The variables after several were reported, one after the other.
pub open spec fn with_variables(vars: Seq<VarView>, new: Seq<VarView>) -> Seq<VarView>
    decreases new.len(),
{
    if new.len() == 0 {
        vars
    } else {
        with_variable(with_variables(vars, new.drop_last()), new.last())
    }
}

/// The position of the first frame from `i` on whose index is not smaller, or the end.
pub open spec fn frame_pos(frames: Seq<FrameView>, index: usize, i: int) -> int
    decreases frames.len() - i,
{
    if i < 0 || i >= frames.len() {
        frames.len() as int
    } else if frames[i].0 >= index {
        i
    } else {
        frame_pos(frames, index, i + 1)
    }
}

/// The frames after one was reported: it takes the place of the one with its index, or goes before
/// those with greater indices.
pub open spec fn with_frame(frames: Seq<FrameView>, f: FrameView) -> Seq<FrameView> {
    let p = frame_pos(frames, f.0, 0);
    if p < frames.len() && frames[p].0 == f.0 {
        frames.update(p, f)
    } else {
        frames.insert(p, f)
    }
}

/// The frames after several were reported, one after the other.
pub open spec fn with_frames(frames: Seq<FrameView>, new: Seq<FrameView>) -> Seq<FrameView>
    decreases new.len(),
{
    if new.len() == 0 {
        frames
    } else {
        with_frame(with_frames(frames, new.drop_last()), new.last())
    }
}

/// No two variables have the same name.
pub open spec fn names_distinct(vars: Seq<VarView>) -> bool {
    forall|i: int, j: int|
        0 <= i < j < vars.len() ==> (#[trigger] vars[i]).0 != (#[trigger] vars[j]).0
}

/// The frames are in the order of their indices, each index once.
pub open spec fn frames_sorted(frames: Seq<FrameView>) -> bool {
    forall|i: int, j: int|
        0 <= i < j < frames.len() ==> (#[trigger] frames[i]).0 < (#[trigger] frames[j]).0
}

/// One variable was reported.
fn merge_variable(vars: &mut Vec<(String, String, VarType)>, v: (String, String, VarType))
    ensures
        var_texts(final(vars)@) == with_variable(var_texts(old(vars)@), (v.0@, v.1@, v.2)),
{
    let ghost before = var_texts(vars@);
    let mut i: usize = 0;
    while i < vars.len()
        invariant
            i <= vars@.len(),
            vars@ == old(vars)@,
            before == var_texts(vars@),
            var_pos(before, v.0@, 0) == var_pos(before, v.0@, i as int),
        decreases vars@.len() - i,
    {
        if same_str(vars[i].0.as_str(), v.0.as_str()) {
            let ghost shown = (v.0@, v.1@, v.2);
            vars.set(i, v);
            assert(var_texts(vars@) =~= before.update(i as int, shown));
            return;
        }
        i = i + 1;
    }
    let ghost shown = (v.0@, v.1@, v.2);
    vars.push(v);
    assert(var_texts(vars@) =~= before.push(shown));
}

/// Variables were reported.
pub fn merge_variables(
    vars: &mut Vec<(String, String, VarType)>,
    new: &Vec<(String, String, VarType)>,
)
    ensures
        var_texts(final(vars)@) == with_variables(var_texts(old(vars)@), var_texts(new@)),
{
    let ghost before = var_texts(vars@);
    let ghost all = var_texts(new@);
    assert(all.take(0) =~= seq![]);
    for i in 0..new.len()
        invariant
            all == var_texts(new@),
            var_texts(vars@) == with_variables(before, all.take(i as int)),
    {
        let v = (new[i].0.clone(), new[i].1.clone(), new[i].2);
        proof {
            assert(all.take(i + 1).drop_last() =~= all.take(i as int));
            assert(all.take(i + 1).last() == (v.0@, v.1@, v.2));
        }
        merge_variable(vars, v);
    }
    assert(all.take(all.len() as int) =~= all);
}

/// One frame was reported.
fn merge_frame(frames: &mut Vec<(usize, String)>, f: (usize, String))
    ensures
        frame_texts(final(frames)@) == with_frame(frame_texts(old(frames)@), (f.0, f.1@)),
{
    let ghost before = frame_texts(frames@);
    let ghost shown = (f.0, f.1@);
    let mut i: usize = 0;
    while i < frames.len() && frames[i].0 < f.0
        invariant
            i <= frames@.len(),
            before == frame_texts(frames@),
            frame_pos(before, f.0, 0) == frame_pos(before, f.0, i as int),
        decreases frames@.len() - i,
    {
        i = i + 1;
    }
    if i < frames.len() && frames[i].0 == f.0 {
        frames.set(i, f);
        assert(frame_texts(frames@) =~= before.update(i as int, shown));
    } else {
        frames.insert(i, f);
        assert(frame_texts(frames@) =~= before.insert(i as int, shown));
    }
}

/// Frames were reported.
pub fn merge_frames(frames: &mut Vec<(usize, String)>, new: &Vec<(usize, String)>)
    ensures
        frame_texts(final(frames)@) == with_frames(frame_texts(old(frames)@), frame_texts(new@)),
{
    let ghost before = frame_texts(frames@);
    let ghost all = frame_texts(new@);
    assert(all.take(0) =~= seq![]);
    for i in 0..new.len()
        invariant
            all == frame_texts(new@),
            frame_texts(frames@) == with_frames(before, all.take(i as int)),
    {
        let f = (new[i].0, new[i].1.clone());
        proof {
            assert(all.take(i + 1).drop_last() =~= all.take(i as int));
            assert(all.take(i + 1).last() == (f.0, f.1@));
        }
        merge_frame(frames, f);
    }
    assert(all.take(all.len() as int) =~= all);
}

/// The position that `var_pos` gives is the first of that name.
proof fn lemma_var_pos(vars: Seq<VarView>, name: Seq<char>, i: int)
    requires
        0 <= i <= vars.len(),
    ensures
        i <= var_pos(vars, name, i) <= vars.len(),
        var_pos(vars, name, i) < vars.len() ==> vars[var_pos(vars, name, i)].0 == name,
        forall|k: int| i <= k < var_pos(vars, name, i) ==> (#[trigger] vars[k]).0 != name,
    decreases vars.len() - i,
{
    if i < vars.len() && vars[i].0 != name {
        lemma_var_pos(vars, name, i + 1);
    }
}

/// The position that `frame_pos` gives is the first with an index that is not smaller.
proof fn lemma_frame_pos(frames: Seq<FrameView>, index: usize, i: int)
    requires
        0 <= i <= frames.len(),
    ensures
        i <= frame_pos(frames, index, i) <= frames.len(),
        frame_pos(frames, index, i) < frames.len() ==> frames[frame_pos(frames, index, i)].0
            >= index,
        forall|k: int| i <= k < frame_pos(frames, index, i) ==> (#[trigger] frames[k]).0 < index,
    decreases frames.len() - i,
{
    if i < frames.len() && frames[i].0 < index {
        lemma_frame_pos(frames, index, i + 1);
    }
}

/// A reported variable has the reported value; the others keep theirs and their places, and names
/// stay distinct.
pub proof fn lemma_variable_reported(vars: Seq<VarView>, v: VarView)
    ensures
        with_variable(vars, v).contains(v),
        forall|i: int|
            0 <= i < vars.len() && (#[trigger] vars[i]).0 != v.0 ==> with_variable(vars, v)[i]
                == vars[i],
        vars.len() <= with_variable(vars, v).len() <= vars.len() + 1,
        names_distinct(vars) ==> names_distinct(with_variable(vars, v)),
{
    let r = with_variable(vars, v);
    let p = var_pos(vars, v.0, 0);
    lemma_var_pos(vars, v.0, 0);
    assert(r[p] == v);
}

/// Reports keep the names distinct.
pub proof fn lemma_variables_stay_distinct(vars: Seq<VarView>, new: Seq<VarView>)
    requires
        names_distinct(vars),
    ensures
        names_distinct(with_variables(vars, new)),
    decreases new.len(),
{
    if new.len() > 0 {
        lemma_variables_stay_distinct(vars, new.drop_last());
        lemma_variable_reported(with_variables(vars, new.drop_last()), new.last());
    }
}

/// A reported frame is there, and of the other frames exactly those that were, in the order of
/// their indices.
pub proof fn lemma_frame_reported(frames: Seq<FrameView>, f: FrameView)
    requires
        frames_sorted(frames),
    ensures
        frames_sorted(with_frame(frames, f)),
        forall|g: FrameView| #[trigger]
            with_frame(frames, f).contains(g) <==> g == f || (g.0 != f.0 && frames.contains(g)),
{
    let p = frame_pos(frames, f.0, 0);
    let r = with_frame(frames, f);
    lemma_frame_pos(frames, f.0, 0);
    let replaced = p < frames.len() && frames[p].0 == f.0;
    assert(r[p] == f);
    if replaced {
        assert(frames_sorted(r));
    } else {
        assert forall|i: int, j: int| 0 <= i < j < r.len() implies (#[trigger] r[i]).0 < (
        #[trigger] r[j]).0 by {
            let a = if i < p {
                i
            } else {
                i - 1
            };
            let b = if j < p {
                j
            } else {
                j - 1
            };
            if i != p {
                assert(r[i] == frames[a]);
            }
            if j != p {
                assert(r[j] == frames[b]);
            }
        }
    }
    assert forall|g: FrameView| #[trigger] r.contains(g) <==> g == f || (g.0 != f.0
        && frames.contains(g)) by {
        if r.contains(g) {
            let k = choose|k: int| 0 <= k < r.len() && r[k] == g;
            if k != p {
                if k < p {
                    assert(frames[k] == g);
                } else if replaced {
                    assert(frames[k] == g);
                } else {
                    assert(frames[k - 1] == g);
                }
                assert(r[p].0 != r[k].0);
            }
        }
        if g.0 != f.0 && frames.contains(g) {
            let k = choose|k: int| 0 <= k < frames.len() && frames[k] == g;
            if k < p || replaced {
                assert(r[k] == g);
            } else {
                assert(r[k + 1] == g);
            }
        }
    }
}

/// Reports keep the frames in the order of their indices.
pub proof fn lemma_frames_stay_sorted(frames: Seq<FrameView>, new: Seq<FrameView>)
    requires
        frames_sorted(frames),
    ensures
        frames_sorted(with_frames(frames, new)),
    decreases new.len(),
{
    if new.len() > 0 {
        lemma_frames_stay_sorted(frames, new.drop_last());
        lemma_frame_reported(with_frames(frames, new.drop_last()), new.last());
    }
}

/// A reported variable takes the place of the first one of its name, where there is one, and else
/// comes last; nothing else changes.
pub proof fn lemma_variable_takes_place(vars: Seq<VarView>, v: VarView, i: int)
    ensures
        0 <= i < vars.len() && vars[i].0 == v.0 && (forall|k: int|
            0 <= k < i ==> (#[trigger] vars[k]).0 != v.0) ==> with_variable(vars, v)
            == vars.update(i, v),
        (forall|k: int| 0 <= k < vars.len() ==> (#[trigger] vars[k]).0 != v.0) ==> with_variable(
            vars,
            v,
        ) == vars.push(v),
{
    lemma_var_pos(vars, v.0, 0);
    let p = var_pos(vars, v.0, 0);
    if p < vars.len() && 0 <= i < p {
        assert(vars[i].0 != v.0);
    }
}

/// Several reports come to the same as one after the other, in order.
pub proof fn lemma_reports_in_order(
    vars: Seq<VarView>,
    a: Seq<VarView>,
    b: Seq<VarView>,
    v: VarView,
)
    ensures
        with_variables(vars, Seq::<VarView>::empty()) == vars,
        with_variables(vars, seq![v]) == with_variable(vars, v),
        with_variables(vars, a + b) == with_variables(with_variables(vars, a), b),
    decreases b.len(),
{
    let one = seq![v];
    assert(one.drop_last() =~= seq![]);
    assert(with_variables(vars, one.drop_last()) == vars);
    if b.len() == 0 {
        assert(a + b =~= a);
    } else {
        lemma_reports_in_order(vars, a, b.drop_last(), v);
        assert((a + b).drop_last() =~= a + b.drop_last());
    }
}

/// Frames that come in several reports come to the same as one after the other, in order.
pub proof fn lemma_frames_in_order(
    frames: Seq<FrameView>,
    a: Seq<FrameView>,
    b: Seq<FrameView>,
    f: FrameView,
)
    ensures
        with_frames(frames, Seq::<FrameView>::empty()) == frames,
        with_frames(frames, seq![f]) == with_frame(frames, f),
        with_frames(frames, a + b) == with_frames(with_frames(frames, a), b),
    decreases b.len(),
{
    let one = seq![f];
    assert(one.drop_last() =~= seq![]);
    assert(with_frames(frames, one.drop_last()) == frames);
    if b.len() == 0 {
        assert(a + b =~= a);
    } else {
        lemma_frames_in_order(frames, a, b.drop_last(), f);
        assert((a + b).drop_last() =~= a + b.drop_last());
    }
}

} // verus!
