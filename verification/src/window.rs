use vstd::prelude::*;

verus! {

/// A window that the frame reports as closed: its entity id and whether the
/// entity still holds a window (it was closed and opened again in one frame).
#[derive(Clone, Copy, Debug)]
pub struct ClosedWindow {
    pub entity: u64,
    pub still_open: bool,
}

/// What the teardown of one frame does.
#[derive(Debug)]
pub struct Teardown {
    /// The windows announced as closed, in the order they were reported.
    pub closed: Vec<u64>,
    /// Whether the display's window is taken out of its resource, to be
    /// dropped at the start of the next frame.
    pub take_window: bool,
}

/// The entities of the reported windows that are really gone, in order.
pub open spec fn gone_windows(reported: Seq<ClosedWindow>) -> Seq<u64>
    decreases reported.len(),
{
    if reported.len() == 0 {
        Seq::empty()
    } else {
        let last = reported.last();
        let before = gone_windows(reported.drop_last());
        if last.still_open {
            before
        } else {
            before.push(last.entity)
        }
    }
}

/// The windows announced as closed are exactly the entities of the reports
/// that no longer hold a window, in the order they were reported.
pub proof fn gone_windows_are_the_closed_reports(reported: Seq<ClosedWindow>)
    ensures
        gone_windows(reported) == reported.filter(|w: ClosedWindow| !w.still_open).map_values(
            |w: ClosedWindow| w.entity,
        ),
    decreases reported.len(),
{
    let pred = |w: ClosedWindow| !w.still_open;
    let ent = |w: ClosedWindow| w.entity;
    reveal_with_fuel(Seq::<ClosedWindow>::filter, 1);
    if reported.len() == 0 {
        assert(reported.filter(pred) =~= Seq::<ClosedWindow>::empty());
        assert(reported.filter(pred).map_values(ent) =~= Seq::<u64>::empty());
    } else {
        gone_windows_are_the_closed_reports(reported.drop_last());
        let before = reported.drop_last().filter(pred);
        if pred(reported.last()) {
            assert(reported.filter(pred) == before.push(reported.last()));
            assert(before.push(reported.last()).map_values(ent) =~= before.map_values(ent).push(
                reported.last().entity,
            ));
        } else {
            assert(reported.filter(pred) == before);
        }
    }
}

/// The teardown of one frame: each reported window that no longer holds a
/// window is announced as closed, and the first of them takes the display's
/// window out of its resource, if it is still there.
pub fn despawn_windows(reported: &Vec<ClosedWindow>, window_present: bool) -> (t: Teardown)
    ensures
        t.closed@ == gone_windows(reported@),
        t.take_window == (window_present && t.closed@.len() > 0),
{
    let mut closed: Vec<u64> = Vec::new();
    let mut present = window_present;
    let mut take_window = false;
    let mut i: usize = 0;
    while i < reported.len()
        invariant
            i <= reported@.len(),
            closed@ == gone_windows(reported@.take(i as int)),
            take_window == (window_present && closed@.len() > 0),
            present == (window_present && closed@.len() == 0),
        decreases reported.len() - i,
    {
        assert(reported@.take(i + 1).drop_last() =~= reported@.take(i as int));
        let w = reported[i];
        if !w.still_open {
            if present {
                present = false;
                take_window = true;
            }
            closed.push(w.entity);
        }
        i = i + 1;
    }
    assert(reported@.take(reported@.len() as int) =~= reported@);
    Teardown { closed, take_window }
}

} // verus!
