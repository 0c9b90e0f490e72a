//! The decision core of the windowing shell. The event loop itself —
//! window creation and the OS event pump — lives in the unverified
//! binary around this crate; it hands each event in and performs the
//! directive that comes back, so what the shell decides is verified here.

use vstd::prelude::*;

verus! {

/// An event as the shell sees it: a request to close the window, or
/// anything else.
#[derive(Clone, Copy, Debug, PartialEq, Eq, Structural)]
pub enum ShellEvent {
    CloseRequested,
    Other,
}

/// What the event loop does next: keep waiting, or leave.
#[derive(Clone, Copy, Debug, PartialEq, Eq, Structural)]
pub enum LoopDirective {
    Wait,
    Exit,
}

/// A drawable, updatable object hosted by the shell; the host's scene
/// objects implement it.
pub trait Object {
    fn update(&mut self);

    fn draw(&self);
}

/// A hosted object boxed together with its shell-assigned id.
pub struct ObjectWrapper {
    pub id: usize,
    pub inner: Box<dyn Object>,
}

/// The context handed to hosted objects; the framework carries nothing
/// in it yet.
pub struct Context {}

/// The shell's decision for one event: leave on a close request, wait
/// otherwise.
pub fn handle_event(ev: ShellEvent) -> (d: LoopDirective)
    ensures
        d is Exit <==> ev is CloseRequested,
{
    match ev {
        ShellEvent::CloseRequested => LoopDirective::Exit,
        ShellEvent::Other => LoopDirective::Wait,
    }
}

/// The index right after the first close request, if one is delivered.
pub open spec fn events_consumed(events: Seq<ShellEvent>) -> int
    decreases events.len(),
{
    if events.len() == 0 {
        0
    } else if events[0] is CloseRequested {
        1
    } else {
        1 + events_consumed(events.skip(1))
    }
}

/// One whole run of the shell over the events the host delivers:
/// consumes events until the first close request and reports how many
/// were handled. The host performs the waiting and drawing around each.
pub fn real_main(events: &Vec<ShellEvent>) -> (n: usize)
    ensures
        n as int == events_consumed(events@),
        n <= events@.len(),
{
    let len = events.len();
    let mut i: usize = 0;
    proof {
        assert(events@.skip(0) =~= events@);
    }
    while i < len
        invariant
            i <= len,
            len == events@.len(),
            events_consumed(events@) == i + events_consumed(events@.skip(i as int)),
            forall|j: int| 0 <= j < i ==> !((#[trigger] events@[j]) is CloseRequested),
        decreases len - i,
    {
        let d = handle_event(events[i]);
        proof {
            assert(events@.skip(i as int)[0] == events@[i as int]);
            assert(events@.skip(i as int).skip(1) =~= events@.skip(i as int + 1));
        }
        if matches!(d, LoopDirective::Exit) {
            return i + 1;
        }
        i += 1;
    }
    proof {
        assert(events@.skip(len as int).len() == 0);
    }
    len
}

/// The Android entry point defers to the shared run.
pub fn android_main(events: &Vec<ShellEvent>)
    ensures
        true,
{
    real_main(events);
}

} // verus!
