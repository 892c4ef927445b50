//! Whether the mouse pointer is hidden because the user is typing, behind
//! `[mouse] hide_when_typing`: a key press or typed text hides it, and
//! motion, a click, a wheel tick or a touch shows it again.

use vstd::prelude::*;

verus! {

/// The part of one input event the pointer rule reads.
#[derive(Debug, Clone, Copy, PartialEq, Eq, Structural)]
pub enum InputKind {
    KeyPressed,
    KeyReleased,
    Text,
    PointerMoved,
    MouseMoved,
    PointerButton,
    MouseWheel,
    Touch,
    Other,
}

/// What one event does to the pointer: hide it, show it, or leave it.
pub open spec fn event_effect(event: InputKind) -> Option<bool> {
    match event {
        InputKind::KeyPressed | InputKind::Text => Some(true),
        InputKind::PointerMoved | InputKind::MouseMoved | InputKind::PointerButton
        | InputKind::MouseWheel | InputKind::Touch => Some(false),
        InputKind::KeyReleased | InputKind::Other => None,
    }
}

/// Whether the pointer is hidden after a run of events, starting from
/// `hidden`.
pub open spec fn hidden_after(hidden: bool, events: Seq<InputKind>) -> bool
    decreases events.len(),
{
    if events.len() == 0 {
        hidden
    } else {
        match event_effect(events.last()) {
            Some(h) => h,
            None => hidden_after(hidden, events.drop_last()),
        }
    }
}

/// Hidden state, carried across frames.  A new one is visible, which is
/// where a window starts and where the option being off leaves it.
#[derive(Debug)]
pub struct MouseHide {
    hidden: bool,
}

impl MouseHide {
    pub fn new() -> (hide: Self)
        ensures
            !hide.is_hidden(),
    {
        MouseHide { hidden: false }
    }

    pub closed spec fn is_hidden(&self) -> bool {
        self.hidden
    }

    /// Fold one frame's events in, in order.  `enabled` is passed per call
    /// rather than stored, so turning the option off reveals the pointer on
    /// the next frame with nothing else to reset.
    pub fn observe(&mut self, enabled: bool, events: &[InputKind])
        ensures
            final(self).is_hidden() == (enabled && hidden_after(old(self).is_hidden(), events@)),
    {
        if !enabled {
            self.hidden = false;
            return;
        }
        let mut i: usize = 0;
        assert(events@.take(0) =~= Seq::<InputKind>::empty());
        while i < events.len()
            invariant
                i <= events.len(),
                self.hidden == hidden_after(old(self).is_hidden(), events@.take(i as int)),
            decreases events.len() - i,
        {
            assert(events@.take(i + 1).drop_last() =~= events@.take(i as int));
            match events[i] {
                InputKind::KeyPressed | InputKind::Text => self.hidden = true,
                InputKind::PointerMoved | InputKind::MouseMoved | InputKind::PointerButton
                | InputKind::MouseWheel | InputKind::Touch => self.hidden = false,
                _ => {},
            }
            i += 1;
        }
        assert(events@.take(events.len() as int) =~= events@);
    }

    pub fn hidden(&self) -> (hidden: bool)
        ensures
            hidden == self.is_hidden(),
    {
        self.hidden
    }
}

/// Within one frame, the last event that says anything about the pointer
/// decides: a key press or text after any pointer activity hides it, and
/// pointer activity after any typing shows it.
pub proof fn the_last_event_decides(hidden: bool, before: Seq<InputKind>, last: InputKind, after: Seq<InputKind>)
    requires
        event_effect(last) is Some,
        forall|i: int| 0 <= i < after.len() ==> #[trigger] event_effect(after[i]) is None,
    ensures
        hidden_after(hidden, before.push(last) + after) == event_effect(last)->0,
    decreases after.len(),
{
    if after.len() == 0 {
        assert(before.push(last) + after =~= before.push(last));
    } else {
        let shorter = after.drop_last();
        assert forall|i: int| 0 <= i < shorter.len() implies #[trigger] event_effect(shorter[i]) is None by {
            assert(shorter[i] == after[i]);
        }
        the_last_event_decides(hidden, before, last, shorter);
        assert((before.push(last) + after).drop_last() =~= before.push(last) + shorter);
        assert(event_effect(after[after.len() - 1]) is None);
    }
}

/// A frame with nothing pointer-related in it leaves the pointer as it was.
pub proof fn a_quiet_frame_changes_nothing(hidden: bool, events: Seq<InputKind>)
    requires
        forall|i: int| 0 <= i < events.len() ==> #[trigger] event_effect(events[i]) is None,
    ensures
        hidden_after(hidden, events) == hidden,
    decreases events.len(),
{
    if events.len() > 0 {
        let shorter = events.drop_last();
        assert forall|i: int| 0 <= i < shorter.len() implies #[trigger] event_effect(shorter[i]) is None by {
            assert(shorter[i] == events[i]);
        }
        a_quiet_frame_changes_nothing(hidden, shorter);
        assert(event_effect(events[events.len() - 1]) is None);
    }
}

} // verus!
