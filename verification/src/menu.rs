//! The menu focus state machine: a small cyclic set of selectable items,
//! navigated by edge-triggered input, emitting messages the host loop acts
//! on.

use vstd::prelude::*;

use crate::input::Controller;

verus! {

/// The selectable menu items, in their fixed cyclic order.
#[derive(Clone, Copy, Debug, PartialEq, Eq, Structural)]
pub enum Focus {
    Start,
    Exit,
    Fullscreen,
}

/// What the menu asks of the host loop.
#[derive(Clone, Copy, Debug, PartialEq, Eq, Structural)]
pub enum Message {
    Start,
    Exit,
    ToggleFullscreen,
    FocusChanged,
}

/// The menu: the item currently focused.  Layout and artwork belong to the
/// rendering collaborator.
#[derive(Clone, Copy, Debug, PartialEq, Eq, Structural)]
pub struct Menu {
    pub focus: Focus,
}

/// The next item in the cycle Start -> Exit -> Fullscreen -> Start.
pub open spec fn spec_focus_down(f: Focus) -> Focus {
    match f {
        Focus::Start => Focus::Exit,
        Focus::Exit => Focus::Fullscreen,
        Focus::Fullscreen => Focus::Start,
    }
}

/// The previous item in the cycle: Start -> Fullscreen -> Exit -> Start.
pub open spec fn spec_focus_up(f: Focus) -> Focus {
    match f {
        Focus::Start => Focus::Fullscreen,
        Focus::Exit => Focus::Start,
        Focus::Fullscreen => Focus::Exit,
    }
}

/// The message selecting `f` emits.
pub open spec fn spec_select_message(f: Focus) -> Message {
    match f {
        Focus::Start => Message::Start,
        Focus::Exit => Message::Exit,
        Focus::Fullscreen => Message::ToggleFullscreen,
    }
}

/// One menu step: a down edge advances focus, an up edge retreats it, a fire
/// edge selects the (possibly just moved) focus, and a `FocusChanged`
/// message trails whenever the focus differs from what it was when the step
/// began.
pub open spec fn spec_menu_input(menu: Menu, c: Controller) -> (Menu, Seq<Message>) {
    let f1 = if c.down.new_input {
        spec_focus_down(menu.focus)
    } else {
        menu.focus
    };
    let f2 = if c.up.new_input {
        spec_focus_up(f1)
    } else {
        f1
    };
    let select = if c.fire.new_input {
        seq![spec_select_message(f2)]
    } else {
        Seq::<Message>::empty()
    };
    let moved = if f2 != menu.focus {
        seq![Message::FocusChanged]
    } else {
        Seq::<Message>::empty()
    };
    (Menu { focus: f2 }, select + moved)
}

impl Menu {
    /// A fresh menu focuses `Start`.
    pub fn new() -> (m: Menu)
        ensures
            m == (Menu { focus: Focus::Start }),
    {
        Menu { focus: Focus::Start }
    }

    /// React to the controller's edges: navigate, select, and report a focus
    /// change; the emitted messages are appended to `messages`.
    pub fn input(&mut self, controller: &Controller, messages: &mut Vec<Message>)
        ensures
            *final(self) == spec_menu_input(*old(self), *controller).0,
            final(messages)@ == old(messages)@ + spec_menu_input(*old(self), *controller).1,
    {
        let before = self.focus;
        if controller.down_just_pressed() {
            self.focus = match self.focus {
                Focus::Start => Focus::Exit,
                Focus::Exit => Focus::Fullscreen,
                Focus::Fullscreen => Focus::Start,
            };
        }
        if controller.up_just_pressed() {
            self.focus = match self.focus {
                Focus::Start => Focus::Fullscreen,
                Focus::Exit => Focus::Start,
                Focus::Fullscreen => Focus::Exit,
            };
        }

        if controller.fire_just_pressed() {
            match self.focus {
                Focus::Start => messages.push(Message::Start),
                Focus::Exit => messages.push(Message::Exit),
                Focus::Fullscreen => messages.push(Message::ToggleFullscreen),
            }
        }
        if self.focus != before {
            messages.push(Message::FocusChanged);
        }
        proof {
            assert(messages@ =~= old(messages)@ + spec_menu_input(*old(self), *controller).1);
        }
    }
}

/// Going down three times is a full cycle, and up inverts down: the menu can
/// always be navigated back to where it was.
pub proof fn lemma_menu_cycle(f: Focus)
    ensures
        spec_focus_down(spec_focus_down(spec_focus_down(f))) == f,
        spec_focus_up(spec_focus_down(f)) == f,
        spec_focus_down(spec_focus_up(f)) == f,
{
}

} // verus!
