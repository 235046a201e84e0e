//! The edge-triggered input abstraction: named axes driven by raw key and
//! button transitions, read by the simulation as a controller snapshot.

use vstd::prelude::*;

use crate::math::FP_SCALE;

verus! {

/// The keys the controller understands; anything else is `Other` and is
/// ignored.
#[derive(Clone, Copy, Debug, PartialEq, Eq, Structural)]
pub enum Key {
    A,
    D,
    W,
    S,
    Left,
    Right,
    Up,
    Down,
    Space,
    Return,
    Escape,
    Other,
}

/// A raw input event: a keyboard transition or a device button transition,
/// with `true` for pressed.
#[derive(Clone, Copy, Debug, PartialEq, Eq, Structural)]
pub enum Input {
    KeyboardInput(Key, bool),
    Button(u32, bool),
}

/// One logical axis: a value in `[0, FP_SCALE]` sub-units (digital sources
/// use exactly 0 or `FP_SCALE`) and an edge flag that is set on the tick the
/// source transitioned to active.
#[derive(Clone, Copy, Debug, PartialEq, Eq, Structural)]
pub struct Axis {
    pub value: i64,
    pub new_input: bool,
}

impl Axis {
    /// An axis in range.
    pub open spec fn wf(self) -> bool {
        0 <= self.value <= FP_SCALE
    }

    /// The released, quiet axis.
    pub open spec fn spec_default() -> Axis {
        Axis { value: 0, new_input: false }
    }

    /// Set a continuous value; the edge flag follows activity.
    pub fn set(&mut self, value: i64)
        requires
            0 <= value <= FP_SCALE,
        ensures
            *final(self) == (Axis { value, new_input: value > 0 }),
    {
        self.value = value;
        self.new_input = value > 0;
    }

    /// Set from a digital source: full deflection or none.
    pub fn set_digital(&mut self, pressed: bool)
        ensures
            *final(self) == spec_axis_digital(pressed),
    {
        self.value = if pressed {
            FP_SCALE
        } else {
            0
        };
        self.new_input = pressed;
    }

    /// Full press of a digital source.
    pub fn press(&mut self)
        ensures
            *final(self) == (Axis { value: FP_SCALE, new_input: true }),
    {
        self.set(FP_SCALE);
    }

    /// Release of a digital source.
    pub fn release(&mut self)
        ensures
            *final(self) == (Axis { value: 0, new_input: false }),
    {
        self.set(0);
    }
}

impl Default for Axis {
    /// The released, quiet axis.
    fn default() -> (r: Axis)
        ensures
            r == Axis::spec_default(),
    {
        Axis { value: 0, new_input: false }
    }
}

/// The axis state a digital transition leaves behind.
pub open spec fn spec_axis_digital(pressed: bool) -> Axis {
    Axis { value: if pressed { FP_SCALE } else { 0 }, new_input: pressed }
}

/// The fixed set of named axes the simulation and the menu read.
#[derive(Clone, Copy, Debug, PartialEq, Eq, Structural)]
pub struct Controller {
    pub left: Axis,
    pub right: Axis,
    pub up: Axis,
    pub down: Axis,
    pub fire: Axis,
    pub back: Axis,
}

/// The controller after absorbing one raw event: exactly the axis bound to
/// the event changes; unrecognized keys and buttons change nothing.
pub open spec fn spec_controller_input(c: Controller, event: Input) -> Controller {
    match event {
        Input::KeyboardInput(key, pressed) => match key {
            Key::A | Key::Left => Controller { left: spec_axis_digital(pressed), ..c },
            Key::D | Key::Right => Controller { right: spec_axis_digital(pressed), ..c },
            Key::W | Key::Up => Controller { up: spec_axis_digital(pressed), ..c },
            Key::S | Key::Down => Controller { down: spec_axis_digital(pressed), ..c },
            Key::Space | Key::Return => Controller { fire: spec_axis_digital(pressed), ..c },
            Key::Escape => Controller { back: spec_axis_digital(pressed), ..c },
            Key::Other => c,
        },
        Input::Button(button, pressed) => if button == 0 {
            Controller { fire: spec_axis_digital(pressed), ..c }
        } else {
            c
        },
    }
}

impl Controller {
    /// Every axis is in range.
    pub open spec fn wf(self) -> bool {
        self.left.wf() && self.right.wf() && self.up.wf() && self.down.wf() && self.fire.wf()
            && self.back.wf()
    }

    /// All axes released and quiet.
    pub fn new() -> (c: Controller)
        ensures
            c == (Controller {
                left: Axis::spec_default(),
                right: Axis::spec_default(),
                up: Axis::spec_default(),
                down: Axis::spec_default(),
                fire: Axis::spec_default(),
                back: Axis::spec_default(),
            }),
            c.wf(),
    {
        Controller {
            left: Default::default(),
            right: Default::default(),
            up: Default::default(),
            down: Default::default(),
            fire: Default::default(),
            back: Default::default(),
        }
    }

    /// Clear the edge flags of the left, right, fire and back axes; values
    /// are kept so held directions keep steering.
    pub fn reset(&mut self)
        ensures
            *final(self) == (Controller {
                left: Axis { new_input: false, ..old(self).left },
                right: Axis { new_input: false, ..old(self).right },
                fire: Axis { new_input: false, ..old(self).fire },
                back: Axis { new_input: false, ..old(self).back },
                ..*old(self)
            }),
    {
        self.left.new_input = false;
        self.right.new_input = false;
        self.fire.new_input = false;
        self.back.new_input = false;
    }

    /// Absorb one raw event; only the bound axis changes.
    pub fn input(&mut self, event: &Input)
        ensures
            *final(self) == spec_controller_input(*old(self), *event),
    {
        match event {
            Input::KeyboardInput(key, pressed) => match key {
                Key::A | Key::Left => self.left.set_digital(*pressed),
                Key::D | Key::Right => self.right.set_digital(*pressed),
                Key::W | Key::Up => self.up.set_digital(*pressed),
                Key::S | Key::Down => self.down.set_digital(*pressed),
                Key::Space | Key::Return => self.fire.set_digital(*pressed),
                Key::Escape => self.back.set_digital(*pressed),
                Key::Other => (),
            },
            Input::Button(button, pressed) => {
                if *button == 0 {
                    self.fire.set_digital(*pressed);
                }
            },
        }
    }

    /// The steering direction: right minus left, in `[-FP_SCALE, FP_SCALE]`.
    pub fn dir(&self) -> (r: i64)
        requires
            self.wf(),
        ensures
            r == self.right.value - self.left.value,
            -FP_SCALE <= r <= FP_SCALE,
    {
        self.right.value - self.left.value
    }

    /// The fire axis value.
    pub fn fire(&self) -> (r: i64)
        ensures
            r == self.fire.value,
    {
        self.fire.value
    }

    /// The fire axis transitioned to active.
    pub fn fire_just_pressed(&self) -> (r: bool)
        ensures
            r == self.fire.new_input,
    {
        self.fire.new_input
    }

    /// The back axis transitioned to active.
    pub fn back_just_pressed(&self) -> (r: bool)
        ensures
            r == self.back.new_input,
    {
        self.back.new_input
    }

    /// The up axis transitioned to active.
    pub fn up_just_pressed(&self) -> (r: bool)
        ensures
            r == self.up.new_input,
    {
        self.up.new_input
    }

    /// The down axis transitioned to active.
    pub fn down_just_pressed(&self) -> (r: bool)
        ensures
            r == self.down.new_input,
    {
        self.down.new_input
    }
}

} // verus!
