//! Client side of a seat's pointer: decoding `wl_pointer` events.
//! Positions and scroll amounts travel as 24.8 fixed-point numbers and are
//! handed on as such.
use vstd::prelude::*;

use crate::client::{as_signed, to_signed};
use crate::wire::{read_u32, word_at, RawWaylandEvent};

verus! {

/// A 24.8 fixed-point number as sent on the wire: the value is the raw
/// integer divided by 256.
#[derive(Clone, Copy, Debug, PartialEq, Eq, Structural)]
pub struct Fixed(pub i32);

/// Whether a pointer button went down or up.
#[derive(Clone, Copy, Debug, PartialEq, Eq, Structural)]
pub enum ButtonState {
    Released,
    Pressed,
}

/// The scroll axis of an axis event.
#[derive(Clone, Copy, Debug, PartialEq, Eq, Structural)]
pub enum PointerAxis {
    VerticalScroll,
    HorizontalScroll,
}

/// What produced a scroll.
#[derive(Clone, Copy, Debug, PartialEq, Eq, Structural)]
pub enum PointerAxisSource {
    Wheel,
    Finger,
    Continuous,
    WheelTilt,
}

/// The button state with wire value `v`, if any.
pub open spec fn button_state_of(v: int) -> Option<ButtonState> {
    if v == 0 {
        Some(ButtonState::Released)
    } else if v == 1 {
        Some(ButtonState::Pressed)
    } else {
        None
    }
}

/// The axis with wire value `v`, if any.
pub open spec fn axis_of(v: int) -> Option<PointerAxis> {
    if v == 0 {
        Some(PointerAxis::VerticalScroll)
    } else if v == 1 {
        Some(PointerAxis::HorizontalScroll)
    } else {
        None
    }
}

/// The axis source with wire value `v`, if any.
pub open spec fn axis_source_of(v: int) -> Option<PointerAxisSource> {
    if v == 0 {
        Some(PointerAxisSource::Wheel)
    } else if v == 1 {
        Some(PointerAxisSource::Finger)
    } else if v == 2 {
        Some(PointerAxisSource::Continuous)
    } else if v == 3 {
        Some(PointerAxisSource::WheelTilt)
    } else {
        None
    }
}

fn button_state_from(v: u32) -> (r: Option<ButtonState>)
    ensures
        r == button_state_of(v as int),
{
    if v == 0 {
        Some(ButtonState::Released)
    } else if v == 1 {
        Some(ButtonState::Pressed)
    } else {
        None
    }
}

fn axis_from(v: u32) -> (r: Option<PointerAxis>)
    ensures
        r == axis_of(v as int),
{
    if v == 0 {
        Some(PointerAxis::VerticalScroll)
    } else if v == 1 {
        Some(PointerAxis::HorizontalScroll)
    } else {
        None
    }
}

fn axis_source_from(v: u32) -> (r: Option<PointerAxisSource>)
    ensures
        r == axis_source_of(v as int),
{
    if v == 0 {
        Some(PointerAxisSource::Wheel)
    } else if v == 1 {
        Some(PointerAxisSource::Finger)
    } else if v == 2 {
        Some(PointerAxisSource::Continuous)
    } else if v == 3 {
        Some(PointerAxisSource::WheelTilt)
    } else {
        None
    }
}

/// An event of the pointer.
#[derive(Clone, Copy, Debug, PartialEq, Eq, Structural)]
pub enum PointerEvent {
    Enter { serial: u32, surface: u32, surface_x: Fixed, surface_y: Fixed },
    Leave { serial: u32, surface: u32 },
    Motion { time: u32, surface_x: Fixed, surface_y: Fixed },
    Button { serial: u32, time: u32, button: u32, state: ButtonState },
    Axis { time: u32, axis: PointerAxis, value: Fixed },
    Frame,
    AxisSource { axis_source: PointerAxisSource },
    AxisStop { time: u32, axis: PointerAxis },
    AxisDiscrete { axis: PointerAxis, discrete: i32 },
}

/// The `k`-th word of the body `d`, if the body holds it.
fn word(d: &[u8], k: usize, little: bool) -> (r: Option<u32>)
    requires
        k <= 8,
    ensures
        r is Some <==> 4 * k + 4 <= d@.len(),
        r matches Some(v) ==> v == word_at(d@, 4 * k, little),
{
    let mut o: usize = 4 * k;
    read_u32(d, &mut o, little)
}

/// The wire values of a pointer button's state: 0 is a release, 1 a
/// press, and no other value is a state.
pub proof fn lemma_button_state_values(v: int)
    ensures
        button_state_of(v) == Some(ButtonState::Released) <==> v == 0,
        button_state_of(v) == Some(ButtonState::Pressed) <==> v == 1,
        button_state_of(v) is None <==> v != 0 && v != 1,
{
}

/// The wire values of the scroll axes: 0 is vertical, 1 horizontal, and
/// no other value is an axis.
pub proof fn lemma_axis_values(v: int)
    ensures
        axis_of(v) == Some(PointerAxis::VerticalScroll) <==> v == 0,
        axis_of(v) == Some(PointerAxis::HorizontalScroll) <==> v == 1,
        axis_of(v) is None <==> v != 0 && v != 1,
{
}

/// The wire values of the scroll sources: wheel 0, finger 1, continuous 2,
/// wheel tilt 3, and no other value is a source.
pub proof fn lemma_axis_source_values(v: int)
    ensures
        axis_source_of(v) == Some(PointerAxisSource::Wheel) <==> v == 0,
        axis_source_of(v) == Some(PointerAxisSource::Finger) <==> v == 1,
        axis_source_of(v) == Some(PointerAxisSource::Continuous) <==> v == 2,
        axis_source_of(v) == Some(PointerAxisSource::WheelTilt) <==> v == 3,
        axis_source_of(v) is None <==> !(0 <= v <= 3),
{
}

/// A `button` message reports a release when its state word is 0 and a
/// press when it is 1, with the serial, time and button of its first
/// three words; any other state word makes it no event.
pub proof fn lemma_button_event_state(d: Seq<u8>, l: bool, r: Option<PointerEvent>)
    requires
        pointer_event_of(3, d, l, r),
        d.len() >= 16,
    ensures
        word_at(d, 12, l) == 0 ==> r == Some(PointerEvent::Button {
            serial: word_at(d, 0, l) as u32,
            time: word_at(d, 4, l) as u32,
            button: word_at(d, 8, l) as u32,
            state: ButtonState::Released,
        }),
        word_at(d, 12, l) == 1 ==> r == Some(PointerEvent::Button {
            serial: word_at(d, 0, l) as u32,
            time: word_at(d, 4, l) as u32,
            button: word_at(d, 8, l) as u32,
            state: ButtonState::Pressed,
        }),
        word_at(d, 12, l) != 0 && word_at(d, 12, l) != 1 ==> r is None,
{
}

/// `r` is the pointer event the body of message `opcode` reads as.
pub open spec fn pointer_event_of(opcode: u32, d: Seq<u8>, l: bool, r: Option<PointerEvent>) -> bool {
    let w = |k: int| word_at(d, 4 * k, l);
    let fx = |k: int| Fixed(as_signed(w(k)) as i32);
    r == match opcode {
        0 => if d.len() >= 16 {
            Some(PointerEvent::Enter { serial: w(0) as u32, surface: w(1) as u32, surface_x: fx(2), surface_y: fx(3) })
        } else {
            None
        },
        1 => if d.len() >= 8 {
            Some(PointerEvent::Leave { serial: w(0) as u32, surface: w(1) as u32 })
        } else {
            None
        },
        2 => if d.len() >= 12 {
            Some(PointerEvent::Motion { time: w(0) as u32, surface_x: fx(1), surface_y: fx(2) })
        } else {
            None
        },
        3 => if d.len() >= 16 && button_state_of(w(3)) is Some {
            Some(
                PointerEvent::Button {
                    serial: w(0) as u32,
                    time: w(1) as u32,
                    button: w(2) as u32,
                    state: button_state_of(w(3)).unwrap(),
                },
            )
        } else {
            None
        },
        4 => if d.len() >= 12 && axis_of(w(1)) is Some {
            Some(PointerEvent::Axis { time: w(0) as u32, axis: axis_of(w(1)).unwrap(), value: fx(2) })
        } else {
            None
        },
        5 => Some(PointerEvent::Frame),
        6 => if d.len() >= 4 && axis_source_of(w(0)) is Some {
            Some(PointerEvent::AxisSource { axis_source: axis_source_of(w(0)).unwrap() })
        } else {
            None
        },
        7 => if d.len() >= 8 && axis_of(w(1)) is Some {
            Some(PointerEvent::AxisStop { time: w(0) as u32, axis: axis_of(w(1)).unwrap() })
        } else {
            None
        },
        8 => if d.len() >= 8 && axis_of(w(0)) is Some {
            Some(PointerEvent::AxisDiscrete { axis: axis_of(w(0)).unwrap(), discrete: as_signed(w(1)) as i32 })
        } else {
            None
        },
        _ => None,
    }
}

/// The pointer of a seat.
pub struct WlPointer {
    little: bool,
    id: u32,
}

impl WlPointer {
    /// Object id of the pointer (0 until assigned).
    pub closed spec fn object_id(&self) -> u32 {
        self.id
    }

    /// Byte order of the connection.
    pub closed spec fn byte_order(&self) -> bool {
        self.little
    }

    /// A pointer without an id yet.
    pub fn new(little: bool) -> (r: Self)
        ensures
            r.object_id() == 0,
            r.byte_order() == little,
    {
        WlPointer { little, id: 0 }
    }

    /// The object id.
    pub fn id(&self) -> (r: u32)
        ensures
            r == self.object_id(),
    {
        self.id
    }

    /// Assigns the object id.
    pub fn set_id(&mut self, id: u32)
        ensures
            final(self).object_id() == id,
            final(self).byte_order() == old(self).byte_order(),
    {
        self.id = id;
    }

    /// Decodes a pointer event: `enter` (0), `leave` (1), `motion` (2),
    /// `button` (3), `axis` (4), `frame` (5), `axis_source` (6),
    /// `axis_stop` (7) and `axis_discrete` (8). Messages for other
    /// objects, other opcodes, bodies too short or unknown enum values are
    /// ignored.
    pub fn process(&self, raw: &RawWaylandEvent) -> (r: Option<PointerEvent>)
        ensures
            raw.object_id.0 != self.object_id() ==> r is None,
            raw.object_id.0 == self.object_id() ==> pointer_event_of(raw.opcode, raw.data@, self.byte_order(), r),
    {
        if raw.object_id.0 != self.id {
            return None;
        }
        let d = raw.data.as_slice();
        let l = self.little;
        if raw.opcode == 5 {
            return Some(PointerEvent::Frame);
        }
        if raw.opcode > 8 {
            return None;
        }
        let w0 = match word(d, 0, l) {
            Some(v) => v,
            None => return None,
        };
        if raw.opcode == 6 {
            return match axis_source_from(w0) {
                Some(axis_source) => Some(PointerEvent::AxisSource { axis_source }),
                None => None,
            };
        }
        let w1 = match word(d, 1, l) {
            Some(v) => v,
            None => return None,
        };
        if raw.opcode == 1 {
            return Some(PointerEvent::Leave { serial: w0, surface: w1 });
        }
        if raw.opcode == 7 {
            return match axis_from(w1) {
                Some(axis) => Some(PointerEvent::AxisStop { time: w0, axis }),
                None => None,
            };
        }
        if raw.opcode == 8 {
            return match axis_from(w0) {
                Some(axis) => Some(PointerEvent::AxisDiscrete { axis, discrete: to_signed(w1) }),
                None => None,
            };
        }
        if raw.opcode == 4 {
            let a = axis_from(w1);
            if a.is_none() {
                return None;
            }
        }
        let w2 = match word(d, 2, l) {
            Some(v) => v,
            None => return None,
        };
        if raw.opcode == 2 {
            return Some(PointerEvent::Motion { time: w0, surface_x: Fixed(to_signed(w1)), surface_y: Fixed(to_signed(w2)) });
        }
        if raw.opcode == 4 {
            return match axis_from(w1) {
                Some(axis) => Some(PointerEvent::Axis { time: w0, axis, value: Fixed(to_signed(w2)) }),
                None => None,
            };
        }
        let w3 = match word(d, 3, l) {
            Some(v) => v,
            None => return None,
        };
        if raw.opcode == 0 {
            Some(PointerEvent::Enter { serial: w0, surface: w1, surface_x: Fixed(to_signed(w2)), surface_y: Fixed(to_signed(w3)) })
        } else {
            match button_state_from(w3) {
                Some(state) => Some(PointerEvent::Button { serial: w0, time: w1, button: w2, state }),
                None => None,
            }
        }
    }
}

} // verus!
