//! Launcher panel state: the volume level and whether the notification
//! panel is open.
use vstd::prelude::*;

verus! {

/// The lowest volume level.
pub const MIN_VOLUME: i32 = 0;
/// The highest volume level.
pub const MAX_VOLUME: i32 = 100;
/// How much one press of a volume button changes the level.
pub const STEP_SIZE: i32 = 10;

/// `v` limited to the volume range.
pub open spec fn clamp_volume(v: int) -> int {
    if v < MIN_VOLUME {
        MIN_VOLUME as int
    } else if v > MAX_VOLUME {
        MAX_VOLUME as int
    } else {
        v
    }
}

/// The volume level shown by the volume panel.
pub struct Volume {
    count: i32,
}

impl Volume {
    /// The current level.
    pub closed spec fn level(&self) -> int {
        self.count as int
    }

    /// The level stays in range.
    pub closed spec fn wf(&self) -> bool {
        MIN_VOLUME <= self.count <= MAX_VOLUME
    }

    /// Level 0.
    pub fn new() -> (v: Self)
        ensures
            v.wf(),
            v.level() == 0,
    {
        Volume { count: 0 }
    }

    /// The current level.
    pub fn count(&self) -> (c: i32)
        ensures
            c == self.level(),
    {
        self.count
    }

    /// Sets the level, limited to the volume range.
    pub fn update_value(&mut self, new_value: i32)
        ensures
            final(self).wf(),
            final(self).level() == clamp_volume(new_value as int),
    {
        let v = if new_value < MIN_VOLUME {
            MIN_VOLUME
        } else if new_value > MAX_VOLUME {
            MAX_VOLUME
        } else {
            new_value
        };
        self.count = v;
    }

    /// The plus button: one step up, at most to the top.
    pub fn step_up(&mut self)
        requires
            old(self).wf(),
        ensures
            final(self).wf(),
            final(self).level() == clamp_volume(old(self).level() + STEP_SIZE),
    {
        let v = self.count + STEP_SIZE;
        self.update_value(v);
    }

    /// The minus button: one step down, at least to the bottom.
    pub fn step_down(&mut self)
        requires
            old(self).wf(),
        ensures
            final(self).wf(),
            final(self).level() == clamp_volume(old(self).level() - STEP_SIZE),
    {
        let v = self.count - STEP_SIZE;
        self.update_value(v);
    }
}

/// What the notification panel is asked to do.
#[derive(Debug, Clone, Copy, PartialEq, Eq, Structural)]
pub enum NotificationCmd {
    Toggle,
    Open,
    Close,
}

/// Whether the notification panel is open.
pub struct NotificationPanel {
    pub open: bool,
}

impl NotificationPanel {
    /// A closed panel.
    pub fn new() -> (p: Self)
        ensures
            !p.open,
    {
        NotificationPanel { open: false }
    }

    /// Opens or closes the panel; returns the new state when it changed
    /// (the slide animation then starts toward it).
    pub fn set_open(&mut self, open: bool) -> (r: Option<bool>)
        ensures
            final(self).open == open,
            r == (if old(self).open == open { None::<bool> } else { Some(open) }),
    {
        if self.open == open {
            return None;
        }
        self.open = open;
        Some(open)
    }

    /// Carries out a command; returns the new state when it changed.
    pub fn apply(&mut self, cmd: NotificationCmd) -> (r: Option<bool>)
        ensures
            final(self).open == match cmd {
                NotificationCmd::Toggle => !old(self).open,
                NotificationCmd::Open => true,
                NotificationCmd::Close => false,
            },
            r == (if old(self).open == final(self).open { None::<bool> } else { Some(final(self).open) }),
    {
        match cmd {
            NotificationCmd::Toggle => {
                let target = !self.open;
                self.set_open(target)
            },
            NotificationCmd::Open => self.set_open(true),
            NotificationCmd::Close => self.set_open(false),
        }
    }
}

} // verus!
