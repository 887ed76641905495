use vstd::prelude::*;

verus! {


/// The constants of one match. Times are in subframes (tenths of a frame) unless said
/// otherwise; gravity is in millionths of a cell per frame.
#[derive(Clone, Copy, Debug, PartialEq, Eq)]
pub struct Settings {
    pub gravity: u32,
    pub gravity_increase: u32,
    /// Frames between the confirmation of garbage and its readiness.
    pub garbage_speed: u32,
    pub garbage_cap: u16,
    pub das: u32,
    pub arr: u32,
    pub sdf: u32,
    pub dcd: u32,
    pub lock_delay: u64,
}

impl Default for Settings {
    fn default() -> (r: Settings)
        ensures
            r == default_settings(),
    {
        Settings {
            gravity: 20000,
            gravity_increase: 3500,
            garbage_speed: 20,
            garbage_cap: 8,
            das: 100,
            arr: 20,
            sdf: 60,
            dcd: 10,
            lock_delay: 300,
        }
    }
}

pub open spec fn default_settings() -> Settings {
    Settings {
        gravity: 20000,
        gravity_increase: 3500,
        garbage_speed: 20,
        garbage_cap: 8,
        das: 100,
        arr: 20,
        sdf: 60,
        dcd: 10,
        lock_delay: 300,
    }
}

} // verus!
