//! The main loop: read the sensor, publish the value, show it, wait.
use crate::led::{glow, Glow};
use crate::zigbee::Settings;
use vstd::prelude::*;

verus! {

use crate::led::{bands_have_their_colours, glow_of, Rgb};
use crate::zigbee::{INTERVAL_DEFAULT_S, LED_BRIGHTNESS_DEFAULT};

/// Time between two looks at whether a network was joined, in milliseconds.
pub const JOIN_POLL_MS: u64 = 100;

/// What is to be done about the network after power-on.
#[derive(Clone, Copy, Debug, PartialEq, Eq, Structural)]
pub enum JoinStep {
    /// Not joined yet: look again after so many milliseconds.
    Wait { ms: u64 },
    /// Joined: publish the settings, once.
    ReportSettings,
}

/// Waits for the first join. The readings do not wait for it: the history is
/// kept even with no network in range.
pub fn join_step(connected: bool) -> (step: JoinStep)
    ensures
        step == if connected {
            JoinStep::ReportSettings
        } else {
            JoinStep::Wait { ms: JOIN_POLL_MS }
        },
        !connected ==> step == (JoinStep::Wait { ms: 100 }),
{
    if connected {
        JoinStep::ReportSettings
    } else {
        JoinStep::Wait { ms: JOIN_POLL_MS }
    }
}

/// The counters of the main loop, and the settings that the cycle under way
/// began with. A setting that changes during a cycle takes effect in the next.
#[derive(Clone, Copy, Debug, PartialEq, Eq, Structural)]
pub struct Monitor {
    pub read_count: u32,
    pub fail_count: u32,
    pub settings: Settings,
}

/// What one cycle does with its reading.
#[derive(Clone, Copy, Debug, PartialEq, Eq, Structural)]
pub struct Cycle {
    /// The value to publish.
    pub report: Option<u16>,
    /// The value to hand to the history logger.
    pub last_ppm: Option<u16>,
    /// What the LED shows from now on, if that changes.
    pub glow: Option<Glow>,
    /// The brightness to show it at, in percent.
    pub brightness: u32,
    /// The time until the next cycle, in seconds. A flash lasts as long.
    pub wait_s: u64,
}

impl Monitor {
    /// A main loop that has not read yet.
    pub fn new() -> (monitor: Monitor)
        ensures
            monitor.read_count == 0,
            monitor.fail_count == 0,
            monitor.settings.report_interval_s == INTERVAL_DEFAULT_S,
            monitor.settings.led_brightness == LED_BRIGHTNESS_DEFAULT,
            monitor.settings.report_interval_s == 30,
            monitor.settings.led_brightness == 50,
    {
        Monitor { read_count: 0, fail_count: 0, settings: Settings::power_on() }
    }

    /// Counts a cycle that begins, with the settings of this moment.
    pub fn begin_cycle(&mut self, settings: Settings)
        requires
            old(self).read_count < u32::MAX,
        ensures
            *final(self) == (Monitor {
                read_count: (old(self).read_count + 1) as u32,
                fail_count: old(self).fail_count,
                settings,
            }),
    {
        self.read_count = self.read_count + 1;
        self.settings = settings;
    }

    /// What a cycle with these settings does with a reading.
    pub open spec fn cycle_for(self, reading: Option<u16>, connected: bool) -> Cycle {
        Cycle {
            report: if connected {
                reading
            } else {
                None
            },
            last_ppm: reading,
            glow: match reading {
                Some(ppm) => Some(glow_of(ppm as int)),
                None => None,
            },
            brightness: self.settings.led_brightness,
            wait_s: self.settings.report_interval_s as u64,
        }
    }

    /// What to do with a reading. A value is logged and shown in any case,
    /// and published if the device is in a network. A failed reading is
    /// counted, and changes nothing else. Either way the next cycle follows
    /// after the report interval.
    pub fn finish_cycle(&mut self, reading: Option<u16>, connected: bool) -> (cycle: Cycle)
        requires
            reading is None ==> old(self).fail_count < u32::MAX,
        ensures
            final(self).read_count == old(self).read_count,
            final(self).settings == old(self).settings,
            final(self).fail_count == old(self).fail_count + if reading is None {
                1int
            } else {
                0
            },
            cycle == old(self).cycle_for(reading, connected),
            cycle.last_ppm == reading,
            cycle.report == if connected {
                reading
            } else {
                None
            },
            cycle.glow == match reading {
                Some(ppm) => Some(glow_of(ppm as int)),
                None => None,
            },
            reading matches Some(ppm) ==> {
                &&& ppm <= 1000 ==> cycle.glow == Some(
                    Glow::Steady(Rgb { r: 0, g: 120, b: 0 }),
                )
                &&& 1001 <= ppm <= 2000 ==> cycle.glow == Some(
                    Glow::Steady(Rgb { r: 200, g: 50, b: 0 }),
                )
                &&& 2001 <= ppm <= 5000 ==> cycle.glow == Some(
                    Glow::Steady(Rgb { r: 220, g: 0, b: 0 }),
                )
                &&& ppm >= 5001 ==> cycle.glow == Some(Glow::FlashRed)
            },
            cycle.brightness == old(self).settings.led_brightness,
            cycle.wait_s == old(self).settings.report_interval_s,
    {
        let brightness = self.settings.led_brightness;
        let wait_s = self.settings.report_interval_s as u64;
        match reading {
            Some(ppm) => Cycle {
                report: if connected {
                    Some(ppm)
                } else {
                    None
                },
                last_ppm: Some(ppm),
                glow: Some(glow(ppm)),
                brightness,
                wait_s,
            },
            None => {
                self.fail_count = self.fail_count + 1;
                Cycle { report: None, last_ppm: None, glow: None, brightness, wait_s }
            },
        }
    }
}

/// Every value that is read goes to the history and onto the LED as it is, in
/// or out of a network, and into the network if there is one: the connection
/// makes no other difference. A failed reading goes nowhere. The wait and the
/// brightness are those that are set, whatever was read.
pub proof fn every_reading_is_used(monitor: Monitor, ppm: u16)
    ensures
        ({
            let joined = monitor.cycle_for(Some(ppm), true);
            let alone = monitor.cycle_for(Some(ppm), false);
            let failed = monitor.cycle_for(None, true);
            &&& joined.report == Some(ppm)
            &&& alone == (Cycle { report: None, ..joined })
            &&& joined.last_ppm == Some(ppm)
            &&& joined.glow == Some(
                if ppm <= 1000 {
                    Glow::Steady(Rgb { r: 0, g: 120, b: 0 })
                } else if ppm <= 2000 {
                    Glow::Steady(Rgb { r: 200, g: 50, b: 0 })
                } else if ppm <= 5000 {
                    Glow::Steady(Rgb { r: 220, g: 0, b: 0 })
                } else {
                    Glow::FlashRed
                },
            )
            &&& joined.wait_s == monitor.settings.report_interval_s
            &&& joined.brightness == monitor.settings.led_brightness
            &&& failed == (Cycle { report: None, last_ppm: None, glow: None, ..joined })
            &&& monitor.cycle_for(None, false) == failed
        }),
{
    bands_have_their_colours(ppm as int);
}

} // verus!
