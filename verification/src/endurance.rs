//! Endurance controller: turns thermal readings into an operating mode
//! with hysteresis. Up-transition when CPU exceeds 75 °C or battery
//! exceeds 42 °C; down-transition only when CPU is below 65 °C and battery
//! below 38 °C. Temperatures are integers in millidegrees Celsius, the
//! format of the platform thermal source; the host converts its readings.

use vstd::prelude::*;

verus! {

#[derive(Debug, Clone, Copy, PartialEq, Eq, Structural)]
pub enum EnduranceMode {
    /// Normal operation: streaming transcription.
    HighPerformance,
    /// High heat: transcription is batched at checkpoints.
    Endurance,
}

/// Threshold rules with hysteresis, over millidegree readings.
pub open spec fn next_mode(mode: EnduranceMode, cpu_milli: int, battery_milli: int) -> EnduranceMode {
    if cpu_milli > 75000 || battery_milli > 42000 {
        EnduranceMode::Endurance
    } else if mode == EnduranceMode::Endurance {
        if cpu_milli < 65000 && battery_milli < 38000 {
            EnduranceMode::HighPerformance
        } else {
            EnduranceMode::Endurance
        }
    } else {
        EnduranceMode::HighPerformance
    }
}

pub struct EnduranceController {
    battery_temp_milli: i64,
    cpu_temp_milli: i64,
    simulated_mode: bool,
    pub current_mode: EnduranceMode,
}

impl EnduranceController {
    pub closed spec fn battery_milli(&self) -> int {
        self.battery_temp_milli as int
    }

    pub closed spec fn cpu_milli(&self) -> int {
        self.cpu_temp_milli as int
    }

    pub closed spec fn simulated(&self) -> bool {
        self.simulated_mode
    }

    /// The mode last decided.
    pub closed spec fn mode(&self) -> EnduranceMode {
        self.current_mode
    }

    pub fn new() -> (r: Self)
        ensures
            r.mode() == EnduranceMode::HighPerformance,
            r.battery_milli() == 0,
            r.cpu_milli() == 0,
            !r.simulated(),
    {
        EnduranceController {
            battery_temp_milli: 0,
            cpu_temp_milli: 0,
            simulated_mode: false,
            current_mode: EnduranceMode::HighPerformance,
        }
    }

    /// Record a battery temperature pushed by the host, in millidegrees.
    pub fn update_battery_temp(&mut self, temp_milli: i64)
        ensures
            final(self).battery_milli() == temp_milli as int,
            final(self).cpu_milli() == old(self).cpu_milli(),
            final(self).simulated() == old(self).simulated(),
            final(self).mode() == old(self).mode(),
    {
        self.battery_temp_milli = temp_milli;
    }

    /// Apply the threshold rules to the latest readings and return the
    /// mode. `cpu_reading_milli` is the platform thermal source's value;
    /// `None` (source absent) keeps the previous CPU reading. In
    /// simulation the mode is frozen.
    pub fn check_status(&mut self, cpu_reading_milli: Option<i64>) -> (r: EnduranceMode)
        ensures
            r == final(self).mode(),
            old(self).simulated() ==> *final(self) == *old(self),
            !old(self).simulated() ==> {
                &&& final(self).cpu_milli() == (match cpu_reading_milli {
                    Some(t) => t as int,
                    None => old(self).cpu_milli(),
                })
                &&& final(self).mode() == next_mode(
                    old(self).mode(),
                    final(self).cpu_milli(),
                    old(self).battery_milli(),
                )
                &&& final(self).battery_milli() == old(self).battery_milli()
                &&& final(self).simulated() == old(self).simulated()
            },
    {
        if self.simulated_mode {
            return self.current_mode;
        }
        if let Some(t) = cpu_reading_milli {
            self.cpu_temp_milli = t;
        }
        let high_cpu = self.cpu_temp_milli > 75000;
        let high_battery = self.battery_temp_milli > 42000;
        if high_cpu || high_battery {
            self.current_mode = EnduranceMode::Endurance;
        } else if self.current_mode == EnduranceMode::Endurance {
            if self.cpu_temp_milli < 65000 && self.battery_temp_milli < 38000 {
                self.current_mode = EnduranceMode::HighPerformance;
            }
        } else {
            self.current_mode = EnduranceMode::HighPerformance;
        }
        self.current_mode
    }

    /// Freeze the controller for tests: the given temperature is recorded
    /// as the battery reading and `check_status` returns the mode as is.
    pub fn simulate_environment(&mut self, _battery_milli: i64, temp_milli: i64)
        ensures
            final(self).battery_milli() == temp_milli as int,
            final(self).simulated(),
            final(self).cpu_milli() == old(self).cpu_milli(),
            final(self).mode() == old(self).mode(),
    {
        self.battery_temp_milli = temp_milli;
        self.simulated_mode = true;
    }
}

/// Hysteresis: inside the band (CPU within 65–75 °C, battery within
/// 38–42 °C) the mode never changes, in either direction.
pub proof fn lemma_hysteresis_band(mode: EnduranceMode, cpu_milli: int, battery_milli: int)
    requires
        65000 <= cpu_milli <= 75000,
        38000 <= battery_milli <= 42000,
    ensures
        next_mode(mode, cpu_milli, battery_milli) == mode,
{
}

/// A trajectory that crosses up and then cools below both release
/// thresholds makes exactly one up-transition and one down-transition.
pub proof fn lemma_hysteresis_cycle(
    cpu_up: int,
    bat_up: int,
    cpu_down: int,
    bat_down: int,
)
    requires
        cpu_up > 75000 || bat_up > 42000,
        cpu_down < 65000,
        bat_down < 38000,
    ensures
        next_mode(EnduranceMode::HighPerformance, cpu_up, bat_up) == EnduranceMode::Endurance,
        next_mode(EnduranceMode::Endurance, cpu_down, bat_down) == EnduranceMode::HighPerformance,
{
}

} // verus!
