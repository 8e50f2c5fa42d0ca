use co2_sensor::led::{Glow, Rgb};
use co2_sensor::monitor::{join_step, Cycle, JoinStep, Monitor};
use co2_sensor::zigbee::Settings;

const SET: Settings = Settings { report_interval_s: 120, led_brightness: 80 };

#[test]
fn settings_are_reported_on_joining() {
    assert_eq!(join_step(false), JoinStep::Wait { ms: 100 });
    assert_eq!(join_step(true), JoinStep::ReportSettings);
}

#[test]
fn main_loop_starts_with_the_power_on_settings() {
    let settings = Settings { report_interval_s: 30, led_brightness: 50 };
    assert_eq!(Monitor::new(), Monitor { read_count: 0, fail_count: 0, settings });
}

#[test]
fn reading_is_reported_only_in_a_network() {
    let mut monitor = Monitor::new();
    monitor.begin_cycle(SET);
    let green = Some(Glow::Steady(Rgb { r: 0, g: 120, b: 0 }));
    let cycle = Cycle {
        report: Some(812),
        last_ppm: Some(812),
        glow: green,
        brightness: 80,
        wait_s: 120,
    };
    assert_eq!(monitor.finish_cycle(Some(812), true), cycle);
    monitor.begin_cycle(SET);
    assert_eq!(monitor.finish_cycle(Some(812), false), Cycle { report: None, ..cycle });
    assert_eq!(monitor, Monitor { read_count: 2, fail_count: 0, settings: SET });
}

#[test]
fn failed_reading_is_only_counted() {
    let mut monitor = Monitor::new();
    monitor.begin_cycle(SET);
    assert_eq!(
        monitor.finish_cycle(None, true),
        Cycle { report: None, last_ppm: None, glow: None, brightness: 80, wait_s: 120 }
    );
    assert_eq!(monitor, Monitor { read_count: 1, fail_count: 1, settings: SET });
}

#[test]
fn settings_take_effect_in_the_next_cycle() {
    let mut monitor = Monitor::new();
    monitor.begin_cycle(SET);
    let first = monitor.finish_cycle(Some(6000), true);
    assert_eq!(first.glow, Some(Glow::FlashRed));
    assert_eq!((first.brightness, first.wait_s), (80, 120));
    monitor.begin_cycle(Settings { report_interval_s: 10, led_brightness: 0 });
    let second = monitor.finish_cycle(Some(6000), true);
    assert_eq!((second.brightness, second.wait_s), (0, 10));
}
