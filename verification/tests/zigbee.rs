use co2_sensor::zigbee::{
    esp_zb_app_signal_handler, make_analog_output_ep, make_basic_identify, report_co2,
    report_settings, retry_steering, zb_action_handler, zcl_string, zigbee_task, AttributeId,
    AttributeValue, AttributeWrite, Callback, Channels, Cluster, ClusterId, Commissioning,
    HostMode, RadioMode, Role, Settings, SetupStep, Signal, SignalAction, StackCall,
};

fn present_value(endpoint: u8, value: u32) -> Callback {
    Callback::SetAttributeValue(AttributeWrite {
        endpoint,
        cluster: ClusterId::AnalogOutput,
        attribute: AttributeId::PresentValue,
        value: Some(value),
    })
}

#[test]
fn signals_lead_to_a_network() {
    let handle = |signal, status| esp_zb_app_signal_handler(signal, status, false);
    let init = SignalAction::Start(Commissioning::Initialization);
    let steer = SignalAction::Start(Commissioning::NetworkSteering);
    assert_eq!(handle(Signal::SkipStartup, 0).action, init);
    assert_eq!(handle(Signal::DeviceFirstStart, 0).action, steer);
    assert_eq!(handle(Signal::DeviceReboot, 0).action, steer);
    let joined = handle(Signal::Steering, 0);
    assert_eq!(joined.action, SignalAction::Nothing);
    assert!(joined.connected);
}

#[test]
fn failed_signals_are_retried() {
    let handle = |signal| esp_zb_app_signal_handler(signal, -1, false);
    let init = SignalAction::Start(Commissioning::Initialization);
    assert_eq!(handle(Signal::DeviceFirstStart).action, init);
    assert_eq!(handle(Signal::DeviceReboot).action, init);
    let failed = handle(Signal::Steering);
    assert_eq!(failed.action, SignalAction::RetrySteering { after_ms: 1000 });
    assert!(!failed.connected);
    assert_eq!(retry_steering(), Commissioning::NetworkSteering);
}

#[test]
fn leaving_disconnects() {
    assert!(!esp_zb_app_signal_handler(Signal::Leave, 0, true).connected);
    assert!(esp_zb_app_signal_handler(Signal::Other, 0, true).connected);
    assert!(esp_zb_app_signal_handler(Signal::Steering, 1, true).connected);
}

#[test]
fn settings_are_clamped() {
    let mut settings = Settings::power_on();
    assert_eq!((settings.report_interval_s, settings.led_brightness), (30, 50));
    for (value, expected) in [(0, 10), (9, 10), (10, 10), (45, 45), (300, 300), (301, 300)] {
        assert_eq!(zb_action_handler(&mut settings, present_value(2, value)), 0);
        assert_eq!(settings.report_interval_s, expected);
    }
    for (value, expected) in [(0, 0), (100, 100), (101, 100), (u32::MAX, 100)] {
        assert_eq!(zb_action_handler(&mut settings, present_value(3, value)), 0);
        assert_eq!(settings.led_brightness, expected);
    }
    assert_eq!(settings.report_interval_s, 300);
}

#[test]
fn other_writes_are_ignored() {
    let write = AttributeWrite {
        endpoint: 2,
        cluster: ClusterId::AnalogOutput,
        attribute: AttributeId::PresentValue,
        value: Some(60),
    };
    let ignored = [
        Callback::Other,
        Callback::SetAttributeValue(AttributeWrite { endpoint: 1, ..write }),
        Callback::SetAttributeValue(AttributeWrite { cluster: ClusterId::Other, ..write }),
        Callback::SetAttributeValue(AttributeWrite { attribute: AttributeId::Other, ..write }),
        Callback::SetAttributeValue(AttributeWrite { value: None, ..write }),
    ];
    for callback in ignored {
        let mut settings = Settings::power_on();
        assert_eq!(zb_action_handler(&mut settings, callback), 0);
        assert_eq!(settings, Settings::power_on());
    }
}

#[test]
fn zcl_strings_start_with_their_length() {
    assert_eq!(zcl_string("Espressif"), b"\x09Espressif".to_vec());
    assert_eq!(zcl_string(""), vec![0]);
}

#[test]
fn every_endpoint_has_basic_and_identify() {
    let clusters = make_basic_identify();
    assert_eq!(clusters.len(), 2);
    match &clusters[0] {
        Cluster::Basic {
            zcl_version,
            power_source,
            manufacturer,
            model,
            app_version,
            sw_build_id,
            date_code,
        } => {
            assert_eq!((*zcl_version, *power_source, *app_version), (3, 4, 21));
            assert_eq!(manufacturer, b"\x09Espressif");
            assert_eq!(model, b"\x09Co2Sensor");
            assert_eq!(sw_build_id, b"\x06v2.1.0");
            assert_eq!(date_code, b"\x0820260705");
        }
        other => panic!("unexpected cluster {:?}", other),
    }
    assert!(matches!(clusters[1], Cluster::Identify { identify_time: 0 }));
}

#[test]
fn analog_output_endpoint_has_bounds_and_description() {
    let ep = make_analog_output_ep(9, "Offset", 5, 1, 8);
    assert_eq!((ep.endpoint, ep.profile_id, ep.device_id), (9, 0x0104, 0x000C));
    match &ep.clusters[2] {
        Cluster::AnalogOutput {
            out_of_service,
            present_value,
            status_flags,
            description,
            min_present_value,
            max_present_value,
        } => {
            assert_eq!((*out_of_service, *status_flags), (false, 0));
            assert_eq!((*present_value, *min_present_value, *max_present_value), (5, 1, 8));
            assert_eq!(description, b"\x06Offset");
        }
        other => panic!("unexpected cluster {:?}", other),
    }
}

#[test]
fn stack_is_set_up_before_it_starts() {
    let steps = zigbee_task();
    assert_eq!(steps.len(), 11);
    assert!(matches!(
        steps[0],
        SetupStep::PlatformConfig { radio: RadioMode::Native, host: HostMode::NoHost }
    ));
    assert!(matches!(
        steps[1],
        SetupStep::Init {
            role: Role::EndDevice,
            install_code_policy: false,
            ed_timeout_min: 64,
            keep_alive_ms: 3000
        }
    ));
    assert!(matches!(steps[2], SetupStep::CreateEndpointList));
    assert!(steps[3..6].iter().all(|s| matches!(s, SetupStep::AddEndpoint(_))));
    assert!(matches!(steps[6], SetupStep::RegisterDevice));
    assert!(matches!(steps[7], SetupStep::RegisterActionHandler));
    assert!(matches!(steps[8], SetupStep::SetPrimaryChannels(Channels::All)));
    assert!(matches!(steps[9], SetupStep::Start { autostart: false }));
    assert!(matches!(steps[10], SetupStep::MainLoop));
}

#[test]
fn device_has_three_endpoints() {
    let mut endpoints = Vec::new();
    for step in zigbee_task() {
        if let SetupStep::AddEndpoint(endpoint) = step {
            endpoints.push(endpoint);
        }
    }
    let ids: Vec<(u8, u16, u16)> = endpoints
        .iter()
        .map(|e| (e.endpoint, e.profile_id, e.device_id))
        .collect();
    assert_eq!(
        ids,
        vec![(1, 0x0104, 0x0302), (2, 0x0104, 0x000C), (3, 0x0104, 0x000C)]
    );
    assert!(matches!(
        endpoints[0].clusters[2],
        Cluster::TemperatureMeasurement { measured_value: 0, min_value: 0, max_value: 32700 }
    ));
    match &endpoints[1].clusters[2] {
        Cluster::AnalogOutput {
            present_value: 30,
            min_present_value: 10,
            max_present_value: 300,
            description,
            ..
        } => assert_eq!(description, b"\x0FReport interval"),
        other => panic!("unexpected cluster {:?}", other),
    }
    match &endpoints[2].clusters[2] {
        Cluster::AnalogOutput {
            present_value: 50,
            min_present_value: 0,
            max_present_value: 100,
            description,
            ..
        } => assert_eq!(description, b"\x0ELED brightness"),
        other => panic!("unexpected cluster {:?}", other),
    }
}

#[test]
fn co2_value_goes_out_as_int16() {
    for (ppm, expected) in [(0u16, 0i16), (812, 812), (32767, 32767), (32768, -32768), (65535, -1)] {
        assert_eq!(
            report_co2(ppm, true),
            vec![
                StackCall::SetAttribute {
                    endpoint: 1,
                    cluster: ClusterId::TempMeasurement,
                    attribute: AttributeId::MeasuredValue,
                    value: AttributeValue::Int16(expected),
                },
                StackCall::ReleaseLock,
            ]
        );
    }
    assert_eq!(report_co2(812, false), vec![]);
}

#[test]
fn settings_are_published_on_their_endpoints() {
    let settings = Settings { report_interval_s: 45, led_brightness: 80 };
    let set = |endpoint, value| StackCall::SetAttribute {
        endpoint,
        cluster: ClusterId::AnalogOutput,
        attribute: AttributeId::PresentValue,
        value: AttributeValue::Single(value),
    };
    assert_eq!(
        report_settings(&settings, true),
        vec![set(2, 45), set(3, 80), StackCall::ReleaseLock]
    );
    assert_eq!(report_settings(&settings, false), vec![]);
}
