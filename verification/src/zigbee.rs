//! Zigbee End Device with three endpoints.
//!
//! - EP1: Temperature Measurement cluster used as CO2 carrier (ppm stored as
//!   ppm/100 degrees, so the ZCL INT16 equals ppm directly)
//! - EP2: Analog Output cluster, report interval in seconds (read/write)
//! - EP3: Analog Output cluster, LED brightness 0-100 % (read/write)
//!
//! Rules of the stack that this module keeps:
//!
//! - Attributes are set only while the Zigbee lock is held.
//! - No attribute is reported explicitly: before a binding exists that makes
//!   the stack assert and the device reboot. The stack reports by itself once
//!   reporting is configured.
//! - The handler of attribute writes runs while the lock is held, and asks
//!   for no call of the stack.
use crate::version;
use vstd::prelude::*;
use vstd::string::*;
use vstd::utf8::*;

verus! {

use crate::version::version_text;

pub const CO2_ENDPOINT: u8 = 1;

pub const INTERVAL_ENDPOINT: u8 = 2;

pub const BRIGHTNESS_ENDPOINT: u8 = 3;

pub const INTERVAL_MIN_S: u32 = 10;

pub const INTERVAL_MAX_S: u32 = 300;

pub const INTERVAL_DEFAULT_S: u32 = 30;

pub const BRIGHTNESS_MAX: u32 = 100;

pub const LED_BRIGHTNESS_DEFAULT: u32 = 50;

/// Largest CO2 value of the carrier attribute, in ppm.
pub const CO2_MAX_PPM: i16 = 32700;

/// Time before another attempt to join a network, in milliseconds.
pub const STEERING_RETRY_MS: u32 = 1000;

pub const MANUFACTURER: &'static str = "Espressif";

pub const MODEL: &'static str = "Co2Sensor";

pub const DESC_INTERVAL: &'static str = "Report interval";

pub const DESC_BRIGHTNESS: &'static str = "LED brightness";

/// A signal of the Zigbee stack.
#[derive(Clone, Copy, Debug, PartialEq, Eq, Structural)]
pub enum Signal {
    SkipStartup,
    DeviceFirstStart,
    DeviceReboot,
    Steering,
    Leave,
    Other,
}

/// A mode of top-level commissioning.
#[derive(Clone, Copy, Debug, PartialEq, Eq, Structural)]
pub enum Commissioning {
    Initialization,
    NetworkSteering,
}

/// What a signal asks for.
#[derive(Clone, Copy, Debug, PartialEq, Eq, Structural)]
pub enum SignalAction {
    Nothing,
    /// Start top-level commissioning.
    Start(Commissioning),
    /// Call [`retry_steering`] after so many milliseconds.
    RetrySteering { after_ms: u32 },
}

/// What a signal asks for, and whether the device is in a network from then
/// on.
#[derive(Clone, Copy, Debug, PartialEq, Eq, Structural)]
pub struct SignalOutcome {
    pub action: SignalAction,
    pub connected: bool,
}

/// What a signal asks for, given its status (0 is success).
pub open spec fn action_for(signal: Signal, status: i32) -> SignalAction {
    match signal {
        Signal::SkipStartup => SignalAction::Start(Commissioning::Initialization),
        Signal::DeviceFirstStart | Signal::DeviceReboot => if status == 0 {
            SignalAction::Start(Commissioning::NetworkSteering)
        } else {
            SignalAction::Start(Commissioning::Initialization)
        },
        Signal::Steering => if status == 0 {
            SignalAction::Nothing
        } else {
            SignalAction::RetrySteering { after_ms: STEERING_RETRY_MS }
        },
        Signal::Leave | Signal::Other => SignalAction::Nothing,
    }
}

/// Whether the device is in a network after a signal.
pub open spec fn connected_after(signal: Signal, status: i32, connected: bool) -> bool {
    match signal {
        Signal::Steering => status == 0 || connected,
        Signal::Leave => false,
        _ => connected,
    }
}

/// Handles one signal of the stack.
pub fn esp_zb_app_signal_handler(signal: Signal, status: i32, connected: bool) -> (outcome:
    SignalOutcome)
    ensures
        outcome.action == action_for(signal, status),
        outcome.connected == connected_after(signal, status, connected),
        signal == Signal::SkipStartup ==> outcome.action == SignalAction::Start(
            Commissioning::Initialization,
        ),
        signal == Signal::DeviceFirstStart || signal == Signal::DeviceReboot ==> outcome.action
            == SignalAction::Start(
            if status == 0 {
                Commissioning::NetworkSteering
            } else {
                Commissioning::Initialization
            },
        ),
        signal == Signal::Steering && status == 0 ==> outcome.action == SignalAction::Nothing
            && outcome.connected,
        signal == Signal::Steering && status != 0 ==> outcome.action
            == (SignalAction::RetrySteering { after_ms: 1000 }),
        signal == Signal::Leave ==> outcome.action == SignalAction::Nothing && !outcome.connected,
        signal == Signal::Other ==> outcome.action == SignalAction::Nothing,
        !(signal == Signal::Steering && status == 0) && signal != Signal::Leave
            ==> outcome.connected
            == connected,
{
    let ok: bool = status == 0;
    match signal {
        Signal::SkipStartup => SignalOutcome {
            action: SignalAction::Start(Commissioning::Initialization),
            connected,
        },
        Signal::DeviceFirstStart | Signal::DeviceReboot => {
            if ok {
                SignalOutcome {
                    action: SignalAction::Start(Commissioning::NetworkSteering),
                    connected,
                }
            } else {
                SignalOutcome {
                    action: SignalAction::Start(Commissioning::Initialization),
                    connected,
                }
            }
        },
        Signal::Steering => {
            if ok {
                SignalOutcome { action: SignalAction::Nothing, connected: true }
            } else {
                SignalOutcome {
                    action: SignalAction::RetrySteering { after_ms: STEERING_RETRY_MS },
                    connected,
                }
            }
        },
        Signal::Leave => SignalOutcome { action: SignalAction::Nothing, connected: false },
        Signal::Other => SignalOutcome { action: SignalAction::Nothing, connected },
    }
}

/// What a scheduled retry starts.
pub fn retry_steering() -> (mode: Commissioning)
    ensures
        mode == Commissioning::NetworkSteering,
{
    Commissioning::NetworkSteering
}

/// What each signal leads to: the startup signal to initialization, a started
/// device to a search for a network, a failed start to initialization again,
/// a failed search to another one a second later. Joining connects, leaving
/// disconnects, and nothing else changes the connection.
pub proof fn signals_lead_on(signal: Signal, status: i32, connected: bool)
    ensures
        signal == Signal::SkipStartup ==> action_for(signal, status) == SignalAction::Start(
            Commissioning::Initialization,
        ),
        signal == Signal::DeviceFirstStart || signal == Signal::DeviceReboot ==> action_for(signal,
            status)
            == SignalAction::Start(
            if status == 0 {
                Commissioning::NetworkSteering
            } else {
                Commissioning::Initialization
            },
        ),
        signal == Signal::Steering && status == 0 ==> action_for(signal, status)
            == SignalAction::Nothing
            && connected_after(signal, status, connected),
        signal == Signal::Steering && status != 0 ==> action_for(signal, status)
            == (SignalAction::RetrySteering { after_ms: 1000 }),
        signal == Signal::Leave ==> action_for(signal, status) == SignalAction::Nothing
            && !connected_after(signal, status, connected),
        signal == Signal::Other ==> action_for(signal, status) == SignalAction::Nothing,
        !(signal == Signal::Steering && status == 0) && signal != Signal::Leave
            ==> connected_after(signal, status, connected)
            == connected,
{
}

/// A device that fails to start or to join always tries again.
pub proof fn failures_are_retried(signal: Signal, status: i32)
    requires
        status != 0,
        signal == Signal::DeviceFirstStart || signal == Signal::DeviceReboot || signal
            == Signal::Steering,
    ensures
        action_for(signal, status) != SignalAction::Nothing,
{
}

/// Only a successful join puts the device into a network, and only leaving
/// takes it out.
pub proof fn only_joining_connects(signal: Signal, status: i32)
    ensures
        connected_after(signal, status, false) <==> signal == Signal::Steering && status == 0,
        !connected_after(signal, status, true) <==> signal == Signal::Leave,
{
}

/// A ZCL cluster that the device knows of.
#[derive(Clone, Copy, Debug, PartialEq, Eq, Structural)]
pub enum ClusterId {
    TempMeasurement,
    AnalogOutput,
    Other,
}

/// An attribute of a cluster that the device knows of.
#[derive(Clone, Copy, Debug, PartialEq, Eq, Structural)]
pub enum AttributeId {
    /// The measured value of Temperature Measurement.
    MeasuredValue,
    /// The present value of Analog Output.
    PresentValue,
    Other,
}

/// What a callback of the stack is about.
#[derive(Clone, Copy, Debug, PartialEq, Eq, Structural)]
pub enum Callback {
    /// An attribute was written over the air.
    SetAttributeValue(AttributeWrite),
    Other,
}

/// An attribute written over the air. The value is missing if the stack gave
/// none; otherwise it has been cut to a whole number.
#[derive(Clone, Copy, Debug, PartialEq, Eq, Structural)]
pub struct AttributeWrite {
    pub endpoint: u8,
    pub cluster: ClusterId,
    pub attribute: AttributeId,
    pub value: Option<u32>,
}

/// What can be set over the air.
#[derive(Clone, Copy, Debug, PartialEq, Eq, Structural)]
pub struct Settings {
    pub report_interval_s: u32,
    pub led_brightness: u32,
}

/// `value`, or the nearer end of the range from `min` to `max`.
pub open spec fn clamped(value: u32, min: u32, max: u32) -> u32 {
    if value < min {
        min
    } else if value > max {
        max
    } else {
        value
    }
}

impl Settings {
    /// The settings are always within the bounds that the endpoints declare.
    pub open spec fn wf(self) -> bool {
        &&& INTERVAL_MIN_S <= self.report_interval_s <= INTERVAL_MAX_S
        &&& self.led_brightness <= BRIGHTNESS_MAX
    }

    /// The settings after a callback. A write of the present value of one of
    /// the two Analog Output endpoints sets what that endpoint stands for;
    /// all else is ignored.
    pub open spec fn after(self, callback: Callback) -> Settings {
        match callback {
            Callback::SetAttributeValue(write) if write.cluster == ClusterId::AnalogOutput
                && write.attribute == AttributeId::PresentValue => match write.value {
                Some(value) => if write.endpoint == INTERVAL_ENDPOINT {
                    Settings {
                        report_interval_s: clamped(value, INTERVAL_MIN_S, INTERVAL_MAX_S),
                        ..self
                    }
                } else if write.endpoint == BRIGHTNESS_ENDPOINT {
                    Settings { led_brightness: clamped(value, 0, BRIGHTNESS_MAX), ..self }
                } else {
                    self
                },
                None => self,
            },
            _ => self,
        }
    }

    /// The settings at power-on.
    pub fn power_on() -> (settings: Settings)
        ensures
            settings == (Settings {
                report_interval_s: INTERVAL_DEFAULT_S,
                led_brightness: LED_BRIGHTNESS_DEFAULT,
            }),
            settings.wf(),
            settings.report_interval_s == 30,
            settings.led_brightness == 50,
    {
        Settings {
            report_interval_s: INTERVAL_DEFAULT_S,
            led_brightness: LED_BRIGHTNESS_DEFAULT,
        }
    }
}

/// Handles one callback of the stack. Its status is always 0, success.
pub fn zb_action_handler(settings: &mut Settings, callback: Callback) -> (status: i32)
    ensures
        status == 0,
        *final(settings) == old(settings).after(callback),
        old(settings).wf() ==> final(settings).wf(),
        callback matches Callback::SetAttributeValue(write) ==> {
            let meant = write.cluster == ClusterId::AnalogOutput && write.attribute
                == AttributeId::PresentValue && write.value is Some;
            let value = write.value.unwrap();
            &&& meant && write.endpoint == 2 ==> {
                &&& final(settings).led_brightness == old(settings).led_brightness
                &&& 10 <= final(settings).report_interval_s <= 300
                &&& 10 <= value <= 300 ==> final(settings).report_interval_s == value
                &&& value < 10 ==> final(settings).report_interval_s == 10
                &&& value > 300 ==> final(settings).report_interval_s == 300
            }
            &&& meant && write.endpoint == 3 ==> {
                &&& final(settings).report_interval_s == old(settings).report_interval_s
                &&& value <= 100 ==> final(settings).led_brightness == value
                &&& value > 100 ==> final(settings).led_brightness == 100
            }
            &&& !meant || (write.endpoint != 2 && write.endpoint != 3) ==> *final(settings) == *old(
                settings,
            )
        },
        callback is Other ==> *final(settings) == *old(settings),
{
    if let Callback::SetAttributeValue(write) = callback {
        if write.cluster == ClusterId::AnalogOutput && write.attribute
            == AttributeId::PresentValue {
            if let Some(value) = write.value {
                if write.endpoint == INTERVAL_ENDPOINT {
                    settings.report_interval_s = if value < INTERVAL_MIN_S {
                        INTERVAL_MIN_S
                    } else if value > INTERVAL_MAX_S {
                        INTERVAL_MAX_S
                    } else {
                        value
                    };
                } else if write.endpoint == BRIGHTNESS_ENDPOINT {
                    settings.led_brightness = if value > BRIGHTNESS_MAX {
                        BRIGHTNESS_MAX
                    } else {
                        value
                    };
                }
            }
        }
    }
    0
}

/// What a write sets: endpoint 2 the report interval, between 10 and 300 s,
/// endpoint 3 the brightness, up to 100 percent. A value beyond the bounds
/// counts as the nearer one, a larger value never sets less, and whatever is
/// not a present value of Analog Output sets nothing.
pub proof fn writes_set_the_settings(settings: Settings, write: AttributeWrite, more: u32)
    requires
        write.value is Some ==> write.value.unwrap() <= more,
    ensures
        ({
            let next = settings.after(Callback::SetAttributeValue(write));
            let other = settings.after(
                Callback::SetAttributeValue(AttributeWrite { value: Some(more), ..write }),
            );
            let meant = write.cluster == ClusterId::AnalogOutput && write.attribute
                == AttributeId::PresentValue && write.value is Some;
            let value = write.value.unwrap();
            &&& meant && write.endpoint == 2 ==> {
                &&& next.led_brightness == settings.led_brightness
                &&& 10 <= next.report_interval_s <= 300
                &&& 10 <= value <= 300 ==> next.report_interval_s == value
                &&& next.report_interval_s <= other.report_interval_s
            }
            &&& meant && write.endpoint == 3 ==> {
                &&& next.report_interval_s == settings.report_interval_s
                &&& next.led_brightness <= 100
                &&& value <= 100 ==> next.led_brightness == value
                &&& next.led_brightness <= other.led_brightness
            }
            &&& !meant || (write.endpoint != 2 && write.endpoint != 3) ==> next == settings
            &&& settings.after(Callback::Other) == settings
        }),
{
}

/// A value within the declared bounds is taken as it is, and a write to one
/// endpoint leaves the other setting alone.
pub proof fn accepted_values_are_kept(settings: Settings, endpoint: u8, value: u32)
    ensures
        ({
            let write = AttributeWrite {
                endpoint,
                cluster: ClusterId::AnalogOutput,
                attribute: AttributeId::PresentValue,
                value: Some(value),
            };
            let next = settings.after(Callback::SetAttributeValue(write));
            &&& endpoint == INTERVAL_ENDPOINT && INTERVAL_MIN_S <= value <= INTERVAL_MAX_S
                ==> next.report_interval_s == value
            &&& endpoint == BRIGHTNESS_ENDPOINT && value <= BRIGHTNESS_MAX ==> next.led_brightness
                == value
            &&& endpoint != INTERVAL_ENDPOINT ==> next.report_interval_s
                == settings.report_interval_s
            &&& endpoint != BRIGHTNESS_ENDPOINT ==> next.led_brightness == settings.led_brightness
        }),
{
}

/// The settings are within their bounds from power-on, whatever is written.
pub proof fn settings_stay_in_bounds(settings: Settings, callbacks: Seq<Callback>)
    requires
        settings.wf(),
    ensures
        callbacks.fold_left(settings, |s: Settings, c: Callback| s.after(c)).wf(),
    decreases callbacks.len(),
{
    if callbacks.len() > 0 {
        settings_stay_in_bounds(settings, callbacks.drop_last());
    }
}

/// A text as a ZCL character string: one byte with its length, then its
/// bytes.
pub open spec fn zcl_text(text: Seq<char>) -> Seq<u8> {
    seq![encode_utf8(text).len() as u8] + encode_utf8(text)
}

/// A text as a ZCL character string.
pub fn zcl_string(text: &str) -> (bytes: Vec<u8>)
    requires
        encode_utf8(text@).len() < 255,
    ensures
        bytes@ == zcl_text(text@),
        bytes@[0] == bytes@.len() - 1,
        bytes@.skip(1) == encode_utf8(text@),
{
    let body = text.as_bytes();
    let mut bytes: Vec<u8> = Vec::new();
    bytes.push(body.len() as u8);
    let mut i: usize = 0;
    while i < body.len()
        invariant
            i <= body@.len(),
            body@ == encode_utf8(text@),
            bytes@ == seq![body@.len() as u8] + body@.take(i as int),
        decreases body@.len() - i,
    {
        bytes.push(body[i]);
        i += 1;
        assert(body@.take(i as int) =~= body@.take(i - 1).push(body@[i - 1]));
    }
    assert(body@.take(i as int) =~= body@);
    assert(bytes@.skip(1) =~= body@);
    bytes
}

/// A ZCL character string is the text's bytes behind their number.
pub proof fn zcl_text_is_counted(text: Seq<char>)
    requires
        encode_utf8(text).len() < 255,
    ensures
        zcl_text(text).len() == 1 + encode_utf8(text).len(),
        zcl_text(text)[0] == encode_utf8(text).len(),
        zcl_text(text).skip(1) == encode_utf8(text),
{
    assert(zcl_text(text).skip(1) =~= encode_utf8(text));
}

/// A cluster of an endpoint, in the server role, with what its attributes
/// start at.
#[derive(Debug)]
pub enum Cluster {
    Basic {
        zcl_version: u8,
        /// ZCL power source; 4 is a DC source.
        power_source: u8,
        manufacturer: Vec<u8>,
        model: Vec<u8>,
        app_version: u8,
        sw_build_id: Vec<u8>,
        date_code: Vec<u8>,
    },
    Identify { identify_time: u16 },
    TemperatureMeasurement { measured_value: i16, min_value: i16, max_value: i16 },
    /// The numbers are those that the single-precision attributes hold.
    AnalogOutput {
        out_of_service: bool,
        present_value: u32,
        status_flags: u8,
        description: Vec<u8>,
        min_present_value: u32,
        max_present_value: u32,
    },
}

/// A [`Cluster`] as a mathematical value.
#[verifier::ext_equal]
pub enum ClusterModel {
    Basic {
        zcl_version: u8,
        power_source: u8,
        manufacturer: Seq<u8>,
        model: Seq<u8>,
        app_version: u8,
        sw_build_id: Seq<u8>,
        date_code: Seq<u8>,
    },
    Identify { identify_time: u16 },
    TemperatureMeasurement { measured_value: i16, min_value: i16, max_value: i16 },
    AnalogOutput {
        out_of_service: bool,
        present_value: u32,
        status_flags: u8,
        description: Seq<u8>,
        min_present_value: u32,
        max_present_value: u32,
    },
}

impl View for Cluster {
    type V = ClusterModel;

    open spec fn view(&self) -> ClusterModel {
        match *self {
            Cluster::Basic {
                zcl_version,
                power_source,
                manufacturer,
                model,
                app_version,
                sw_build_id,
                date_code,
            } => ClusterModel::Basic {
                zcl_version,
                power_source,
                manufacturer: manufacturer@,
                model: model@,
                app_version,
                sw_build_id: sw_build_id@,
                date_code: date_code@,
            },
            Cluster::Identify { identify_time } => ClusterModel::Identify { identify_time },
            Cluster::TemperatureMeasurement { measured_value, min_value, max_value } =>
                ClusterModel::TemperatureMeasurement { measured_value, min_value, max_value },
            Cluster::AnalogOutput {
                out_of_service,
                present_value,
                status_flags,
                description,
                min_present_value,
                max_present_value,
            } => ClusterModel::AnalogOutput {
                out_of_service,
                present_value,
                status_flags,
                description: description@,
                min_present_value,
                max_present_value,
            },
        }
    }
}

/// The clusters of an endpoint as mathematical values.
pub open spec fn models(clusters: Seq<Cluster>) -> Seq<ClusterModel> {
    clusters.map_values(|c: Cluster| c@)
}

/// An endpoint of the device.
#[derive(Debug)]
pub struct Endpoint {
    pub endpoint: u8,
    pub profile_id: u16,
    pub device_id: u16,
    pub clusters: Vec<Cluster>,
}

/// An [`Endpoint`] as a mathematical value.
#[verifier::ext_equal]
pub struct EndpointModel {
    pub endpoint: u8,
    pub profile_id: u16,
    pub device_id: u16,
    pub clusters: Seq<ClusterModel>,
}

impl View for Endpoint {
    type V = EndpointModel;

    open spec fn view(&self) -> EndpointModel {
        EndpointModel {
            endpoint: self.endpoint,
            profile_id: self.profile_id,
            device_id: self.device_id,
            clusters: models(self.clusters@),
        }
    }
}

/// Home Automation profile.
pub const HOME_AUTOMATION: u16 = 0x0104;

/// Device id of a temperature sensor.
pub const TEMPERATURE_SENSOR: u16 = 0x0302;

/// Device id of a simple sensor.
pub const SIMPLE_SENSOR: u16 = 0x000C;

/// The Basic cluster of every endpoint. All that it says of the version
/// derives from [`crate::version`].
pub open spec fn basic_cluster() -> ClusterModel {
    ClusterModel::Basic {
        zcl_version: 3,
        power_source: 4,
        manufacturer: zcl_text(MANUFACTURER@),
        model: zcl_text(MODEL@),
        app_version: version::APP_VERSION,
        sw_build_id: zcl_text(
            version_text(version::MAJOR as nat, version::MINOR as nat, version::PATCH as nat),
        ),
        date_code: zcl_text(version::DATE_CODE@),
    }
}

/// The clusters that every endpoint has.
pub open spec fn common_clusters() -> Seq<ClusterModel> {
    seq![basic_cluster(), ClusterModel::Identify { identify_time: 0 }]
}

/// The endpoint of a setting.
pub open spec fn analog_output_endpoint(
    endpoint: u8,
    description: Seq<char>,
    default_value: u32,
    min: u32,
    max: u32,
) -> EndpointModel {
    EndpointModel {
        endpoint,
        profile_id: HOME_AUTOMATION,
        device_id: SIMPLE_SENSOR,
        clusters: common_clusters().push(
            ClusterModel::AnalogOutput {
                out_of_service: false,
                present_value: default_value,
                status_flags: 0,
                description: zcl_text(description),
                min_present_value: min,
                max_present_value: max,
            },
        ),
    }
}

/// The endpoint that carries the CO2 value.
pub open spec fn co2_endpoint() -> EndpointModel {
    EndpointModel {
        endpoint: CO2_ENDPOINT,
        profile_id: HOME_AUTOMATION,
        device_id: TEMPERATURE_SENSOR,
        clusters: common_clusters().push(
            ClusterModel::TemperatureMeasurement {
                measured_value: 0,
                min_value: 0,
                max_value: CO2_MAX_PPM,
            },
        ),
    }
}

/// The clusters that every endpoint has.
pub fn make_basic_identify() -> (clusters: Vec<Cluster>)
    ensures
        models(clusters@) == common_clusters(),
{
    proof {
        reveal_strlit("Espressif");
        reveal_strlit("Co2Sensor");
        reveal_strlit("20260705");
        is_ascii_chars_encode_utf8(MANUFACTURER@);
        is_ascii_chars_encode_utf8(MODEL@);
        is_ascii_chars_encode_utf8(version::DATE_CODE@);
    }
    let build_id = version::string();
    proof {
        build_id_is_short();
    }
    let basic = Cluster::Basic {
        zcl_version: 3,
        power_source: 4,
        manufacturer: zcl_string(MANUFACTURER),
        model: zcl_string(MODEL),
        app_version: version::APP_VERSION,
        sw_build_id: zcl_string(build_id.as_str()),
        date_code: zcl_string(version::DATE_CODE),
    };
    let mut clusters: Vec<Cluster> = Vec::new();
    clusters.push(basic);
    clusters.push(Cluster::Identify { identify_time: 0 });
    assert(models(clusters@) =~= common_clusters());
    clusters
}

proof fn build_id_is_short()
    ensures
        encode_utf8(
            version_text(version::MAJOR as nat, version::MINOR as nat, version::PATCH as nat),
        ).len() < 255,
{
    let text = version_text(version::MAJOR as nat, version::MINOR as nat, version::PATCH as nat);
    reveal_with_fuel(crate::version::decimal, 4);
    assert(is_ascii_chars(text));
    is_ascii_chars_encode_utf8(text);
}

/// The endpoint of a setting with a default value and bounds.
pub fn make_analog_output_ep(
    endpoint: u8,
    description: &str,
    default_value: u32,
    min: u32,
    max: u32,
) -> (ep: Endpoint)
    requires
        encode_utf8(description@).len() < 255,
    ensures
        ep@ == analog_output_endpoint(endpoint, description@, default_value, min, max),
{
    let mut clusters = make_basic_identify();
    let ghost before = clusters@;
    clusters.push(
        Cluster::AnalogOutput {
            out_of_service: false,
            present_value: default_value,
            status_flags: 0,
            description: zcl_string(description),
            min_present_value: min,
            max_present_value: max,
        },
    );
    assert(models(clusters@) =~= models(before).push(clusters@.last()@));
    Endpoint { endpoint, profile_id: HOME_AUTOMATION, device_id: SIMPLE_SENSOR, clusters }
}

/// Where the radio is.
#[derive(Clone, Copy, Debug, PartialEq, Eq, Structural)]
pub enum RadioMode {
    /// The radio of the chip itself.
    Native,
}

/// How a host processor is connected.
#[derive(Clone, Copy, Debug, PartialEq, Eq, Structural)]
pub enum HostMode {
    /// There is none.
    NoHost,
}

/// What the device is in its network.
#[derive(Clone, Copy, Debug, PartialEq, Eq, Structural)]
pub enum Role {
    EndDevice,
}

/// Which channels may be used.
#[derive(Clone, Copy, Debug, PartialEq, Eq, Structural)]
pub enum Channels {
    All,
}

/// One step of bringing up the Zigbee stack.
#[derive(Debug)]
pub enum SetupStep {
    PlatformConfig { radio: RadioMode, host: HostMode },
    Init {
        role: Role,
        install_code_policy: bool,
        /// Time after which a parent forgets the device, in minutes.
        ed_timeout_min: u32,
        keep_alive_ms: u32,
    },
    /// Start with an empty list of endpoints.
    CreateEndpointList,
    /// Add an endpoint to the list.
    AddEndpoint(Endpoint),
    /// Register the device with the list of endpoints.
    RegisterDevice,
    /// Have [`zb_action_handler`] called for every callback.
    RegisterActionHandler,
    SetPrimaryChannels(Channels),
    /// Start the stack.
    Start {
        /// Whether it begins to commission by itself.
        autostart: bool,
    },
    /// Run the main loop of the stack, which never returns.
    MainLoop,
}

/// A [`SetupStep`] as a mathematical value.
#[verifier::ext_equal]
pub enum SetupModel {
    PlatformConfig { radio: RadioMode, host: HostMode },
    Init { role: Role, install_code_policy: bool, ed_timeout_min: u32, keep_alive_ms: u32 },
    CreateEndpointList,
    AddEndpoint(EndpointModel),
    RegisterDevice,
    RegisterActionHandler,
    SetPrimaryChannels(Channels),
    Start { autostart: bool },
    MainLoop,
}

impl View for SetupStep {
    type V = SetupModel;

    open spec fn view(&self) -> SetupModel {
        match *self {
            SetupStep::PlatformConfig { radio, host } => SetupModel::PlatformConfig { radio, host },
            SetupStep::Init { role, install_code_policy, ed_timeout_min, keep_alive_ms } =>
                SetupModel::Init { role, install_code_policy, ed_timeout_min, keep_alive_ms },
            SetupStep::CreateEndpointList => SetupModel::CreateEndpointList,
            SetupStep::AddEndpoint(endpoint) => SetupModel::AddEndpoint(endpoint@),
            SetupStep::RegisterDevice => SetupModel::RegisterDevice,
            SetupStep::RegisterActionHandler => SetupModel::RegisterActionHandler,
            SetupStep::SetPrimaryChannels(channels) => SetupModel::SetPrimaryChannels(channels),
            SetupStep::Start { autostart } => SetupModel::Start { autostart },
            SetupStep::MainLoop => SetupModel::MainLoop,
        }
    }
}

/// The steps of bringing up the Zigbee stack, each once and in this order.
pub open spec fn setup_steps() -> Seq<SetupModel> {
    seq![
        SetupModel::PlatformConfig { radio: RadioMode::Native, host: HostMode::NoHost },
        SetupModel::Init {
            role: Role::EndDevice,
            install_code_policy: false,
            ed_timeout_min: 64,
            keep_alive_ms: 3000,
        },
        SetupModel::CreateEndpointList,
        SetupModel::AddEndpoint(device_endpoints()[0]),
        SetupModel::AddEndpoint(device_endpoints()[1]),
        SetupModel::AddEndpoint(device_endpoints()[2]),
        SetupModel::RegisterDevice,
        SetupModel::RegisterActionHandler,
        SetupModel::SetPrimaryChannels(Channels::All),
        SetupModel::Start { autostart: false },
        SetupModel::MainLoop,
    ]
}

/// The steps that bring up the Zigbee stack and run it. The last of them never
/// returns.
pub fn zigbee_task() -> (steps: Vec<SetupStep>)
    ensures
        steps@.map_values(|s: SetupStep| s@) == setup_steps(),
{
    proof {
        reveal_strlit("Report interval");
        reveal_strlit("LED brightness");
        is_ascii_chars_encode_utf8(DESC_INTERVAL@);
        is_ascii_chars_encode_utf8(DESC_BRIGHTNESS@);
    }
    let mut clusters = make_basic_identify();
    let ghost before = clusters@;
    clusters.push(
        Cluster::TemperatureMeasurement {
            measured_value: 0,
            min_value: 0,
            max_value: CO2_MAX_PPM,
        },
    );
    assert(models(clusters@) =~= models(before).push(clusters@.last()@));
    let co2 = Endpoint {
        endpoint: CO2_ENDPOINT,
        profile_id: HOME_AUTOMATION,
        device_id: TEMPERATURE_SENSOR,
        clusters,
    };
    let interval = make_analog_output_ep(
        INTERVAL_ENDPOINT,
        DESC_INTERVAL,
        INTERVAL_DEFAULT_S,
        INTERVAL_MIN_S,
        INTERVAL_MAX_S,
    );
    let brightness = make_analog_output_ep(
        BRIGHTNESS_ENDPOINT,
        DESC_BRIGHTNESS,
        LED_BRIGHTNESS_DEFAULT,
        0,
        BRIGHTNESS_MAX,
    );
    assert(co2@ =~= co2_endpoint());
    let mut steps: Vec<SetupStep> = Vec::new();
    steps.push(SetupStep::PlatformConfig { radio: RadioMode::Native, host: HostMode::NoHost });
    steps.push(
        SetupStep::Init {
            role: Role::EndDevice,
            install_code_policy: false,
            ed_timeout_min: 64,
            keep_alive_ms: 3000,
        },
    );
    steps.push(SetupStep::CreateEndpointList);
    steps.push(SetupStep::AddEndpoint(co2));
    steps.push(SetupStep::AddEndpoint(interval));
    steps.push(SetupStep::AddEndpoint(brightness));
    steps.push(SetupStep::RegisterDevice);
    steps.push(SetupStep::RegisterActionHandler);
    steps.push(SetupStep::SetPrimaryChannels(Channels::All));
    steps.push(SetupStep::Start { autostart: false });
    steps.push(SetupStep::MainLoop);
    assert(steps@.map_values(|s: SetupStep| s@) =~= setup_steps());
    steps
}

/// Every endpoint is added before the device is registered, the write handler
/// and the channels are set before the stack starts, and nothing comes after
/// the main loop.
pub proof fn setup_comes_before_the_start(i: int)
    requires
        0 <= i < setup_steps().len(),
    ensures
        setup_steps().len() == 11,
        setup_steps()[i] is PlatformConfig <==> i == 0,
        setup_steps()[i] is Init <==> i == 1,
        setup_steps()[i] matches SetupModel::Init {
            install_code_policy,
            ed_timeout_min,
            keep_alive_ms,
            ..
        } ==> !install_code_policy && ed_timeout_min == 64 && keep_alive_ms == 3000,
        setup_steps()[i] is CreateEndpointList <==> i == 2,
        setup_steps()[i] is AddEndpoint <==> 3 <= i < 6,
        setup_steps()[i] is RegisterDevice <==> i == 6,
        setup_steps()[i] is RegisterActionHandler <==> i == 7,
        setup_steps()[i] is SetPrimaryChannels <==> i == 8,
        setup_steps()[i] is Start <==> i == 9,
        setup_steps()[i] matches SetupModel::Start { autostart } ==> !autostart,
        setup_steps()[i] is MainLoop <==> i == setup_steps().len() - 1,
{
}

/// The texts of the device as ZCL character strings, byte by byte.
proof fn device_texts()
    ensures
        zcl_text(MANUFACTURER@) == seq![9u8, 69, 115, 112, 114, 101, 115, 115, 105, 102],
        zcl_text(MODEL@) == seq![9u8, 67, 111, 50, 83, 101, 110, 115, 111, 114],
        zcl_text(DESC_INTERVAL@) == seq![15u8, 82, 101, 112, 111, 114, 116, 32, 105, 110, 116, 101,
            114, 118, 97, 108],
        zcl_text(DESC_BRIGHTNESS@) == seq![14u8, 76, 69, 68, 32, 98, 114, 105, 103, 104, 116, 110,
            101, 115, 115],
        encode_utf8(version::DATE_CODE@).len() < 255,
{
    reveal_strlit("Espressif");
    reveal_strlit("Co2Sensor");
    reveal_strlit("Report interval");
    reveal_strlit("LED brightness");
    reveal_strlit("20260705");
    is_ascii_chars_encode_utf8(MANUFACTURER@);
    is_ascii_chars_encode_utf8(MODEL@);
    is_ascii_chars_encode_utf8(DESC_INTERVAL@);
    is_ascii_chars_encode_utf8(DESC_BRIGHTNESS@);
    is_ascii_chars_encode_utf8(version::DATE_CODE@);
    assert(zcl_text(MANUFACTURER@) =~= seq![9u8, 69, 115, 112, 114, 101, 115, 115, 105, 102]);
    assert(zcl_text(MODEL@) =~= seq![9u8, 67, 111, 50, 83, 101, 110, 115, 111, 114]);
    assert(zcl_text(DESC_INTERVAL@) =~= seq![15u8, 82, 101, 112, 111, 114, 116, 32, 105, 110, 116,
        101, 114, 118, 97, 108]);
    assert(zcl_text(DESC_BRIGHTNESS@) =~= seq![14u8, 76, 69, 68, 32, 98, 114, 105, 103, 104, 116,
        110, 101, 115, 115]);
}

/// Every endpoint tells what it belongs to: its first two clusters are one
/// Basic cluster, with the manufacturer, the model and the version of the
/// firmware, and one Identify cluster.
pub proof fn common_clusters_name_the_device(rest: ClusterModel)
    ensures
        ({
            let clusters = common_clusters().push(rest);
            &&& clusters.len() == 3
            &&& clusters[0] matches ClusterModel::Basic {
                zcl_version,
                power_source,
                manufacturer,
                model,
                app_version,
                sw_build_id,
                date_code,
            }
            &&& zcl_version == 3 && power_source == 4
            &&& manufacturer == seq![9u8, 69, 115, 112, 114, 101, 115, 115, 105, 102]
            &&& model == seq![9u8, 67, 111, 50, 83, 101, 110, 115, 111, 114]
            &&& app_version == 10 * version::MAJOR + version::MINOR
            &&& sw_build_id[0] == sw_build_id.len() - 1
            &&& sw_build_id.skip(1) == encode_utf8(
                version_text(version::MAJOR as nat, version::MINOR as nat, version::PATCH as nat),
            )
            &&& date_code[0] == date_code.len() - 1
            &&& date_code.skip(1) == encode_utf8(version::DATE_CODE@)
            &&& clusters[1] == (ClusterModel::Identify { identify_time: 0 })
            &&& clusters[2] == rest
        }),
{
    device_texts();
    build_id_is_short();
    zcl_text_is_counted(
        version_text(version::MAJOR as nat, version::MINOR as nat, version::PATCH as nat),
    );
    zcl_text_is_counted(version::DATE_CODE@);
}

/// The endpoint of a setting has the number, the description, the default and
/// the bounds that were asked for, in one Analog Output cluster behind the
/// clusters that every endpoint has.
pub proof fn setting_endpoint_has_its_bounds(
    endpoint: u8,
    description: Seq<char>,
    default_value: u32,
    min: u32,
    max: u32,
)
    requires
        encode_utf8(description).len() < 255,
    ensures
        ({
            let ep = analog_output_endpoint(endpoint, description, default_value, min, max);
            &&& ep.endpoint == endpoint && ep.profile_id == 0x0104 && ep.device_id == 0x000C
            &&& ep.clusters.len() == 3
            &&& ep.clusters[0] is Basic && ep.clusters[1] is Identify
            &&& ep.clusters[2] matches ClusterModel::AnalogOutput {
                out_of_service,
                present_value,
                status_flags,
                description: text,
                min_present_value,
                max_present_value,
            }
            &&& !out_of_service && status_flags == 0
            &&& present_value == default_value && min_present_value == min && max_present_value
                == max
            &&& text[0] == text.len() - 1 && text.skip(1) == encode_utf8(description)
        }),
{
    zcl_text_is_counted(description);
}

/// The device has three endpoints. Each that the setup adds has one Basic
/// cluster, with the names and the version, one Identify cluster, and one
/// more: the CO2 carrier on endpoint 1, the report interval on 2, the
/// brightness on 3.
pub proof fn every_endpoint_is_described(i: int)
    requires
        0 <= i < setup_steps().len(),
    ensures
        setup_steps()[i] is AddEndpoint <==> 3 <= i <= 5,
        setup_steps()[i] matches SetupModel::AddEndpoint(ep) ==> {
            let clusters = ep.clusters;
            &&& ep.endpoint == i - 2 && ep.profile_id == 0x0104
            &&& clusters.len() == 3
            &&& clusters[0] matches ClusterModel::Basic {
                zcl_version,
                power_source,
                manufacturer,
                model,
                app_version,
                sw_build_id,
                date_code,
            }
            &&& zcl_version == 3 && power_source == 4
            &&& manufacturer == seq![9u8, 69, 115, 112, 114, 101, 115, 115, 105, 102]
            &&& model == seq![9u8, 67, 111, 50, 83, 101, 110, 115, 111, 114]
            &&& app_version == 10 * version::MAJOR + version::MINOR
            &&& sw_build_id[0] == sw_build_id.len() - 1
            &&& sw_build_id.skip(1) == encode_utf8(
                version_text(version::MAJOR as nat, version::MINOR as nat, version::PATCH as nat),
            )
            &&& date_code[0] == date_code.len() - 1
            &&& date_code.skip(1) == encode_utf8(version::DATE_CODE@)
            &&& clusters[1] == (ClusterModel::Identify { identify_time: 0 })
            &&& ep.endpoint == 1 ==> ep.device_id == 0x0302 && clusters[2]
                == (ClusterModel::TemperatureMeasurement {
                measured_value: 0,
                min_value: 0,
                max_value: 32700,
            })
            &&& ep.endpoint == 2 ==> ep.device_id == 0x000C && clusters[2]
                == (ClusterModel::AnalogOutput {
                out_of_service: false,
                present_value: 30,
                status_flags: 0,
                description: seq![15u8, 82, 101, 112, 111, 114, 116, 32, 105, 110, 116, 101, 114,
                    118, 97, 108],
                min_present_value: 10,
                max_present_value: 300,
            })
            &&& ep.endpoint == 3 ==> ep.device_id == 0x000C && clusters[2]
                == (ClusterModel::AnalogOutput {
                out_of_service: false,
                present_value: 50,
                status_flags: 0,
                description: seq![14u8, 76, 69, 68, 32, 98, 114, 105, 103, 104, 116, 110, 101, 115,
                    115],
                min_present_value: 0,
                max_present_value: 100,
            })
        },
{
    device_texts();
    if let SetupModel::AddEndpoint(ep) = setup_steps()[i] {
        common_clusters_name_the_device(ep.clusters[2]);
        assert(ep.clusters =~= common_clusters().push(ep.clusters[2]));
    }
}

/// Steps, endpoints and clusters stand for themselves: their mathematical
/// values leave nothing out and change nothing.
pub proof fn setup_is_literal(step: SetupStep, ep: Endpoint, clusters: Seq<Cluster>, i: int)
    requires
        0 <= i < clusters.len(),
    ensures
        step matches SetupStep::AddEndpoint(e) ==> step@ == SetupModel::AddEndpoint(e@),
        step matches SetupStep::PlatformConfig { radio, host } ==> step@
            == (SetupModel::PlatformConfig { radio, host }),
        step matches SetupStep::Init { role, install_code_policy, ed_timeout_min, keep_alive_ms }
            ==> step@ == (SetupModel::Init {
            role,
            install_code_policy,
            ed_timeout_min,
            keep_alive_ms,
        }),
        step matches SetupStep::SetPrimaryChannels(channels) ==> step@
            == SetupModel::SetPrimaryChannels(channels),
        step matches SetupStep::Start { autostart } ==> step@ == (SetupModel::Start { autostart }),
        step is CreateEndpointList <==> step@ is CreateEndpointList,
        step is RegisterDevice <==> step@ is RegisterDevice,
        step is RegisterActionHandler <==> step@ is RegisterActionHandler,
        step is MainLoop <==> step@ is MainLoop,
        ep@.endpoint == ep.endpoint && ep@.profile_id == ep.profile_id && ep@.device_id
            == ep.device_id,
        ep@.clusters == models(ep.clusters@),
        models(clusters).len() == clusters.len(),
        models(clusters)[i] == clusters[i]@,
        match clusters[i] {
            Cluster::Basic {
                zcl_version,
                power_source,
                manufacturer,
                model,
                app_version,
                sw_build_id,
                date_code,
            } => clusters[i]@ == (ClusterModel::Basic {
                zcl_version,
                power_source,
                manufacturer: manufacturer@,
                model: model@,
                app_version,
                sw_build_id: sw_build_id@,
                date_code: date_code@,
            }),
            Cluster::Identify { identify_time } => clusters[i]@ == (ClusterModel::Identify {
                identify_time,
            }),
            Cluster::TemperatureMeasurement { measured_value, min_value, max_value } => clusters[i]@
                == (ClusterModel::TemperatureMeasurement { measured_value, min_value, max_value }),
            Cluster::AnalogOutput {
                out_of_service,
                present_value,
                status_flags,
                description,
                min_present_value,
                max_present_value,
            } => clusters[i]@ == (ClusterModel::AnalogOutput {
                out_of_service,
                present_value,
                status_flags,
                description: description@,
                min_present_value,
                max_present_value,
            }),
        },
{
}

/// The endpoints of the device.
pub open spec fn device_endpoints() -> Seq<EndpointModel> {
    seq![
        co2_endpoint(),
        analog_output_endpoint(
            INTERVAL_ENDPOINT,
            DESC_INTERVAL@,
            INTERVAL_DEFAULT_S,
            INTERVAL_MIN_S,
            INTERVAL_MAX_S,
        ),
        analog_output_endpoint(
            BRIGHTNESS_ENDPOINT,
            DESC_BRIGHTNESS@,
            LED_BRIGHTNESS_DEFAULT,
            0,
            BRIGHTNESS_MAX,
        ),
    ]
}

/// The value of an attribute.
#[derive(Clone, Copy, Debug, PartialEq, Eq, Structural)]
pub enum AttributeValue {
    Int16(i16),
    /// A single-precision number that is a whole number.
    Single(u32),
}

/// A call of the Zigbee stack.
#[derive(Clone, Copy, Debug, PartialEq, Eq, Structural)]
pub enum StackCall {
    /// Set an attribute of a cluster in the server role.
    SetAttribute {
        endpoint: u8,
        cluster: ClusterId,
        attribute: AttributeId,
        value: AttributeValue,
    },
    ReleaseLock,
}

/// The two's complement INT16 with the bits of `ppm`.
pub open spec fn int16_of(ppm: u16) -> i16 {
    if ppm < 0x8000 {
        ppm as i16
    } else {
        (ppm - 0x1_0000) as i16
    }
}

/// The INT16 that goes out equals the ppm directly, for every value that the
/// carrier attribute declares and up to the largest INT16.
pub proof fn int16_carries_the_ppm(ppm: u16)
    requires
        ppm <= 0x7FFF,
    ensures
        int16_of(ppm) == ppm,
        CO2_MAX_PPM <= 0x7FFF,
{
}

/// The calls that publish a CO2 value, after an attempt to get the Zigbee
/// lock. Without the lock there are none; with it, it is given back at the
/// end. To be used only while the device is in a network.
pub fn report_co2(ppm: u16, locked: bool) -> (calls: Vec<StackCall>)
    ensures
        calls@ == co2_calls(ppm, locked),
        !locked ==> calls@.len() == 0,
        locked ==> {
            &&& calls@.len() == 2
            &&& calls@[1] == StackCall::ReleaseLock
            &&& match calls@[0] {
                StackCall::SetAttribute {
                    endpoint,
                    cluster,
                    attribute,
                    value: AttributeValue::Int16(v),
                } => {
                    &&& endpoint == 1
                    &&& cluster == ClusterId::TempMeasurement
                    &&& attribute == AttributeId::MeasuredValue
                    &&& v == if ppm <= 32767 {
                        ppm as int
                    } else {
                        ppm - 65536
                    }
                },
                _ => false,
            }
        },
{
    let mut calls: Vec<StackCall> = Vec::new();
    if !locked {
        assert(calls@ =~= co2_calls(ppm, locked));
        return calls;
    }
    let value: i16 = if ppm < 0x8000 {
        ppm as i16
    } else {
        (ppm as i32 - 0x1_0000) as i16
    };
    calls.push(
        StackCall::SetAttribute {
            endpoint: CO2_ENDPOINT,
            cluster: ClusterId::TempMeasurement,
            attribute: AttributeId::MeasuredValue,
            value: AttributeValue::Int16(value),
        },
    );
    calls.push(StackCall::ReleaseLock);
    assert(calls@ =~= co2_calls(ppm, locked));
    calls
}

/// The calls that publish a CO2 value.
pub open spec fn co2_calls(ppm: u16, locked: bool) -> Seq<StackCall> {
    if locked {
        seq![
            StackCall::SetAttribute {
                endpoint: CO2_ENDPOINT,
                cluster: ClusterId::TempMeasurement,
                attribute: AttributeId::MeasuredValue,
                value: AttributeValue::Int16(int16_of(ppm)),
            },
            StackCall::ReleaseLock,
        ]
    } else {
        Seq::empty()
    }
}

/// With the lock, the calls that publish a CO2 value set one attribute, the
/// measured value on endpoint 1, and what they set it to is the ppm itself, as
/// a number, for every value that an INT16 holds. So different values go out
/// as different calls. Without the lock nothing is called.
pub proof fn co2_goes_out_as_itself(ppm: u16, other: u16)
    requires
        ppm <= 32767,
        other <= 32767,
    ensures
        ({
            let calls = co2_calls(ppm, true);
            &&& calls.len() == 2
            &&& match calls[0] {
                StackCall::SetAttribute {
                    endpoint,
                    cluster,
                    attribute,
                    value: AttributeValue::Int16(v),
                } => {
                    &&& endpoint == 1
                    &&& cluster == ClusterId::TempMeasurement
                    &&& attribute == AttributeId::MeasuredValue
                    &&& v == ppm
                },
                _ => false,
            }
            &&& calls[1] == StackCall::ReleaseLock
        }),
        co2_calls(ppm, true) == co2_calls(other, true) <==> ppm == other,
        co2_calls(ppm, false).len() == 0,
{
    let calls = co2_calls(ppm, true);
    let others = co2_calls(other, true);
    assert(calls[0] == others[0] <==> ppm == other);
}

/// The call that publishes a setting on its endpoint.
pub open spec fn setting_call(endpoint: u8, value: u32) -> StackCall {
    StackCall::SetAttribute {
        endpoint,
        cluster: ClusterId::AnalogOutput,
        attribute: AttributeId::PresentValue,
        value: AttributeValue::Single(value),
    }
}

/// The calls that publish the settings.
pub open spec fn settings_calls(settings: Settings, locked: bool) -> Seq<StackCall> {
    if locked {
        seq![
            setting_call(INTERVAL_ENDPOINT, settings.report_interval_s),
            setting_call(BRIGHTNESS_ENDPOINT, settings.led_brightness),
            StackCall::ReleaseLock,
        ]
    } else {
        Seq::empty()
    }
}

/// The calls that publish the current settings, after an attempt to get the
/// Zigbee lock.
pub fn report_settings(settings: &Settings, locked: bool) -> (calls: Vec<StackCall>)
    ensures
        calls@ == settings_calls(*settings, locked),
        !locked ==> calls@.len() == 0,
        locked ==> {
            &&& calls@.len() == 3
            &&& calls@[0] == (StackCall::SetAttribute {
                endpoint: 2,
                cluster: ClusterId::AnalogOutput,
                attribute: AttributeId::PresentValue,
                value: AttributeValue::Single(settings.report_interval_s),
            })
            &&& calls@[1] == (StackCall::SetAttribute {
                endpoint: 3,
                cluster: ClusterId::AnalogOutput,
                attribute: AttributeId::PresentValue,
                value: AttributeValue::Single(settings.led_brightness),
            })
            &&& calls@[2] == StackCall::ReleaseLock
        },
{
    let mut calls: Vec<StackCall> = Vec::new();
    if !locked {
        assert(calls@ =~= settings_calls(*settings, locked));
        return calls;
    }
    calls.push(
        StackCall::SetAttribute {
            endpoint: INTERVAL_ENDPOINT,
            cluster: ClusterId::AnalogOutput,
            attribute: AttributeId::PresentValue,
            value: AttributeValue::Single(settings.report_interval_s),
        },
    );
    calls.push(
        StackCall::SetAttribute {
            endpoint: BRIGHTNESS_ENDPOINT,
            cluster: ClusterId::AnalogOutput,
            attribute: AttributeId::PresentValue,
            value: AttributeValue::Single(settings.led_brightness),
        },
    );
    calls.push(StackCall::ReleaseLock);
    assert(calls@ =~= settings_calls(*settings, locked));
    calls
}

/// With the lock, the settings go out as they are: the interval on endpoint 2,
/// the brightness on endpoint 3, and the lock is given back.
pub proof fn settings_go_out_as_they_are(settings: Settings)
    ensures
        ({
            let calls = settings_calls(settings, true);
            &&& calls.len() == 3
            &&& match calls[0] {
                StackCall::SetAttribute {
                    endpoint,
                    cluster,
                    attribute,
                    value: AttributeValue::Single(v),
                } => {
                    &&& endpoint == 2
                    &&& cluster == ClusterId::AnalogOutput
                    &&& attribute == AttributeId::PresentValue
                    &&& v == settings.report_interval_s
                },
                _ => false,
            }
            &&& match calls[1] {
                StackCall::SetAttribute {
                    endpoint,
                    cluster,
                    attribute,
                    value: AttributeValue::Single(v),
                } => {
                    &&& endpoint == 3
                    &&& cluster == ClusterId::AnalogOutput
                    &&& attribute == AttributeId::PresentValue
                    &&& v == settings.led_brightness
                },
                _ => false,
            }
            &&& calls[2] == StackCall::ReleaseLock
        }),
        settings_calls(settings, false).len() == 0,
{
}

/// Whether a sequence of calls keeps the rule of the lock: without it nothing
/// is called; with it, it is released once, after everything else.
pub open spec fn keeps_the_lock_rule(calls: Seq<StackCall>, locked: bool) -> bool {
    if locked {
        &&& calls.len() > 0
        &&& forall|i: int|
            0 <= i < calls.len() ==> ((#[trigger] calls[i] == StackCall::ReleaseLock) <==> i
                == calls.len() - 1)
    } else {
        calls.len() == 0
    }
}

/// Attributes are set only while the Zigbee lock is held, and the lock is
/// always released.
pub proof fn reports_keep_the_lock_rule(ppm: u16, settings: Settings, locked: bool)
    ensures
        keeps_the_lock_rule(co2_calls(ppm, locked), locked),
        keeps_the_lock_rule(settings_calls(settings, locked), locked),
{
}

/// What an endpoint publishes of a setting is what a write of that value to
/// the endpoint would set: publishing and writing back changes nothing.
pub proof fn published_settings_read_back(settings: Settings)
    requires
        settings.wf(),
    ensures
        ({
            let interval = AttributeWrite {
                endpoint: INTERVAL_ENDPOINT,
                cluster: ClusterId::AnalogOutput,
                attribute: AttributeId::PresentValue,
                value: Some(settings.report_interval_s),
            };
            let brightness = AttributeWrite {
                endpoint: BRIGHTNESS_ENDPOINT,
                cluster: ClusterId::AnalogOutput,
                attribute: AttributeId::PresentValue,
                value: Some(settings.led_brightness),
            };
            &&& settings.after(Callback::SetAttributeValue(interval)) == settings
            &&& settings.after(Callback::SetAttributeValue(brightness)) == settings
        }),
{
}

} // verus!
