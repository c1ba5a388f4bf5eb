use calaos_core::io_config::{Home, Input, InputKind, IoConfig, Output, OutputKind, Room, WagoIO, WagoIOUpDown};
use calaos_core::io_context::{IOData, IODataAction};
use calaos_core::io_value::{IOAction, IOValue, ShutterState};
use calaos_core::mqtt::{
    availability_topic, classify_message, command_action, command_subscription, command_target, command_topic,
    discovery_configs, encode_state_string, entity_availability_topics, handle_command,
    state_message, Component, Incoming, MqttConfig, discovery_fields, availability_entries, device_fields,
};

fn wago(var: u32) -> WagoIO {
    WagoIO { host: "192.168.1.1".to_string(), port: "502".to_string(), var }
}

fn config() -> IoConfig {
    IoConfig {
        home: Home {
            rooms: vec![Room {
                name: "kit".to_string(),
                typer: "kitchen".to_string(),
                inputs: vec![Input {
                    name: "switch".to_string(),
                    id: "input_0".to_string(),
                    io_type: "input".to_string(),
                    kind: InputKind::WIDigitalLong(wago(3)),
                    gui_type: "switch_long".to_string(),
                    visible: false,
                    rw: false,
                }],
                outputs: vec![
                    Output {
                        name: "light".to_string(),
                        id: "output_0".to_string(),
                        io_type: "output".to_string(),
                        kind: OutputKind::WODigital(wago(36)),
                        gui_type: "light".to_string(),
                        visible: true,
                        rw: false,
                    },
                    Output {
                        name: "shutter".to_string(),
                        id: "output_14".to_string(),
                        io_type: "output".to_string(),
                        kind: OutputKind::WOShutter(WagoIOUpDown {
                            host: "192.168.1.1".to_string(),
                            port: "502".to_string(),
                            var_up: 40,
                            var_down: 41,
                            time: 25,
                        }),
                        gui_type: "shutter".to_string(),
                        visible: true,
                        rw: false,
                    },
                ],
                internals: vec![],
                hits: 0,
            }],
        },
    }
}

#[test]
fn encode_state_switch_and_cover() {
    assert_eq!(encode_state_string(&IOValue::Bool(true)), "ON");
    assert_eq!(encode_state_string(&IOValue::Bool(false)), "OFF");
    assert_eq!(encode_state_string(&IOValue::Int(42)), "42");
    assert_eq!(encode_state_string(&IOValue::String("x".into())), "x");
    assert_eq!(encode_state_string(&IOValue::Shutter(ShutterState::Up)), "open");
    assert_eq!(encode_state_string(&IOValue::Shutter(ShutterState::Down)), "closed");
    assert_eq!(encode_state_string(&IOValue::Shutter(ShutterState::MovingUp)), "opening");
    assert_eq!(encode_state_string(&IOValue::Shutter(ShutterState::MovingDown)), "closing");
}

#[test]
fn mqtt_config_defaults() {
    let c = MqttConfig::default();
    assert_eq!(c.host, "localhost");
    assert_eq!(c.port, 1883);
    assert_eq!(c.username, None);
    assert_eq!(c.password, None);
    assert_eq!(c.discovery_prefix, "homeassistant");
    assert_eq!(c.node_id, "calaos");
    assert_eq!(c.keep_alive, 30);
}

#[test]
fn topics() {
    assert_eq!(availability_topic("calaos"), "calaos/availability");
    assert_eq!(command_subscription("calaos"), "calaos/set/+");
    let (t, p) = state_message("calaos", &IOData::new("output_0".to_string(), IOValue::Bool(true)));
    assert_eq!(t, "calaos/state/output_0");
    assert_eq!(p, "ON");
    assert_eq!(
        entity_availability_topics(&config(), "calaos"),
        vec![
            "calaos/availability/input_0".to_string(),
            "calaos/availability/output_0".to_string(),
            "calaos/availability/output_14".to_string(),
        ]
    );
}

#[test]
fn command_topics() {
    assert_eq!(command_target("calaos/set/output_0", "calaos"), Some("output_0".to_string()));
    assert_eq!(command_target("calaos/set/a/b", "calaos"), None);
    assert_eq!(command_target("other/set/output_0", "calaos"), None);
    assert_eq!(command_target("calaos/get/output_0", "calaos"), None);
    assert_eq!(command_target("calaos/set/", "calaos"), Some("".to_string()));
    assert_eq!(command_target("cal/aos/set/x", "cal/aos"), None);
}

#[test]
fn command_payloads() {
    assert_eq!(command_action("ON"), Some(IOAction::SetValue(IOValue::Bool(true))));
    assert_eq!(command_action("CLOSE"), Some(IOAction::SetValue(IOValue::Shutter(ShutterState::Down))));
    assert_eq!(command_action("on"), None);
    assert_eq!(
        handle_command("calaos/set/output_0", b"on", "calaos"),
        Some(IODataAction::new("output_0".to_string(), IOAction::SetValue(IOValue::Bool(true))))
    );
    assert_eq!(
        handle_command("calaos/set/output_14", b"Open", "calaos"),
        Some(IODataAction::new(
            "output_14".to_string(),
            IOAction::SetValue(IOValue::Shutter(ShutterState::Up))
        ))
    );
    assert_eq!(
        handle_command("calaos/set/output_14", b"stop", "calaos"),
        Some(IODataAction::new("output_14".to_string(), IOAction::Stop))
    );
    assert_eq!(
        handle_command("calaos/set/output_0", b"toggle", "calaos"),
        Some(IODataAction::new("output_0".to_string(), IOAction::Toggle))
    );
    assert_eq!(handle_command("calaos/set/output_0", b"\xff", "calaos"), None);
    assert_eq!(handle_command("calaos/set/output_0", b"dim", "calaos"), None);
}

#[test]
fn classify_messages() {
    assert_eq!(classify_message("homeassistant/status", b"online", "calaos"), Incoming::Rediscover);
    assert_eq!(classify_message("homeassistant/status", b"offline", "calaos"), Incoming::Ignore);
    assert_eq!(
        classify_message("calaos/set/output_0", b"OFF", "calaos"),
        Incoming::Command(IODataAction::new(
            "output_0".to_string(),
            IOAction::SetValue(IOValue::Bool(false))
        ))
    );
}

#[test]
fn discovery() {
    let c = MqttConfig::default();
    let d = discovery_configs(&config(), &c);
    assert_eq!(d.len(), 3);
    assert_eq!(d[0].component, Component::BinarySensor);
    assert_eq!(d[0].topic, "homeassistant/binary_sensor/calaos/kit_input_0/config");
    assert_eq!(d[0].unique_id, "kit_input_0");
    assert_eq!(d[0].state_topic, "calaos/state/input_0");
    assert_eq!(d[0].command_topic, None);
    assert_eq!(d[0].name, "switch");
    assert_eq!(d[1].component, Component::Switch);
    assert_eq!(d[1].topic, "homeassistant/switch/calaos/kit_output_0/config");
    assert_eq!(d[1].command_topic, Some("calaos/set/output_0".to_string()));
    assert_eq!(d[2].component, Component::Cover);
    assert_eq!(d[2].topic, "homeassistant/cover/calaos/kit_output_14/config");
    assert_eq!(d[2].availability_topic, "calaos/availability");
    assert_eq!(d[2].entity_availability_topic, "calaos/availability/output_14");
    assert_eq!(d[2].node_id, "calaos");
}

#[test]
fn command_topic_round_trip() {
    for id in ["output_0", "input_3", ""] {
        let topic = command_topic("calaos", id);
        assert_eq!(command_target(&topic, "calaos"), Some(id.to_string()));
    }
}

fn pairs(v: &[(&str, &str)]) -> Vec<(String, String)> {
    v.iter().map(|(k, x)| (k.to_string(), x.to_string())).collect()
}

#[test]
fn discovery_documents() {
    let c = MqttConfig::default();
    let d = discovery_configs(&config(), &c);
    assert_eq!(
        discovery_fields(&d[0]),
        pairs(&[
            ("name", "switch"),
            ("unique_id", "kit_input_0"),
            ("state_topic", "calaos/state/input_0"),
            ("payload_on", "ON"),
            ("payload_off", "OFF"),
        ])
    );
    assert_eq!(
        discovery_fields(&d[1])[3..].to_vec(),
        pairs(&[
            ("command_topic", "calaos/set/output_0"),
            ("payload_on", "ON"),
            ("payload_off", "OFF"),
            ("state_on", "ON"),
            ("state_off", "OFF"),
        ])
    );
    let cover = discovery_fields(&d[2]);
    assert_eq!(cover[1], ("unique_id".to_string(), "kit_output_14".to_string()));
    assert_eq!(
        cover[3..].to_vec(),
        pairs(&[
            ("command_topic", "calaos/set/output_14"),
            ("payload_open", "OPEN"),
            ("payload_close", "CLOSE"),
            ("payload_stop", "STOP"),
            ("state_open", "open"),
            ("state_opening", "opening"),
            ("state_closed", "closed"),
            ("state_closing", "closing"),
            ("device_class", "shutter"),
        ])
    );
    assert_eq!(
        availability_entries(&d[2]),
        vec![
            ("calaos/availability".to_string(), "online".to_string(), "offline".to_string()),
            ("calaos/availability/output_14".to_string(), "online".to_string(), "offline".to_string()),
        ]
    );
    assert_eq!(
        device_fields(),
        pairs(&[("name", "Calaos"), ("model", "Calaos Controller"), ("manufacturer", "Calaos")])
    );
}
