use std::collections::HashMap;

use calaos_core::calaos_protocol::{Request, WagoData};
use calaos_core::controller_map::{
    controller_for_output, controller_outputs, make_input_controller_map, make_output_controller_map,
    InputControllerConfig, OutputControllerConfig,
};
use calaos_core::io_config::{Date, Home, Input, InputKind, IoConfig, Output, OutputKind, Room, WagoIO, WagoIOUpDown};
use calaos_core::io_context::{make_output_context_map, IOData, IODataAction};
use calaos_core::io_value::{IOAction, IOValue, ShutterState};
use calaos_core::main_server::{discover_reply, handle_wago_request, make_input_var_map, to_bool};
use calaos_core::task::Task;
use calaos_core::wago_modbus_controller::{
    coil_write_delay, read_address, write_address, InitStep, OutputEffect, WagoOutputController,
};

fn wago(host: &str, port: &str, var: u32) -> WagoIO {
    WagoIO { host: host.to_string(), port: port.to_string(), var }
}

fn input(id: &str, kind: InputKind) -> Input {
    Input {
        name: id.to_string(),
        id: id.to_string(),
        io_type: "input".to_string(),
        kind,
        gui_type: "switch".to_string(),
        visible: true,
        rw: false,
    }
}

fn output(id: &str, kind: OutputKind) -> Output {
    Output {
        name: id.to_string(),
        id: id.to_string(),
        io_type: "output".to_string(),
        kind,
        gui_type: "light".to_string(),
        visible: true,
        rw: false,
    }
}

fn shutter(host: &str, up: u32, down: u32) -> OutputKind {
    OutputKind::WOShutter(WagoIOUpDown {
        host: host.to_string(),
        port: "502".to_string(),
        var_up: up,
        var_down: down,
        time: 25,
    })
}

fn io_config() -> IoConfig {
    let date = Date { year: None, month: None, day: None, hour: 7, min: 0, sec: 0 };
    IoConfig {
        home: Home {
            rooms: vec![
                Room {
                    name: "a".to_string(),
                    typer: "a".to_string(),
                    inputs: vec![
                        input("bp", InputKind::WIDigitalBP(wago("10.0.0.1", "502", 1))),
                        input("long", InputKind::WIDigitalLong(wago("10.0.0.1", "502", 2))),
                        input("time", InputKind::InputTime(date)),
                    ],
                    outputs: vec![
                        output("light", OutputKind::WODigital(wago("10.0.0.1", "502", 10))),
                        output("shutter", shutter("10.0.0.1", 40, 41)),
                    ],
                    internals: vec![],
                    hits: 0,
                },
                Room {
                    name: "b".to_string(),
                    typer: "b".to_string(),
                    inputs: vec![
                        input("triple", InputKind::WIDigitalTriple(wago("10.0.0.2", "502", 3))),
                        input("scenario", InputKind::Scenario),
                    ],
                    outputs: vec![output("light2", OutputKind::WODigital(wago("10.0.0.2", "+502", 12)))],
                    internals: vec![],
                    hits: 0,
                },
            ],
        },
    }
}

#[test]
fn wago_requests() {
    let io = io_config();
    let vars = make_input_var_map(&io);
    assert_eq!(vars.len(), 2);
    assert_eq!(vars[&1].id, "bp");
    let mut last: HashMap<u32, u64> = HashMap::new();
    let e = handle_wago_request(&vars, &mut last, Request::Discover, 0);
    assert!(e.reply_discover && e.feedback.is_none() && e.command.is_none());
    assert_eq!(discover_reply(), "CALAOS_IP 127.0.0.1");

    let e = handle_wago_request(&vars, &mut last, Request::WagoInt(WagoData { var: 1, value: 1 }), 0);
    assert_eq!(e.feedback, Some(IOData::new("bp".to_string(), IOValue::Bool(true))));
    assert_eq!(
        e.command,
        Some(IODataAction::new("bp".to_string(), IOAction::SetValue(IOValue::Bool(true))))
    );

    // long press input: press, then release after 100 ms (short) and 500 ms (long)
    let e = handle_wago_request(&vars, &mut last, Request::WagoInt(WagoData { var: 2, value: 1 }), 1000);
    assert_eq!(e.feedback, Some(IOData::new("long".to_string(), IOValue::Bool(true))));
    assert!(e.command.is_none());
    assert_eq!(last.get(&2), Some(&1000));
    let e = handle_wago_request(&vars, &mut last, Request::WagoInt(WagoData { var: 2, value: 0 }), 1100);
    assert_eq!(
        e.command,
        Some(IODataAction::new("long".to_string(), IOAction::SetValue(IOValue::Int(1))))
    );
    assert!(last.is_empty());
    handle_wago_request(&vars, &mut last, Request::WagoInt(WagoData { var: 2, value: 5 }), 2000);
    let e = handle_wago_request(&vars, &mut last, Request::WagoInt(WagoData { var: 2, value: 0 }), 2400);
    assert_eq!(
        e.command,
        Some(IODataAction::new("long".to_string(), IOAction::SetValue(IOValue::Int(2))))
    );
    // release without press counts from now: short press
    let e = handle_wago_request(&vars, &mut last, Request::WagoInt(WagoData { var: 2, value: 0 }), 5000);
    assert_eq!(
        e.command,
        Some(IODataAction::new("long".to_string(), IOAction::SetValue(IOValue::Int(1))))
    );
    // unknown variable
    let e = handle_wago_request(&vars, &mut last, Request::WagoInt(WagoData { var: 3, value: 1 }), 0);
    assert!(e.feedback.is_none() && e.command.is_none() && !e.reply_discover);
    assert!(to_bool(7));
    assert!(!to_bool(0));
}

#[test]
fn controller_groups() {
    let io = io_config();
    let ins = make_input_controller_map(&io);
    assert_eq!(ins.len(), 3);
    assert_eq!(
        ins[0].config,
        InputControllerConfig::Wago { host: "10.0.0.1".to_string(), port: 4646, heartbeat_secs: 2 }
    );
    assert_eq!(ins[0].ids, vec!["bp".to_string(), "long".to_string()]);
    assert_eq!(ins[1].config, InputControllerConfig::Time);
    assert_eq!(ins[2].ids, vec!["triple".to_string()]);
    let outs = make_output_controller_map(&io).unwrap();
    assert_eq!(outs.len(), 2);
    assert_eq!(outs[0].config, OutputControllerConfig::Wago { host: "10.0.0.1".to_string(), port: 502 });
    assert_eq!(outs[0].ids, vec!["light".to_string(), "shutter".to_string()]);
    assert_eq!(outs[1].config, OutputControllerConfig::Wago { host: "10.0.0.2".to_string(), port: 502 });
    assert_eq!(controller_for_output(&outs, "shutter"), Some(0));
    assert_eq!(controller_for_output(&outs, "light2"), Some(1));
    assert_eq!(controller_for_output(&outs, "nothing"), None);
    let om = make_output_context_map(&io);
    let mine = controller_outputs(&om, &outs[0].ids);
    assert_eq!(mine.entries.len(), 2);
    assert_eq!(mine.entries[1].output.id, "shutter");
}

#[test]
fn bad_output_port() {
    let mut io = io_config();
    io.home.rooms[1].outputs.push(output("bad", OutputKind::WODigital(wago("h", "port", 1))));
    io.home.rooms[1].outputs.push(output("bad2", OutputKind::WODigital(wago("h", "70000", 1))));
    assert_eq!(make_output_controller_map(&io).unwrap_err(), "bad");
}

#[test]
fn addresses() {
    assert_eq!(write_address(10), Ok(0x100a));
    assert_eq!(write_address(0x1001), Ok(0x1001));
    assert_eq!(write_address(0x10000), Err(0x10000));
    assert_eq!(read_address(10), Ok(0x20a));
    assert_eq!(read_address(0xfdff), Ok(0xffff));
    assert_eq!(read_address(0xfe00), Err(0xfe00));
    assert_eq!(coil_write_delay(None, 100), 0);
    assert_eq!(coil_write_delay(Some(95), 100), 10);
    assert_eq!(coil_write_delay(Some(85), 100), 0);
}

fn writes(effects: &[OutputEffect]) -> Vec<(u16, bool)> {
    effects
        .iter()
        .filter_map(|e| match e {
            OutputEffect::Write { address, value } => Some((*address, *value)),
            _ => None,
        })
        .collect()
}

#[test]
fn output_controller() {
    let io = io_config();
    let om = make_output_context_map(&io);
    let outs = make_output_controller_map(&io).unwrap();
    let mut c = WagoOutputController::new(controller_outputs(&om, &outs[0].ids));

    let init = c.init_steps();
    assert_eq!(init.len(), 2);
    match &init[0] {
        InitStep::ReadDigital { index, address } => {
            assert_eq!(*index, 0);
            assert_eq!(*address, 0x200 + 10);
        }
        other => panic!("unexpected {:?}", other),
    }
    match &init[1] {
        InitStep::Reset { index, effects, value } => {
            assert_eq!(*index, 1);
            assert_eq!(writes(effects), vec![(0x1000 | 41, false), (0x1000 | 40, false)]);
            assert_eq!(*value, IOValue::Shutter(ShutterState::Up));
        }
        other => panic!("unexpected {:?}", other),
    }
    let fb = c.record_value(0, IOValue::Bool(false));
    assert_eq!(fb, IOData::new("light".to_string(), IOValue::Bool(false)));

    // toggle the light
    let e = c.handle_command(IODataAction::new("light".to_string(), IOAction::Toggle), 0);
    assert_eq!(writes(&e), vec![(0x100a, true)]);
    match e.last().unwrap() {
        OutputEffect::Feedback(d) => assert_eq!(*d, IOData::new("light".to_string(), IOValue::Bool(true))),
        other => panic!("unexpected {:?}", other),
    }
    // the shutter value is not known: a toggle is ignored
    assert!(c.handle_command(IODataAction::new("shutter".to_string(), IOAction::Toggle), 0).is_empty());
    // move the shutter down
    let e = c.handle_command(
        IODataAction::from_value("shutter".to_string(), IOValue::Shutter(ShutterState::Down)),
        1000,
    );
    assert_eq!(writes(&e), vec![(0x1000 | 40, false), (0x1000 | 41, false), (0x1000 | 41, true)]);
    assert_eq!(c.tasks.len(), 1);
    assert_eq!(c.tasks[0].task, Task { deadline: 26000, target_state: IOValue::Shutter(ShutterState::Down) });
    assert_eq!(c.next_deadline(), Some(26000));
    // already down: nothing
    assert!(c
        .handle_command(IODataAction::from_value("shutter".to_string(), IOValue::Shutter(ShutterState::Down)), 2000)
        .is_empty());
    // not due yet
    assert!(c.expire_tasks(25999).is_empty());
    assert_eq!(c.tasks.len(), 1);
    let e = c.expire_tasks(26000);
    assert_eq!(writes(&e), vec![(0x1000 | 41, false), (0x1000 | 40, false)]);
    assert!(c.tasks.is_empty());
    assert_eq!(c.next_deadline(), None);
    // stop
    let e = c.handle_command(IODataAction::new("shutter".to_string(), IOAction::Stop), 30000);
    assert_eq!(writes(&e), vec![(0x1000 | 41, false), (0x1000 | 40, false)]);
    // a value a digital output cannot take, and an unknown ID
    assert!(c.handle_command(IODataAction::from_value("light".to_string(), IOValue::Int(3)), 0).is_empty());
    assert!(c.handle_command(IODataAction::new("nothing".to_string(), IOAction::Stop), 0).is_empty());
}

#[test]
fn address_error_stops_the_command() {
    let mut io = io_config();
    io.home.rooms[0].outputs.push(output("far", OutputKind::WODigital(wago("10.0.0.1", "502", 0x20000))));
    let om = make_output_context_map(&io);
    let mut c = WagoOutputController::new(om);
    let e = c.handle_command(IODataAction::from_value("far".to_string(), IOValue::Bool(true)), 0);
    assert_eq!(e.len(), 1);
    match &e[0] {
        OutputEffect::AddressError { var } => assert_eq!(*var, 0x20000),
        other => panic!("unexpected {:?}", other),
    }
    assert!(c.outputs.entries[2].value.is_none());
}

#[test]
fn tasks() {
    let t = Task::from_now(100, 50, IOValue::Bool(true));
    assert_eq!(t.deadline, 150);
    assert!(t.is_due(150));
    assert!(!t.is_due(149));
    let u = Task::from_now(u64::MAX - 1, 50, IOValue::Bool(true));
    assert_eq!(u.deadline, u64::MAX);
    assert!(t.is_before(&u));
}

#[test]
fn shutter_coils_never_on_together() {
    let io = io_config();
    let om = make_output_context_map(&io);
    let outs = make_output_controller_map(&io).unwrap();
    let mut c = WagoOutputController::new(controller_outputs(&om, &outs[0].ids));
    let up = 0x1000u16 | 40;
    let down = 0x1000u16 | 41;
    let mut coils: HashMap<u16, bool> = HashMap::new();
    let mut apply = |effects: &[OutputEffect]| {
        for (address, value) in writes(effects) {
            coils.insert(address, value);
            assert!(!(coils.get(&up) == Some(&true) && coils.get(&down) == Some(&true)));
        }
    };
    let mut now = 0;
    for action in [
        IOAction::SetValue(IOValue::Shutter(ShutterState::Up)),
        IOAction::SetValue(IOValue::Shutter(ShutterState::Down)),
        IOAction::Toggle,
        IOAction::Stop,
        IOAction::SetValue(IOValue::Shutter(ShutterState::Up)),
        IOAction::Toggle,
    ] {
        now += 1000;
        let e = c.handle_command(IODataAction::new("shutter".to_string(), action), now);
        apply(&e);
    }
    // the last move is stopped once its travel time has passed, with no feedback
    let deadline = c.next_deadline().unwrap();
    let e = c.expire_tasks(deadline);
    assert_eq!(writes(&e), vec![(down, false), (up, false)]);
    assert!(e.iter().all(|x| !matches!(x, OutputEffect::Feedback(_))));
    apply(&e);
    assert!(c.tasks.is_empty());
}

#[test]
fn coil_writes_are_spaced() {
    for last in [0u64, 100, 1000] {
        for now in last..last + 30 {
            let d = coil_write_delay(Some(last), now);
            assert!(now + d >= last + 15);
            assert!(d <= 15);
        }
    }
    assert_eq!(coil_write_delay(None, 5), 0);
}
