use calaos_core::calaos_json_protocol::{HomeData, IOData as RoomIO};
use calaos_core::io_config::{Home, Input, InputKind, IoConfig, Output, OutputKind, Room, WagoIO, WagoIOUpDown};
use calaos_core::io_context::{make_input_context_map, make_output_context_map, write_io_value, IOData, IODataAction};
use calaos_core::io_value::{IOAction, IOValue};
use calaos_core::rules_config::{action_from_text, operator_from_text, Action, ConditionKind, Input as RuleInput, Operator, Output as RuleOutput, Rule, RulesConfig};
use calaos_core::rules_engine::{eval_operator, get_ref_value, handle_input_action, handle_output_feedback, should_exec};

fn wago(var: u32) -> WagoIO {
    WagoIO { host: "192.168.1.1".to_string(), port: "502".to_string(), var }
}

fn input(id: &str, var: u32) -> Input {
    Input {
        name: format!("switch {}", id),
        id: id.to_string(),
        io_type: "input".to_string(),
        kind: InputKind::WIDigitalBP(wago(var)),
        gui_type: "switch".to_string(),
        visible: true,
        rw: false,
    }
}

fn output(id: &str, var: u32) -> Output {
    Output {
        name: format!("light {}", id),
        id: id.to_string(),
        io_type: "output".to_string(),
        kind: OutputKind::WODigital(wago(var)),
        gui_type: "light".to_string(),
        visible: true,
        rw: false,
    }
}

fn io_config() -> IoConfig {
    IoConfig {
        home: Home {
            rooms: vec![
                Room {
                    name: "corridor".to_string(),
                    typer: "corridor".to_string(),
                    inputs: vec![input("input_0", 1), input("input_1", 2)],
                    outputs: vec![output("output_0", 10)],
                    internals: vec![],
                    hits: 3,
                },
                Room {
                    name: "bedroom".to_string(),
                    typer: "bedroom".to_string(),
                    inputs: vec![],
                    outputs: vec![
                        output("output_1", 11),
                        Output {
                            name: "shutter".to_string(),
                            id: "output_2".to_string(),
                            io_type: "output".to_string(),
                            kind: OutputKind::WOShutter(WagoIOUpDown {
                                host: "192.168.1.2".to_string(),
                                port: "502".to_string(),
                                var_up: 40,
                                var_down: 41,
                                time: 25,
                            }),
                            gui_type: "shutter".to_string(),
                            visible: true,
                            rw: false,
                        },
                    ],
                    internals: vec![],
                    hits: 12,
                },
            ],
        },
    }
}

fn cond(id: &str, operator: Operator, value: IOValue) -> ConditionKind {
    ConditionKind::Standard { input: RuleInput { id: id.to_string(), operator, value } }
}

fn act(id: &str, val: IOAction) -> Action {
    Action { typer: "standard".to_string(), output: RuleOutput { id: id.to_string(), val } }
}

fn rules() -> RulesConfig {
    RulesConfig {
        rules: vec![
            Rule {
                name: "night corridor".to_string(),
                typer: "corridor".to_string(),
                conditions: vec![cond("input_0", Operator::Equal, IOValue::Bool(true))],
                actions: vec![act("output_0", IOAction::Toggle)],
            },
            Rule {
                name: "both".to_string(),
                typer: "bedroom".to_string(),
                conditions: vec![
                    ConditionKind::Start,
                    cond("input_0", Operator::Equal, IOValue::Bool(true)),
                    cond("input_1", Operator::NotEqual, IOValue::Bool(true)),
                ],
                actions: vec![act("output_1", IOAction::SetValue(IOValue::Bool(true))), act("unknown", IOAction::Stop)],
            },
        ],
    }
}

#[test]
fn context_maps() {
    let io = io_config();
    let rc = rules();
    let im = make_input_context_map(&io, &rc);
    assert_eq!(im.entries.len(), 2);
    assert_eq!(im.entries[0].input.id, "input_0");
    assert_eq!(im.entries[0].rules.len(), 2);
    assert_eq!(im.entries[1].rules.len(), 1);
    assert_eq!(im.entries[1].rules[0].name, "both");
    assert!(im.entries[0].value.is_none());
    let om = make_output_context_map(&io);
    assert_eq!(om.entries.len(), 3);
    assert_eq!(om.entries[2].output.id, "output_2");
}

#[test]
fn duplicate_ids_keep_the_last() {
    let mut io = io_config();
    io.home.rooms[1].inputs.push(input("input_0", 7));
    let rc = rules();
    let im = make_input_context_map(&io, &rc);
    assert_eq!(im.entries.len(), 2);
    let i0 = im.entries.iter().find(|e| e.input.id == "input_0").unwrap();
    assert_eq!(i0.input.kind, InputKind::WIDigitalBP(wago(7)));
}

#[test]
fn write_value() {
    let mut v = None;
    write_io_value(&mut v, IOValue::Int(4));
    assert_eq!(v, Some(IOValue::Int(4)));
}

#[test]
fn operators() {
    assert!(eval_operator(Operator::Greater, &IOValue::Int(5), &IOValue::Int(3)));
    assert!(!eval_operator(Operator::Lower, &IOValue::Int(5), &IOValue::Int(3)));
    assert!(eval_operator(Operator::GreaterOrEqual, &IOValue::Int(3), &IOValue::Int(3)));
    assert!(eval_operator(Operator::LowerOrEqual, &IOValue::Bool(false), &IOValue::Bool(true)));
    assert!(eval_operator(Operator::NotEqual, &IOValue::Int(1), &IOValue::Bool(true)));
    assert!(eval_operator(Operator::Equal, &IOValue::String("a".into()), &IOValue::String("a".into())));
    assert_eq!(operator_from_text("=="), Some(Operator::Equal));
    assert_eq!(operator_from_text(">="), Some(Operator::GreaterOrEqual));
    assert_eq!(operator_from_text("=>"), None);
    assert_eq!(action_from_text("toggle"), IOAction::Toggle);
    assert_eq!(action_from_text("stop"), IOAction::Stop);
    assert_eq!(action_from_text("1"), IOAction::SetValue(IOValue::Int(1)));
    assert_eq!(action_from_text("up"), IOAction::SetValue(IOValue::Shutter(calaos_core::io_value::ShutterState::Up)));
}

#[test]
fn rules_fire_only_with_known_outputs() {
    let io = io_config();
    let rc = rules();
    let mut im = make_input_context_map(&io, &rc);
    let mut om = make_output_context_map(&io);
    // output values are not known yet: no request is sent
    let r = handle_input_action(&mut im, &om, IODataAction::from_value("input_0".to_string(), IOValue::Bool(true)));
    assert!(r.is_empty());
    assert_eq!(im.entries[0].value, Some(IOValue::Bool(true)));
    // outputs report their values
    assert!(handle_output_feedback(&mut om, IOData::new("output_0".to_string(), IOValue::Bool(false))));
    assert!(handle_output_feedback(&mut om, IOData::new("output_1".to_string(), IOValue::Bool(false))));
    assert!(!handle_output_feedback(&mut om, IOData::new("nothing".to_string(), IOValue::Bool(false))));
    let r = handle_input_action(&mut im, &om, IODataAction::from_value("input_0".to_string(), IOValue::Bool(true)));
    // rule 1 fires; rule 2 needs input_1 known
    assert_eq!(r, vec![IODataAction::new("output_0".to_string(), IOAction::Toggle)]);
    let r = handle_input_action(&mut im, &om, IODataAction::from_value("input_1".to_string(), IOValue::Bool(false)));
    assert_eq!(r, vec![IODataAction::new("output_1".to_string(), IOAction::SetValue(IOValue::Bool(true)))]);
    let r = handle_input_action(&mut im, &om, IODataAction::from_value("input_0".to_string(), IOValue::Bool(false)));
    assert!(r.is_empty());
    assert!(!should_exec(&rc.rules[0].conditions, &im));
}

#[test]
fn actions_on_other_ids_are_forwarded() {
    let io = io_config();
    let rc = rules();
    let mut im = make_input_context_map(&io, &rc);
    let om = make_output_context_map(&io);
    let a = IODataAction::new("output_2".to_string(), IOAction::Stop);
    assert_eq!(handle_input_action(&mut im, &om, a.clone()), vec![a]);
    // non-SetValue actions on inputs are ignored
    assert!(handle_input_action(&mut im, &om, IODataAction::new("input_0".to_string(), IOAction::Toggle)).is_empty());
    assert!(im.entries[0].value.is_none());
}

#[test]
fn home_data() {
    let io = io_config();
    let rc = rules();
    let mut im = make_input_context_map(&io, &rc);
    let mut om = make_output_context_map(&io);
    handle_input_action(&mut im, &om, IODataAction::from_value("input_1".to_string(), IOValue::Bool(true)));
    handle_output_feedback(&mut om, IOData::new("output_2".to_string(), IOValue::Int(7)));
    let h = HomeData::new(&io, &im, &om);
    assert_eq!(h.home.len(), 2);
    assert_eq!(h.home[0].name, "corridor");
    assert_eq!(h.home[0].hits, "3");
    assert_eq!(h.home[0].items.len(), 1);
    assert_eq!(h.home[0].items[0].io_data, RoomIO::Input(input("input_1", 2)));
    assert_eq!(h.home[0].items[0].var_type, "bool");
    assert_eq!(h.home[0].items[0].state, "true");
    assert_eq!(h.home[1].hits, "12");
    assert_eq!(h.home[1].items.len(), 1);
    assert_eq!(h.home[1].items[0].var_type, "float");
    assert_eq!(h.home[1].items[0].state, "7");
}

#[test]
fn feedback_is_read_back() {
    let io = io_config();
    let mut om = make_output_context_map(&io);
    assert_eq!(get_ref_value("output_0", &om), None);
    assert!(handle_output_feedback(&mut om, IOData::new("output_0".to_string(), IOValue::Bool(true))));
    assert_eq!(get_ref_value("output_0", &om), Some(IOValue::Bool(true)));
    assert_eq!(get_ref_value("output_1", &om), None);
    assert!(handle_output_feedback(&mut om, IOData::new("output_1".to_string(), IOValue::Int(3))));
    assert_eq!(get_ref_value("output_0", &om), Some(IOValue::Bool(true)));
    assert_eq!(get_ref_value("output_1", &om), Some(IOValue::Int(3)));
}

#[test]
fn input_value_is_read_back() {
    let io = io_config();
    let rc = rules();
    let mut im = make_input_context_map(&io, &rc);
    let om = make_output_context_map(&io);
    handle_input_action(&mut im, &om, IODataAction::from_value("input_1".to_string(), IOValue::Int(4)));
    let k = im.find("input_1").unwrap();
    assert_eq!(im.entries[k].value, Some(IOValue::Int(4)));
    let j = im.find("input_0").unwrap();
    assert_eq!(im.entries[j].value, None);
}

#[test]
fn output_state_copy() {
    let io = io_config();
    let mut om = make_output_context_map(&io);
    handle_output_feedback(&mut om, IOData::new("output_0".to_string(), IOValue::Int(9)));
    let c = om.entries[0].clone();
    assert_eq!(c.output, om.entries[0].output);
    assert_eq!(c.value, Some(IOValue::Int(9)));
}
