use calaos_core::io_value::{compare_values, toggle, IOValue, ShutterState, ValueOrder};

#[test]
fn parse_string_iovalue() {
    assert_eq!(IOValue::from("true"), IOValue::Bool(true));
    assert_eq!(IOValue::from("false"), IOValue::Bool(false));
    assert_eq!(IOValue::from("TRUE"), IOValue::String("TRUE".to_string()));
    assert_eq!(IOValue::from("0"), IOValue::Int(0));
    assert_eq!(IOValue::from("1"), IOValue::Int(1));
    assert_eq!(IOValue::from("-10"), IOValue::Int(-10));
    assert_eq!(IOValue::from("up"), IOValue::Shutter(ShutterState::Up));
    assert_eq!(IOValue::from("down"), IOValue::Shutter(ShutterState::Down));
}

#[test]
fn parse_iovalue_string() {
    assert_eq!(String::from(IOValue::Bool(true)), "true");
    assert_eq!(String::from(IOValue::Bool(false)), "false");
    assert_eq!(String::from(IOValue::String("str".to_string())), "str");
    assert_eq!(String::from(IOValue::Int(0)), "0");
    assert_eq!(String::from(IOValue::Int(1)), "1");
    assert_eq!(String::from(IOValue::Int(-10)), "-10");
    assert_eq!(String::from(IOValue::Shutter(ShutterState::Up)), "up");
    assert_eq!(String::from(IOValue::Shutter(ShutterState::Down)), "down");
}

#[test]
fn parse_integer_forms() {
    assert_eq!(IOValue::from("+5"), IOValue::Int(5));
    assert_eq!(IOValue::from("007"), IOValue::Int(7));
    assert_eq!(IOValue::from("2147483647"), IOValue::Int(2147483647));
    assert_eq!(IOValue::from("-2147483648"), IOValue::Int(-2147483648));
    assert_eq!(IOValue::from("2147483648"), IOValue::String("2147483648".to_string()));
    assert_eq!(IOValue::from("-"), IOValue::String("-".to_string()));
    assert_eq!(IOValue::from(""), IOValue::String("".to_string()));
    assert_eq!(IOValue::from(String::from("12")), IOValue::Int(12));
}

#[test]
fn extreme_integers_to_text() {
    assert_eq!(String::from(&IOValue::Int(i32::MIN)), "-2147483648");
    assert_eq!(String::from(&IOValue::Int(i32::MAX)), "2147483647");
}

#[test]
fn value_text_round_trip() {
    let values = vec![
        IOValue::Bool(true),
        IOValue::Bool(false),
        IOValue::Int(-123),
        IOValue::Int(0),
        IOValue::String("kitchen".to_string()),
        IOValue::Shutter(ShutterState::Up),
        IOValue::Shutter(ShutterState::Down),
        IOValue::String("moving_up".to_string()),
    ];
    for v in values {
        assert_eq!(IOValue::from(String::from(&v).as_str()), v);
    }
}

#[test]
fn moving_states_read_back_as_text() {
    assert_eq!(IOValue::from("moving_up"), IOValue::String("moving_up".to_string()));
    assert_eq!(IOValue::from("moving_down"), IOValue::String("moving_down".to_string()));
    assert_eq!(
        IOValue::from(String::from(&IOValue::Shutter(ShutterState::MovingUp)).as_str()),
        IOValue::String("moving_up".to_string())
    );
    assert_eq!(IOValue::from("UP"), IOValue::String("UP".to_string()));
    assert_eq!(IOValue::from("2147483648"), IOValue::String("2147483648".to_string()));
}

#[test]
fn text_value_round_trip() {
    for t in ["hello", "true", "down", "-42", "moving_up"] {
        assert_eq!(String::from(IOValue::from(t)), t);
    }
    assert_eq!(String::from(IOValue::from("+42")), "42");
}

#[test]
fn toggling() {
    assert_eq!(toggle(&IOValue::Bool(true)), Some(IOValue::Bool(false)));
    assert_eq!(
        toggle(&IOValue::Shutter(ShutterState::Up)),
        Some(IOValue::Shutter(ShutterState::Down))
    );
    assert_eq!(
        toggle(&IOValue::Shutter(ShutterState::Down)),
        Some(IOValue::Shutter(ShutterState::Up))
    );
    assert_eq!(toggle(&IOValue::Int(1)), None);
    assert_eq!(toggle(&IOValue::Shutter(ShutterState::MovingUp)), None);
}

#[test]
fn value_order() {
    assert_eq!(compare_values(&IOValue::Int(1), &IOValue::Int(2)), ValueOrder::Less);
    assert_eq!(compare_values(&IOValue::Bool(true), &IOValue::Bool(false)), ValueOrder::Greater);
    assert_eq!(compare_values(&IOValue::Bool(true), &IOValue::Int(-5)), ValueOrder::Less);
    assert_eq!(
        compare_values(&IOValue::String("ab".to_string()), &IOValue::String("b".to_string())),
        ValueOrder::Less
    );
    assert_eq!(
        compare_values(&IOValue::String("ab".to_string()), &IOValue::String("a".to_string())),
        ValueOrder::Greater
    );
    assert_eq!(
        compare_values(&IOValue::String("é".to_string()), &IOValue::String("z".to_string())),
        ValueOrder::Greater
    );
    assert_eq!(
        compare_values(
            &IOValue::Shutter(ShutterState::Down),
            &IOValue::Shutter(ShutterState::Down)
        ),
        ValueOrder::Equal
    );
    assert!(IOValue::Int(3).same_as(&IOValue::Int(3)));
    assert!(!IOValue::Int(3).same_as(&IOValue::String("3".to_string())));
}

#[test]
fn shutter_text() {
    assert_eq!(ShutterState::MovingDown.to_text(), "moving_down");
}

#[test]
fn toggling_twice() {
    for v in [IOValue::Bool(true), IOValue::Bool(false), IOValue::Shutter(ShutterState::Up), IOValue::Shutter(ShutterState::Down)] {
        let once = toggle(&v).unwrap();
        assert_eq!(toggle(&once), Some(v));
    }
}
