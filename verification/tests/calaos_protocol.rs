use calaos_core::calaos_protocol::{get_any, get_discover, get_wago_int, parse_request, Request, WagoData};

#[test]
fn calaos_protocol_unserialize_calaos_wago_int() {
    let msg = "WAGO INT 10 1";
    assert_eq!(get_wago_int(msg), Ok(("".to_string(), WagoData { var: 10, value: 1 })));
}

#[test]
fn calaos_protocol_unserialize_calaos_discover() {
    let msg = "CALAOS_DISCOVER";
    assert_eq!(get_discover(msg), Ok("".to_string()));
}

#[test]
fn calaos_protocol_parse_request_ok() {
    assert_eq!(
        parse_request("WAGO INT 99 1").unwrap(),
        Request::WagoInt(WagoData { var: 99, value: 1 })
    );
    assert_eq!(
        parse_request("WAGO INT 0 0").unwrap(),
        Request::WagoInt(WagoData { var: 0, value: 0 })
    );
    assert_eq!(parse_request("CALAOS_DISCOVER").unwrap(), Request::Discover);
}

#[test]
fn calaos_protocol_parse_request_err() {
    assert!(!parse_request("ERROR").err().unwrap().message().is_empty());
}

#[test]
fn wago_int_keeps_trailing_text() {
    assert_eq!(
        get_wago_int("WAGO INT 12 0\n"),
        Ok(("\n".to_string(), WagoData { var: 12, value: 0 }))
    );
    assert_eq!(
        parse_request("WAGO INT 007 42 extra").unwrap(),
        Request::WagoInt(WagoData { var: 7, value: 42 })
    );
}

#[test]
fn wago_int_largest_numbers() {
    assert_eq!(
        parse_request("WAGO INT 4294967295 4294967295").unwrap(),
        Request::WagoInt(WagoData { var: 4294967295, value: 4294967295 })
    );
}

#[test]
fn wago_int_refuses_overflow_and_missing_numbers() {
    let e = parse_request("WAGO INT 4294967296 1").unwrap_err();
    assert_eq!(e.input, "WAGO INT 4294967296 1");
    assert!(parse_request("WAGO INT  1").is_err());
    assert!(parse_request("WAGO INT 1 ").is_err());
    assert!(parse_request("WAGO INT 1").is_err());
    assert!(parse_request("WAGO INT -1 1").is_err());
    assert!(parse_request("wago int 1 1").is_err());
    assert!(parse_request("").is_err());
}

#[test]
fn discover_with_suffix_and_any() {
    assert_eq!(parse_request("CALAOS_DISCOVER please").unwrap(), Request::Discover);
    assert_eq!(get_any("CALAOS_DISCOVERX"), Ok(("X".to_string(), Request::Discover)));
    assert!(get_discover("CALAOS_DISCOVE").is_err());
    assert_eq!(
        get_any("WAGO INT 3 1"),
        Ok(("".to_string(), Request::WagoInt(WagoData { var: 3, value: 1 })))
    );
}

#[test]
fn error_message_names_the_input() {
    let e = parse_request("HELLO").unwrap_err();
    assert_eq!(e.message(), "unrecognized request: HELLO");
}
