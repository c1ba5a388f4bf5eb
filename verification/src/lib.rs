//! Calaos home automation core: wire protocols, IO values, configuration
//! model, rules evaluation and the decision logic of the IO controllers.

pub mod text;

pub mod io_value;
pub mod calaos_protocol;
pub mod event;
pub mod io_config;
pub mod rules_config;
pub mod io_context;
pub mod rules_engine;
pub mod calaos_json_protocol;
pub mod mqtt;
pub mod main_server;
pub mod task;
pub mod wago_modbus_controller;
pub mod websocket_server;
pub mod controller_map;
pub mod time_controller;
pub mod pem_files;
pub mod wago_controller;
