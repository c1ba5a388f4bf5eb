//! The model of the IO configuration: rooms holding inputs and outputs.
//! Reading it from XML is the application's job.

use vstd::prelude::*;

verus! {

/// A digital Wago IO.
#[derive(Debug, PartialEq)]
pub struct WagoIO {
    pub host: String,
    pub port: String,
    pub var: u32,
}

/// A shutter driven by two Wago outputs; `time` is the travel time in seconds.
#[derive(Debug, PartialEq)]
pub struct WagoIOUpDown {
    pub host: String,
    pub port: String,
    pub var_up: u32,
    pub var_down: u32,
    pub time: u64,
}

/// A time of day, with an optional date.
#[derive(Debug, Clone, Copy, PartialEq, Eq, Structural)]
pub struct Date {
    pub year: Option<i32>,
    pub month: Option<u32>,
    pub day: Option<u32>,
    pub hour: u32,
    pub min: u32,
    pub sec: u32,
}

#[derive(Debug, PartialEq)]
pub enum InputKind {
    InputTime(Date),
    WIDigitalBP(WagoIO),
    WIDigitalLong(WagoIO),
    WIDigitalTriple(WagoIO),
    MySensorsInputAnalog,
    MySensorsInputTemp,
    Scenario,
}

#[derive(Debug, PartialEq)]
pub struct Input {
    pub name: String,
    pub id: String,
    pub io_type: String,
    pub kind: InputKind,
    pub gui_type: String,
    pub visible: bool,
    pub rw: bool,
}

#[derive(Debug, PartialEq)]
pub enum OutputKind {
    HueOutputLightRGB,
    WODigital(WagoIO),
    WOShutter(WagoIOUpDown),
    MySensorsOutputShutterSmart,
}

#[derive(Debug, PartialEq)]
pub struct Output {
    pub name: String,
    pub id: String,
    pub io_type: String,
    pub kind: OutputKind,
    pub gui_type: String,
    pub visible: bool,
    pub rw: bool,
}

#[derive(Debug, PartialEq)]
pub struct Internal {
    pub id: String,
}

#[derive(Debug)]
pub struct Room {
    pub name: String,
    pub typer: String,
    pub inputs: Vec<Input>,
    pub outputs: Vec<Output>,
    pub internals: Vec<Internal>,
    pub hits: u32,
}

#[derive(Debug)]
pub struct Home {
    pub rooms: Vec<Room>,
}

#[derive(Debug)]
pub struct IoConfig {
    pub home: Home,
}

impl Clone for WagoIO {
    fn clone(&self) -> (r: Self)
        ensures
            r == *self,
    {
        WagoIO { host: self.host.clone(), port: self.port.clone(), var: self.var }
    }
}

impl Clone for WagoIOUpDown {
    fn clone(&self) -> (r: Self)
        ensures
            r == *self,
    {
        WagoIOUpDown {
            host: self.host.clone(),
            port: self.port.clone(),
            var_up: self.var_up,
            var_down: self.var_down,
            time: self.time,
        }
    }
}

impl Clone for InputKind {
    fn clone(&self) -> (r: Self)
        ensures
            r == *self,
    {
        match self {
            InputKind::InputTime(d) => InputKind::InputTime(*d),
            InputKind::WIDigitalBP(io) => InputKind::WIDigitalBP(io.clone()),
            InputKind::WIDigitalLong(io) => InputKind::WIDigitalLong(io.clone()),
            InputKind::WIDigitalTriple(io) => InputKind::WIDigitalTriple(io.clone()),
            InputKind::MySensorsInputAnalog => InputKind::MySensorsInputAnalog,
            InputKind::MySensorsInputTemp => InputKind::MySensorsInputTemp,
            InputKind::Scenario => InputKind::Scenario,
        }
    }
}

impl Clone for Input {
    fn clone(&self) -> (r: Self)
        ensures
            r == *self,
    {
        Input {
            name: self.name.clone(),
            id: self.id.clone(),
            io_type: self.io_type.clone(),
            kind: self.kind.clone(),
            gui_type: self.gui_type.clone(),
            visible: self.visible,
            rw: self.rw,
        }
    }
}

impl Clone for OutputKind {
    fn clone(&self) -> (r: Self)
        ensures
            r == *self,
    {
        match self {
            OutputKind::HueOutputLightRGB => OutputKind::HueOutputLightRGB,
            OutputKind::WODigital(io) => OutputKind::WODigital(io.clone()),
            OutputKind::WOShutter(io) => OutputKind::WOShutter(io.clone()),
            OutputKind::MySensorsOutputShutterSmart => OutputKind::MySensorsOutputShutterSmart,
        }
    }
}

impl Clone for Output {
    fn clone(&self) -> (r: Self)
        ensures
            r == *self,
    {
        Output {
            name: self.name.clone(),
            id: self.id.clone(),
            io_type: self.io_type.clone(),
            kind: self.kind.clone(),
            gui_type: self.gui_type.clone(),
            visible: self.visible,
            rw: self.rw,
        }
    }
}

impl Clone for Internal {
    fn clone(&self) -> (r: Self)
        ensures
            r == *self,
    {
        Internal { id: self.id.clone() }
    }
}

/// All inputs of the configuration, room after room.
pub open spec fn all_inputs(io: IoConfig) -> Seq<Input> {
    io.home.rooms@.map_values(|r: Room| r.inputs@).flatten()
}

/// All outputs of the configuration, room after room.
pub open spec fn all_outputs(io: IoConfig) -> Seq<Output> {
    io.home.rooms@.map_values(|r: Room| r.outputs@).flatten()
}

} // verus!
