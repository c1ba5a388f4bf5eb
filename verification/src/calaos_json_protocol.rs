//! The messages of the Calaos JSON protocol spoken over websockets, and the
//! home description sent to clients. Turning them into JSON text and back
//! is the application's job.

use vstd::prelude::*;

use crate::event::{event_code, event_text, Event};
use crate::io_config::{Input, IoConfig, Output, Room};
use crate::io_context;
use crate::io_context::{
    input_value, output_value, IODataAction, InputSharedContext, InputSharedContextMap,
    OutputSharedContext, OutputSharedContextMap,
};
use crate::io_value::{IOAction, IOValue, IOValueView, value_text};
use crate::text::{append_str, nat_to_decimal, u32_to_decimal};

verus! {

/// A request from a websocket client (or, for `Pong` and `Event`, one that
/// the server makes for itself).
#[derive(Debug, PartialEq)]
pub enum Request {
    Pong { data: Vec<u8> },
    Login { data: LoginData },
    GetHome,
    SetState { data: SetStateData },
    Event { kind: Event, data: io_context::IOData },
}

/// A message to a websocket client.
#[derive(Debug, PartialEq)]
pub enum Response {
    Login { data: Success },
    GetHome { data: HomeData },
    SetState { data: Success },
    Event { data: EventData },
}

#[derive(Debug, PartialEq)]
pub struct LoginData {
    pub cn_user: String,
    pub cn_pass: String,
}

#[derive(Debug, PartialEq)]
pub struct SetStateData {
    pub id: String,
    pub value: IOValue,
}

#[derive(Debug, PartialEq, Eq, Structural, Clone, Copy)]
pub struct Success {
    pub success: bool,
}

#[derive(Debug, PartialEq)]
pub struct HomeData {
    pub home: Vec<RoomData>,
    pub cameras: CameraData,
    pub audio: AudioData,
}

#[derive(Debug, PartialEq)]
pub struct RoomData {
    pub name: String,
    pub typer: String,
    pub hits: String,
    pub items: Vec<RoomIOData>,
}

#[derive(Debug, PartialEq)]
pub struct EventData {
    pub event_raw: String,
    pub typer: i32,
    pub type_str: String,
    pub data: io_context::IOData,
}

/// An input or an output of a room.
#[derive(Debug, PartialEq)]
pub enum IOData {
    Input(Input),
    Output(Output),
}

/// An input or output of a room with its current state.
#[derive(Debug, PartialEq)]
pub struct RoomIOData {
    pub io_data: IOData,
    pub var_type: String,
    pub state: String,
}

#[derive(Debug, PartialEq, Eq, Structural, Clone, Copy)]
pub struct CameraData {}

#[derive(Debug, PartialEq, Eq, Structural, Clone, Copy)]
pub struct AudioData {}

/// The type name of a value in the protocol; integers are announced as
/// "float", the protocol having no integer type.
pub open spec fn value_type_text(v: IOValueView) -> Seq<char> {
    match v {
        IOValueView::Int(_) => "float"@,
        IOValueView::Bool(_) => "bool"@,
        _ => "string"@,
    }
}

/// The type name of a value.
pub fn make_io_value_type(value: &IOValue) -> (r: String)
    ensures
        r@ == value_type_text(value@),
{
    let mut r = String::new();
    match value {
        IOValue::Int(_) => append_str(&mut r, "float"),
        IOValue::Bool(_) => append_str(&mut r, "bool"),
        _ => append_str(&mut r, "string"),
    }
    assert(r@ =~= value_type_text(value@));
    r
}

/// `d` describes `io` in state `v`.
pub open spec fn room_io_is(d: RoomIOData, io: IOData, v: IOValueView) -> bool {
    &&& d.io_data == io
    &&& d.var_type@ == value_type_text(v)
    &&& d.state@ == value_text(v)
}

fn make_room_io_data(io_data: IOData, value: &IOValue) -> (r: RoomIOData)
    ensures
        room_io_is(r, io_data, value@),
{
    RoomIOData { io_data, var_type: make_io_value_type(value), state: value.to_text() }
}

/// The inputs of a room that have a known value, with that value.
pub open spec fn input_items(inputs: Seq<Input>, m: Seq<InputSharedContext>) -> Seq<
    (IOData, IOValueView),
>
    decreases inputs.len(),
{
    if inputs.len() == 0 {
        Seq::empty()
    } else {
        input_items(inputs.drop_last(), m) + match input_value(m, inputs.last().id@) {
            Some(v) => seq![(IOData::Input(inputs.last()), v)],
            None => Seq::empty(),
        }
    }
}

/// The outputs of a room that have a known value, with that value.
pub open spec fn output_items(outputs: Seq<Output>, m: Seq<OutputSharedContext>) -> Seq<
    (IOData, IOValueView),
>
    decreases outputs.len(),
{
    if outputs.len() == 0 {
        Seq::empty()
    } else {
        output_items(outputs.drop_last(), m) + match output_value(m, outputs.last().id@) {
            Some(v) => seq![(IOData::Output(outputs.last()), v)],
            None => Seq::empty(),
        }
    }
}

/// `ds` describes `items`, one for one.
pub open spec fn items_are(ds: Seq<RoomIOData>, items: Seq<(IOData, IOValueView)>) -> bool {
    &&& ds.len() == items.len()
    &&& forall|i: int| 0 <= i < ds.len() ==> room_io_is(#[trigger] ds[i], items[i].0, items[i].1)
}

/// `d` describes `room`: its inputs, then its outputs, that have a known value.
pub open spec fn room_data_is(
    d: RoomData,
    room: Room,
    im: Seq<InputSharedContext>,
    om: Seq<OutputSharedContext>,
) -> bool {
    &&& d.name == room.name
    &&& d.typer == room.typer
    &&& d.hits@ == nat_to_decimal(room.hits as nat)
    &&& items_are(d.items@, input_items(room.inputs@, im) + output_items(room.outputs@, om))
}

fn make_room_input(input: &Input, input_map: &InputSharedContextMap) -> (r: Option<RoomIOData>)
    requires
        input_map.wf(),
    ensures
        match input_value(input_map.entries@, input.id@) {
            Some(v) => r matches Some(d) && room_io_is(d, IOData::Input(*input), v),
            None => r is None,
        },
{
    match input_map.find(input.id.as_str()) {
        Some(k) => match &input_map.entries[k].value {
            Some(v) => Some(make_room_io_data(IOData::Input(input.clone()), v)),
            None => None,
        },
        None => None,
    }
}

fn make_room_output(output: &Output, output_map: &OutputSharedContextMap) -> (r: Option<
    RoomIOData,
>)
    requires
        output_map.wf(),
    ensures
        match output_value(output_map.entries@, output.id@) {
            Some(v) => r matches Some(d) && room_io_is(d, IOData::Output(*output), v),
            None => r is None,
        },
{
    match output_map.find(output.id.as_str()) {
        Some(k) => match &output_map.entries[k].value {
            Some(v) => Some(make_room_io_data(IOData::Output(output.clone()), v)),
            None => None,
        },
        None => None,
    }
}

fn make_room_ios(
    room: &Room,
    input_map: &InputSharedContextMap,
    output_map: &OutputSharedContextMap,
) -> (r: Vec<RoomIOData>)
    requires
        input_map.wf(),
        output_map.wf(),
    ensures
        items_are(
            r@,
            input_items(room.inputs@, input_map.entries@) + output_items(
                room.outputs@,
                output_map.entries@,
            ),
        ),
{
    let ghost im = input_map.entries@;
    let ghost om = output_map.entries@;
    let mut ios: Vec<RoomIOData> = Vec::new();
    let mut i: usize = 0;
    while i < room.inputs.len()
        invariant
            input_map.wf(),
            im == input_map.entries@,
            i <= room.inputs@.len(),
            items_are(ios@, input_items(room.inputs@.take(i as int), im)),
        decreases room.inputs@.len() - i,
    {
        proof {
            assert(room.inputs@.take(i + 1).drop_last() =~= room.inputs@.take(i as int));
        }
        let ghost before = ios@;
        if let Some(d) = make_room_input(&room.inputs[i], input_map) {
            ios.push(d);
        }
        proof {
            let want = input_items(room.inputs@.take(i + 1), im);
            assert forall|j: int| 0 <= j < ios@.len() implies room_io_is(
                #[trigger] ios@[j],
                want[j].0,
                want[j].1,
            ) by {
                if j < before.len() {
                    assert(ios@[j] == before[j]);
                }
            }
        }
        i = i + 1;
    }
    assert(room.inputs@.take(i as int) =~= room.inputs@);
    let ghost ins = input_items(room.inputs@, im);
    let mut i: usize = 0;
    while i < room.outputs.len()
        invariant
            output_map.wf(),
            om == output_map.entries@,
            i <= room.outputs@.len(),
            items_are(ios@, ins + output_items(room.outputs@.take(i as int), om)),
        decreases room.outputs@.len() - i,
    {
        proof {
            assert(room.outputs@.take(i + 1).drop_last() =~= room.outputs@.take(i as int));
        }
        let ghost before = ios@;
        if let Some(d) = make_room_output(&room.outputs[i], output_map) {
            ios.push(d);
        }
        proof {
            let want = ins + output_items(room.outputs@.take(i + 1), om);
            let was = ins + output_items(room.outputs@.take(i as int), om);
            assert forall|j: int| 0 <= j < ios@.len() implies room_io_is(
                #[trigger] ios@[j],
                want[j].0,
                want[j].1,
            ) by {
                if j < before.len() {
                    assert(ios@[j] == before[j]);
                    assert(want[j] == was[j]);
                }
            }
        }
        i = i + 1;
    }
    assert(room.outputs@.take(i as int) =~= room.outputs@);
    ios
}

fn make_rooms(
    io_config: &IoConfig,
    input_map: &InputSharedContextMap,
    output_map: &OutputSharedContextMap,
) -> (r: Vec<RoomData>)
    requires
        input_map.wf(),
        output_map.wf(),
    ensures
        r@.len() == io_config.home.rooms@.len(),
        forall|i: int|
            0 <= i < r@.len() ==> room_data_is(
                #[trigger] r@[i],
                io_config.home.rooms@[i],
                input_map.entries@,
                output_map.entries@,
            ),
{
    let mut res: Vec<RoomData> = Vec::new();
    let mut i: usize = 0;
    while i < io_config.home.rooms.len()
        invariant
            input_map.wf(),
            output_map.wf(),
            i <= io_config.home.rooms@.len(),
            res@.len() == i,
            forall|j: int|
                0 <= j < i ==> room_data_is(
                    #[trigger] res@[j],
                    io_config.home.rooms@[j],
                    input_map.entries@,
                    output_map.entries@,
                ),
        decreases io_config.home.rooms@.len() - i,
    {
        let room = &io_config.home.rooms[i];
        res.push(
            RoomData {
                name: room.name.clone(),
                typer: room.typer.clone(),
                hits: u32_to_decimal(room.hits),
                items: make_room_ios(room, input_map, output_map),
            },
        );
        i = i + 1;
    }
    res
}

impl LoginData {
    pub fn new(user: String, pass: String) -> (r: Self)
        ensures
            r.cn_user == user,
            r.cn_pass == pass,
    {
        Self { cn_user: user, cn_pass: pass }
    }

    pub fn user(&self) -> (r: &str)
        ensures
            r@ == self.cn_user@,
    {
        self.cn_user.as_str()
    }

    pub fn pass(&self) -> (r: &str)
        ensures
            r@ == self.cn_pass@,
    {
        self.cn_pass.as_str()
    }
}

impl HomeData {
    /// The description of the home: every room with its inputs and outputs
    /// whose value is known.
    pub fn new(
        io_config: &IoConfig,
        input_map: &InputSharedContextMap,
        output_map: &OutputSharedContextMap,
    ) -> (r: Self)
        requires
            input_map.wf(),
            output_map.wf(),
        ensures
            r.home@.len() == io_config.home.rooms@.len(),
            forall|i: int|
                0 <= i < r.home@.len() ==> room_data_is(
                    #[trigger] r.home@[i],
                    io_config.home.rooms@[i],
                    input_map.entries@,
                    output_map.entries@,
                ),
    {
        Self {
            home: make_rooms(io_config, input_map, output_map),
            cameras: CameraData {},
            audio: AudioData {},
        }
    }
}

impl Success {
    pub fn new(value: bool) -> (r: Self)
        ensures
            r.success == value,
    {
        Self { success: value }
    }
}

/// The text of an event: "<kind>, id:<id> state:<state>".
pub open spec fn event_raw_text(kind: Event, id: Seq<char>, value: IOValueView) -> Seq<char> {
    event_text(kind) + ", id:"@ + id + " state:"@ + value_text(value)
}

impl EventData {
    /// The event `kind` about `data`.
    pub fn new(kind: Event, data: io_context::IOData) -> (r: Self)
        ensures
            r.event_raw@ == event_raw_text(kind, data.id@, data.value@),
            r.typer == event_code(kind),
            r.type_str@ == event_text(kind),
            r.data == data,
    {
        let kind_str = kind.name();
        let mut raw = String::new();
        append_str(&mut raw, kind_str);
        append_str(&mut raw, ", id:");
        append_str(&mut raw, data.id.as_str());
        append_str(&mut raw, " state:");
        let state = data.value.to_text();
        append_str(&mut raw, state.as_str());
        let mut type_str = String::new();
        append_str(&mut type_str, kind_str);
        assert(type_str@ =~= event_text(kind));
        Self { event_raw: raw, typer: kind.code(), type_str, data }
    }
}

impl SetStateData {
    /// The action that the request asks for: setting the value.
    pub fn into_action(self) -> (r: IODataAction)
        ensures
            r.id == self.id,
            r.action == IOAction::SetValue(self.value),
    {
        IODataAction::from_value(self.id, self.value)
    }
}

impl From<SetStateData> for io_context::IOData {
    fn from(data: SetStateData) -> (r: io_context::IOData)
        ensures
            r.id == data.id,
            r.value == data.value,
    {
        io_context::IOData::new(data.id, data.value)
    }
}

impl vstd::std_specs::convert::FromSpecImpl<SetStateData> for io_context::IOData {
    open spec fn obeys_from_spec() -> bool {
        true
    }

    open spec fn from_spec(v: SetStateData) -> io_context::IOData {
        io_context::IOData { id: v.id, value: v.value }
    }
}

/// A value is announced as "bool" exactly when it is a boolean, as "float"
/// exactly when it is an integer, and as "string" otherwise (a text or a
/// shutter state).
pub proof fn lemma_value_types(v: IOValueView)
    ensures
        (value_type_text(v) == "bool"@) <==> v is Bool,
        (value_type_text(v) == "float"@) <==> v is Int,
        (value_type_text(v) == "string"@) <==> !(v is Bool || v is Int),
{
    reveal_strlit("bool");
    reveal_strlit("float");
    reveal_strlit("string");
    assert("bool"@.len() != "float"@.len() && "bool"@.len() != "string"@.len() && "float"@.len() != "string"@.len());
}

} // verus!
