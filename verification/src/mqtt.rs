//! The MQTT side of the server, for Home Assistant: configuration, topic
//! names, the state payloads, the discovery announcements, and the reading
//! of commands. The MQTT connection itself is the application's job.

use vstd::prelude::*;

use crate::io_config::{IoConfig, Output, OutputKind, Room};
use crate::io_context::{IOData, IODataAction, IODataActionView};
use crate::io_value::{IOAction, IOActionView, IOValue, IOValueView, ShutterState};
use crate::text::{append_str, chars_of, i32_to_decimal, int_to_decimal, string_of};

verus! {

/// Connection and naming settings of the MQTT client; `keep_alive` is in seconds.
#[derive(Debug)]
pub struct MqttConfig {
    pub host: String,
    pub port: u16,
    pub username: Option<String>,
    pub password: Option<String>,
    pub discovery_prefix: String,
    pub node_id: String,
    pub keep_alive: u64,
}

fn string_from(s: &str) -> (r: String)
    ensures
        r@ == s@,
{
    let mut r = String::new();
    append_str(&mut r, s);
    r
}

pub fn default_host() -> (r: String)
    ensures
        r@ == "localhost"@,
{
    string_from("localhost")
}

pub fn default_port() -> (r: u16)
    ensures
        r == 1883,
{
    1883
}

pub fn default_discovery_prefix() -> (r: String)
    ensures
        r@ == "homeassistant"@,
{
    string_from("homeassistant")
}

pub fn default_node_id() -> (r: String)
    ensures
        r@ == "calaos"@,
{
    string_from("calaos")
}

/// The default keep alive period, in seconds.
pub fn default_keep_alive() -> (r: u64)
    ensures
        r == 30,
{
    30
}

impl Default for MqttConfig {
    fn default() -> (r: Self)
        ensures
            r.host@ == "localhost"@,
            r.port == 1883,
            r.username is None,
            r.password is None,
            r.discovery_prefix@ == "homeassistant"@,
            r.node_id@ == "calaos"@,
            r.keep_alive == 30,
    {
        Self {
            host: default_host(),
            port: default_port(),
            username: None,
            password: None,
            discovery_prefix: default_discovery_prefix(),
            node_id: default_node_id(),
            keep_alive: default_keep_alive(),
        }
    }
}

/// The state payload published for a value: ON/OFF for booleans, the
/// decimal form of integers, the text itself, and the cover states of
/// Home Assistant for shutters.
pub open spec fn state_payload(v: IOValueView) -> Seq<char> {
    match v {
        IOValueView::Bool(b) => if b {
            "ON"@
        } else {
            "OFF"@
        },
        IOValueView::Int(i) => int_to_decimal(i as int),
        IOValueView::Str(s) => s,
        IOValueView::Shutter(s) => match s {
            ShutterState::Up => "open"@,
            ShutterState::Down => "closed"@,
            ShutterState::MovingUp => "opening"@,
            ShutterState::MovingDown => "closing"@,
        },
    }
}

/// The state payload published for a value.
pub fn encode_state_string(value: &IOValue) -> (r: String)
    ensures
        r@ == state_payload(value@),
{
    match value {
        IOValue::Bool(b) => if *b {
            string_from("ON")
        } else {
            string_from("OFF")
        },
        IOValue::Int(i) => i32_to_decimal(*i),
        IOValue::String(s) => s.clone(),
        IOValue::Shutter(s) => match s {
            ShutterState::Up => string_from("open"),
            ShutterState::Down => string_from("closed"),
            ShutterState::MovingUp => string_from("opening"),
            ShutterState::MovingDown => string_from("closing"),
        },
    }
}

fn concat2(a: &str, b: &str) -> (r: String)
    ensures
        r@ == a@ + b@,
{
    let mut r = String::new();
    append_str(&mut r, a);
    append_str(&mut r, b);
    r
}

fn concat3(a: &str, b: &str, c: &str) -> (r: String)
    ensures
        r@ == a@ + b@ + c@,
{
    let mut r = String::new();
    append_str(&mut r, a);
    append_str(&mut r, b);
    append_str(&mut r, c);
    r
}

/// `<node_id>/availability`: the availability of the whole node.
pub fn availability_topic(node_id: &str) -> (r: String)
    ensures
        r@ == node_id@ + "/availability"@,
{
    concat2(node_id, "/availability")
}

/// `<node_id>/availability/<id>`: the availability of one input or output.
pub fn entity_availability_topic(node_id: &str, id: &str) -> (r: String)
    ensures
        r@ == node_id@ + "/availability/"@ + id@,
{
    concat3(node_id, "/availability/", id)
}

/// `<node_id>/state/<id>`: where the state of an input or output is published.
pub fn state_topic(node_id: &str, id: &str) -> (r: String)
    ensures
        r@ == node_id@ + "/state/"@ + id@,
{
    concat3(node_id, "/state/", id)
}

/// `<node_id>/set/<id>`: where commands for an output are received.
pub fn command_topic(node_id: &str, id: &str) -> (r: String)
    ensures
        r@ == node_id@ + "/set/"@ + id@,
{
    concat3(node_id, "/set/", id)
}

/// `<node_id>/set/+`: the subscription that receives all commands.
pub fn command_subscription(node_id: &str) -> (r: String)
    ensures
        r@ == node_id@ + "/set/+"@,
{
    concat2(node_id, "/set/+")
}

/// The topic where the state of `data` is published, and the payload.
pub fn state_message(node_id: &str, data: &IOData) -> (r: (String, String))
    ensures
        r.0@ == node_id@ + "/state/"@ + data.id@,
        r.1@ == state_payload(data.value@),
{
    (state_topic(node_id, data.id.as_str()), encode_state_string(&data.value))
}

/// The topics of the availability of every input and output, room after
/// room, the inputs of a room before its outputs.
pub open spec fn entity_ids(rooms: Seq<Room>) -> Seq<Seq<char>>
    decreases rooms.len(),
{
    if rooms.len() == 0 {
        Seq::empty()
    } else {
        let r = rooms.last();
        entity_ids(rooms.drop_last()) + r.inputs@.map_values(|i: crate::io_config::Input| i.id@)
            + r.outputs@.map_values(|o: Output| o.id@)
    }
}

/// The availability topics of all inputs and outputs.
pub fn entity_availability_topics(io: &IoConfig, node_id: &str) -> (r: Vec<String>)
    ensures
        r@.map_values(|t: String| t@) == entity_ids(io.home.rooms@).map_values(
            |id: Seq<char>| node_id@ + "/availability/"@ + id,
        ),
{
    let ghost f = |id: Seq<char>| node_id@ + "/availability/"@ + id;
    let mut res: Vec<String> = Vec::new();
    let mut ri: usize = 0;
    while ri < io.home.rooms.len()
        invariant
            ri <= io.home.rooms@.len(),
            f == (|id: Seq<char>| node_id@ + "/availability/"@ + id),
            res@.map_values(|t: String| t@) == entity_ids(io.home.rooms@.take(ri as int)).map_values(f),
        decreases io.home.rooms@.len() - ri,
    {
        let room = &io.home.rooms[ri];
        let ghost base = res@.map_values(|t: String| t@);
        let mut i: usize = 0;
        while i < room.inputs.len()
            invariant
                i <= room.inputs@.len(),
                f == (|id: Seq<char>| node_id@ + "/availability/"@ + id),
                res@.map_values(|t: String| t@) == base + room.inputs@.take(i as int).map_values(
                    |x: crate::io_config::Input| x.id@,
                ).map_values(f),
            decreases room.inputs@.len() - i,
        {
            let ghost prev = res@;
            let t = entity_availability_topic(node_id, room.inputs[i].id.as_str());
            res.push(t);
            assert(room.inputs@.take(i + 1) =~= room.inputs@.take(i as int).push(room.inputs@[i as int]));
            assert(res@.map_values(|t: String| t@) =~= prev.map_values(|t: String| t@).push(t@));
            assert(res@.map_values(|t: String| t@) =~= base + room.inputs@.take(i + 1).map_values(
                |x: crate::io_config::Input| x.id@,
            ).map_values(f));
            i = i + 1;
        }
        let ghost base2 = res@.map_values(|t: String| t@);
        let mut j: usize = 0;
        while j < room.outputs.len()
            invariant
                j <= room.outputs@.len(),
                f == (|id: Seq<char>| node_id@ + "/availability/"@ + id),
                res@.map_values(|t: String| t@) == base2 + room.outputs@.take(j as int).map_values(
                    |x: Output| x.id@,
                ).map_values(f),
            decreases room.outputs@.len() - j,
        {
            let ghost prev = res@;
            let t = entity_availability_topic(node_id, room.outputs[j].id.as_str());
            res.push(t);
            assert(room.outputs@.take(j + 1) =~= room.outputs@.take(j as int).push(room.outputs@[j as int]));
            assert(res@.map_values(|t: String| t@) =~= prev.map_values(|t: String| t@).push(t@));
            assert(res@.map_values(|t: String| t@) =~= base2 + room.outputs@.take(j + 1).map_values(
                |x: Output| x.id@,
            ).map_values(f));
            j = j + 1;
        }
        proof {
            let rooms = io.home.rooms@;
            assert(rooms.take(ri + 1).drop_last() =~= rooms.take(ri as int));
            assert(room.inputs@.take(i as int) =~= room.inputs@);
            assert(room.outputs@.take(j as int) =~= room.outputs@);
            let a = entity_ids(rooms.take(ri as int));
            let b = room.inputs@.map_values(|x: crate::io_config::Input| x.id@);
            let c = room.outputs@.map_values(|x: Output| x.id@);
            assert((a + b + c).map_values(f) =~= a.map_values(f) + b.map_values(f) + c.map_values(f));
            assert(res@.map_values(|t: String| t@) =~= a.map_values(f) + b.map_values(f) + c.map_values(f));
        }
        ri = ri + 1;
    }
    proof {
        assert(io.home.rooms@.take(ri as int) =~= io.home.rooms@);
    }
    res
}

/// The text that `str::to_uppercase` gives for a text (Unicode upper case).
pub uninterp spec fn uppercase(s: Seq<char>) -> Seq<char>;

/// The text that `String::from_utf8_lossy` reads from bytes (invalid
/// sequences become U+FFFD).
pub uninterp spec fn utf8_lossy(b: Seq<u8>) -> Seq<char>;

/// std's `str::to_uppercase`: claimed to give `uppercase` of the text, a
/// function of the text alone; nothing more is claimed of it here.
#[verifier::external_body]
fn to_uppercase(s: &str) -> (r: String)
    ensures
        r@ == uppercase(s@),
{
    s.to_uppercase()
}

/// std's `String::from_utf8_lossy`, made an owned string: claimed to give
/// `utf8_lossy` of the bytes, a function of the bytes alone; nothing more
/// is claimed of it here.
#[verifier::external_body]
fn from_utf8_lossy(b: &[u8]) -> (r: String)
    ensures
        r@ == utf8_lossy(b@),
{
    String::from_utf8_lossy(b).into_owned()
}

pub open spec fn no_slash(s: Seq<char>) -> bool {
    forall|i: int| 0 <= i < s.len() ==> s[i] != '/'
}

/// The ID that a command topic `<node_id>/set/<id>` names: the topic must
/// split on '/' into exactly these three parts.
pub open spec fn command_target_spec(topic: Seq<char>, node_id: Seq<char>) -> Option<Seq<char>> {
    let n = node_id.len() + 5;
    if no_slash(node_id) && topic.len() >= n && topic.take(n as int) == node_id + "/set/"@
        && no_slash(topic.skip(n as int)) {
        Some(topic.skip(n as int))
    } else {
        None
    }
}

/// The action that an upper-cased command payload asks for.
pub open spec fn command_action_spec(upper: Seq<char>) -> Option<IOActionView> {
    if upper == "ON"@ {
        Some(IOActionView::SetValue(IOValueView::Bool(true)))
    } else if upper == "OFF"@ {
        Some(IOActionView::SetValue(IOValueView::Bool(false)))
    } else if upper == "OPEN"@ {
        Some(IOActionView::SetValue(IOValueView::Shutter(ShutterState::Up)))
    } else if upper == "CLOSE"@ {
        Some(IOActionView::SetValue(IOValueView::Shutter(ShutterState::Down)))
    } else if upper == "STOP"@ {
        Some(IOActionView::Stop)
    } else if upper == "TOGGLE"@ {
        Some(IOActionView::Toggle)
    } else {
        None
    }
}

fn has_no_slash(cs: &Vec<char>, start: usize, end: usize) -> (r: bool)
    requires
        start <= end <= cs@.len(),
    ensures
        r == no_slash(cs@.subrange(start as int, end as int)),
{
    let mut i = start;
    while i < end
        invariant
            start <= i <= end <= cs@.len(),
            forall|j: int| start <= j < i ==> cs@[j] != '/',
        decreases end - i,
    {
        if cs[i] == '/' {
            assert(cs@.subrange(start as int, end as int)[i - start] == '/');
            return false;
        }
        i = i + 1;
    }
    assert forall|j: int| 0 <= j < end - start implies cs@.subrange(start as int, end as int)[j]
        != '/' by {
        assert(cs@.subrange(start as int, end as int)[j] == cs@[start + j]);
    }
    true
}

/// The ID that a command topic names, if it is `<node_id>/set/<id>`.
pub fn command_target(topic: &str, node_id: &str) -> (r: Option<String>)
    ensures
        match command_target_spec(topic@, node_id@) {
            Some(id) => r matches Some(s) && s@ == id,
            None => r is None,
        },
{
    let cs = chars_of(topic);
    let ns = chars_of(node_id);
    let mut prefix = String::new();
    append_str(&mut prefix, node_id);
    append_str(&mut prefix, "/set/");
    let ps = chars_of(prefix.as_str());
    let n = ps.len();
    proof {
        reveal_strlit("/set/");
        assert(ps@ == node_id@ + "/set/"@);
        assert(n == node_id@.len() + 5);
    }
    if !has_no_slash(&ns, 0, ns.len()) || cs.len() < n {
        assert(ns@.subrange(0, ns@.len() as int) =~= ns@);
        return None;
    }
    assert(ns@.subrange(0, ns@.len() as int) =~= ns@);
    let mut i: usize = 0;
    while i < n
        invariant
            n == ps@.len() <= cs@.len(),
            cs@ == topic@,
            ps@ == node_id@ + "/set/"@,
            n == node_id@.len() + 5,
            no_slash(node_id@),
            i <= n,
            forall|j: int| 0 <= j < i ==> cs@[j] == ps@[j],
        decreases n - i,
    {
        if cs[i] != ps[i] {
            assert(cs@.take(n as int)[i as int] != ps@[i as int]);
            return None;
        }
        i = i + 1;
    }
    assert(cs@.take(n as int) =~= ps@);
    let ok = has_no_slash(&cs, n, cs.len());
    assert(cs@.subrange(n as int, cs@.len() as int) =~= cs@.skip(n as int));
    if !ok {
        return None;
    }
    let mut id: Vec<char> = Vec::new();
    let mut k = n;
    while k < cs.len()
        invariant
            n <= k <= cs@.len(),
            id@ == cs@.subrange(n as int, k as int),
        decreases cs@.len() - k,
    {
        id.push(cs[k]);
        k = k + 1;
        assert(id@ =~= cs@.subrange(n as int, k as int));
    }
    Some(string_of(id.as_slice()))
}

/// The action that an upper-cased command payload asks for.
pub fn command_action(upper: &str) -> (r: Option<IOAction>)
    ensures
        match command_action_spec(upper@) {
            Some(a) => r matches Some(x) && x@ == a,
            None => r is None,
        },
{
    if crate::text::str_eq(upper, "ON") {
        Some(IOAction::SetValue(IOValue::Bool(true)))
    } else if crate::text::str_eq(upper, "OFF") {
        Some(IOAction::SetValue(IOValue::Bool(false)))
    } else if crate::text::str_eq(upper, "OPEN") {
        Some(IOAction::SetValue(IOValue::Shutter(ShutterState::Up)))
    } else if crate::text::str_eq(upper, "CLOSE") {
        Some(IOAction::SetValue(IOValue::Shutter(ShutterState::Down)))
    } else if crate::text::str_eq(upper, "STOP") {
        Some(IOAction::Stop)
    } else if crate::text::str_eq(upper, "TOGGLE") {
        Some(IOAction::Toggle)
    } else {
        None
    }
}

/// The action that a message received on `topic` asks for: the topic must
/// be a command topic of this node, and the payload, upper-cased, one of
/// ON, OFF, OPEN, CLOSE, STOP, TOGGLE.
pub fn handle_command(topic: &str, payload: &[u8], node_id: &str) -> (r: Option<IODataAction>)
    ensures
        match (
            command_target_spec(topic@, node_id@),
            command_action_spec(uppercase(utf8_lossy(payload@))),
        ) {
            (Some(id), Some(a)) => r matches Some(x) && x@ == (IODataActionView { id, action: a }),
            _ => r is None,
        },
{
    let id = match command_target(topic, node_id) {
        Some(id) => id,
        None => return None,
    };
    let text = from_utf8_lossy(payload);
    let upper = to_uppercase(text.as_str());
    match command_action(upper.as_str()) {
        Some(action) => Some(IODataAction::new(id, action)),
        None => None,
    }
}

/// What to do with a message received from the broker.
#[derive(Debug, PartialEq)]
pub enum Incoming {
    /// Home Assistant came (back) online: publish discovery and availability again.
    Rediscover,
    /// A command for an input or output.
    Command(IODataAction),
    /// Nothing to do.
    Ignore,
}

/// Reads a message received from the broker.
pub fn classify_message(topic: &str, payload: &[u8], node_id: &str) -> (r: Incoming)
    ensures
        (topic@ == "homeassistant/status"@ && utf8_lossy(payload@) == "online"@) ==> r
            == Incoming::Rediscover,
        !(topic@ == "homeassistant/status"@ && utf8_lossy(payload@) == "online"@) ==> match (
            command_target_spec(topic@, node_id@),
            command_action_spec(uppercase(utf8_lossy(payload@))),
        ) {
            (Some(id), Some(a)) => r matches Incoming::Command(x) && x@ == (IODataActionView {
                id,
                action: a,
            }),
            _ => r == Incoming::Ignore,
        },
{
    let text = from_utf8_lossy(payload);
    if crate::text::str_eq(topic, "homeassistant/status") && crate::text::str_eq(
        text.as_str(),
        "online",
    ) {
        return Incoming::Rediscover;
    }
    match handle_command(topic, payload, node_id) {
        Some(a) => Incoming::Command(a),
        None => Incoming::Ignore,
    }
}

/// The kind of Home Assistant entity that an input or output is announced as.
#[derive(Debug, Clone, Copy, PartialEq, Eq, Structural)]
pub enum Component {
    BinarySensor,
    Switch,
    Cover,
}

/// The name of a component in discovery topics.
pub open spec fn component_text(c: Component) -> Seq<char> {
    match c {
        Component::BinarySensor => "binary_sensor"@,
        Component::Switch => "switch"@,
        Component::Cover => "cover"@,
    }
}

/// The discovery announcement of one input or output. The payloads that
/// each component uses (ON/OFF, OPEN/CLOSE/STOP and the cover states) are
/// fixed by the component: see `discovery_fields`.
#[derive(Debug, PartialEq)]
pub struct Discovery {
    /// `<prefix>/<component>/<node_id>/<room>_<id>/config`
    pub topic: String,
    pub component: Component,
    pub name: String,
    /// `<room>_<id>`
    pub unique_id: String,
    pub state_topic: String,
    /// For outputs only.
    pub command_topic: Option<String>,
    pub availability_topic: String,
    pub entity_availability_topic: String,
    pub node_id: String,
}

pub struct DiscoveryView {
    pub topic: Seq<char>,
    pub component: Component,
    pub name: Seq<char>,
    pub unique_id: Seq<char>,
    pub state_topic: Seq<char>,
    pub command_topic: Option<Seq<char>>,
    pub availability_topic: Seq<char>,
    pub entity_availability_topic: Seq<char>,
    pub node_id: Seq<char>,
}

impl View for Discovery {
    type V = DiscoveryView;

    open spec fn view(&self) -> DiscoveryView {
        DiscoveryView {
            topic: self.topic@,
            component: self.component,
            name: self.name@,
            unique_id: self.unique_id@,
            state_topic: self.state_topic@,
            command_topic: match self.command_topic {
                Some(t) => Some(t@),
                None => None,
            },
            availability_topic: self.availability_topic@,
            entity_availability_topic: self.entity_availability_topic@,
            node_id: self.node_id@,
        }
    }
}

/// The announcement of an entity `id` named `name` of room `room`.
pub open spec fn discovery_of(
    c: Component,
    room: Seq<char>,
    id: Seq<char>,
    name: Seq<char>,
    commanded: bool,
    prefix: Seq<char>,
    node_id: Seq<char>,
) -> DiscoveryView {
    DiscoveryView {
        topic: prefix + "/"@ + component_text(c) + "/"@ + node_id + "/"@ + room + "_"@ + id
            + "/config"@,
        component: c,
        name,
        unique_id: room + "_"@ + id,
        state_topic: node_id + "/state/"@ + id,
        command_topic: if commanded {
            Some(node_id + "/set/"@ + id)
        } else {
            None
        },
        availability_topic: node_id + "/availability"@,
        entity_availability_topic: node_id + "/availability/"@ + id,
        node_id,
    }
}

/// Outputs are announced as covers when they are shutters, as switches otherwise.
pub open spec fn output_component(o: Output) -> Component {
    match o.kind {
        OutputKind::WOShutter(_) => Component::Cover,
        _ => Component::Switch,
    }
}

/// The announcements of a room: its inputs as binary sensors, then its outputs.
pub open spec fn room_discoveries(room: Room, prefix: Seq<char>, node_id: Seq<char>) -> Seq<
    DiscoveryView,
> {
    room.inputs@.map_values(
        |i: crate::io_config::Input|
            discovery_of(Component::BinarySensor, room.name@, i.id@, i.name@, false, prefix, node_id),
    ) + room.outputs@.map_values(
        |o: Output| discovery_of(output_component(o), room.name@, o.id@, o.name@, true, prefix, node_id),
    )
}

/// The announcements of all rooms, in order.
pub open spec fn discoveries(rooms: Seq<Room>, prefix: Seq<char>, node_id: Seq<char>) -> Seq<
    DiscoveryView,
>
    decreases rooms.len(),
{
    if rooms.len() == 0 {
        Seq::empty()
    } else {
        discoveries(rooms.drop_last(), prefix, node_id) + room_discoveries(
            rooms.last(),
            prefix,
            node_id,
        )
    }
}

fn component_name(c: Component) -> (r: &'static str)
    ensures
        r@ == component_text(c),
{
    match c {
        Component::BinarySensor => "binary_sensor",
        Component::Switch => "switch",
        Component::Cover => "cover",
    }
}

fn make_discovery(
    c: Component,
    room: &str,
    id: &str,
    name: &String,
    commanded: bool,
    prefix: &str,
    node_id: &str,
) -> (r: Discovery)
    ensures
        r@ == discovery_of(c, room@, id@, name@, commanded, prefix@, node_id@),
{
    let mut topic = String::new();
    append_str(&mut topic, prefix);
    append_str(&mut topic, "/");
    append_str(&mut topic, component_name(c));
    append_str(&mut topic, "/");
    append_str(&mut topic, node_id);
    append_str(&mut topic, "/");
    append_str(&mut topic, room);
    append_str(&mut topic, "_");
    append_str(&mut topic, id);
    append_str(&mut topic, "/config");
    let unique_id = concat3(room, "_", id);
    let command_topic = if commanded {
        Some(command_topic(node_id, id))
    } else {
        None
    };
    let mut node = String::new();
    append_str(&mut node, node_id);
    Discovery {
        topic,
        component: c,
        name: name.clone(),
        unique_id,
        state_topic: state_topic(node_id, id),
        command_topic,
        availability_topic: availability_topic(node_id),
        entity_availability_topic: entity_availability_topic(node_id, id),
        node_id: node,
    }
}

fn output_component_of(o: &Output) -> (r: Component)
    ensures
        r == output_component(*o),
{
    match o.kind {
        OutputKind::WOShutter(_) => Component::Cover,
        _ => Component::Switch,
    }
}

/// The discovery announcements of all inputs and outputs, room after room.
pub fn discovery_configs(io: &IoConfig, config: &MqttConfig) -> (r: Vec<Discovery>)
    ensures
        r@.map_values(|d: Discovery| d@) == discoveries(
            io.home.rooms@,
            config.discovery_prefix@,
            config.node_id@,
        ),
{
    let prefix = config.discovery_prefix.as_str();
    let node_id = config.node_id.as_str();
    let mut res: Vec<Discovery> = Vec::new();
    let mut ri: usize = 0;
    while ri < io.home.rooms.len()
        invariant
            ri <= io.home.rooms@.len(),
            prefix@ == config.discovery_prefix@,
            node_id@ == config.node_id@,
            res@.map_values(|d: Discovery| d@) == discoveries(
                io.home.rooms@.take(ri as int),
                prefix@,
                node_id@,
            ),
        decreases io.home.rooms@.len() - ri,
    {
        let room = &io.home.rooms[ri];
        let ghost base = res@.map_values(|d: Discovery| d@);
        let ghost fi = |i: crate::io_config::Input|
            discovery_of(Component::BinarySensor, room.name@, i.id@, i.name@, false, prefix@, node_id@);
        let ghost fo = |o: Output|
            discovery_of(output_component(o), room.name@, o.id@, o.name@, true, prefix@, node_id@);
        let mut i: usize = 0;
        while i < room.inputs.len()
            invariant
                i <= room.inputs@.len(),
                fi == (|i: crate::io_config::Input|
                    discovery_of(Component::BinarySensor, room.name@, i.id@, i.name@, false, prefix@, node_id@)),
                res@.map_values(|d: Discovery| d@) == base + room.inputs@.take(i as int).map_values(fi),
            decreases room.inputs@.len() - i,
        {
            let ghost prev = res@;
            let input = &room.inputs[i];
            let d = make_discovery(
                Component::BinarySensor,
                room.name.as_str(),
                input.id.as_str(),
                &input.name,
                false,
                prefix,
                node_id,
            );
            res.push(d);
            assert(room.inputs@.take(i + 1) =~= room.inputs@.take(i as int).push(room.inputs@[i as int]));
            assert(res@.map_values(|d: Discovery| d@) =~= prev.map_values(|d: Discovery| d@).push(d@));
            assert(res@.map_values(|d: Discovery| d@) =~= base + room.inputs@.take(i + 1).map_values(fi));
            i = i + 1;
        }
        let ghost base2 = res@.map_values(|d: Discovery| d@);
        let mut j: usize = 0;
        while j < room.outputs.len()
            invariant
                j <= room.outputs@.len(),
                fo == (|o: Output|
                    discovery_of(output_component(o), room.name@, o.id@, o.name@, true, prefix@, node_id@)),
                res@.map_values(|d: Discovery| d@) == base2 + room.outputs@.take(j as int).map_values(fo),
            decreases room.outputs@.len() - j,
        {
            let ghost prev = res@;
            let output = &room.outputs[j];
            let d = make_discovery(
                output_component_of(output),
                room.name.as_str(),
                output.id.as_str(),
                &output.name,
                true,
                prefix,
                node_id,
            );
            res.push(d);
            assert(room.outputs@.take(j + 1) =~= room.outputs@.take(j as int).push(room.outputs@[j as int]));
            assert(res@.map_values(|d: Discovery| d@) =~= prev.map_values(|d: Discovery| d@).push(d@));
            assert(res@.map_values(|d: Discovery| d@) =~= base2 + room.outputs@.take(j + 1).map_values(fo));
            j = j + 1;
        }
        proof {
            let rooms = io.home.rooms@;
            assert(rooms.take(ri + 1).drop_last() =~= rooms.take(ri as int));
            assert(room.inputs@.take(i as int) =~= room.inputs@);
            assert(room.outputs@.take(j as int) =~= room.outputs@);
            assert(res@.map_values(|d: Discovery| d@) =~= discoveries(rooms.take(ri + 1), prefix@, node_id@));
        }
        ri = ri + 1;
    }
    proof {
        assert(io.home.rooms@.take(ri as int) =~= io.home.rooms@);
    }
    res
}

/// A command published on the command topic of an entity is read back as
/// a command for that entity, when neither the node ID nor the entity ID
/// holds a `/`.
pub proof fn lemma_command_topic_round_trip(node_id: Seq<char>, id: Seq<char>)
    requires
        no_slash(node_id),
        no_slash(id),
    ensures
        command_target_spec(node_id + "/set/"@ + id, node_id) == Some(id),
{
    reveal_strlit("/set/");
    let t = node_id + "/set/"@ + id;
    let n = node_id.len() + 5;
    assert(t.take(n as int) =~= node_id + "/set/"@);
    assert(t.skip(n as int) =~= id);
}

/// The views of a list of key/value pairs.
pub open spec fn pair_views(v: Seq<(String, String)>) -> Seq<(Seq<char>, Seq<char>)> {
    Seq::new(v.len(), |i: int| (v[i].0@, v[i].1@))
}

/// The payloads and states that Home Assistant reads for a component: ON
/// and OFF for a binary sensor; ON and OFF as payloads and states for a
/// switch; OPEN, CLOSE and STOP, the four shutter states and the shutter
/// device class for a cover.
pub open spec fn component_fields_spec(c: Component) -> Seq<(Seq<char>, Seq<char>)> {
    match c {
        Component::BinarySensor => seq![("payload_on"@, "ON"@), ("payload_off"@, "OFF"@)],
        Component::Switch => seq![
            ("payload_on"@, "ON"@),
            ("payload_off"@, "OFF"@),
            ("state_on"@, "ON"@),
            ("state_off"@, "OFF"@),
        ],
        Component::Cover => seq![
            ("payload_open"@, "OPEN"@),
            ("payload_close"@, "CLOSE"@),
            ("payload_stop"@, "STOP"@),
            ("state_open"@, "open"@),
            ("state_opening"@, "opening"@),
            ("state_closed"@, "closed"@),
            ("state_closing"@, "closing"@),
            ("device_class"@, "shutter"@),
        ],
    }
}

/// The text fields of the discovery document of an entity: its name,
/// unique ID and state topic, its command topic when it has one, then the
/// fields of its component.
pub open spec fn discovery_fields_spec(d: DiscoveryView) -> Seq<(Seq<char>, Seq<char>)> {
    seq![("name"@, d.name), ("unique_id"@, d.unique_id), ("state_topic"@, d.state_topic)] + match d.command_topic {
        Some(t) => seq![("command_topic"@, t)],
        None => Seq::empty(),
    } + component_fields_spec(d.component)
}

/// The availability entries of a discovery document: the topic, the
/// payload that means available and the one that means not available;
/// first the node's, then the entity's.
pub open spec fn availability_spec(d: DiscoveryView) -> Seq<(Seq<char>, Seq<char>, Seq<char>)> {
    seq![
        (d.availability_topic, "online"@, "offline"@),
        (d.entity_availability_topic, "online"@, "offline"@),
    ]
}

/// The text fields of the device block of every discovery document (its
/// identifiers being the node ID).
pub open spec fn device_fields_spec() -> Seq<(Seq<char>, Seq<char>)> {
    seq![("name"@, "Calaos"@), ("model"@, "Calaos Controller"@), ("manufacturer"@, "Calaos"@)]
}

fn push_field(v: &mut Vec<(String, String)>, key: &str, value: &str)
    ensures
        pair_views(final(v)@) == pair_views(old(v)@).push((key@, value@)),
{
    let k = string_from(key);
    let x = string_from(value);
    v.push((k, x));
    assert(pair_views(v@) =~= pair_views(old(v)@).push((key@, value@)));
}

fn push_component_fields(v: &mut Vec<(String, String)>, c: Component)
    ensures
        pair_views(final(v)@) == pair_views(old(v)@) + component_fields_spec(c),
{
    let ghost start = pair_views(v@);
    match c {
        Component::BinarySensor => {
            push_field(v, "payload_on", "ON");
            push_field(v, "payload_off", "OFF");
        },
        Component::Switch => {
            push_field(v, "payload_on", "ON");
            push_field(v, "payload_off", "OFF");
            push_field(v, "state_on", "ON");
            push_field(v, "state_off", "OFF");
        },
        Component::Cover => {
            push_field(v, "payload_open", "OPEN");
            push_field(v, "payload_close", "CLOSE");
            push_field(v, "payload_stop", "STOP");
            push_field(v, "state_open", "open");
            push_field(v, "state_opening", "opening");
            push_field(v, "state_closed", "closed");
            push_field(v, "state_closing", "closing");
            push_field(v, "device_class", "shutter");
        },
    }
    assert(pair_views(v@) =~= start + component_fields_spec(c));
}

/// The text fields of the discovery document of `d`.
pub fn discovery_fields(d: &Discovery) -> (r: Vec<(String, String)>)
    ensures
        pair_views(r@) == discovery_fields_spec(d@),
{
    let mut r: Vec<(String, String)> = Vec::new();
    push_field(&mut r, "name", d.name.as_str());
    push_field(&mut r, "unique_id", d.unique_id.as_str());
    push_field(&mut r, "state_topic", d.state_topic.as_str());
    let ghost head = pair_views(r@);
    assert(head =~= seq![("name"@, d.name@), ("unique_id"@, d.unique_id@), ("state_topic"@, d.state_topic@)]);
    match &d.command_topic {
        Some(t) => push_field(&mut r, "command_topic", t.as_str()),
        None => {},
    }
    let ghost mid = pair_views(r@);
    assert(mid =~= head + match d@.command_topic {
        Some(t) => seq![("command_topic"@, t)],
        None => Seq::<(Seq<char>, Seq<char>)>::empty(),
    });
    push_component_fields(&mut r, d.component);
    r
}

/// The availability entries of the discovery document of `d`: topic,
/// payload available, payload not available.
pub fn availability_entries(d: &Discovery) -> (r: Vec<(String, String, String)>)
    ensures
        Seq::new(r@.len(), |i: int| (r@[i].0@, r@[i].1@, r@[i].2@)) == availability_spec(d@),
{
    let mut r: Vec<(String, String, String)> = Vec::new();
    r.push((string_from(d.availability_topic.as_str()), string_from("online"), string_from("offline")));
    r.push(
        (string_from(d.entity_availability_topic.as_str()), string_from("online"), string_from("offline")),
    );
    assert(Seq::new(r@.len(), |i: int| (r@[i].0@, r@[i].1@, r@[i].2@)) =~= availability_spec(d@));
    r
}

/// The text fields of the device block of a discovery document.
pub fn device_fields() -> (r: Vec<(String, String)>)
    ensures
        pair_views(r@) == device_fields_spec(),
{
    let mut r: Vec<(String, String)> = Vec::new();
    push_field(&mut r, "name", "Calaos");
    push_field(&mut r, "model", "Calaos Controller");
    push_field(&mut r, "manufacturer", "Calaos");
    assert(pair_views(r@) =~= device_fields_spec());
    r
}

proof fn lemma_discoveries_prefix(rooms: Seq<Room>, k: int, prefix: Seq<char>, node_id: Seq<char>)
    requires
        0 <= k <= rooms.len(),
    ensures
        discoveries(rooms.take(k), prefix, node_id).len() <= discoveries(rooms, prefix, node_id).len(),
        forall|i: int|
            0 <= i < discoveries(rooms.take(k), prefix, node_id).len() ==> #[trigger] discoveries(
                rooms,
                prefix,
                node_id,
            )[i] == discoveries(rooms.take(k), prefix, node_id)[i],
    decreases rooms.len(),
{
    if k == rooms.len() {
        assert(rooms.take(k) =~= rooms);
    } else {
        let p = rooms.drop_last();
        assert(rooms.take(k) =~= p.take(k));
        lemma_discoveries_prefix(p, k, prefix, node_id);
    }
}

/// Where the announcements of room `ri` start among those of all rooms.
pub open spec fn room_start(rooms: Seq<Room>, ri: int, prefix: Seq<char>, node_id: Seq<char>) -> int {
    discoveries(rooms.take(ri), prefix, node_id).len() as int
}

/// Each input and each output is announced under its own configured name,
/// its room-qualified ID and its own topics: room after room, a room's
/// inputs as binary sensors, then its outputs, a shutter as a cover and
/// any other output as a switch with a command topic.
pub proof fn lemma_discovery_of_each_io(
    rooms: Seq<Room>,
    ri: int,
    k: int,
    prefix: Seq<char>,
    node_id: Seq<char>,
)
    requires
        0 <= ri < rooms.len(),
        0 <= k < rooms[ri].inputs@.len() + rooms[ri].outputs@.len(),
    ensures
        room_start(rooms, ri, prefix, node_id) + k < discoveries(rooms, prefix, node_id).len(),
        ({
            let d = discoveries(rooms, prefix, node_id)[room_start(rooms, ri, prefix, node_id) + k];
            let room = rooms[ri];
            let ni = room.inputs@.len() as int;
            if k < ni {
                let i = room.inputs@[k];
                &&& d.name == i.name@
                &&& d.unique_id == room.name@ + "_"@ + i.id@
                &&& d.component == Component::BinarySensor
                &&& d.state_topic == node_id + "/state/"@ + i.id@
                &&& d.command_topic is None
            } else {
                let o = room.outputs@[k - ni];
                &&& d.name == o.name@
                &&& d.unique_id == room.name@ + "_"@ + o.id@
                &&& d.component == (if o.kind is WOShutter {
                    Component::Cover
                } else {
                    Component::Switch
                })
                &&& d.state_topic == node_id + "/state/"@ + o.id@
                &&& d.command_topic == Some(node_id + "/set/"@ + o.id@)
            }
        }),
{
    let t = rooms.take(ri + 1);
    assert(t.drop_last() =~= rooms.take(ri));
    assert(t.last() == rooms[ri]);
    let before = discoveries(rooms.take(ri), prefix, node_id);
    let here = room_discoveries(rooms[ri], prefix, node_id);
    assert(discoveries(t, prefix, node_id) == before + here);
    lemma_discoveries_prefix(rooms, ri + 1, prefix, node_id);
    assert(discoveries(rooms, prefix, node_id)[before.len() + k] == here[k]);
}

} // verus!
