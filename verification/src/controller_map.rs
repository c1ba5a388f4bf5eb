//! Which controller serves which input or output: inputs and outputs are
//! grouped by the device that they are read from or written to, one
//! controller per group; commands for an output go to the controller of
//! its group. Starting the controllers is the application's job.

use vstd::prelude::*;

use crate::io_config::{all_inputs, all_outputs, Input, InputKind, IoConfig, Output, OutputKind, Room};
use crate::io_context::{
    output_index, OutputSharedContext, OutputSharedContextMap, lemma_flatten_step,
};
use crate::text::{chars_of, parse_u16, parse_u16_spec, str_eq};

verus! {

/// Wago controllers send input changes from this UDP port.
pub const WAGO_INPUT_PORT: u16 = 4646;

/// Seconds between two heartbeats sent to a Wago controller.
pub const HEARTBEAT_SECS: u64 = 2;

/// The controller that reads an input.
#[derive(Debug, PartialEq)]
pub enum InputControllerConfig {
    /// A Wago controller, reached at `host`:`port`.
    Wago { host: String, port: u16, heartbeat_secs: u64 },
    /// The clock, for time inputs.
    Time,
}

pub enum InputControllerKey {
    Wago(Seq<char>, u16, u64),
    Time,
}

impl View for InputControllerConfig {
    type V = InputControllerKey;

    open spec fn view(&self) -> InputControllerKey {
        match self {
            InputControllerConfig::Wago { host, port, heartbeat_secs } => InputControllerKey::Wago(
                host@,
                *port,
                *heartbeat_secs,
            ),
            InputControllerConfig::Time => InputControllerKey::Time,
        }
    }
}

/// The controller that drives an output: a Wago controller over Modbus.
#[derive(Debug, PartialEq)]
pub enum OutputControllerConfig {
    Wago { host: String, port: u16 },
}

pub enum OutputControllerKey {
    Wago(Seq<char>, u16),
}

impl View for OutputControllerConfig {
    type V = OutputControllerKey;

    open spec fn view(&self) -> OutputControllerKey {
        match self {
            OutputControllerConfig::Wago { host, port } => OutputControllerKey::Wago(host@, *port),
        }
    }
}

/// The inputs served by one controller.
#[derive(Debug)]
pub struct InputControllerGroup {
    pub config: InputControllerConfig,
    pub ids: Vec<String>,
}

/// The outputs served by one controller.
#[derive(Debug)]
pub struct OutputControllerGroup {
    pub config: OutputControllerConfig,
    pub ids: Vec<String>,
}

/// The controller of an input: Wago inputs are read from their host; time
/// inputs from the clock; other inputs have none.
pub open spec fn input_key(i: Input) -> Option<InputControllerKey> {
    match i.kind {
        InputKind::WIDigitalBP(io) => Some(
            InputControllerKey::Wago(io.host@, WAGO_INPUT_PORT, HEARTBEAT_SECS),
        ),
        InputKind::WIDigitalLong(io) => Some(
            InputControllerKey::Wago(io.host@, WAGO_INPUT_PORT, HEARTBEAT_SECS),
        ),
        InputKind::WIDigitalTriple(io) => Some(
            InputControllerKey::Wago(io.host@, WAGO_INPUT_PORT, HEARTBEAT_SECS),
        ),
        InputKind::InputTime(_) => Some(InputControllerKey::Time),
        _ => None,
    }
}

/// The IDs of the inputs of `s` read by controller `k`, in order.
pub open spec fn input_ids_of(s: Seq<Input>, k: InputControllerKey) -> Seq<Seq<char>>
    decreases s.len(),
{
    if s.len() == 0 {
        Seq::empty()
    } else {
        input_ids_of(s.drop_last(), k) + if input_key(s.last()) == Some(k) {
            seq![s.last().id@]
        } else {
            Seq::empty()
        }
    }
}

/// `g` groups the inputs of `s` by controller: one group per controller
/// that reads some input, holding the IDs of those inputs in order; no
/// group is empty.
pub open spec fn input_groups_of(g: Seq<InputControllerGroup>, s: Seq<Input>) -> bool {
    &&& forall|i: int, j: int|
        0 <= i < g.len() && 0 <= j < g.len() && i != j ==> (#[trigger] g[i]).config@ != (
        #[trigger] g[j]).config@
    &&& forall|i: int|
        0 <= i < g.len() ==> (#[trigger] g[i]).ids@.map_values(|x: String| x@) == input_ids_of(
            s,
            g[i].config@,
        )
    &&& forall|k: InputControllerKey|
        #![trigger input_ids_of(s, k)]
        input_ids_of(s, k).len() > 0 ==> exists|i: int|
            0 <= i < g.len() && (#[trigger] g[i]).config@ == k
    &&& forall|i: int| 0 <= i < g.len() ==> (#[trigger] g[i]).ids@.len() > 0
}

fn same_input_config(a: &InputControllerConfig, b: &InputControllerConfig) -> (r: bool)
    ensures
        r == (a@ == b@),
{
    match (a, b) {
        (
            InputControllerConfig::Wago { host: h1, port: p1, heartbeat_secs: s1 },
            InputControllerConfig::Wago { host: h2, port: p2, heartbeat_secs: s2 },
        ) => str_eq(h1.as_str(), h2.as_str()) && *p1 == *p2 && *s1 == *s2,
        (InputControllerConfig::Time, InputControllerConfig::Time) => true,
        _ => false,
    }
}

fn same_output_config(a: &OutputControllerConfig, b: &OutputControllerConfig) -> (r: bool)
    ensures
        r == (a@ == b@),
{
    match (a, b) {
        (
            OutputControllerConfig::Wago { host: h1, port: p1 },
            OutputControllerConfig::Wago { host: h2, port: p2 },
        ) => str_eq(h1.as_str(), h2.as_str()) && *p1 == *p2,
    }
}

proof fn lemma_input_ids_push(s: Seq<Input>, x: Input, k: InputControllerKey)
    ensures
        input_ids_of(s.push(x), k) == input_ids_of(s, k) + if input_key(x) == Some(k) {
            seq![x.id@]
        } else {
            Seq::empty()
        },
{
    assert(s.push(x).drop_last() =~= s);
}

/// Adds the input `x`, read by `config`, to its group.
fn append_input(
    groups: &mut Vec<InputControllerGroup>,
    config: InputControllerConfig,
    x: &Input,
    Ghost(seen): Ghost<Seq<Input>>,
)
    requires
        input_groups_of(old(groups)@, seen),
        input_key(*x) == Some(config@),
    ensures
        input_groups_of(final(groups)@, seen.push(*x)),
{
    let ghost s2 = seen.push(*x);
    let ghost og = groups@;
    let mut i: usize = 0;
    while i < groups.len()
        invariant
            groups@ == og,
            og == old(groups)@,
            input_groups_of(og, seen),
            input_key(*x) == Some(config@),
            s2 == seen.push(*x),
            i <= og.len(),
            forall|j: int| 0 <= j < i ==> (#[trigger] og[j]).config@ != config@,
        decreases og.len() - i,
    {
        if same_input_config(&groups[i].config, &config) {
            let mut g = groups.remove(i);
            let ghost before = g.ids@;
            g.ids.push(x.id.clone());
            groups.insert(i, g);
            proof {
                let ng = groups@;
                assert(ng =~= og.update(i as int, ng[i as int]));
                assert forall|a: int, b: int|
                    0 <= a < ng.len() && 0 <= b < ng.len() && a != b implies (#[trigger] ng[a]).config@
                    != (#[trigger] ng[b]).config@ by {
                    assert(og[a].config@ != og[b].config@);
                }
                assert forall|a: int| 0 <= a < ng.len() implies (#[trigger] ng[a]).ids@.map_values(
                    |y: String| y@,
                ) == input_ids_of(s2, ng[a].config@) by {
                    lemma_input_ids_push(seen, *x, ng[a].config@);
                    if a == i {
                        assert(ng[a].ids@.map_values(|y: String| y@) =~= before.map_values(
                            |y: String| y@,
                        ).push(x.id@));
                    } else {
                        assert(og[a].config@ != og[i as int].config@);
                    }
                }
                assert forall|k: InputControllerKey|
                    #![trigger input_ids_of(s2, k)]
                    input_ids_of(s2, k).len() > 0 implies exists|a: int|
                        0 <= a < ng.len() && (#[trigger] ng[a]).config@ == k by {
                    lemma_input_ids_push(seen, *x, k);
                    if input_ids_of(seen, k).len() > 0 {
                        let a = choose|a: int| 0 <= a < og.len() && (#[trigger] og[a]).config@ == k;
                        assert(ng[a].config@ == k);
                    } else {
                        assert(ng[i as int].config@ == k);
                    }
                }
            }
            return;
        }
        i = i + 1;
    }
    let mut ids: Vec<String> = Vec::new();
    ids.push(x.id.clone());
    let ghost key = config@;
    groups.push(InputControllerGroup { config, ids });
    proof {
        let ng = groups@;
        let n = og.len() as int;
        assert forall|a: int, b: int|
            0 <= a < ng.len() && 0 <= b < ng.len() && a != b implies (#[trigger] ng[a]).config@ != (
            #[trigger] ng[b]).config@ by {
            if a < n && b < n {
                assert(og[a].config@ != og[b].config@);
            } else if a < n {
                assert(ng[a] == og[a]);
            } else {
                assert(ng[b] == og[b]);
            }
        }
        assert(input_ids_of(seen, key).len() == 0) by {
            if input_ids_of(seen, key).len() > 0 {
                let a = choose|a: int| 0 <= a < og.len() && (#[trigger] og[a]).config@ == key;
                assert(og[a].config@ != key);
            }
        }
        assert forall|a: int| 0 <= a < ng.len() implies (#[trigger] ng[a]).ids@.map_values(
            |y: String| y@,
        ) == input_ids_of(s2, ng[a].config@) by {
            lemma_input_ids_push(seen, *x, ng[a].config@);
            if a == n {
                assert(input_ids_of(seen, key) =~= Seq::<Seq<char>>::empty());
                assert(ng[a].ids@.map_values(|y: String| y@) =~= seq![x.id@]);
            } else {
                assert(ng[a] == og[a]);
                assert(og[a].config@ != key);
            }
        }
        assert forall|k: InputControllerKey|
            #![trigger input_ids_of(s2, k)]
            input_ids_of(s2, k).len() > 0 implies exists|a: int|
                0 <= a < ng.len() && (#[trigger] ng[a]).config@ == k by {
            lemma_input_ids_push(seen, *x, k);
            if input_ids_of(seen, k).len() > 0 {
                let a = choose|a: int| 0 <= a < og.len() && (#[trigger] og[a]).config@ == k;
                assert(ng[a] == og[a]);
            } else {
                assert(ng[n].config@ == k);
            }
        }
    }
}

/// The host and port text of an output driven by a Wago controller.
pub open spec fn output_target(o: Output) -> Option<(Seq<char>, Seq<char>)> {
    match o.kind {
        OutputKind::WODigital(io) => Some((io.host@, io.port@)),
        OutputKind::WOShutter(io) => Some((io.host@, io.port@)),
        _ => None,
    }
}

/// The controller of an output: the Wago controller at its host and port.
pub open spec fn output_key(o: Output) -> Option<OutputControllerKey> {
    match output_target(o) {
        Some((h, p)) => match parse_u16_spec(p) {
            Some(n) => Some(OutputControllerKey::Wago(h, n)),
            None => None,
        },
        None => None,
    }
}

/// A Wago output whose port is no port number.
pub open spec fn port_invalid(o: Output) -> bool {
    match output_target(o) {
        Some((h, p)) => parse_u16_spec(p) is None,
        None => false,
    }
}

/// The ID of the first output of `s` with an invalid port.
pub open spec fn first_bad_output(s: Seq<Output>) -> Option<Seq<char>>
    decreases s.len(),
{
    if s.len() == 0 {
        None
    } else {
        match first_bad_output(s.drop_last()) {
            Some(id) => Some(id),
            None => if port_invalid(s.last()) {
                Some(s.last().id@)
            } else {
                None
            },
        }
    }
}

/// The IDs of the outputs of `s` driven by controller `k`, in order.
pub open spec fn output_ids_of(s: Seq<Output>, k: OutputControllerKey) -> Seq<Seq<char>>
    decreases s.len(),
{
    if s.len() == 0 {
        Seq::empty()
    } else {
        output_ids_of(s.drop_last(), k) + if output_key(s.last()) == Some(k) {
            seq![s.last().id@]
        } else {
            Seq::empty()
        }
    }
}

/// `g` groups the outputs of `s` by controller, as `input_groups_of`.
pub open spec fn output_groups_of(g: Seq<OutputControllerGroup>, s: Seq<Output>) -> bool {
    &&& forall|i: int, j: int|
        0 <= i < g.len() && 0 <= j < g.len() && i != j ==> (#[trigger] g[i]).config@ != (
        #[trigger] g[j]).config@
    &&& forall|i: int|
        0 <= i < g.len() ==> (#[trigger] g[i]).ids@.map_values(|x: String| x@) == output_ids_of(
            s,
            g[i].config@,
        )
    &&& forall|k: OutputControllerKey|
        #![trigger output_ids_of(s, k)]
        output_ids_of(s, k).len() > 0 ==> exists|i: int|
            0 <= i < g.len() && (#[trigger] g[i]).config@ == k
    &&& forall|i: int| 0 <= i < g.len() ==> (#[trigger] g[i]).ids@.len() > 0
}

proof fn lemma_output_ids_push(s: Seq<Output>, x: Output, k: OutputControllerKey)
    ensures
        output_ids_of(s.push(x), k) == output_ids_of(s, k) + if output_key(x) == Some(k) {
            seq![x.id@]
        } else {
            Seq::empty()
        },
{
    assert(s.push(x).drop_last() =~= s);
}

/// Adds the output `x`, read by `config`, to its group.
fn append_output(
    groups: &mut Vec<OutputControllerGroup>,
    config: OutputControllerConfig,
    x: &Output,
    Ghost(seen): Ghost<Seq<Output>>,
)
    requires
        output_groups_of(old(groups)@, seen),
        output_key(*x) == Some(config@),
    ensures
        output_groups_of(final(groups)@, seen.push(*x)),
{
    let ghost s2 = seen.push(*x);
    let ghost og = groups@;
    let mut i: usize = 0;
    while i < groups.len()
        invariant
            groups@ == og,
            og == old(groups)@,
            output_groups_of(og, seen),
            output_key(*x) == Some(config@),
            s2 == seen.push(*x),
            i <= og.len(),
            forall|j: int| 0 <= j < i ==> (#[trigger] og[j]).config@ != config@,
        decreases og.len() - i,
    {
        if same_output_config(&groups[i].config, &config) {
            let mut g = groups.remove(i);
            let ghost before = g.ids@;
            g.ids.push(x.id.clone());
            groups.insert(i, g);
            proof {
                let ng = groups@;
                assert(ng =~= og.update(i as int, ng[i as int]));
                assert forall|a: int, b: int|
                    0 <= a < ng.len() && 0 <= b < ng.len() && a != b implies (#[trigger] ng[a]).config@
                    != (#[trigger] ng[b]).config@ by {
                    assert(og[a].config@ != og[b].config@);
                }
                assert forall|a: int| 0 <= a < ng.len() implies (#[trigger] ng[a]).ids@.map_values(
                    |y: String| y@,
                ) == output_ids_of(s2, ng[a].config@) by {
                    lemma_output_ids_push(seen, *x, ng[a].config@);
                    if a == i {
                        assert(ng[a].ids@.map_values(|y: String| y@) =~= before.map_values(
                            |y: String| y@,
                        ).push(x.id@));
                    } else {
                        assert(og[a].config@ != og[i as int].config@);
                    }
                }
                assert forall|k: OutputControllerKey|
                    #![trigger output_ids_of(s2, k)]
                    output_ids_of(s2, k).len() > 0 implies exists|a: int|
                        0 <= a < ng.len() && (#[trigger] ng[a]).config@ == k by {
                    lemma_output_ids_push(seen, *x, k);
                    if output_ids_of(seen, k).len() > 0 {
                        let a = choose|a: int| 0 <= a < og.len() && (#[trigger] og[a]).config@ == k;
                        assert(ng[a].config@ == k);
                    } else {
                        assert(ng[i as int].config@ == k);
                    }
                }
            }
            return;
        }
        i = i + 1;
    }
    let mut ids: Vec<String> = Vec::new();
    ids.push(x.id.clone());
    let ghost key = config@;
    groups.push(OutputControllerGroup { config, ids });
    proof {
        let ng = groups@;
        let n = og.len() as int;
        assert forall|a: int, b: int|
            0 <= a < ng.len() && 0 <= b < ng.len() && a != b implies (#[trigger] ng[a]).config@ != (
            #[trigger] ng[b]).config@ by {
            if a < n && b < n {
                assert(og[a].config@ != og[b].config@);
            } else if a < n {
                assert(ng[a] == og[a]);
            } else {
                assert(ng[b] == og[b]);
            }
        }
        assert(output_ids_of(seen, key).len() == 0) by {
            if output_ids_of(seen, key).len() > 0 {
                let a = choose|a: int| 0 <= a < og.len() && (#[trigger] og[a]).config@ == key;
                assert(og[a].config@ != key);
            }
        }
        assert forall|a: int| 0 <= a < ng.len() implies (#[trigger] ng[a]).ids@.map_values(
            |y: String| y@,
        ) == output_ids_of(s2, ng[a].config@) by {
            lemma_output_ids_push(seen, *x, ng[a].config@);
            if a == n {
                assert(output_ids_of(seen, key) =~= Seq::<Seq<char>>::empty());
                assert(ng[a].ids@.map_values(|y: String| y@) =~= seq![x.id@]);
            } else {
                assert(ng[a] == og[a]);
                assert(og[a].config@ != key);
            }
        }
        assert forall|k: OutputControllerKey|
            #![trigger output_ids_of(s2, k)]
            output_ids_of(s2, k).len() > 0 implies exists|a: int|
                0 <= a < ng.len() && (#[trigger] ng[a]).config@ == k by {
            lemma_output_ids_push(seen, *x, k);
            if output_ids_of(seen, k).len() > 0 {
                let a = choose|a: int| 0 <= a < og.len() && (#[trigger] og[a]).config@ == k;
                assert(ng[a] == og[a]);
            } else {
                assert(ng[n].config@ == k);
            }
        }
    }
}

fn input_config_of(x: &Input) -> (r: Option<InputControllerConfig>)
    ensures
        match input_key(*x) {
            Some(k) => r matches Some(c) && c@ == k,
            None => r is None,
        },
{
    match &x.kind {
        InputKind::WIDigitalBP(io) | InputKind::WIDigitalLong(io) | InputKind::WIDigitalTriple(io) => {
            Some(
                InputControllerConfig::Wago {
                    host: io.host.clone(),
                    port: WAGO_INPUT_PORT,
                    heartbeat_secs: HEARTBEAT_SECS,
                },
            )
        },
        InputKind::InputTime(_) => Some(InputControllerConfig::Time),
        _ => None,
    }
}

/// Groups the inputs of the configuration by the controller that reads them.
pub fn make_input_controller_map(io: &IoConfig) -> (r: Vec<InputControllerGroup>)
    ensures
        input_groups_of(r@, all_inputs(*io)),
{
    let ghost rooms = io.home.rooms@.map_values(|r: Room| r.inputs@);
    let mut groups: Vec<InputControllerGroup> = Vec::new();
    let mut ri: usize = 0;
    while ri < io.home.rooms.len()
        invariant
            ri <= io.home.rooms@.len(),
            rooms == io.home.rooms@.map_values(|r: Room| r.inputs@),
            input_groups_of(groups@, rooms.take(ri as int).flatten()),
        decreases io.home.rooms@.len() - ri,
    {
        let room = &io.home.rooms[ri];
        let mut i: usize = 0;
        while i < room.inputs.len()
            invariant
                ri < io.home.rooms@.len(),
                *room == io.home.rooms@[ri as int],
                i <= room.inputs@.len(),
                rooms == io.home.rooms@.map_values(|r: Room| r.inputs@),
                input_groups_of(groups@, rooms.take(ri as int).flatten() + room.inputs@.take(i as int)),
            decreases room.inputs@.len() - i,
        {
            let x = &room.inputs[i];
            let ghost seen = rooms.take(ri as int).flatten() + room.inputs@.take(i as int);
            proof {
                assert(rooms.take(ri as int).flatten() + room.inputs@.take(i + 1) =~= seen.push(*x));
            }
            match input_config_of(x) {
                Some(config) => append_input(&mut groups, config, x, Ghost(seen)),
                None => {
                    proof {
                        let ng = groups@;
                        assert forall|a: int| 0 <= a < ng.len() implies (#[trigger] ng[a]).ids@.map_values(
                            |y: String| y@,
                        ) == input_ids_of(seen.push(*x), ng[a].config@) by {
                            lemma_input_ids_push(seen, *x, ng[a].config@);
                        }
                        assert forall|k: InputControllerKey|
                            #![trigger input_ids_of(seen.push(*x), k)]
                            input_ids_of(seen.push(*x), k).len() > 0 implies exists|a: int|
                                0 <= a < ng.len() && (#[trigger] ng[a]).config@ == k by {
                            lemma_input_ids_push(seen, *x, k);
                        }
                    }
                },
            }
            i = i + 1;
        }
        proof {
            lemma_flatten_step(rooms, ri as int);
            assert(room.inputs@.take(i as int) =~= room.inputs@);
        }
        ri = ri + 1;
    }
    proof {
        assert(rooms.take(ri as int) =~= rooms);
    }
    groups
}

/// Groups the outputs of the configuration by the controller that drives
/// them; fails with the ID of the first Wago output whose port is no port
/// number.
pub fn make_output_controller_map(io: &IoConfig) -> (r: Result<Vec<OutputControllerGroup>, String>)
    ensures
        match first_bad_output(all_outputs(*io)) {
            Some(id) => r matches Err(e) && e@ == id,
            None => r matches Ok(g) && output_groups_of(g@, all_outputs(*io)),
        },
{
    let ghost rooms = io.home.rooms@.map_values(|r: Room| r.outputs@);
    let mut groups: Vec<OutputControllerGroup> = Vec::new();
    let mut ri: usize = 0;
    while ri < io.home.rooms.len()
        invariant
            ri <= io.home.rooms@.len(),
            rooms == io.home.rooms@.map_values(|r: Room| r.outputs@),
            first_bad_output(rooms.take(ri as int).flatten()) is None,
            output_groups_of(groups@, rooms.take(ri as int).flatten()),
        decreases io.home.rooms@.len() - ri,
    {
        let room = &io.home.rooms[ri];
        let mut i: usize = 0;
        while i < room.outputs.len()
            invariant
                ri < io.home.rooms@.len(),
                *room == io.home.rooms@[ri as int],
                i <= room.outputs@.len(),
                rooms == io.home.rooms@.map_values(|r: Room| r.outputs@),
                first_bad_output(rooms.take(ri as int).flatten() + room.outputs@.take(i as int)) is None,
                output_groups_of(groups@, rooms.take(ri as int).flatten() + room.outputs@.take(i as int)),
            decreases room.outputs@.len() - i,
        {
            let x = &room.outputs[i];
            let ghost seen = rooms.take(ri as int).flatten() + room.outputs@.take(i as int);
            proof {
                assert(rooms.take(ri as int).flatten() + room.outputs@.take(i + 1) =~= seen.push(*x));
                assert(seen.push(*x).drop_last() =~= seen);
            }
            let target = match &x.kind {
                OutputKind::WODigital(w) => Some((&w.host, &w.port)),
                OutputKind::WOShutter(w) => Some((&w.host, &w.port)),
                _ => None,
            };
            match target {
                Some((host, port)) => {
                    let cs = chars_of(port.as_str());
                    match parse_u16(cs.as_slice()) {
                        Some(p) => {
                            append_output(
                                &mut groups,
                                OutputControllerConfig::Wago { host: host.clone(), port: p },
                                x,
                                Ghost(seen),
                            );
                        },
                        None => {
                            proof {
                                let rest = lemma_flatten_prefix(rooms, ri as int, i as int);
                                assert(seen.push(*x).drop_last() =~= seen);
                                lemma_first_bad_prefix(seen.push(*x), rest);
                            }
                            return Err(x.id.clone());
                        },
                    }
                },
                None => {
                    proof {
                        let ng = groups@;
                        assert forall|a: int| 0 <= a < ng.len() implies (#[trigger] ng[a]).ids@.map_values(
                            |y: String| y@,
                        ) == output_ids_of(seen.push(*x), ng[a].config@) by {
                            lemma_output_ids_push(seen, *x, ng[a].config@);
                        }
                        assert forall|k: OutputControllerKey|
                            #![trigger output_ids_of(seen.push(*x), k)]
                            output_ids_of(seen.push(*x), k).len() > 0 implies exists|a: int|
                                0 <= a < ng.len() && (#[trigger] ng[a]).config@ == k by {
                            lemma_output_ids_push(seen, *x, k);
                        }
                    }
                },
            }
            i = i + 1;
        }
        proof {
            lemma_flatten_step(rooms, ri as int);
            assert(room.outputs@.take(i as int) =~= room.outputs@);
        }
        ri = ri + 1;
    }
    proof {
        assert(rooms.take(ri as int) =~= rooms);
    }
    Ok(groups)
}

/// Once a prefix holds a bad output, the first bad output is that of the prefix.
proof fn lemma_first_bad_prefix(p: Seq<Output>, q: Seq<Output>)
    requires
        first_bad_output(p) is Some,
    ensures
        first_bad_output(p + q) == first_bad_output(p),
    decreases q.len(),
{
    if q.len() > 0 {
        assert((p + q).drop_last() =~= p + q.drop_last());
        lemma_first_bad_prefix(p, q.drop_last());
    } else {
        assert(p + q =~= p);
    }
}

proof fn lemma_flatten_concat<T>(a: Seq<Seq<T>>, b: Seq<Seq<T>>)
    ensures
        (a + b).flatten() == a.flatten() + b.flatten(),
    decreases b.len(),
{
    if b.len() == 0 {
        assert(a + b =~= a);
        assert(b.flatten() =~= Seq::<T>::empty());
        assert(a.flatten() + b.flatten() =~= a.flatten());
    } else {
        let c = b.drop_last();
        lemma_flatten_concat(a, c);
        assert(a + b =~= (a + c).push(b.last()));
        assert(b =~= c.push(b.last()));
        (a + c).lemma_flatten_push(b.last());
        c.lemma_flatten_push(b.last());
        assert(a.flatten() + (c.flatten() + b.last()) =~= (a.flatten() + c.flatten()) + b.last());
    }
}

/// What the nested loops over rooms have seen is a prefix of everything.
proof fn lemma_flatten_prefix<T>(rooms: Seq<Seq<T>>, ri: int, i: int) -> (rest: Seq<T>)
    requires
        0 <= ri < rooms.len(),
        0 <= i < rooms[ri].len(),
    ensures
        rooms.flatten() == rooms.take(ri).flatten() + rooms[ri].take(i + 1) + rest,
{
    let a = rooms.take(ri);
    let b = rooms.skip(ri);
    assert(rooms =~= a + b);
    lemma_flatten_concat(a, b);
    assert(b.first() == rooms[ri]);
    assert(b.flatten() == b.first() + b.drop_first().flatten());
    let rest = rooms[ri].skip(i + 1) + b.drop_first().flatten();
    assert(rooms[ri] =~= rooms[ri].take(i + 1) + rooms[ri].skip(i + 1));
    assert(rooms.flatten() =~= a.flatten() + rooms[ri].take(i + 1) + rest);
    rest
}

/// The controller that serves output `id`: the last group that lists it.
pub fn controller_for_output(groups: &Vec<OutputControllerGroup>, id: &str) -> (r: Option<usize>)
    ensures
        match r {
            Some(i) => i < groups@.len() && groups@[i as int].ids@.map_values(|x: String| x@).contains(
                id@,
            ) && forall|j: int|
                i < j < groups@.len() ==> !(#[trigger] groups@[j]).ids@.map_values(
                    |x: String| x@,
                ).contains(id@),
            None => forall|j: int|
                0 <= j < groups@.len() ==> !(#[trigger] groups@[j]).ids@.map_values(
                    |x: String| x@,
                ).contains(id@),
        },
{
    let mut i = groups.len();
    while i > 0
        invariant
            i <= groups@.len(),
            forall|j: int|
                i <= j < groups@.len() ==> !(#[trigger] groups@[j]).ids@.map_values(
                    |x: String| x@,
                ).contains(id@),
        decreases i,
    {
        i = i - 1;
        let ids = &groups[i].ids;
        let mut k: usize = 0;
        while k < ids.len()
            invariant
                i < groups@.len(),
                *ids == groups@[i as int].ids,
                forall|j: int|
                    i < j < groups@.len() ==> !(#[trigger] groups@[j]).ids@.map_values(
                        |x: String| x@,
                    ).contains(id@),
                k <= ids@.len(),
                forall|m: int| 0 <= m < k ==> (#[trigger] ids@[m])@ != id@,
            decreases ids@.len() - k,
        {
            if str_eq(ids[k].as_str(), id) {
                assert(ids@.map_values(|x: String| x@)[k as int] == id@);
                return Some(i);
            }
            k = k + 1;
        }
        proof {
            let v = ids@.map_values(|x: String| x@);
            if v.contains(id@) {
                let m = choose|m: int| 0 <= m < v.len() && v[m] == id@;
                assert(ids@[m]@ == id@);
            }
        }
    }
    None
}

/// `e` is an entry of `m`.
pub open spec fn entry_of(e: OutputSharedContext, m: Seq<OutputSharedContext>) -> bool {
    exists|j: int| 0 <= j < m.len() && m[j] == e
}

/// The state of the outputs that a controller serves: the entries of
/// `map` whose ID is listed in `ids`.
pub fn controller_outputs<'a>(map: &OutputSharedContextMap<'a>, ids: &Vec<String>) -> (r:
    OutputSharedContextMap<'a>)
    requires
        map.wf(),
    ensures
        r.wf(),
        forall|i: int|
            0 <= i < r.entries@.len() ==> entry_of(#[trigger] r.entries@[i], map.entries@),
        forall|x: Seq<char>|
            #![trigger output_index(r.entries@, x)]
            output_index(r.entries@, x) is Some <==> (output_index(map.entries@, x) is Some
                && ids@.map_values(|s: String| s@).contains(x)),
{
    let ghost v = ids@.map_values(|s: String| s@);
    let mut res = OutputSharedContextMap { entries: Vec::new() };
    let mut k: usize = 0;
    while k < ids.len()
        invariant
            map.wf(),
            res.wf(),
            k <= ids@.len(),
            v == ids@.map_values(|s: String| s@),
            forall|i: int|
                0 <= i < res.entries@.len() ==> entry_of(#[trigger] res.entries@[i], map.entries@),
            forall|x: Seq<char>|
                #![trigger output_index(res.entries@, x)]
                output_index(res.entries@, x) is Some <==> (output_index(map.entries@, x) is Some
                    && v.take(k as int).contains(x)),
        decreases ids@.len() - k,
    {
        let ghost prev = res.entries@;
        let id = ids[k].as_str();
        proof {
            let t1 = v.take(k + 1);
            let t0 = v.take(k as int);
            assert forall|x: Seq<char>| t1.contains(x) <==> (t0.contains(x) || x == id@) by {
                if t1.contains(x) {
                    let m = choose|m: int| 0 <= m < t1.len() && t1[m] == x;
                    if m < k {
                        assert(t0[m] == x);
                    }
                }
                if t0.contains(x) {
                    let m = choose|m: int| 0 <= m < t0.len() && t0[m] == x;
                    assert(t1[m] == x);
                }
                if x == id@ {
                    assert(t1[k as int] == x);
                }
            }
        }
        if res.find(id).is_none() {
            match map.find(id) {
                Some(j) => {
                    let e = &map.entries[j];
                    let value = match &e.value {
                        Some(v) => Some(v.clone()),
                        None => None,
                    };
                    res.entries.push(OutputSharedContext { output: e.output, value });
                    proof {
                        let m = res.entries@;
                        let n = prev.len() as int;
                        assert(m[n] == map.entries@[j as int]);
                        assert forall|a: int, b: int|
                            0 <= a < m.len() && 0 <= b < m.len() && a != b implies (#[trigger] m[a]).output.id@
                            != (#[trigger] m[b]).output.id@ by {
                            if a < n && b < n {
                                assert(prev[a].output.id@ != prev[b].output.id@);
                            } else if a < n {
                                assert(m[a] == prev[a]);
                                assert(output_index(prev, m[a].output.id@) is Some);
                            } else {
                                assert(m[b] == prev[b]);
                                assert(output_index(prev, m[b].output.id@) is Some);
                            }
                        }
                        assert forall|i: int| 0 <= i < m.len() implies entry_of(
                            #[trigger] m[i],
                            map.entries@,
                        ) by {
                            if i < n {
                                assert(m[i] == prev[i]);
                            } else {
                                assert(map.entries@[j as int] == m[i]);
                            }
                        }
                        assert forall|x: Seq<char>|
                            #![trigger output_index(m, x)]
                            output_index(m, x) is Some <==> (output_index(map.entries@, x) is Some
                                && v.take(k + 1).contains(x)) by {
                            if output_index(prev, x) is Some {
                                let w = choose|w: int| 0 <= w < prev.len() && (#[trigger] prev[w]).output.id@ == x;
                                assert(m[w] == prev[w]);
                            }
                            if x == id@ {
                                assert(m[n].output.id@ == x);
                            }
                            if output_index(m, x) is Some {
                                let w = choose|w: int| 0 <= w < m.len() && (#[trigger] m[w]).output.id@ == x;
                                if w < n {
                                    assert(prev[w] == m[w]);
                                } else {
                                    assert(x == id@);
                                }
                            }
                        }
                    }
                },
                None => {},
            }
        }
        k = k + 1;
    }
    proof {
        assert(v.take(k as int) =~= v);
    }
    res
}

} // verus!
