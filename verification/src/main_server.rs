//! The input side of the Wago controllers: the server reads the UDP
//! requests of the controllers, turns input changes into input values and
//! answers discovery requests. Receiving and sending datagrams is the
//! application's job; times are milliseconds of a monotonic clock.

use vstd::prelude::*;

use std::collections::HashMap;

use crate::calaos_protocol::Request;
use crate::io_config::{all_inputs, Input, InputKind, IoConfig, Room};
use crate::io_context::{IOData, IODataAction, IODataActionView, IODataView};
use crate::io_value::{IOAction, IOActionView, IOValue, IOValueView};

verus! {

broadcast use vstd::std_specs::hash::group_hash_axioms;

/// A release that follows a press by less than this many milliseconds is a
/// short press.
pub const LONG_PRESS_MS: u64 = 400;

/// The answer to a discovery request.
pub fn discover_reply() -> (r: &'static str)
    ensures
        r@ == "CALAOS_IP 127.0.0.1"@,
{
    "CALAOS_IP 127.0.0.1"
}

/// A Wago input value is on when it is not zero.
pub fn to_bool(value: u32) -> (r: bool)
    ensures
        r == (value != 0),
{
    value != 0
}

/// The Wago variable of an input that reacts to single or long presses.
pub open spec fn press_var(i: Input) -> Option<u32> {
    match i.kind {
        InputKind::WIDigitalBP(io) => Some(io.var),
        InputKind::WIDigitalLong(io) => Some(io.var),
        _ => None,
    }
}

/// The input read through Wago variable `var`: the last such input of `s`.
pub open spec fn var_input(s: Seq<Input>, var: u32) -> Option<Input>
    decreases s.len(),
{
    if s.len() == 0 {
        None
    } else if press_var(s.last()) == Some(var) {
        Some(s.last())
    } else {
        var_input(s.drop_last(), var)
    }
}

pub open spec fn var_map_of(m: Map<u32, &Input>, s: Seq<Input>) -> bool {
    forall|var: u32|
        #![trigger m.contains_key(var)]
        #![trigger var_input(s, var)]
        (m.contains_key(var) <==> var_input(s, var) is Some) && (m.contains_key(var) ==> Some(
            *m[var],
        ) == var_input(s, var))
}

/// Maps each Wago variable to the input that it reports, for inputs that
/// react to single or long presses; a later input replaces an earlier one
/// on the same variable.
pub fn make_input_var_map<'a>(io: &'a IoConfig) -> (r: HashMap<u32, &'a Input>)
    ensures
        var_map_of(r@, all_inputs(*io)),
{
    let ghost rooms = io.home.rooms@.map_values(|r: Room| r.inputs@);
    let mut map: HashMap<u32, &'a Input> = HashMap::new();
    let mut ri: usize = 0;
    while ri < io.home.rooms.len()
        invariant
            ri <= io.home.rooms@.len(),
            rooms == io.home.rooms@.map_values(|r: Room| r.inputs@),
            var_map_of(map@, rooms.take(ri as int).flatten()),
        decreases io.home.rooms@.len() - ri,
    {
        let room = &io.home.rooms[ri];
        let mut i: usize = 0;
        while i < room.inputs.len()
            invariant
                ri < io.home.rooms@.len(),
                *room == io.home.rooms@[ri as int],
                i <= room.inputs@.len(),
                rooms == io.home.rooms@.map_values(|r: Room| r.inputs@),
                var_map_of(map@, rooms.take(ri as int).flatten() + room.inputs@.take(i as int)),
            decreases room.inputs@.len() - i,
        {
            let input = &room.inputs[i];
            let ghost seen = rooms.take(ri as int).flatten() + room.inputs@.take(i as int);
            let ghost seen2 = rooms.take(ri as int).flatten() + room.inputs@.take(i + 1);
            proof {
                assert(seen2 =~= seen.push(*input));
                assert(seen2.drop_last() =~= seen);
            }
            match &input.kind {
                InputKind::WIDigitalBP(w) | InputKind::WIDigitalLong(w) => {
                    map.insert(w.var, input);
                },
                _ => {},
            }
            i = i + 1;
        }
        proof {
            crate::io_context::lemma_flatten_step(rooms, ri as int);
            assert(room.inputs@.take(i as int) =~= room.inputs@);
        }
        ri = ri + 1;
    }
    proof {
        assert(rooms.take(ri as int) =~= rooms);
    }
    map
}

/// What the server does after a request of a Wago controller: broadcast
/// the raw state of an input, send an action to the rules engine, answer
/// a discovery request.
#[derive(Debug)]
pub struct WagoInputEffects {
    pub feedback: Option<IOData>,
    pub command: Option<IODataAction>,
    pub reply_discover: bool,
}

/// Milliseconds from `start` to `now`, zero when `start` is later.
pub open spec fn elapsed(start: u64, now: u64) -> u64 {
    if now >= start {
        (now - start) as u64
    } else {
        0
    }
}

/// The value of a long-press input at release: 1 for a short press, 2 for
/// a long one.
pub open spec fn press_value(start: u64, now: u64) -> i32 {
    if elapsed(start, now) < LONG_PRESS_MS {
        1
    } else {
        2
    }
}

/// Handles a request received at time `now`. `last_change` holds the press
/// times of long-press inputs that are held down.
pub fn handle_wago_request(
    var_map: &HashMap<u32, &Input>,
    last_change: &mut HashMap<u32, u64>,
    request: Request,
    now: u64,
) -> (r: WagoInputEffects)
    ensures
        match request {
            Request::Discover => {
                &&& r.reply_discover
                &&& r.feedback is None
                &&& r.command is None
                &&& final(last_change)@ == old(last_change)@
            },
            Request::WagoInt(d) => {
                &&& !r.reply_discover
                &&& if var_map@.contains_key(d.var) {
                    let input = *var_map@[d.var];
                    let on = d.value != 0;
                    &&& r.feedback matches Some(f) && f@ == (IODataView {
                        id: input.id@,
                        value: IOValueView::Bool(on),
                    })
                    &&& match input.kind {
                        InputKind::WIDigitalBP(_) => {
                            &&& final(last_change)@ == old(last_change)@
                            &&& r.command matches Some(c) && c@ == (IODataActionView {
                                id: input.id@,
                                action: IOActionView::SetValue(IOValueView::Bool(on)),
                            })
                        },
                        InputKind::WIDigitalLong(_) => if on {
                            &&& final(last_change)@ == old(last_change)@.insert(d.var, now)
                            &&& r.command is None
                        } else {
                            let start = if old(last_change)@.contains_key(d.var) {
                                old(last_change)@[d.var]
                            } else {
                                now
                            };
                            &&& final(last_change)@ == old(last_change)@.remove(d.var)
                            &&& r.command matches Some(c) && c@ == (IODataActionView {
                                id: input.id@,
                                action: IOActionView::SetValue(
                                    IOValueView::Int(press_value(start, now)),
                                ),
                            })
                        },
                        _ => final(last_change)@ == old(last_change)@ && r.command is None,
                    }
                } else {
                    &&& r.feedback is None
                    &&& r.command is None
                    &&& final(last_change)@ == old(last_change)@
                }
            },
        },
{
    match request {
        Request::Discover => WagoInputEffects { feedback: None, command: None, reply_discover: true },
        Request::WagoInt(data) => {
            let input: &Input = match var_map.get(&data.var) {
                Some(i) => *i,
                None => {
                    return WagoInputEffects { feedback: None, command: None, reply_discover: false };
                },
            };
            let on = to_bool(data.value);
            let feedback = Some(IOData::new(input.id.clone(), IOValue::Bool(on)));
            let value = match &input.kind {
                InputKind::WIDigitalBP(_) => IOValue::Bool(on),
                InputKind::WIDigitalLong(_) => {
                    if on {
                        last_change.insert(data.var, now);
                        return WagoInputEffects { feedback, command: None, reply_discover: false };
                    } else {
                        let start = match last_change.remove(&data.var) {
                            Some(t) => t,
                            None => now,
                        };
                        let held = if now >= start {
                            now - start
                        } else {
                            0
                        };
                        if held < LONG_PRESS_MS {
                            IOValue::Int(1)
                        } else {
                            IOValue::Int(2)
                        }
                    }
                },
                _ => {
                    return WagoInputEffects { feedback, command: None, reply_discover: false };
                },
            };
            let command = Some(IODataAction::new(input.id.clone(), IOAction::SetValue(value)));
            WagoInputEffects { feedback, command, reply_discover: false }
        },
    }
}

} // verus!
