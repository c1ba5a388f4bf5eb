//! Values exchanged between the controllers and the rules engine, and the
//! state kept for each input and each output of the configuration.

use vstd::prelude::*;

use crate::io_config::{all_inputs, all_outputs, Input, IoConfig, Output, Room};
use crate::io_value::{IOAction, IOActionView, IOValue, IOValueView};
use crate::rules_config::{ConditionKind, Rule, RulesConfig};
use crate::text::str_eq;

verus! {

/// The value of an input or output, as reported by a controller.
#[derive(Debug, PartialEq)]
pub struct IOData {
    pub id: String,
    pub value: IOValue,
}

pub struct IODataView {
    pub id: Seq<char>,
    pub value: IOValueView,
}

impl View for IOData {
    type V = IODataView;

    open spec fn view(&self) -> IODataView {
        IODataView { id: self.id@, value: self.value@ }
    }
}

impl Clone for IOData {
    fn clone(&self) -> (r: Self)
        ensures
            r == *self,
    {
        IOData { id: self.id.clone(), value: self.value.clone() }
    }
}

impl IOData {
    pub fn new(id: String, value: IOValue) -> (r: Self)
        ensures
            r.id == id,
            r.value == value,
    {
        Self { id, value }
    }
}

/// An action asked of an input or output.
#[derive(Debug, PartialEq)]
pub struct IODataAction {
    pub id: String,
    pub action: IOAction,
}

pub struct IODataActionView {
    pub id: Seq<char>,
    pub action: IOActionView,
}

impl View for IODataAction {
    type V = IODataActionView;

    open spec fn view(&self) -> IODataActionView {
        IODataActionView { id: self.id@, action: self.action@ }
    }
}

impl Clone for IODataAction {
    fn clone(&self) -> (r: Self)
        ensures
            r == *self,
    {
        IODataAction { id: self.id.clone(), action: self.action.clone() }
    }
}

impl IODataAction {
    pub fn new(id: String, action: IOAction) -> (r: Self)
        ensures
            r.id == id,
            r.action == action,
    {
        Self { id, action }
    }

    /// The action that sets `value`.
    pub fn from_value(id: String, value: IOValue) -> (r: Self)
        ensures
            r.id == id,
            r.action == IOAction::SetValue(value),
    {
        Self { id, action: IOAction::SetValue(value) }
    }
}

/// Stores the latest known value of an input or output.
pub fn write_io_value(target: &mut Option<IOValue>, value: IOValue)
    ensures
        *final(target) == Some(value),
{
    *target = Some(value);
}

/// State of an input: its configuration, the rules whose conditions read
/// it, and its latest value.
#[derive(Debug)]
pub struct InputSharedContext<'a> {
    pub input: &'a Input,
    pub rules: Vec<&'a Rule>,
    pub value: Option<IOValue>,
}

/// State of an output: its configuration and its latest value.
#[derive(Debug)]
pub struct OutputSharedContext<'a> {
    pub output: &'a Output,
    pub value: Option<IOValue>,
}

/// A copy of the state of an output, its value taken as it is now.
impl<'a> Clone for OutputSharedContext<'a> {
    fn clone(&self) -> (r: Self)
        ensures
            r == *self,
    {
        let value = match &self.value {
            Some(v) => Some(v.clone()),
            None => None,
        };
        OutputSharedContext { output: self.output, value }
    }
}

/// The state of the inputs, one entry per input ID.
#[derive(Debug)]
pub struct InputSharedContextMap<'a> {
    pub entries: Vec<InputSharedContext<'a>>,
}

/// The state of the outputs, one entry per output ID.
#[derive(Debug)]
pub struct OutputSharedContextMap<'a> {
    pub entries: Vec<OutputSharedContext<'a>>,
}

/// The index of the entry with the given ID, if any.
pub open spec fn input_index(m: Seq<InputSharedContext>, id: Seq<char>) -> Option<int> {
    if exists|i: int| 0 <= i < m.len() && (#[trigger] m[i]).input.id@ == id {
        Some(choose|i: int| 0 <= i < m.len() && (#[trigger] m[i]).input.id@ == id)
    } else {
        None
    }
}

pub open spec fn output_index(m: Seq<OutputSharedContext>, id: Seq<char>) -> Option<int> {
    if exists|i: int| 0 <= i < m.len() && (#[trigger] m[i]).output.id@ == id {
        Some(choose|i: int| 0 <= i < m.len() && (#[trigger] m[i]).output.id@ == id)
    } else {
        None
    }
}

/// No two entries share an ID.
pub open spec fn inputs_distinct(m: Seq<InputSharedContext>) -> bool {
    forall|i: int, j: int|
        0 <= i < m.len() && 0 <= j < m.len() && i != j ==> (#[trigger] m[i]).input.id@ != (
        #[trigger] m[j]).input.id@
}

pub open spec fn outputs_distinct(m: Seq<OutputSharedContext>) -> bool {
    forall|i: int, j: int|
        0 <= i < m.len() && 0 <= j < m.len() && i != j ==> (#[trigger] m[i]).output.id@ != (
        #[trigger] m[j]).output.id@
}

/// The value of the input with the given ID: `None` when there is no such
/// input or its value is not known yet.
pub open spec fn input_value(m: Seq<InputSharedContext>, id: Seq<char>) -> Option<IOValueView> {
    match input_index(m, id) {
        Some(i) => match m[i].value {
            Some(v) => Some(v@),
            None => None,
        },
        None => None,
    }
}

/// The value of the output with the given ID, as `input_value`.
pub open spec fn output_value(m: Seq<OutputSharedContext>, id: Seq<char>) -> Option<IOValueView> {
    match output_index(m, id) {
        Some(i) => match m[i].value {
            Some(v) => Some(v@),
            None => None,
        },
        None => None,
    }
}

/// The last input of `s` with the given ID (a later one replaces an
/// earlier one with the same ID).
pub open spec fn last_input_with_id(s: Seq<Input>, id: Seq<char>) -> Option<Input>
    decreases s.len(),
{
    if s.len() == 0 {
        None
    } else if s.last().id@ == id {
        Some(s.last())
    } else {
        last_input_with_id(s.drop_last(), id)
    }
}

pub open spec fn last_output_with_id(s: Seq<Output>, id: Seq<char>) -> Option<Output>
    decreases s.len(),
{
    if s.len() == 0 {
        None
    } else if s.last().id@ == id {
        Some(s.last())
    } else {
        last_output_with_id(s.drop_last(), id)
    }
}

/// How many conditions of a rule read the input with the given ID.
pub open spec fn conditions_on(cs: Seq<ConditionKind>, id: Seq<char>) -> nat
    decreases cs.len(),
{
    if cs.len() == 0 {
        0
    } else {
        conditions_on(cs.drop_last(), id) + match cs.last() {
            ConditionKind::Standard { input } => if input.id@ == id {
                1nat
            } else {
                0nat
            },
            ConditionKind::Start => 0nat,
        }
    }
}

/// The rules that read the input with the given ID, in order, each listed
/// once per condition that reads it. An empty ID is read by no rule.
pub open spec fn rules_reading(rules: Seq<Rule>, id: Seq<char>) -> Seq<Rule>
    decreases rules.len(),
{
    if rules.len() == 0 || id.len() == 0 {
        Seq::empty()
    } else {
        rules_reading(rules.drop_last(), id) + Seq::new(
            conditions_on(rules.last().conditions@, id),
            |k: int| rules.last(),
        )
    }
}

/// The entries hold the inputs of `inputs`, one per ID: the last input
/// declared with that ID, no value known yet.
pub open spec fn input_entries_of(m: Seq<InputSharedContext>, inputs: Seq<Input>) -> bool {
    &&& inputs_distinct(m)
    &&& forall|id: Seq<char>| #[trigger]
        input_index(m, id) is Some <==> last_input_with_id(inputs, id) is Some
    &&& forall|i: int|
        0 <= i < m.len() ==> {
            &&& Some(*(#[trigger] m[i]).input) == last_input_with_id(inputs, m[i].input.id@)
            &&& m[i].value is None
        }
}

/// The state built from the configuration, before any value is known:
/// besides `input_entries_of`, each entry lists the rules that read it.
pub open spec fn input_map_of(
    m: Seq<InputSharedContext>,
    inputs: Seq<Input>,
    rules: Seq<Rule>,
) -> bool {
    &&& input_entries_of(m, inputs)
    &&& forall|i: int|
        0 <= i < m.len() ==> (#[trigger] m[i]).rules@.map_values(|r: &Rule| *r)
            == rules_reading(rules, m[i].input.id@)
}

pub open spec fn output_map_of(m: Seq<OutputSharedContext>, outputs: Seq<Output>) -> bool {
    &&& outputs_distinct(m)
    &&& forall|id: Seq<char>| #[trigger]
        output_index(m, id) is Some <==> last_output_with_id(outputs, id) is Some
    &&& forall|i: int|
        0 <= i < m.len() ==> {
            &&& Some(*(#[trigger] m[i]).output) == last_output_with_id(outputs, m[i].output.id@)
            &&& m[i].value is None
        }
}

impl<'a> InputSharedContextMap<'a> {
    pub open spec fn wf(&self) -> bool {
        inputs_distinct(self.entries@)
    }

    /// The position of the entry with the given ID.
    pub fn find(&self, id: &str) -> (r: Option<usize>)
        requires
            self.wf(),
        ensures
            match r {
                Some(i) => input_index(self.entries@, id@) == Some(i as int),
                None => input_index(self.entries@, id@) is None,
            },
    {
        let mut i: usize = 0;
        while i < self.entries.len()
            invariant
                self.wf(),
                i <= self.entries@.len(),
                forall|j: int| 0 <= j < i ==> (#[trigger] self.entries@[j]).input.id@ != id@,
            decreases self.entries@.len() - i,
        {
            if str_eq(self.entries[i].input.id.as_str(), id) {
                proof {
                    let e = self.entries@;
                    assert(exists|k: int| 0 <= k < e.len() && (#[trigger] e[k]).input.id@ == id@);
                    let c = choose|k: int| 0 <= k < e.len() && (#[trigger] e[k]).input.id@ == id@;
                    if c != i {
                        assert(e[c].input.id@ != e[i as int].input.id@);
                    }
                }
                return Some(i);
            }
            i = i + 1;
        }
        None
    }
}

impl<'a> OutputSharedContextMap<'a> {
    pub open spec fn wf(&self) -> bool {
        outputs_distinct(self.entries@)
    }

    /// The position of the entry with the given ID.
    pub fn find(&self, id: &str) -> (r: Option<usize>)
        requires
            self.wf(),
        ensures
            match r {
                Some(i) => output_index(self.entries@, id@) == Some(i as int),
                None => output_index(self.entries@, id@) is None,
            },
    {
        let mut i: usize = 0;
        while i < self.entries.len()
            invariant
                self.wf(),
                i <= self.entries@.len(),
                forall|j: int| 0 <= j < i ==> (#[trigger] self.entries@[j]).output.id@ != id@,
            decreases self.entries@.len() - i,
        {
            if str_eq(self.entries[i].output.id.as_str(), id) {
                proof {
                    let e = self.entries@;
                    assert(exists|k: int| 0 <= k < e.len() && (#[trigger] e[k]).output.id@ == id@);
                    let c = choose|k: int| 0 <= k < e.len() && (#[trigger] e[k]).output.id@ == id@;
                    if c != i {
                        assert(e[c].output.id@ != e[i as int].output.id@);
                    }
                }
                return Some(i);
            }
            i = i + 1;
        }
        None
    }
}

proof fn lemma_last_output_push(s: Seq<Output>, o: Output, id: Seq<char>)
    ensures
        last_output_with_id(s.push(o), id) == (if o.id@ == id {
            Some(o)
        } else {
            last_output_with_id(s, id)
        }),
{
    assert(s.push(o).drop_last() =~= s);
}

proof fn lemma_last_input_push(s: Seq<Input>, o: Input, id: Seq<char>)
    ensures
        last_input_with_id(s.push(o), id) == (if o.id@ == id {
            Some(o)
        } else {
            last_input_with_id(s, id)
        }),
{
    assert(s.push(o).drop_last() =~= s);
}

pub proof fn lemma_flatten_step<T>(rooms: Seq<Seq<T>>, ri: int)
    requires
        0 <= ri < rooms.len(),
    ensures
        rooms.take(ri + 1).flatten() == rooms.take(ri).flatten() + rooms[ri],
{
    assert(rooms.take(ri + 1) =~= rooms.take(ri).push(rooms[ri]));
    rooms.take(ri).lemma_flatten_push(rooms[ri]);
}

/// Adds `output` to the state: it replaces an entry with the same ID.
fn insert_output<'a>(
    map: &mut OutputSharedContextMap<'a>,
    output: &'a Output,
    Ghost(seen): Ghost<Seq<Output>>,
)
    requires
        output_map_of(old(map).entries@, seen),
    ensures
        output_map_of(final(map).entries@, seen.push(*output)),
{
    let ghost s2 = seen.push(*output);
    let ctx = OutputSharedContext { output, value: None };
    match map.find(output.id.as_str()) {
        Some(k) => {
            map.entries.set(k, ctx);
            proof {
                let m = map.entries@;
                assert forall|i: int, j: int|
                    0 <= i < m.len() && 0 <= j < m.len() && i != j implies (#[trigger] m[i]).output.id@
                    != (#[trigger] m[j]).output.id@ by {
                    assert(old(map).entries@[k as int].output.id@ == output.id@);
                }
                assert forall|id: Seq<char>| #[trigger]
                    output_index(m, id) is Some <==> last_output_with_id(s2, id) is Some by {
                    lemma_last_output_push(seen, *output, id);
                    let om = old(map).entries@;
                    if output_index(om, id) is Some {
                        let w = choose|i: int| 0 <= i < om.len() && (#[trigger] om[i]).output.id@ == id;
                        assert(m[w].output.id@ == id);
                    }
                    if output_index(m, id) is Some {
                        let w = choose|i: int| 0 <= i < m.len() && (#[trigger] m[i]).output.id@ == id;
                        assert(om[w].output.id@ == id);
                    }
                }
                assert forall|i: int| 0 <= i < m.len() implies {
                    &&& Some(*(#[trigger] m[i]).output) == last_output_with_id(s2, m[i].output.id@)
                    &&& m[i].value is None
                } by {
                    lemma_last_output_push(seen, *output, m[i].output.id@);
                }
            }
        },
        None => {
            map.entries.push(ctx);
            proof {
                let m = map.entries@;
                let om = old(map).entries@;
                assert forall|i: int, j: int|
                    0 <= i < m.len() && 0 <= j < m.len() && i != j implies (#[trigger] m[i]).output.id@
                    != (#[trigger] m[j]).output.id@ by {
                    if i < om.len() && j < om.len() {
                        assert(om[i] == m[i] && om[j] == m[j]);
                    } else if i < om.len() {
                        assert(om[i] == m[i]);
                    } else {
                        assert(om[j] == m[j]);
                    }
                }
                assert forall|id: Seq<char>| #[trigger]
                    output_index(m, id) is Some <==> last_output_with_id(s2, id) is Some by {
                    lemma_last_output_push(seen, *output, id);
                    if output_index(om, id) is Some {
                        let w = choose|i: int| 0 <= i < om.len() && (#[trigger] om[i]).output.id@ == id;
                        assert(m[w].output.id@ == id);
                    }
                    if id == output.id@ {
                        assert(m[om.len() as int].output.id@ == id);
                    }
                    if output_index(m, id) is Some {
                        let w = choose|i: int| 0 <= i < m.len() && (#[trigger] m[i]).output.id@ == id;
                        if w < om.len() {
                            assert(om[w].output.id@ == id);
                        }
                    }
                }
                assert forall|i: int| 0 <= i < m.len() implies {
                    &&& Some(*(#[trigger] m[i]).output) == last_output_with_id(s2, m[i].output.id@)
                    &&& m[i].value is None
                } by {
                    lemma_last_output_push(seen, *output, m[i].output.id@);
                    if i < om.len() {
                        assert(om[i] == m[i]);
                    }
                }
            }
        },
    }
}

/// Adds `input` to the state: it replaces an entry with the same ID.
fn insert_input<'a>(
    map: &mut InputSharedContextMap<'a>,
    input: &'a Input,
    Ghost(seen): Ghost<Seq<Input>>,
)
    requires
        input_entries_of(old(map).entries@, seen),
    ensures
        input_entries_of(final(map).entries@, seen.push(*input)),
{
    let ghost s2 = seen.push(*input);
    let ctx = InputSharedContext { input, rules: Vec::new(), value: None };
    match map.find(input.id.as_str()) {
        Some(k) => {
            map.entries.set(k, ctx);
            proof {
                let m = map.entries@;
                assert forall|i: int, j: int|
                    0 <= i < m.len() && 0 <= j < m.len() && i != j implies (#[trigger] m[i]).input.id@
                    != (#[trigger] m[j]).input.id@ by {
                    assert(old(map).entries@[k as int].input.id@ == input.id@);
                }
                assert forall|id: Seq<char>| #[trigger]
                    input_index(m, id) is Some <==> last_input_with_id(s2, id) is Some by {
                    lemma_last_input_push(seen, *input, id);
                    let om = old(map).entries@;
                    if input_index(om, id) is Some {
                        let w = choose|i: int| 0 <= i < om.len() && (#[trigger] om[i]).input.id@ == id;
                        assert(m[w].input.id@ == id);
                    }
                    if input_index(m, id) is Some {
                        let w = choose|i: int| 0 <= i < m.len() && (#[trigger] m[i]).input.id@ == id;
                        assert(om[w].input.id@ == id);
                    }
                }
                assert forall|i: int| 0 <= i < m.len() implies {
                    &&& Some(*(#[trigger] m[i]).input) == last_input_with_id(s2, m[i].input.id@)
                    &&& m[i].value is None
                } by {
                    lemma_last_input_push(seen, *input, m[i].input.id@);
                }
            }
        },
        None => {
            map.entries.push(ctx);
            proof {
                let m = map.entries@;
                let om = old(map).entries@;
                assert forall|i: int, j: int|
                    0 <= i < m.len() && 0 <= j < m.len() && i != j implies (#[trigger] m[i]).input.id@
                    != (#[trigger] m[j]).input.id@ by {
                    if i < om.len() && j < om.len() {
                        assert(om[i] == m[i] && om[j] == m[j]);
                    } else if i < om.len() {
                        assert(om[i] == m[i]);
                    } else {
                        assert(om[j] == m[j]);
                    }
                }
                assert forall|id: Seq<char>| #[trigger]
                    input_index(m, id) is Some <==> last_input_with_id(s2, id) is Some by {
                    lemma_last_input_push(seen, *input, id);
                    if input_index(om, id) is Some {
                        let w = choose|i: int| 0 <= i < om.len() && (#[trigger] om[i]).input.id@ == id;
                        assert(m[w].input.id@ == id);
                    }
                    if id == input.id@ {
                        assert(m[om.len() as int].input.id@ == id);
                    }
                    if input_index(m, id) is Some {
                        let w = choose|i: int| 0 <= i < m.len() && (#[trigger] m[i]).input.id@ == id;
                        if w < om.len() {
                            assert(om[w].input.id@ == id);
                        }
                    }
                }
                assert forall|i: int| 0 <= i < m.len() implies {
                    &&& Some(*(#[trigger] m[i]).input) == last_input_with_id(s2, m[i].input.id@)
                    &&& m[i].value is None
                } by {
                    lemma_last_input_push(seen, *input, m[i].input.id@);
                    if i < om.len() {
                        assert(om[i] == m[i]);
                    }
                }
            }
        },
    }
}

/// The state of the outputs of the configuration: one entry per output
/// ID, holding the last output declared with that ID, no value known yet.
pub fn make_output_context_map<'a>(io: &'a IoConfig) -> (r: OutputSharedContextMap<'a>)
    ensures
        r.wf(),
        output_map_of(r.entries@, all_outputs(*io)),
{
    let ghost rooms = io.home.rooms@.map_values(|r: Room| r.outputs@);
    let mut map = OutputSharedContextMap { entries: Vec::new() };
    let mut ri: usize = 0;
    while ri < io.home.rooms.len()
        invariant
            ri <= io.home.rooms@.len(),
            rooms == io.home.rooms@.map_values(|r: Room| r.outputs@),
            output_map_of(map.entries@, rooms.take(ri as int).flatten()),
        decreases io.home.rooms@.len() - ri,
    {
        let room = &io.home.rooms[ri];
        let mut oi: usize = 0;
        while oi < room.outputs.len()
            invariant
                ri < io.home.rooms@.len(),
                *room == io.home.rooms@[ri as int],
                oi <= room.outputs@.len(),
                rooms == io.home.rooms@.map_values(|r: Room| r.outputs@),
                output_map_of(
                    map.entries@,
                    rooms.take(ri as int).flatten() + room.outputs@.take(oi as int),
                ),
            decreases room.outputs@.len() - oi,
        {
            let output = &room.outputs[oi];
            insert_output(
                &mut map,
                output,
                Ghost(rooms.take(ri as int).flatten() + room.outputs@.take(oi as int)),
            );
            proof {
                assert(rooms.take(ri as int).flatten() + room.outputs@.take(oi + 1) =~= (rooms.take(
                    ri as int,
                ).flatten() + room.outputs@.take(oi as int)).push(room.outputs@[oi as int]));
            }
            oi = oi + 1;
        }
        proof {
            lemma_flatten_step(rooms, ri as int);
            assert(room.outputs@.take(oi as int) =~= room.outputs@);
        }
        ri = ri + 1;
    }
    proof {
        assert(rooms.take(ri as int) =~= rooms);
    }
    map
}

proof fn lemma_conditions_on_step(cs: Seq<ConditionKind>, ci: int, id: Seq<char>)
    requires
        0 <= ci < cs.len(),
    ensures
        conditions_on(cs.take(ci + 1), id) == conditions_on(cs.take(ci), id) + match cs[ci] {
            ConditionKind::Standard { input } => if input.id@ == id {
                1nat
            } else {
                0nat
            },
            ConditionKind::Start => 0nat,
        },
{
    assert(cs.take(ci + 1).drop_last() =~= cs.take(ci));
}

proof fn lemma_rules_reading_step(rules: Seq<Rule>, ri: int, id: Seq<char>)
    requires
        0 <= ri < rules.len(),
        id.len() > 0,
    ensures
        rules_reading(rules.take(ri + 1), id) == rules_reading(rules.take(ri), id) + Seq::new(
            conditions_on(rules[ri].conditions@, id),
            |k: int| rules[ri],
        ),
{
    assert(rules.take(ri + 1).drop_last() =~= rules.take(ri));
}

/// The rules with a condition on the input `id`, each once per such
/// condition, in the order of the configuration.
pub fn rules_for<'a>(rules: &'a RulesConfig, id: &str) -> (r: Vec<&'a Rule>)
    ensures
        r@.map_values(|x: &Rule| *x) == rules_reading(rules.rules@, id@),
{
    let mut res: Vec<&'a Rule> = Vec::new();
    if id.is_empty() {
        assert(res@.map_values(|x: &Rule| *x) =~= Seq::<Rule>::empty());
        return res;
    }
    let mut ri: usize = 0;
    while ri < rules.rules.len()
        invariant
            id@.len() > 0,
            ri <= rules.rules@.len(),
            res@.map_values(|x: &Rule| *x) == rules_reading(rules.rules@.take(ri as int), id@),
        decreases rules.rules@.len() - ri,
    {
        let rule = &rules.rules[ri];
        let ghost before = res@.map_values(|x: &Rule| *x);
        let mut ci: usize = 0;
        while ci < rule.conditions.len()
            invariant
                ri < rules.rules@.len(),
                *rule == rules.rules@[ri as int],
                ci <= rule.conditions@.len(),
                res@.map_values(|x: &Rule| *x) == before + Seq::new(
                    conditions_on(rule.conditions@.take(ci as int), id@),
                    |k: int| *rule,
                ),
            decreases rule.conditions@.len() - ci,
        {
            proof {
                lemma_conditions_on_step(rule.conditions@, ci as int, id@);
            }
            let ghost prev = res@;
            match &rule.conditions[ci] {
                ConditionKind::Standard { input } => {
                    if str_eq(input.id.as_str(), id) {
                        res.push(rule);
                        proof {
                            assert(res@.map_values(|x: &Rule| *x) =~= prev.map_values(
                                |x: &Rule| *x,
                            ).push(*rule));
                            assert(before + Seq::new(
                                conditions_on(rule.conditions@.take(ci + 1), id@),
                                |k: int| *rule,
                            ) =~= (before + Seq::new(
                                conditions_on(rule.conditions@.take(ci as int), id@),
                                |k: int| *rule,
                            )).push(*rule));
                        }
                    } else {
                        assert(before + Seq::new(
                            conditions_on(rule.conditions@.take(ci + 1), id@),
                            |k: int| *rule,
                        ) =~= before + Seq::new(
                            conditions_on(rule.conditions@.take(ci as int), id@),
                            |k: int| *rule,
                        ));
                    }
                },
                ConditionKind::Start => {
                    assert(before + Seq::new(
                        conditions_on(rule.conditions@.take(ci + 1), id@),
                        |k: int| *rule,
                    ) =~= before + Seq::new(
                        conditions_on(rule.conditions@.take(ci as int), id@),
                        |k: int| *rule,
                    ));
                },
            }
            ci = ci + 1;
        }
        proof {
            lemma_rules_reading_step(rules.rules@, ri as int, id@);
            assert(rule.conditions@.take(ci as int) =~= rule.conditions@);
        }
        ri = ri + 1;
    }
    proof {
        assert(rules.rules@.take(ri as int) =~= rules.rules@);
    }
    res
}

/// The state of the inputs of the configuration: one entry per input ID,
/// holding the last input declared with that ID and the rules whose
/// conditions read it; no value is known yet.
pub fn make_input_context_map<'a>(io: &'a IoConfig, rules_config: &'a RulesConfig) -> (r:
    InputSharedContextMap<'a>)
    ensures
        r.wf(),
        input_map_of(r.entries@, all_inputs(*io), rules_config.rules@),
{
    let ghost rooms = io.home.rooms@.map_values(|r: Room| r.inputs@);
    let mut map = InputSharedContextMap { entries: Vec::new() };
    let mut ri: usize = 0;
    while ri < io.home.rooms.len()
        invariant
            ri <= io.home.rooms@.len(),
            rooms == io.home.rooms@.map_values(|r: Room| r.inputs@),
            input_entries_of(map.entries@, rooms.take(ri as int).flatten()),
        decreases io.home.rooms@.len() - ri,
    {
        let room = &io.home.rooms[ri];
        let mut oi: usize = 0;
        while oi < room.inputs.len()
            invariant
                ri < io.home.rooms@.len(),
                *room == io.home.rooms@[ri as int],
                oi <= room.inputs@.len(),
                rooms == io.home.rooms@.map_values(|r: Room| r.inputs@),
                input_entries_of(
                    map.entries@,
                    rooms.take(ri as int).flatten() + room.inputs@.take(oi as int),
                ),
            decreases room.inputs@.len() - oi,
        {
            let input = &room.inputs[oi];
            insert_input(
                &mut map,
                input,
                Ghost(rooms.take(ri as int).flatten() + room.inputs@.take(oi as int)),
            );
            proof {
                assert(rooms.take(ri as int).flatten() + room.inputs@.take(oi + 1) =~= (rooms.take(
                    ri as int,
                ).flatten() + room.inputs@.take(oi as int)).push(room.inputs@[oi as int]));
            }
            oi = oi + 1;
        }
        proof {
            lemma_flatten_step(rooms, ri as int);
            assert(room.inputs@.take(oi as int) =~= room.inputs@);
        }
        ri = ri + 1;
    }
    proof {
        assert(rooms.take(ri as int) =~= rooms);
    }
    let ghost inputs = all_inputs(*io);
    let mut res = InputSharedContextMap { entries: Vec::new() };
    let mut k: usize = 0;
    while k < map.entries.len()
        invariant
            k <= map.entries@.len(),
            input_entries_of(map.entries@, inputs),
            res.entries@.len() == k,
            forall|i: int|
                0 <= i < k ==> {
                    &&& (#[trigger] res.entries@[i]).input == map.entries@[i].input
                    &&& res.entries@[i].value is None
                    &&& res.entries@[i].rules@.map_values(|r: &Rule| *r) == rules_reading(
                        rules_config.rules@,
                        res.entries@[i].input.id@,
                    )
                },
        decreases map.entries@.len() - k,
    {
        let input = map.entries[k].input;
        let rules = rules_for(rules_config, input.id.as_str());
        res.entries.push(InputSharedContext { input, rules, value: None });
        k = k + 1;
    }
    proof {
        let m = res.entries@;
        let om = map.entries@;
        assert forall|i: int, j: int|
            0 <= i < m.len() && 0 <= j < m.len() && i != j implies (#[trigger] m[i]).input.id@
            != (#[trigger] m[j]).input.id@ by {
            assert(om[i].input.id@ != om[j].input.id@);
        }
        assert forall|id: Seq<char>| #[trigger]
            input_index(m, id) is Some <==> last_input_with_id(inputs, id) is Some by {
            if input_index(om, id) is Some {
                let w = choose|i: int| 0 <= i < om.len() && (#[trigger] om[i]).input.id@ == id;
                assert(m[w].input.id@ == id);
            }
            if input_index(m, id) is Some {
                let w = choose|i: int| 0 <= i < m.len() && (#[trigger] m[i]).input.id@ == id;
                assert(om[w].input.id@ == id);
            }
        }
        assert forall|i: int| 0 <= i < m.len() implies {
            &&& Some(*(#[trigger] m[i]).input) == last_input_with_id(inputs, m[i].input.id@)
            &&& m[i].value is None
        } by {
            assert(om[i].input == m[i].input);
        }
    }
    res
}

} // verus!
