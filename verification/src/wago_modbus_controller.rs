//! The output side of the Wago controllers, driven over Modbus: digital
//! outputs are switched on and off, shutters are moved by pulsing one of
//! two outputs for their travel time. This module decides which coils to
//! write and what to report; the Modbus connection, the timers and the
//! channels are the application's job. Times are milliseconds of a
//! monotonic clock.

use vstd::prelude::*;

use crate::io_config::{OutputKind, WagoIOUpDown};
use crate::io_context::{
    output_index, IOData, IODataAction, IODataView, OutputSharedContext, OutputSharedContextMap,
};
use crate::io_value::{
    toggle, toggled, IOAction, IOActionView, IOValue, IOValueView, ShutterState,
};
use crate::task::Task;
use crate::text::str_eq;

verus! {

/// Writing a coil again sooner than this many milliseconds after the last
/// write could damage the relay.
pub const MIN_MS_BETWEEN_WRITE: u64 = 15;

/// The Modbus address of the coil of output variable `var`.
pub open spec fn coil_address(var: u32) -> Option<u16> {
    if (var | 0x1000u32) <= 0xffff {
        Some((var | 0x1000u32) as u16)
    } else {
        None
    }
}

/// The Modbus address of the discrete input of output variable `var`.
pub open spec fn input_address(var: u32) -> Option<u16> {
    if var + 0x200 <= 0xffff {
        Some((var + 0x200) as u16)
    } else {
        None
    }
}

/// The coil address of `var`, or an error when it does not fit in 16 bits.
pub fn write_address(var: u32) -> (r: Result<u16, u32>)
    ensures
        match coil_address(var) {
            Some(a) => r == Ok::<u16, u32>(a),
            None => r == Err::<u16, u32>(var),
        },
{
    let a = var | 0x1000u32;
    if a <= 0xffff {
        Ok(a as u16)
    } else {
        Err(var)
    }
}

/// The discrete input address of `var`, or an error when it does not fit in 16 bits.
pub fn read_address(var: u32) -> (r: Result<u16, u32>)
    ensures
        match input_address(var) {
            Some(a) => r == Ok::<u16, u32>(a),
            None => r == Err::<u16, u32>(var),
        },
{
    if var <= 0xffff - 0x200 {
        Ok((var + 0x200) as u16)
    } else {
        Err(var)
    }
}

/// How long to wait before writing a coil last written at `last`: on a
/// clock that does not go back, the next write comes at least
/// `MIN_MS_BETWEEN_WRITE` after the last one, and no later than needed.
pub fn coil_write_delay(last: Option<u64>, now: u64) -> (r: u64)
    ensures
        last matches Some(t) ==> (now >= t ==> now + r >= t + MIN_MS_BETWEEN_WRITE),
        r <= MIN_MS_BETWEEN_WRITE,
        r == match last {
            Some(t) => if now >= t && now - t < MIN_MS_BETWEEN_WRITE {
                (MIN_MS_BETWEEN_WRITE - (now - t)) as u64
            } else {
                0
            },
            None => 0,
        },
{
    match last {
        Some(t) => if now >= t && now - t < MIN_MS_BETWEEN_WRITE {
            MIN_MS_BETWEEN_WRITE - (now - t)
        } else {
            0
        },
        None => 0,
    }
}

/// Something for the application to do, in order. After an `AddressError`
/// nothing more is done: the controller stops with an error.
#[derive(Debug)]
pub enum OutputEffect {
    /// Write `value` to the coil at `address`.
    Write { address: u16, value: bool },
    /// Broadcast the new value of an output.
    Feedback(IOData),
    /// The variable has no 16-bit coil address.
    AddressError { var: u32 },
}

pub enum OutputEffectView {
    Write { address: u16, value: bool },
    Feedback(IODataView),
    AddressError { var: u32 },
}

impl View for OutputEffect {
    type V = OutputEffectView;

    open spec fn view(&self) -> OutputEffectView {
        match self {
            OutputEffect::Write { address, value } => OutputEffectView::Write {
                address: *address,
                value: *value,
            },
            OutputEffect::Feedback(d) => OutputEffectView::Feedback(d@),
            OutputEffect::AddressError { var } => OutputEffectView::AddressError { var: *var },
        }
    }
}

/// The effects of writing the coils of `ws` in order: the writes, up to
/// the first variable without an address, which ends them with an error.
pub open spec fn write_effects(ws: Seq<(u32, bool)>) -> Seq<OutputEffectView>
    decreases ws.len(),
{
    if ws.len() == 0 {
        Seq::empty()
    } else {
        match coil_address(ws[0].0) {
            Some(a) => seq![OutputEffectView::Write { address: a, value: ws[0].1 }] + write_effects(
                ws.drop_first(),
            ),
            None => seq![OutputEffectView::AddressError { var: ws[0].0 }],
        }
    }
}

/// All variables of `ws` have a coil address.
pub open spec fn writes_ok(ws: Seq<(u32, bool)>) -> bool {
    forall|i: int| 0 <= i < ws.len() ==> (#[trigger] coil_address(ws[i].0)) is Some
}

/// The writes that stop a shutter: both outputs off, down first.
pub open spec fn stop_writes(io: WagoIOUpDown) -> Seq<(u32, bool)> {
    seq![(io.var_down, false), (io.var_up, false)]
}

/// The writes that move a shutter: both outputs off, the other one first,
/// then the one of the direction on.
pub open spec fn move_writes(io: WagoIOUpDown, target: ShutterState) -> Seq<(u32, bool)> {
    let (on, off) = if target == ShutterState::Up {
        (io.var_up, io.var_down)
    } else {
        (io.var_down, io.var_up)
    };
    seq![(off, false), (on, false), (on, true)]
}

/// A shutter task: once `task.deadline` is reached the shutter `id` is stopped.
#[derive(Debug)]
pub struct ShutterTask {
    pub id: String,
    pub task: Task,
}

/// The state of one Modbus output controller: its outputs and the shutters
/// that are moving.
#[derive(Debug)]
pub struct WagoOutputController<'a> {
    pub outputs: OutputSharedContextMap<'a>,
    pub tasks: Vec<ShutterTask>,
}

/// No two tasks are about the same output.
pub open spec fn tasks_distinct(ts: Seq<ShutterTask>) -> bool {
    forall|i: int, j: int|
        0 <= i < ts.len() && 0 <= j < ts.len() && i != j ==> (#[trigger] ts[i]).id@ != (
        #[trigger] ts[j]).id@
}

/// The tasks after the task of `id` is set to `t`.
pub open spec fn tasks_with(ts: Seq<ShutterTask>, id: Seq<char>, t: Task) -> Seq<(Seq<char>, Task)> {
    if exists|i: int| 0 <= i < ts.len() && (#[trigger] ts[i]).id@ == id {
        ts.map_values(|x: ShutterTask| (x.id@, if x.id@ == id { t } else { x.task }))
    } else {
        ts.map_values(|x: ShutterTask| (x.id@, x.task)).push((id, t))
    }
}

/// What a command asks of an output, given its kind and its current value.
pub enum Plan {
    Nothing,
    Digital(bool),
    Move(ShutterState),
    Stop,
}

/// The value that an action asks for: `None` for a stop; a toggle needs a
/// current value that can be toggled.
pub open spec fn requested_value(current: Option<IOValueView>, action: IOActionView) -> Option<
    Option<IOValueView>,
> {
    match action {
        IOActionView::SetValue(v) => Some(Some(v)),
        IOActionView::Toggle => match current {
            Some(c) => match toggled(c) {
                Some(t) => Some(Some(t)),
                None => None,
            },
            None => None,
        },
        IOActionView::Stop => Some(None),
    }
}

pub open spec fn plan(kind: OutputKind, current: Option<IOValueView>, action: IOActionView) -> Plan {
    match requested_value(current, action) {
        None => Plan::Nothing,
        Some(nv) => match kind {
            OutputKind::WODigital(_) => match nv {
                Some(IOValueView::Bool(b)) => Plan::Digital(b),
                _ => Plan::Nothing,
            },
            OutputKind::WOShutter(_) => if current is Some && nv is Some && current == nv {
                Plan::Nothing
            } else {
                match nv {
                    Some(IOValueView::Shutter(ShutterState::Up)) => Plan::Move(ShutterState::Up),
                    Some(IOValueView::Shutter(ShutterState::Down)) => Plan::Move(
                        ShutterState::Down,
                    ),
                    None => Plan::Stop,
                    _ => Plan::Nothing,
                }
            },
            _ => Plan::Nothing,
        },
    }
}

/// `id` names a shutter of `outputs` whose two coils have addresses.
pub open spec fn shutter_id_ok(id: Seq<char>, outputs: Seq<OutputSharedContext>) -> bool {
    exists|k: int|
        0 <= k < outputs.len() && (#[trigger] outputs[k]).output.id@ == id && match outputs[k].output.kind {
            OutputKind::WOShutter(io) => coil_address(io.var_up) is Some && coil_address(io.var_down) is Some,
            _ => false,
        }
}

/// Every task is about a shutter of `outputs` whose two coils have
/// addresses.
pub open spec fn tasks_on_shutters(ts: Seq<ShutterTask>, outputs: Seq<OutputSharedContext>) -> bool {
    forall|i: int| 0 <= i < ts.len() ==> shutter_id_ok((#[trigger] ts[i]).id@, outputs)
}

proof fn lemma_tasks_on_shutters_keep(ts: Seq<ShutterTask>, o1: Seq<OutputSharedContext>, o2: Seq<OutputSharedContext>)
    requires
        tasks_on_shutters(ts, o1),
        o1.len() == o2.len(),
        forall|i: int| 0 <= i < o1.len() ==> (#[trigger] o2[i]).output == o1[i].output,
    ensures
        tasks_on_shutters(ts, o2),
{
    assert forall|i: int| 0 <= i < ts.len() implies shutter_id_ok((#[trigger] ts[i]).id@, o2) by {
        let k = choose|k: int|
            0 <= k < o1.len() && (#[trigger] o1[k]).output.id@ == ts[i].id@ && match o1[k].output.kind {
                OutputKind::WOShutter(io) => coil_address(io.var_up) is Some && coil_address(io.var_down) is Some,
                _ => false,
            };
        assert(o2[k].output == o1[k].output);
    }
}

proof fn lemma_tasks_with_ok(
    old_ts: Seq<ShutterTask>,
    new_ts: Seq<ShutterTask>,
    outputs: Seq<OutputSharedContext>,
    id: Seq<char>,
    task: Task,
)
    requires
        tasks_on_shutters(old_ts, outputs),
        new_ts.map_values(|x: ShutterTask| (x.id@, x.task)) == tasks_with(old_ts, id, task),
        shutter_id_ok(id, outputs),
    ensures
        tasks_on_shutters(new_ts, outputs),
{
    let mv = new_ts.map_values(|x: ShutterTask| (x.id@, x.task));
    let tw = tasks_with(old_ts, id, task);
    assert(mv.len() == tw.len());
    assert forall|i: int| 0 <= i < new_ts.len() implies shutter_id_ok((#[trigger] new_ts[i]).id@, outputs) by {
        assert(mv[i] == (new_ts[i].id@, new_ts[i].task));
        assert(mv[i] == tw[i]);
        if exists|j: int| 0 <= j < old_ts.len() && (#[trigger] old_ts[j]).id@ == id {
            let f = |x: ShutterTask| (x.id@, if x.id@ == id { task } else { x.task });
            assert(tw == old_ts.map_values(f));
            assert(tw[i] == f(old_ts[i]));
            assert(shutter_id_ok(old_ts[i].id@, outputs));
        } else {
            let g = |x: ShutterTask| (x.id@, x.task);
            assert(tw == old_ts.map_values(g).push((id, task)));
            if i < old_ts.len() {
                assert(tw[i] == g(old_ts[i]));
                assert(shutter_id_ok(old_ts[i].id@, outputs));
            } else {
                assert(tw[i] == (id, task));
            }
        }
    }
}

/// When every task is about an addressable shutter, the stop writes of the
/// due tasks all have addresses.
proof fn lemma_expiry_writes_ok(ts: Seq<ShutterTask>, outputs: Seq<OutputSharedContext>, now: u64)
    requires
        crate::io_context::outputs_distinct(outputs),
        tasks_on_shutters(ts, outputs),
    ensures
        writes_ok(expiry_writes(ts, outputs, now)),
    decreases ts.len(),
{
    if ts.len() > 0 {
        let p = ts.drop_last();
        assert forall|i: int| 0 <= i < p.len() implies shutter_id_ok((#[trigger] p[i]).id@, outputs) by {
            assert(p[i] == ts[i]);
        }
        lemma_expiry_writes_ok(p, outputs, now);
        let t = ts.last();
        assert(shutter_id_ok(ts[ts.len() - 1].id@, outputs));
        let k = choose|k: int|
            0 <= k < outputs.len() && (#[trigger] outputs[k]).output.id@ == t.id@ && match outputs[k].output.kind {
                OutputKind::WOShutter(io) => coil_address(io.var_up) is Some && coil_address(io.var_down) is Some,
                _ => false,
            };
        let w = expiry_writes(ts, outputs, now);
        let wp = expiry_writes(p, outputs, now);
        if t.task.deadline <= now {
            let j = output_index(outputs, t.id@)->0;
            assert(outputs[j].output.id@ == t.id@);
            assert(j == k);
        }
        assert forall|i: int| 0 <= i < w.len() implies (#[trigger] coil_address(w[i].0)) is Some by {
            if i < wp.len() {
                assert(w[i] == wp[i]);
            }
        }
    }
}

impl<'a> WagoOutputController<'a> {
    /// Well-formed: one entry per output ID, one task per output, and every
    /// task is about a shutter whose two coils have addresses.
    pub open spec fn wf(&self) -> bool {
        &&& self.outputs.wf()
        &&& tasks_distinct(self.tasks@)
        &&& tasks_on_shutters(self.tasks@, self.outputs.entries@)
    }

    pub open spec fn task_view(&self) -> Seq<(Seq<char>, Task)> {
        self.tasks@.map_values(|x: ShutterTask| (x.id@, x.task))
    }

    /// A controller for the given outputs, no shutter moving.
    pub fn new(outputs: OutputSharedContextMap<'a>) -> (r: Self)
        requires
            outputs.wf(),
        ensures
            r.wf(),
            r.outputs == outputs,
            r.tasks@.len() == 0,
    {
        WagoOutputController { outputs, tasks: Vec::new() }
    }

    /// Records the value of the output at position `k` and gives the
    /// feedback to broadcast.
    pub fn record_value(&mut self, k: usize, value: IOValue) -> (r: IOData)
        requires
            old(self).wf(),
            k < old(self).outputs.entries@.len(),
        ensures
            final(self).wf(),
            final(self).tasks == old(self).tasks,
            final(self).outputs.entries@ == old(self).outputs.entries@.update(
                k as int,
                OutputSharedContext {
                    output: old(self).outputs.entries@[k as int].output,
                    value: Some(value),
                },
            ),
            r@ == (IODataView { id: old(self).outputs.entries@[k as int].output.id@, value: value@ }),
    {
        let e = self.outputs.entries.remove(k);
        let id = e.output.id.clone();
        let feedback = IOData::new(id, value.clone());
        self.outputs.entries.insert(k, OutputSharedContext { output: e.output, value: Some(value) });
        proof {
            let m = self.outputs.entries@;
            let om = old(self).outputs.entries@;
            assert(m =~= om.update(
                k as int,
                OutputSharedContext { output: om[k as int].output, value: Some(value) },
            ));
            assert forall|i: int, j: int|
                0 <= i < m.len() && 0 <= j < m.len() && i != j implies (#[trigger] m[i]).output.id@
                != (#[trigger] m[j]).output.id@ by {
                assert(om[i].output.id@ != om[j].output.id@);
            }
            lemma_tasks_on_shutters_keep(self.tasks@, om, m);
        }
        feedback
    }
}

/// Pushes the effects of writing the coils `ws`; tells whether all had an address.
fn push_writes(out: &mut Vec<OutputEffect>, ws: &Vec<(u32, bool)>) -> (ok: bool)
    ensures
        final(out)@.map_values(|e: OutputEffect| e@) == old(out)@.map_values(
            |e: OutputEffect| e@,
        ) + write_effects(ws@),
        ok == writes_ok(ws@),
{
    let mut i: usize = 0;
    while i < ws.len()
        invariant
            i <= ws@.len(),
            forall|j: int| 0 <= j < i ==> (#[trigger] coil_address(ws@[j].0)) is Some,
            out@.map_values(|e: OutputEffect| e@) == old(out)@.map_values(|e: OutputEffect| e@)
                + write_effects(ws@.take(i as int)),
        decreases ws@.len() - i,
    {
        let (var, value) = ws[i];
        let ghost prev = out@;
        proof {
            lemma_write_effects_split(ws@, i as int);
        }
        match write_address(var) {
            Ok(address) => {
                out.push(OutputEffect::Write { address, value });
                assert(out@.map_values(|e: OutputEffect| e@) =~= prev.map_values(
                    |e: OutputEffect| e@,
                ).push(OutputEffectView::Write { address, value }));
            },
            Err(_) => {
                out.push(OutputEffect::AddressError { var });
                proof {
                    assert(out@.map_values(|e: OutputEffect| e@) =~= prev.map_values(
                        |e: OutputEffect| e@,
                    ).push(OutputEffectView::AddressError { var }));
                    assert(!writes_ok(ws@));
                }
                return false;
            },
        }
        i = i + 1;
    }
    proof {
        assert(ws@.take(i as int) =~= ws@);
    }
    true
}

proof fn lemma_write_effects_split(ws: Seq<(u32, bool)>, i: int)
    requires
        0 <= i < ws.len(),
        forall|j: int| 0 <= j < i ==> (#[trigger] coil_address(ws[j].0)) is Some,
    ensures
        write_effects(ws.take(i + 1)) == write_effects(ws.take(i)) + match coil_address(ws[i].0) {
            Some(a) => seq![OutputEffectView::Write { address: a, value: ws[i].1 }],
            None => seq![OutputEffectView::AddressError { var: ws[i].0 }],
        },
        write_effects(ws) == write_effects(ws.take(i)) + write_effects(ws.skip(i)),
    decreases i,
{
    if i == 0 {
        assert(ws.take(1).drop_first() =~= Seq::<(u32, bool)>::empty());
        assert(ws.take(0) =~= Seq::<(u32, bool)>::empty());
        assert(ws.skip(0) =~= ws);
    } else {
        let t = ws.drop_first();
        assert forall|j: int| 0 <= j < i - 1 implies (#[trigger] coil_address(t[j].0)) is Some by {
            assert(t[j] == ws[j + 1]);
            assert(coil_address(ws[j + 1].0) is Some);
        }
        lemma_write_effects_split(t, i - 1);
        assert(coil_address(ws[0].0) is Some);
        assert(ws.take(i + 1).drop_first() =~= t.take(i));
        assert(ws.take(i).drop_first() =~= t.take(i - 1));
        assert(t.skip(i - 1) =~= ws.skip(i));
        assert(t[i - 1] == ws[i]);
    }
}

/// The coil writes that a plan makes on an output of kind `kind`.
pub open spec fn command_writes(kind: OutputKind, p: Plan) -> Seq<(u32, bool)> {
    match (kind, p) {
        (OutputKind::WODigital(io), Plan::Digital(b)) => seq![(io.var, b)],
        (OutputKind::WOShutter(io), Plan::Move(t)) => move_writes(io, t),
        (OutputKind::WOShutter(io), Plan::Stop) => stop_writes(io),
        _ => Seq::empty(),
    }
}

/// The value that an output takes when a plan is carried out.
pub open spec fn command_value(p: Plan) -> Option<IOValue> {
    match p {
        Plan::Digital(b) => Some(IOValue::Bool(b)),
        Plan::Move(t) => Some(IOValue::Shutter(t)),
        _ => None,
    }
}

/// The travel time of a shutter, in milliseconds.
pub open spec fn travel_ms(kind: OutputKind) -> u64 {
    match kind {
        OutputKind::WOShutter(io) => if io.time * 1000 <= u64::MAX {
            (io.time * 1000) as u64
        } else {
            u64::MAX
        },
        _ => 0,
    }
}

pub open spec fn value_view(v: Option<IOValue>) -> Option<IOValueView> {
    match v {
        Some(x) => Some(x@),
        None => None,
    }
}

/// Sets the task of `id`, replacing a task of the same output.
fn set_task(tasks: &mut Vec<ShutterTask>, id: String, task: Task)
    requires
        tasks_distinct(old(tasks)@),
    ensures
        tasks_distinct(final(tasks)@),
        final(tasks)@.map_values(|x: ShutterTask| (x.id@, x.task)) == tasks_with(
            old(tasks)@,
            id@,
            task,
        ),
{
    let ghost old_ts = tasks@;
    let mut i: usize = 0;
    while i < tasks.len()
        invariant
            tasks@ == old_ts,
            old_ts == old(tasks)@,
            tasks_distinct(old_ts),
            i <= tasks@.len(),
            forall|j: int| 0 <= j < i ==> (#[trigger] tasks@[j]).id@ != id@,
        decreases tasks@.len() - i,
    {
        if str_eq(tasks[i].id.as_str(), id.as_str()) {
            let ghost w = i as int;
            tasks.set(i, ShutterTask { id, task });
            proof {
                let ts = tasks@;
                assert(exists|j: int| 0 <= j < old_ts.len() && (#[trigger] old_ts[j]).id@ == id@) by {
                    assert(old_ts[w].id@ == id@);
                }
                assert forall|a: int, b: int|
                    0 <= a < ts.len() && 0 <= b < ts.len() && a != b implies (#[trigger] ts[a]).id@
                    != (#[trigger] ts[b]).id@ by {
                    assert(old_ts[a].id@ != old_ts[b].id@);
                }
                let mv = ts.map_values(|x: ShutterTask| (x.id@, x.task));
                let want = tasks_with(old_ts, id@, task);
                assert(want == old_ts.map_values(
                    |x: ShutterTask| (x.id@, if x.id@ == id@ { task } else { x.task }),
                ));
                assert(mv.len() == want.len());
                assert forall|j: int| 0 <= j < ts.len() implies #[trigger] mv[j] == want[j] by {
                    if j != w {
                        assert(old_ts[j].id@ != old_ts[w].id@);
                        assert(ts[j] == old_ts[j]);
                    } else {
                        assert(ts[j].id@ == id@);
                        assert(ts[j].task == task);
                    }
                }
                assert(mv =~= want);
            }
            return;
        }
        i = i + 1;
    }
    tasks.push(ShutterTask { id, task });
    proof {
        let ts = tasks@;
        assert(!exists|j: int| 0 <= j < old_ts.len() && (#[trigger] old_ts[j]).id@ == id@);
        assert forall|a: int, b: int|
            0 <= a < ts.len() && 0 <= b < ts.len() && a != b implies (#[trigger] ts[a]).id@ != (
            #[trigger] ts[b]).id@ by {
            if a < old_ts.len() && b < old_ts.len() {
                assert(old_ts[a].id@ != old_ts[b].id@);
            } else if a < old_ts.len() {
                assert(ts[a] == old_ts[a]);
            } else {
                assert(ts[b] == old_ts[b]);
            }
        }
        assert(ts.map_values(|x: ShutterTask| (x.id@, x.task)) =~= tasks_with(old_ts, id@, task));
    }
}

impl<'a> WagoOutputController<'a> {
    /// Handles a command for one of the outputs at time `now`: digital
    /// outputs take a boolean; a shutter goes up or down, or stops; a toggle
    /// needs a known value that can be toggled; a shutter already in the
    /// asked state is left alone; unknown IDs and values that the output
    /// cannot take are ignored. The output's new value is reported once its
    /// coils are written, and a moving shutter gets a task that stops it
    /// after its travel time.
    pub fn handle_command(&mut self, cmd: IODataAction, now: u64) -> (r: Vec<OutputEffect>)
        requires
            old(self).wf(),
        ensures
            final(self).wf(),
            match output_index(old(self).outputs.entries@, cmd.id@) {
                None => {
                    &&& r@.len() == 0
                    &&& final(self).outputs == old(self).outputs
                    &&& final(self).task_view() == old(self).task_view()
                },
                Some(k) => {
                    let ctx = old(self).outputs.entries@[k];
                    let p = plan(ctx.output.kind, value_view(ctx.value), cmd.action@);
                    let ws = command_writes(ctx.output.kind, p);
                    let done = writes_ok(ws) && command_value(p) is Some;
                    &&& r@.map_values(|e: OutputEffect| e@) == write_effects(ws) + if done {
                        seq![
                            OutputEffectView::Feedback(
                                IODataView { id: ctx.output.id@, value: command_value(p)->0@ },
                            ),
                        ]
                    } else {
                        Seq::empty()
                    }
                    &&& final(self).outputs.entries@ == if done {
                        old(self).outputs.entries@.update(
                            k,
                            OutputSharedContext { output: ctx.output, value: command_value(p) },
                        )
                    } else {
                        old(self).outputs.entries@
                    }
                    &&& final(self).task_view() == if writes_ok(ws) && p is Move {
                        tasks_with(
                            old(self).tasks@,
                            ctx.output.id@,
                            Task {
                                deadline: crate::task::saturating_sum(now, travel_ms(ctx.output.kind)),
                                target_state: command_value(p)->0,
                            },
                        )
                    } else {
                        old(self).task_view()
                    }
                },
            },
    {
        let mut out: Vec<OutputEffect> = Vec::new();
        let k = match self.outputs.find(cmd.id.as_str()) {
            Some(k) => k,
            None => return out,
        };
        let ghost ctx = self.outputs.entries@[k as int];
        let new_value: Option<IOValue> = match cmd.action {
            IOAction::SetValue(v) => Some(v),
            IOAction::Toggle => match &self.outputs.entries[k].value {
                None => return out,
                Some(c) => match toggle(c) {
                    Some(t) => Some(t),
                    None => return out,
                },
            },
            IOAction::Stop => None,
        };
        assert(requested_value(value_view(ctx.value), cmd.action@) == Some(value_view(new_value)));
        let output = self.outputs.entries[k].output;
        match &output.kind {
            OutputKind::WODigital(io) => match new_value {
                Some(IOValue::Bool(b)) => {
                    let mut ws: Vec<(u32, bool)> = Vec::new();
                    ws.push((io.var, b));
                    assert(ws@ =~= seq![(io.var, b)]);
                    if push_writes(&mut out, &ws) {
                        let ghost prev = out@;
                        let fb = self.record_value(k, IOValue::Bool(b));
                        out.push(OutputEffect::Feedback(fb));
                        assert(out@.map_values(|e: OutputEffect| e@) =~= prev.map_values(
                            |e: OutputEffect| e@,
                        ).push(OutputEffectView::Feedback(fb@)));
                    }
                    proof {
                        assert(Seq::<OutputEffect>::empty().map_values(|e: OutputEffect| e@)
                            =~= Seq::<OutputEffectView>::empty());
                    }
                },
                _ => {},
            },
            OutputKind::WOShutter(io) => {
                let same = match (&self.outputs.entries[k].value, &new_value) {
                    (Some(c), Some(n)) => c.same_as(n),
                    _ => false,
                };
                if same {
                    return out;
                }
                match new_value {
                    Some(IOValue::Shutter(ShutterState::Up)) => {
                        self.move_shutter(&mut out, k, io, ShutterState::Up, now);
                    },
                    Some(IOValue::Shutter(ShutterState::Down)) => {
                        self.move_shutter(&mut out, k, io, ShutterState::Down, now);
                    },
                    None => {
                        let mut ws: Vec<(u32, bool)> = Vec::new();
                        ws.push((io.var_down, false));
                        ws.push((io.var_up, false));
                        assert(ws@ =~= stop_writes(*io));
                        push_writes(&mut out, &ws);
                        proof {
                            assert(Seq::<OutputEffect>::empty().map_values(|e: OutputEffect| e@)
                                =~= Seq::<OutputEffectView>::empty());
                        }
                    },
                    _ => {},
                }
            },
            _ => {},
        }
        out
    }

    fn move_shutter(
        &mut self,
        out: &mut Vec<OutputEffect>,
        k: usize,
        io: &WagoIOUpDown,
        target: ShutterState,
        now: u64,
    )
        requires
            old(self).wf(),
            k < old(self).outputs.entries@.len(),
            old(self).outputs.entries@[k as int].output.kind == OutputKind::WOShutter(*io),
            target == ShutterState::Up || target == ShutterState::Down,
            old(out)@.len() == 0,
        ensures
            final(self).wf(),
            final(out)@.map_values(|e: OutputEffect| e@) == write_effects(move_writes(*io, target))
                + if writes_ok(move_writes(*io, target)) {
                seq![
                    OutputEffectView::Feedback(
                        IODataView {
                            id: old(self).outputs.entries@[k as int].output.id@,
                            value: IOValueView::Shutter(target),
                        },
                    ),
                ]
            } else {
                Seq::empty()
            },
            final(self).outputs.entries@ == if writes_ok(move_writes(*io, target)) {
                old(self).outputs.entries@.update(
                    k as int,
                    OutputSharedContext {
                        output: old(self).outputs.entries@[k as int].output,
                        value: Some(IOValue::Shutter(target)),
                    },
                )
            } else {
                old(self).outputs.entries@
            },
            final(self).task_view() == if writes_ok(move_writes(*io, target)) {
                tasks_with(
                    old(self).tasks@,
                    old(self).outputs.entries@[k as int].output.id@,
                    Task {
                        deadline: crate::task::saturating_sum(
                            now,
                            travel_ms(old(self).outputs.entries@[k as int].output.kind),
                        ),
                        target_state: IOValue::Shutter(target),
                    },
                )
            } else {
                old(self).task_view()
            },
    {
        let (on, off) = if target == ShutterState::Up {
            (io.var_up, io.var_down)
        } else {
            (io.var_down, io.var_up)
        };
        let mut ws: Vec<(u32, bool)> = Vec::new();
        ws.push((off, false));
        ws.push((on, false));
        ws.push((on, true));
        assert(ws@ =~= move_writes(*io, target));
        proof {
            assert(old(out)@.map_values(|e: OutputEffect| e@) =~= Seq::<OutputEffectView>::empty());
        }
        if push_writes(out, &ws) {
            let id = self.outputs.entries[k].output.id.clone();
            let travel: u64 = if io.time <= u64::MAX / 1000 {
                io.time * 1000
            } else {
                u64::MAX
            };
            let ghost old_tasks = self.tasks@;
            let ghost kid = self.outputs.entries@[k as int].output.id@;
            let task = Task::from_now(now, travel, IOValue::Shutter(target));
            let ghost gtask = task;
            set_task(&mut self.tasks, id, task);
            proof {
                let ws2 = move_writes(*io, target);
                assert(coil_address(ws2[0].0) is Some && coil_address(ws2[2].0) is Some);
                assert(shutter_id_ok(kid, self.outputs.entries@)) by {
                    assert(self.outputs.entries@[k as int].output.id@ == kid);
                }
                lemma_tasks_with_ok(old_tasks, self.tasks@, self.outputs.entries@, kid, gtask);
            }
            let ghost prev = out@;
            let fb = self.record_value(k, IOValue::Shutter(target));
            out.push(OutputEffect::Feedback(fb));
            assert(out@.map_values(|e: OutputEffect| e@) =~= prev.map_values(|e: OutputEffect| e@).push(
                OutputEffectView::Feedback(fb@),
            ));
        }
    }
}

/// The writes that stop the shutters whose task is due at `now`, in the
/// order of the tasks.
pub open spec fn expiry_writes(
    ts: Seq<ShutterTask>,
    outputs: Seq<OutputSharedContext>,
    now: u64,
) -> Seq<(u32, bool)>
    decreases ts.len(),
{
    if ts.len() == 0 {
        Seq::empty()
    } else {
        let t = ts.last();
        expiry_writes(ts.drop_last(), outputs, now) + if t.task.deadline <= now {
            match output_index(outputs, t.id@) {
                Some(k) => match outputs[k].output.kind {
                    OutputKind::WOShutter(io) => stop_writes(io),
                    _ => Seq::empty(),
                },
                None => Seq::empty(),
            }
        } else {
            Seq::empty()
        }
    }
}

/// The tasks that are not due at `now`, in order.
pub open spec fn pending(ts: Seq<ShutterTask>, now: u64) -> Seq<ShutterTask>
    decreases ts.len(),
{
    if ts.len() == 0 {
        Seq::empty()
    } else {
        pending(ts.drop_last(), now) + if ts.last().task.deadline > now {
            seq![ts.last()]
        } else {
            Seq::empty()
        }
    }
}

proof fn lemma_pending_distinct(ts: Seq<ShutterTask>, now: u64)
    requires
        tasks_distinct(ts),
    ensures
        tasks_distinct(pending(ts, now)),
        forall|i: int|
            0 <= i < pending(ts, now).len() ==> exists|j: int|
                0 <= j < ts.len() && #[trigger] pending(ts, now)[i] == ts[j],
    decreases ts.len(),
{
    if ts.len() > 0 {
        let p = ts.drop_last();
        assert forall|a: int, b: int|
            0 <= a < p.len() && 0 <= b < p.len() && a != b implies (#[trigger] p[a]).id@ != (
            #[trigger] p[b]).id@ by {
            assert(ts[a].id@ != ts[b].id@);
        }
        lemma_pending_distinct(p, now);
        let q = pending(ts, now);
        let pp = pending(p, now);
        assert forall|i: int| 0 <= i < q.len() implies exists|j: int|
            0 <= j < ts.len() && #[trigger] q[i] == ts[j] by {
            if i < pp.len() {
                let j = choose|j: int| 0 <= j < p.len() && #[trigger] pp[i] == p[j];
                assert(q[i] == ts[j]);
            } else {
                assert(q[i] == ts[ts.len() - 1]);
            }
        }
        assert forall|a: int, b: int|
            0 <= a < q.len() && 0 <= b < q.len() && a != b implies (#[trigger] q[a]).id@ != (
            #[trigger] q[b]).id@ by {
            let ja = choose|j: int| 0 <= j < ts.len() && #[trigger] q[a] == ts[j];
            let jb = choose|j: int| 0 <= j < ts.len() && #[trigger] q[b] == ts[j];
            if a < pp.len() && b < pp.len() {
            } else if a < pp.len() {
                let j = choose|j: int| 0 <= j < p.len() && #[trigger] pp[a] == p[j];
                assert(ts[j].id@ != ts[ts.len() - 1].id@);
            } else if b < pp.len() {
                let j = choose|j: int| 0 <= j < p.len() && #[trigger] pp[b] == p[j];
                assert(ts[j].id@ != ts[ts.len() - 1].id@);
            }
        }
    }
}

/// The tasks kept at `now` are exactly those not yet due: none of them is
/// due, and every task that is not due is kept.
pub proof fn lemma_pending_tasks(ts: Seq<ShutterTask>, now: u64)
    ensures
        forall|i: int| 0 <= i < pending(ts, now).len() ==> (#[trigger] pending(ts, now)[i]).task.deadline > now,
        forall|j: int| 0 <= j < ts.len() && (#[trigger] ts[j]).task.deadline > now ==> pending(ts, now).contains(ts[j]),
        forall|x: ShutterTask| #[trigger] pending(ts, now).contains(x) ==> ts.contains(x),
    decreases ts.len(),
{
    if ts.len() > 0 {
        let p = ts.drop_last();
        lemma_pending_tasks(p, now);
        let q = pending(ts, now);
        let pp = pending(p, now);
        let tail = if ts.last().task.deadline > now { seq![ts.last()] } else { Seq::<ShutterTask>::empty() };
        assert(q == pp + tail);
        assert forall|i: int| 0 <= i < q.len() implies (#[trigger] q[i]).task.deadline > now by {
            if i < pp.len() {
                assert(q[i] == pp[i]);
            }
        }
        assert forall|j: int| 0 <= j < ts.len() && (#[trigger] ts[j]).task.deadline > now implies q.contains(ts[j]) by {
            if j < p.len() {
                assert(p[j] == ts[j]);
                let k = choose|k: int| 0 <= k < pp.len() && pp[k] == p[j];
                assert(q[k] == pp[k]);
            } else {
                assert(q[pp.len() as int] == ts[j]);
            }
        }
        assert forall|x: ShutterTask| q.contains(x) implies ts.contains(x) by {
            let k = choose|k: int| 0 <= k < q.len() && q[k] == x;
            if k < pp.len() {
                assert(pp[k] == x);
                assert(pp.contains(x));
                let m = choose|m: int| 0 <= m < p.len() && p[m] == x;
                assert(ts[m] == x);
            } else {
                assert(ts[ts.len() - 1] == x);
            }
        }
    }
}

impl<'a> WagoOutputController<'a> {
    /// Stops the shutters whose task is due at `now` and drops those tasks.
    /// When a variable has no coil address the effects end with the error
    /// and the tasks are kept.
    pub fn expire_tasks(&mut self, now: u64) -> (r: Vec<OutputEffect>)
        requires
            old(self).wf(),
        ensures
            final(self).wf(),
            final(self).outputs == old(self).outputs,
            r@.map_values(|e: OutputEffect| e@) == write_effects(
                expiry_writes(old(self).tasks@, old(self).outputs.entries@, now),
            ),
            writes_ok(expiry_writes(old(self).tasks@, old(self).outputs.entries@, now)),
            final(self).tasks@ == pending(old(self).tasks@, now),
    {
        let ghost ts = self.tasks@;
        let ghost om = self.outputs.entries@;
        proof {
            lemma_expiry_writes_ok(ts, om, now);
        }
        let mut ws: Vec<(u32, bool)> = Vec::new();
        let mut i: usize = 0;
        while i < self.tasks.len()
            invariant
                self.wf(),
                self.tasks@ == ts,
                self.outputs == old(self).outputs,
                self.outputs.entries@ == om,
                i <= ts.len(),
                ws@ == expiry_writes(ts.take(i as int), om, now),
            decreases ts.len() - i,
        {
            proof {
                assert(ts.take(i + 1).drop_last() =~= ts.take(i as int));
            }
            let t = &self.tasks[i];
            if t.task.deadline <= now {
                match self.outputs.find(t.id.as_str()) {
                    Some(k) => match &self.outputs.entries[k].output.kind {
                        OutputKind::WOShutter(io) => {
                            ws.push((io.var_down, false));
                            ws.push((io.var_up, false));
                        },
                        _ => {},
                    },
                    None => {},
                }
            }
            assert(ws@ =~= expiry_writes(ts.take(i + 1), om, now));
            i = i + 1;
        }
        assert(ts.take(i as int) =~= ts);
        let mut out: Vec<OutputEffect> = Vec::new();
        let ok = push_writes(&mut out, &ws);
        assert(out@.map_values(|e: OutputEffect| e@) =~= write_effects(ws@));
        if !ok {
            return out;
        }
        let mut j: usize = 0;
        let ghost mut done: int = 0;
        while j < self.tasks.len()
            invariant
                self.outputs.entries@ == om,
                self.outputs == old(self).outputs,
                self.outputs.wf(),
                0 <= done <= ts.len(),
                j <= self.tasks@.len(),
                self.tasks@ == pending(ts.take(done), now) + ts.skip(done),
                j == pending(ts.take(done), now).len(),
            decreases ts.len() - done,
        {
            proof {
                assert(ts.skip(done)[0] == ts[done]);
                assert(ts.take(done + 1).drop_last() =~= ts.take(done));
                assert(ts.take(done + 1).last() == ts[done]);
            }
            if self.tasks[j].task.deadline <= now {
                self.tasks.remove(j);
                proof {
                    assert(self.tasks@ =~= pending(ts.take(done + 1), now) + ts.skip(done + 1));
                }
            } else {
                proof {
                    assert(self.tasks@ =~= pending(ts.take(done + 1), now) + ts.skip(done + 1));
                }
                j = j + 1;
            }
            proof {
                done = done + 1;
            }
        }
        proof {
            assert(ts.skip(done).len() == 0);
            assert(ts.take(done) =~= ts);
            assert(self.tasks@ =~= pending(ts, now));
            lemma_pending_distinct(ts, now);
            lemma_pending_tasks(ts, now);
            assert forall|a: int| 0 <= a < self.tasks@.len() implies shutter_id_ok((#[trigger] self.tasks@[a]).id@, om) by {
                assert(pending(ts, now).contains(self.tasks@[a]));
                let b = choose|b: int| 0 <= b < ts.len() && ts[b] == self.tasks@[a];
                assert(shutter_id_ok(ts[b].id@, om));
            }
        }
        out
    }

    /// The earliest deadline of the pending tasks.
    pub fn next_deadline(&self) -> (r: Option<u64>)
        ensures
            match r {
                Some(d) => (exists|i: int|
                    0 <= i < self.tasks@.len() && (#[trigger] self.tasks@[i]).task.deadline == d)
                    && forall|i: int|
                    0 <= i < self.tasks@.len() ==> d <= (#[trigger] self.tasks@[i]).task.deadline,
                None => self.tasks@.len() == 0,
            },
    {
        if self.tasks.len() == 0 {
            return None;
        }
        let mut best = self.tasks[0].task.deadline;
        let mut i: usize = 1;
        while i < self.tasks.len()
            invariant
                1 <= i <= self.tasks@.len(),
                exists|k: int| 0 <= k < i && (#[trigger] self.tasks@[k]).task.deadline == best,
                forall|k: int| 0 <= k < i ==> best <= (#[trigger] self.tasks@[k]).task.deadline,
            decreases self.tasks@.len() - i,
        {
            if self.tasks[i].task.deadline < best {
                best = self.tasks[i].task.deadline;
            }
            i = i + 1;
        }
        Some(best)
    }
}

/// A step of the start of a controller, done in order; the application
/// stops at the first error.
#[derive(Debug)]
pub enum InitStep {
    /// Read the discrete input at `address` and record the digital output
    /// at `index` with the boolean read.
    ReadDigital { index: usize, address: u16 },
    /// Carry out `effects`, then record `value` for the output at `index`.
    Reset { index: usize, effects: Vec<OutputEffect>, value: IOValue },
    /// The variable has no 16-bit address.
    AddressError { var: u32 },
}

pub enum InitStepView {
    ReadDigital { index: int, address: u16 },
    Reset { index: int, effects: Seq<OutputEffectView>, value: IOValueView },
    AddressError { var: u32 },
}

impl View for InitStep {
    type V = InitStepView;

    open spec fn view(&self) -> InitStepView {
        match self {
            InitStep::ReadDigital { index, address } => InitStepView::ReadDigital {
                index: *index as int,
                address: *address,
            },
            InitStep::Reset { index, effects, value } => InitStepView::Reset {
                index: *index as int,
                effects: effects@.map_values(|e: OutputEffect| e@),
                value: value@,
            },
            InitStep::AddressError { var } => InitStepView::AddressError { var: *var },
        }
    }
}

/// The start of an output: a digital output is read back; a shutter, whose
/// position cannot be read, is stopped and taken as up.
pub open spec fn init_step(e: OutputSharedContext, index: int) -> Seq<InitStepView> {
    match e.output.kind {
        OutputKind::WODigital(io) => match input_address(io.var) {
            Some(a) => seq![InitStepView::ReadDigital { index, address: a }],
            None => seq![InitStepView::AddressError { var: io.var }],
        },
        OutputKind::WOShutter(io) => seq![
            InitStepView::Reset {
                index,
                effects: write_effects(stop_writes(io)),
                value: IOValueView::Shutter(ShutterState::Up),
            },
        ],
        _ => Seq::empty(),
    }
}

/// The start steps of the first `n` outputs.
pub open spec fn init_plan(entries: Seq<OutputSharedContext>, n: nat) -> Seq<InitStepView>
    decreases n,
{
    if n == 0 {
        Seq::empty()
    } else {
        init_plan(entries, (n - 1) as nat) + init_step(entries[n - 1], n - 1)
    }
}

impl<'a> WagoOutputController<'a> {
    /// What to do when the controller starts, output after output.
    pub fn init_steps(&self) -> (r: Vec<InitStep>)
        ensures
            r@.map_values(|s: InitStep| s@) == init_plan(
                self.outputs.entries@,
                self.outputs.entries@.len(),
            ),
    {
        let mut res: Vec<InitStep> = Vec::new();
        let mut i: usize = 0;
        while i < self.outputs.entries.len()
            invariant
                i <= self.outputs.entries@.len(),
                res@.map_values(|s: InitStep| s@) == init_plan(self.outputs.entries@, i as nat),
            decreases self.outputs.entries@.len() - i,
        {
            let ghost prev = res@;
            match &self.outputs.entries[i].output.kind {
                OutputKind::WODigital(io) => {
                    match read_address(io.var) {
                        Ok(address) => res.push(InitStep::ReadDigital { index: i, address }),
                        Err(var) => res.push(InitStep::AddressError { var }),
                    }
                    assert(res@.map_values(|s: InitStep| s@) =~= prev.map_values(|s: InitStep| s@)
                        + init_step(self.outputs.entries@[i as int], i as int));
                },
                OutputKind::WOShutter(io) => {
                    let mut ws: Vec<(u32, bool)> = Vec::new();
                    ws.push((io.var_down, false));
                    ws.push((io.var_up, false));
                    assert(ws@ =~= stop_writes(*io));
                    let mut effects: Vec<OutputEffect> = Vec::new();
                    push_writes(&mut effects, &ws);
                    assert(effects@.map_values(|e: OutputEffect| e@) =~= write_effects(ws@));
                    res.push(
                        InitStep::Reset {
                            index: i,
                            effects,
                            value: IOValue::Shutter(ShutterState::Up),
                        },
                    );
                    assert(res@.map_values(|s: InitStep| s@) =~= prev.map_values(|s: InitStep| s@)
                        + init_step(self.outputs.entries@[i as int], i as int));
                },
                _ => {
                    assert(res@.map_values(|s: InitStep| s@) =~= prev.map_values(|s: InitStep| s@)
                        + init_step(self.outputs.entries@[i as int], i as int));
                },
            }
            i = i + 1;
        }
        res
    }
}

/// The coils after writing `ws` in order, starting from `s` (variable to
/// whether its coil is on).
pub open spec fn after_writes(s: Map<u32, bool>, ws: Seq<(u32, bool)>) -> Map<u32, bool>
    decreases ws.len(),
{
    if ws.len() == 0 {
        s
    } else {
        after_writes(s, ws.drop_last()).insert(ws.last().0, ws.last().1)
    }
}

/// Whether the coil of `var` is on.
pub open spec fn coil_on(s: Map<u32, bool>, var: u32) -> bool {
    s.contains_key(var) && s[var]
}

/// Whether both coils of a shutter, up and down, are on.
pub open spec fn both_on(s: Map<u32, bool>, io: WagoIOUpDown) -> bool {
    coil_on(s, io.var_up) && coil_on(s, io.var_down)
}

/// The two coils of the shutter are never on together while `ws` is
/// written from `s`, neither before nor after any write.
pub open spec fn exclusive_throughout(s: Map<u32, bool>, ws: Seq<(u32, bool)>, io: WagoIOUpDown) -> bool {
    forall|k: int| 0 <= k <= ws.len() ==> !both_on(#[trigger] after_writes(s, ws.take(k)), io)
}

/// A run of writes that keeps a shutter's coils apart: its own stop or
/// move writes, or writes to other coils only.
pub open spec fn shutter_safe(io: WagoIOUpDown, ws: Seq<(u32, bool)>) -> bool {
    ||| ws == stop_writes(io)
    ||| ws == move_writes(io, ShutterState::Up)
    ||| ws == move_writes(io, ShutterState::Down)
    ||| forall|i: int| 0 <= i < ws.len() ==> (#[trigger] ws[i]).0 != io.var_up && ws[i].0 != io.var_down
}

proof fn lemma_after_writes_concat(s: Map<u32, bool>, a: Seq<(u32, bool)>, b: Seq<(u32, bool)>)
    ensures
        after_writes(s, a + b) == after_writes(after_writes(s, a), b),
    decreases b.len(),
{
    if b.len() == 0 {
        assert(a + b =~= a);
    } else {
        assert((a + b).drop_last() =~= a + b.drop_last());
        assert((a + b).last() == b.last());
        lemma_after_writes_concat(s, a, b.drop_last());
    }
}

/// Two runs of writes that each keep a shutter's coils apart keep them
/// apart one after the other: so the steps of a controller compose into a
/// whole run.
pub proof fn lemma_exclusive_concat(s: Map<u32, bool>, a: Seq<(u32, bool)>, b: Seq<(u32, bool)>, io: WagoIOUpDown)
    requires
        exclusive_throughout(s, a, io),
        exclusive_throughout(after_writes(s, a), b, io),
    ensures
        exclusive_throughout(s, a + b, io),
{
    assert forall|k: int| 0 <= k <= (a + b).len() implies !both_on(#[trigger] after_writes(s, (a + b).take(k)), io) by {
        if k <= a.len() {
            assert((a + b).take(k) =~= a.take(k));
        } else {
            assert((a + b).take(k) =~= a + b.take(k - a.len()));
            lemma_after_writes_concat(s, a, b.take(k - a.len()));
            assert(a.take(a.len() as int) =~= a);
            assert(!both_on(after_writes(after_writes(s, a), b.take(k - a.len())), io));
        }
    }
}

proof fn lemma_other_coils(s: Map<u32, bool>, ws: Seq<(u32, bool)>, io: WagoIOUpDown)
    requires
        forall|i: int| 0 <= i < ws.len() ==> (#[trigger] ws[i]).0 != io.var_up && ws[i].0 != io.var_down,
    ensures
        coil_on(after_writes(s, ws), io.var_up) == coil_on(s, io.var_up),
        coil_on(after_writes(s, ws), io.var_down) == coil_on(s, io.var_down),
    decreases ws.len(),
{
    if ws.len() > 0 {
        let p = ws.drop_last();
        assert forall|i: int| 0 <= i < p.len() implies (#[trigger] p[i]).0 != io.var_up && p[i].0 != io.var_down by {
            assert(p[i] == ws[i]);
        }
        lemma_other_coils(s, p, io);
        assert(ws.last() == ws[ws.len() - 1]);
    }
}

proof fn lemma_safe_segment(s: Map<u32, bool>, ws: Seq<(u32, bool)>, io: WagoIOUpDown)
    requires
        io.var_up != io.var_down,
        !both_on(s, io),
        shutter_safe(io, ws),
    ensures
        exclusive_throughout(s, ws, io),
        !both_on(after_writes(s, ws), io),
{
    reveal_with_fuel(after_writes, 4);
    if ws == stop_writes(io) || ws == move_writes(io, ShutterState::Up) || ws == move_writes(io, ShutterState::Down) {
        assert(ws.len() <= 3);
        assert(ws.take(0) =~= Seq::<(u32, bool)>::empty());
        assert(ws.take(1) =~= seq![ws[0]]);
        assert(ws.take(1).drop_last() =~= Seq::<(u32, bool)>::empty());
        assert(ws.take(2) =~= seq![ws[0], ws[1]]);
        assert(ws.take(2).drop_last() =~= ws.take(1));
        if ws.len() == 3 {
            assert(ws.take(3) =~= ws);
            assert(ws.drop_last() =~= ws.take(2));
        } else {
            assert(ws.take(2) =~= ws);
        }
    } else {
        assert forall|k: int| 0 <= k <= ws.len() implies !both_on(#[trigger] after_writes(s, ws.take(k)), io) by {
            let t = ws.take(k);
            assert forall|i: int| 0 <= i < t.len() implies (#[trigger] t[i]).0 != io.var_up && t[i].0 != io.var_down by {
                assert(t[i] == ws[i]);
            }
            lemma_other_coils(s, t, io);
        }
        assert(ws.take(ws.len() as int) =~= ws);
    }
    assert(ws.take(ws.len() as int) =~= ws);
}

/// The coil writes of any command on a shutter keep its up and down coils
/// from being on together, before, during and after the writes, when they
/// were not on together before.
pub proof fn lemma_shutter_command_exclusive(io: WagoIOUpDown, p: Plan, s: Map<u32, bool>)
    requires
        io.var_up != io.var_down,
        !both_on(s, io),
    ensures
        shutter_safe(io, command_writes(OutputKind::WOShutter(io), p)),
        exclusive_throughout(s, command_writes(OutputKind::WOShutter(io), p), io),
{
    let ws = command_writes(OutputKind::WOShutter(io), p);
    match p {
        Plan::Move(t) => {
            if t != ShutterState::Up {
                assert(move_writes(io, t) =~= move_writes(io, ShutterState::Down));
            }
        },
        _ => {},
    }
    lemma_safe_segment(s, ws, io);
}

/// Over a whole run of writes made of runs that each keep a shutter's coils
/// apart (its own stop and move writes, writes to other coils), its up and
/// down coils are never on together, when they were not at the start.
pub proof fn lemma_run_exclusive(io: WagoIOUpDown, segs: Seq<Seq<(u32, bool)>>, s: Map<u32, bool>)
    requires
        io.var_up != io.var_down,
        !both_on(s, io),
        forall|i: int| 0 <= i < segs.len() ==> shutter_safe(io, #[trigger] segs[i]),
    ensures
        exclusive_throughout(s, segs.flatten(), io),
    decreases segs.len(),
{
    if segs.len() == 0 {
        assert(segs.flatten() =~= Seq::<(u32, bool)>::empty());
        assert(segs.flatten().take(0) =~= segs.flatten());
    } else {
        let first = segs[0];
        let rest = segs.drop_first();
        assert(segs.flatten() == first + rest.flatten());
        lemma_safe_segment(s, first, io);
        assert forall|i: int| 0 <= i < rest.len() implies shutter_safe(io, #[trigger] rest[i]) by {
            assert(rest[i] == segs[i + 1]);
        }
        lemma_run_exclusive(io, rest, after_writes(s, first));
        lemma_exclusive_concat(s, first, rest.flatten(), io);
    }
}

/// Once the deadline of a moving shutter's task has passed, expiry stops
/// it: the writes of the due tasks hold the shutter's stop writes, both
/// coils off, and its task is not kept.
pub proof fn lemma_due_task_stops(
    ts: Seq<ShutterTask>,
    outputs: Seq<OutputSharedContext>,
    now: u64,
    j: int,
    io: WagoIOUpDown,
)
    requires
        0 <= j < ts.len(),
        ts[j].task.deadline <= now,
        output_index(outputs, ts[j].id@) matches Some(k) && outputs[k].output.kind == OutputKind::WOShutter(io),
    ensures
        exists|a: int|
            0 <= a && a + 2 <= expiry_writes(ts, outputs, now).len() && (#[trigger] expiry_writes(ts, outputs, now).subrange(a, a + 2))
                == stop_writes(io),
        !pending(ts, now).contains(ts[j]),
    decreases ts.len(),
{
    lemma_pending_tasks(ts, now);
    let w = expiry_writes(ts, outputs, now);
    let p = ts.drop_last();
    let wp = expiry_writes(p, outputs, now);
    if j == ts.len() - 1 {
        let a = wp.len() as int;
        assert(w == wp + stop_writes(io));
        assert(w.subrange(a, a + 2) =~= stop_writes(io));
    } else {
        assert(p[j] == ts[j]);
        lemma_due_task_stops(p, outputs, now, j, io);
        let a = choose|a: int|
            0 <= a && a + 2 <= wp.len() && (#[trigger] wp.subrange(a, a + 2)) == stop_writes(io);
        let tail = if ts.last().task.deadline <= now {
            match output_index(outputs, ts.last().id@) {
                Some(k) => match outputs[k].output.kind {
                    OutputKind::WOShutter(io2) => stop_writes(io2),
                    _ => Seq::empty(),
                },
                None => Seq::empty(),
            }
        } else {
            Seq::empty()
        };
        assert(w == wp + tail);
        assert(w.subrange(a, a + 2) =~= wp.subrange(a, a + 2));
    }
    if pending(ts, now).contains(ts[j]) {
        let i = choose|i: int| 0 <= i < pending(ts, now).len() && pending(ts, now)[i] == ts[j];
        assert(pending(ts, now)[i].task.deadline > now);
    }
}

/// The effects of coil writes are writes, or an address error: never a
/// feedback. So the stop of an expired shutter reports no new value.
pub proof fn lemma_write_effects_report_nothing(ws: Seq<(u32, bool)>)
    ensures
        forall|i: int| 0 <= i < write_effects(ws).len() ==> !(#[trigger] write_effects(ws)[i] is Feedback),
    decreases ws.len(),
{
    if ws.len() > 0 {
        lemma_write_effects_report_nothing(ws.drop_first());
        let e = write_effects(ws);
        let r = write_effects(ws.drop_first());
        match coil_address(ws[0].0) {
            Some(a) => {
                assert forall|i: int| 0 <= i < e.len() implies !(#[trigger] e[i] is Feedback) by {
                    if i > 0 {
                        assert(e[i] == r[i - 1]);
                    }
                }
            },
            None => {},
        }
    }
}

/// The coil variables of an output.
pub open spec fn kind_vars(kind: OutputKind) -> Set<u32> {
    match kind {
        OutputKind::WODigital(w) => set![w.var],
        OutputKind::WOShutter(io) => set![io.var_up, io.var_down],
        _ => Set::empty(),
    }
}

/// The shutter at position `m` of `entries` is `io`, with two different
/// coil variables that no other output uses.
pub open spec fn own_coils(entries: Seq<OutputSharedContext>, m: int, io: WagoIOUpDown) -> bool {
    &&& 0 <= m < entries.len()
    &&& entries[m].output.kind == OutputKind::WOShutter(io)
    &&& io.var_up != io.var_down
    &&& forall|j: int|
        0 <= j < entries.len() && j != m ==> !(#[trigger] kind_vars(entries[j].output.kind)).contains(
            io.var_up,
        ) && !kind_vars(entries[j].output.kind).contains(io.var_down)
}

proof fn lemma_command_writes_vars(kind: OutputKind, p: Plan)
    ensures
        forall|i: int|
            0 <= i < command_writes(kind, p).len() ==> kind_vars(kind).contains(
                (#[trigger] command_writes(kind, p)[i]).0,
            ),
{
}

/// The writes of any command on any output keep the coils of a shutter
/// apart, when no other output uses its two coil variables.
proof fn lemma_output_writes_safe(entries: Seq<OutputSharedContext>, k: int, m: int, io: WagoIOUpDown, p: Plan)
    requires
        own_coils(entries, m, io),
        0 <= k < entries.len(),
    ensures
        shutter_safe(io, command_writes(entries[k].output.kind, p)),
{
    if k == m {
        lemma_shutter_command_exclusive(io, p, Map::empty());
    } else {
        let kind = entries[k].output.kind;
        let ws = command_writes(kind, p);
        lemma_command_writes_vars(kind, p);
        assert(!kind_vars(kind).contains(io.var_up) && !kind_vars(kind).contains(io.var_down));
        assert forall|i: int| 0 <= i < ws.len() implies (#[trigger] ws[i]).0 != io.var_up && ws[i].0 != io.var_down by {
            assert(kind_vars(kind).contains(ws[i].0));
        }
    }
}

/// When no other output uses a shutter's two coil variables, the coil
/// writes of any command that the controller handles keep its up and down
/// coils from being on together, before, during and after the writes.
pub proof fn lemma_controller_command_exclusive(
    entries: Seq<OutputSharedContext>,
    k: int,
    action: IOActionView,
    m: int,
    io: WagoIOUpDown,
    s: Map<u32, bool>,
)
    requires
        own_coils(entries, m, io),
        0 <= k < entries.len(),
        !both_on(s, io),
    ensures
        exclusive_throughout(
            s,
            command_writes(
                entries[k].output.kind,
                plan(entries[k].output.kind, value_view(entries[k].value), action),
            ),
            io,
        ),
        !both_on(
            after_writes(
                s,
                command_writes(
                    entries[k].output.kind,
                    plan(entries[k].output.kind, value_view(entries[k].value), action),
                ),
            ),
            io,
        ),
{
    let p = plan(entries[k].output.kind, value_view(entries[k].value), action);
    lemma_output_writes_safe(entries, k, m, io, p);
    lemma_safe_segment(s, command_writes(entries[k].output.kind, p), io);
}

/// When no other output uses a shutter's two coil variables, stopping the
/// shutters whose task is due keeps its up and down coils from being on
/// together, before, during and after the writes.
pub proof fn lemma_expiry_exclusive(
    ts: Seq<ShutterTask>,
    entries: Seq<OutputSharedContext>,
    now: u64,
    m: int,
    io: WagoIOUpDown,
    s: Map<u32, bool>,
)
    requires
        own_coils(entries, m, io),
        !both_on(s, io),
    ensures
        exclusive_throughout(s, expiry_writes(ts, entries, now), io),
        !both_on(after_writes(s, expiry_writes(ts, entries, now)), io),
    decreases ts.len(),
{
    let w = expiry_writes(ts, entries, now);
    if ts.len() == 0 {
        assert(w.take(0) =~= w);
    } else {
        let p = ts.drop_last();
        lemma_expiry_exclusive(p, entries, now, m, io, s);
        let wp = expiry_writes(p, entries, now);
        let t = ts.last();
        let tail = if t.task.deadline <= now {
            match output_index(entries, t.id@) {
                Some(k) => match entries[k].output.kind {
                    OutputKind::WOShutter(io2) => stop_writes(io2),
                    _ => Seq::empty(),
                },
                None => Seq::empty(),
            }
        } else {
            Seq::empty()
        };
        assert(w == wp + tail);
        if t.task.deadline <= now && output_index(entries, t.id@) is Some {
            let k = output_index(entries, t.id@)->0;
            match entries[k].output.kind {
                OutputKind::WOShutter(io2) => {
                    assert(stop_writes(io2) == command_writes(entries[k].output.kind, Plan::Stop));
                    lemma_output_writes_safe(entries, k, m, io, Plan::Stop);
                },
                _ => {},
            }
        }
        lemma_safe_segment(after_writes(s, wp), tail, io);
        lemma_exclusive_concat(s, wp, tail, io);
        lemma_after_writes_concat(s, wp, tail);
    }
}

/// The coil writes of the start of a controller, output after output: a
/// shutter is stopped, other outputs are only read.
pub open spec fn start_writes(entries: Seq<OutputSharedContext>, n: nat) -> Seq<(u32, bool)>
    decreases n,
{
    if n == 0 {
        Seq::empty()
    } else {
        start_writes(entries, (n - 1) as nat) + match entries[n - 1].output.kind {
            OutputKind::WOShutter(io2) => stop_writes(io2),
            _ => Seq::empty(),
        }
    }
}

/// The start writes are those of the start steps: the steps of a shutter
/// carry out its stop writes, the other steps write nothing.
pub proof fn lemma_start_steps_write(entries: Seq<OutputSharedContext>, i: int)
    requires
        0 <= i < entries.len(),
    ensures
        entries[i].output.kind matches OutputKind::WOShutter(io2) ==> init_step(entries[i], i)
            == seq![InitStepView::Reset {
                index: i,
                effects: write_effects(stop_writes(io2)),
                value: IOValueView::Shutter(ShutterState::Up),
            }],
        !(entries[i].output.kind is WOShutter) ==> forall|j: int|
            0 <= j < init_step(entries[i], i).len() ==> !(#[trigger] init_step(entries[i], i)[j] is Reset),
{
}

/// When no other output uses a shutter's two coil variables, the start of a
/// controller keeps its up and down coils from being on together.
pub proof fn lemma_start_exclusive(
    entries: Seq<OutputSharedContext>,
    n: nat,
    m: int,
    io: WagoIOUpDown,
    s: Map<u32, bool>,
)
    requires
        own_coils(entries, m, io),
        n <= entries.len(),
        !both_on(s, io),
    ensures
        exclusive_throughout(s, start_writes(entries, n), io),
        !both_on(after_writes(s, start_writes(entries, n)), io),
    decreases n,
{
    let w = start_writes(entries, n);
    if n == 0 {
        assert(w.take(0) =~= w);
    } else {
        lemma_start_exclusive(entries, (n - 1) as nat, m, io, s);
        let wp = start_writes(entries, (n - 1) as nat);
        let k = n - 1;
        let tail = match entries[k].output.kind {
            OutputKind::WOShutter(io2) => stop_writes(io2),
            _ => Seq::empty(),
        };
        match entries[k].output.kind {
            OutputKind::WOShutter(io2) => {
                assert(stop_writes(io2) == command_writes(entries[k].output.kind, Plan::Stop));
                lemma_output_writes_safe(entries, k, m, io, Plan::Stop);
            },
            _ => {},
        }
        lemma_safe_segment(after_writes(s, wp), tail, io);
        lemma_exclusive_concat(s, wp, tail, io);
        lemma_after_writes_concat(s, wp, tail);
    }
}

/// A move switches on the coil of its direction and only that one, after
/// switching the other one off: toward up it ends with the up coil on and
/// the down coil off, toward down the other way round, whatever the coils
/// were before; a stop leaves both off.
pub proof fn lemma_move_direction(io: WagoIOUpDown, s: Map<u32, bool>)
    requires
        io.var_up != io.var_down,
    ensures
        move_writes(io, ShutterState::Up).last() == (io.var_up, true),
        move_writes(io, ShutterState::Up)[0] == (io.var_down, false),
        move_writes(io, ShutterState::Down).last() == (io.var_down, true),
        move_writes(io, ShutterState::Down)[0] == (io.var_up, false),
        coil_on(after_writes(s, move_writes(io, ShutterState::Up)), io.var_up),
        !coil_on(after_writes(s, move_writes(io, ShutterState::Up)), io.var_down),
        coil_on(after_writes(s, move_writes(io, ShutterState::Down)), io.var_down),
        !coil_on(after_writes(s, move_writes(io, ShutterState::Down)), io.var_up),
        !coil_on(after_writes(s, stop_writes(io)), io.var_up),
        !coil_on(after_writes(s, stop_writes(io)), io.var_down),
{
    reveal_with_fuel(after_writes, 4);
    let u = move_writes(io, ShutterState::Up);
    let d = move_writes(io, ShutterState::Down);
    let st = stop_writes(io);
    assert(u.drop_last() =~= seq![(io.var_down, false), (io.var_up, false)]);
    assert(u.drop_last().drop_last() =~= seq![(io.var_down, false)]);
    assert(u.drop_last().drop_last().drop_last() =~= Seq::<(u32, bool)>::empty());
    assert(d.drop_last() =~= seq![(io.var_up, false), (io.var_down, false)]);
    assert(d.drop_last().drop_last() =~= seq![(io.var_up, false)]);
    assert(d.drop_last().drop_last().drop_last() =~= Seq::<(u32, bool)>::empty());
    assert(st.drop_last() =~= seq![(io.var_down, false)]);
    assert(st.drop_last().drop_last() =~= Seq::<(u32, bool)>::empty());
}

} // verus!
