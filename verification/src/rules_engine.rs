//! The rules engine: it records input values, evaluates the rules that read
//! a changed input and asks the outputs for the actions of the rules whose
//! conditions all hold; it records the values that outputs report back.

use vstd::prelude::*;

use crate::io_context::{
    input_index, input_value, inputs_distinct, output_index, output_value, outputs_distinct, IOData,
    IODataAction,
    IODataActionView, InputSharedContext, InputSharedContextMap, OutputSharedContext,
    OutputSharedContextMap,
};
use crate::io_value::{compare_values, IOAction, IOValue, IOValueView, ValueOrder, value_order};
use crate::rules_config::{Action, ConditionKind, Operator, Rule};

verus! {

/// Whether `current op operand` holds.
pub open spec fn operator_holds(op: Operator, current: IOValueView, operand: IOValueView) -> bool {
    let o = value_order(current, operand);
    match op {
        Operator::Equal => current == operand,
        Operator::NotEqual => current != operand,
        Operator::Greater => o == ValueOrder::Greater,
        Operator::GreaterOrEqual => o != ValueOrder::Less,
        Operator::Lower => o == ValueOrder::Less,
        Operator::LowerOrEqual => o != ValueOrder::Greater,
    }
}

/// A condition holds when it is a start condition, or when the input it
/// reads is known, has a value, and that value compares as asked.
pub open spec fn condition_holds(c: ConditionKind, inputs: Seq<InputSharedContext>) -> bool {
    match c {
        ConditionKind::Start => true,
        ConditionKind::Standard { input } => match input_value(inputs, input.id@) {
            Some(v) => operator_holds(input.operator, v, input.value@),
            None => false,
        },
    }
}

/// All conditions hold (no condition at all holds too).
pub open spec fn conditions_hold(cs: Seq<ConditionKind>, inputs: Seq<InputSharedContext>) -> bool {
    forall|i: int| 0 <= i < cs.len() ==> condition_holds(#[trigger] cs[i], inputs)
}

/// The requests that actions send: one per action whose output has a
/// known value, in order.
pub open spec fn action_requests(
    actions: Seq<Action>,
    outputs: Seq<OutputSharedContext>,
) -> Seq<IODataActionView>
    decreases actions.len(),
{
    if actions.len() == 0 {
        Seq::empty()
    } else {
        let a = actions.last();
        action_requests(actions.drop_last(), outputs) + if output_value(
            outputs,
            a.output.id@,
        ) is Some {
            seq![IODataActionView { id: a.output.id@, action: a.output.val@ }]
        } else {
            Seq::empty()
        }
    }
}

/// The requests that a list of rules sends, rule after rule: the action
/// requests of each rule whose conditions all hold.
pub open spec fn rules_requests(
    rules: Seq<Rule>,
    inputs: Seq<InputSharedContext>,
    outputs: Seq<OutputSharedContext>,
) -> Seq<IODataActionView>
    decreases rules.len(),
{
    if rules.len() == 0 {
        Seq::empty()
    } else {
        let r = rules.last();
        rules_requests(rules.drop_last(), inputs, outputs) + if conditions_hold(
            r.conditions@,
            inputs,
        ) {
            action_requests(r.actions@, outputs)
        } else {
            Seq::empty()
        }
    }
}

/// Whether `current op operand` holds.
pub fn eval_operator(op: Operator, current: &IOValue, operand: &IOValue) -> (r: bool)
    ensures
        r == operator_holds(op, current@, operand@),
{
    let o = compare_values(current, operand);
    proof {
        crate::io_value::lemma_value_order_laws(current@, operand@);
    }
    match op {
        Operator::Equal => current.same_as(operand),
        Operator::NotEqual => !current.same_as(operand),
        Operator::Greater => o == ValueOrder::Greater,
        Operator::GreaterOrEqual => o != ValueOrder::Less,
        Operator::Lower => o == ValueOrder::Less,
        Operator::LowerOrEqual => o != ValueOrder::Greater,
    }
}

/// Whether all conditions hold against the current input values.
pub fn should_exec(conditions: &Vec<ConditionKind>, input_map: &InputSharedContextMap) -> (r:
    bool)
    requires
        input_map.wf(),
    ensures
        r == conditions_hold(conditions@, input_map.entries@),
{
    let mut i: usize = 0;
    while i < conditions.len()
        invariant
            input_map.wf(),
            i <= conditions@.len(),
            forall|j: int| 0 <= j < i ==> condition_holds(#[trigger] conditions@[j], input_map.entries@),
        decreases conditions@.len() - i,
    {
        match &conditions[i] {
            ConditionKind::Start => {},
            ConditionKind::Standard { input } => {
                match input_map.find(input.id.as_str()) {
                    None => {
                        assert(!condition_holds(conditions@[i as int], input_map.entries@));
                        return false;
                    },
                    Some(k) => {
                        match &input_map.entries[k].value {
                            None => {
                                assert(!condition_holds(conditions@[i as int], input_map.entries@));
                                return false;
                            },
                            Some(value) => {
                                if !eval_operator(input.operator, value, &input.value) {
                                    assert(!condition_holds(
                                        conditions@[i as int],
                                        input_map.entries@,
                                    ));
                                    return false;
                                }
                            },
                        }
                    },
                }
            },
        }
        i = i + 1;
    }
    true
}

/// The latest value of the output `id`, if it is known.
pub fn get_ref_value(id: &str, output_map: &OutputSharedContextMap) -> (r: Option<IOValue>)
    requires
        output_map.wf(),
    ensures
        match r {
            Some(v) => output_value(output_map.entries@, id@) == Some(v@),
            None => output_value(output_map.entries@, id@) is None,
        },
{
    match output_map.find(id) {
        Some(k) => match &output_map.entries[k].value {
            Some(v) => Some(v.clone()),
            None => None,
        },
        None => None,
    }
}

/// The request that an action sends: none while the value of its output is
/// not known.
pub fn exec_action(action: &Action, output_map: &OutputSharedContextMap) -> (r: Option<
    IODataAction,
>)
    requires
        output_map.wf(),
    ensures
        match r {
            Some(a) => output_value(output_map.entries@, action.output.id@) is Some && a@
                == (IODataActionView { id: action.output.id@, action: action.output.val@ }),
            None => output_value(output_map.entries@, action.output.id@) is None,
        },
{
    let ref_value = get_ref_value(action.output.id.as_str(), output_map);
    if ref_value.is_none() {
        return None;
    }
    Some(IODataAction::new(action.output.id.clone(), action.output.val.clone()))
}

fn push_action_requests(
    out: &mut Vec<IODataAction>,
    actions: &Vec<Action>,
    output_map: &OutputSharedContextMap,
)
    requires
        output_map.wf(),
    ensures
        final(out)@.map_values(|a: IODataAction| a@) == old(out)@.map_values(
            |a: IODataAction| a@,
        ) + action_requests(actions@, output_map.entries@),
{
    let mut i: usize = 0;
    while i < actions.len()
        invariant
            output_map.wf(),
            i <= actions@.len(),
            out@.map_values(|a: IODataAction| a@) == old(out)@.map_values(|a: IODataAction| a@)
                + action_requests(actions@.take(i as int), output_map.entries@),
        decreases actions@.len() - i,
    {
        let ghost prev = out@;
        proof {
            assert(actions@.take(i + 1).drop_last() =~= actions@.take(i as int));
        }
        if let Some(req) = exec_action(&actions[i], output_map) {
            out.push(req);
            assert(out@.map_values(|a: IODataAction| a@) =~= prev.map_values(
                |a: IODataAction| a@,
            ).push(req@));
        }
        i = i + 1;
    }
    assert(actions@.take(i as int) =~= actions@);
}

/// The requests that the rules send, given the current input and output values.
pub fn rules_actions(
    rules: &Vec<&Rule>,
    input_map: &InputSharedContextMap,
    output_map: &OutputSharedContextMap,
) -> (r: Vec<IODataAction>)
    requires
        input_map.wf(),
        output_map.wf(),
    ensures
        r@.map_values(|a: IODataAction| a@) == rules_requests(
            rules@.map_values(|x: &Rule| *x),
            input_map.entries@,
            output_map.entries@,
        ),
{
    let ghost rs = rules@.map_values(|x: &Rule| *x);
    let mut out: Vec<IODataAction> = Vec::new();
    let mut i: usize = 0;
    while i < rules.len()
        invariant
            input_map.wf(),
            output_map.wf(),
            rs == rules@.map_values(|x: &Rule| *x),
            i <= rules@.len(),
            out@.map_values(|a: IODataAction| a@) == rules_requests(
                rs.take(i as int),
                input_map.entries@,
                output_map.entries@,
            ),
        decreases rules@.len() - i,
    {
        let rule = rules[i];
        proof {
            assert(rs.take(i + 1).drop_last() =~= rs.take(i as int));
            assert(rs.take(i + 1).last() == *rule);
        }
        if should_exec(&rule.conditions, input_map) {
            push_action_requests(&mut out, &rule.actions, output_map);
        } else {
            assert(out@.map_values(|a: IODataAction| a@) =~= rules_requests(
                rs.take(i + 1),
                input_map.entries@,
                output_map.entries@,
            ));
        }
        i = i + 1;
    }
    proof {
        assert(rs.take(i as int) =~= rs);
        if rules@.len() == 0 {
            assert(out@.map_values(|a: IODataAction| a@) =~= Seq::<IODataActionView>::empty());
        }
    }
    out
}

/// Records the value of the input at position `k`.
fn set_input_value(map: &mut InputSharedContextMap, k: usize, value: IOValue)
    requires
        old(map).wf(),
        k < old(map).entries@.len(),
    ensures
        final(map).wf(),
        final(map).entries@ == old(map).entries@.update(
            k as int,
            InputSharedContext {
                input: old(map).entries@[k as int].input,
                rules: old(map).entries@[k as int].rules,
                value: Some(value),
            },
        ),
{
    let e = map.entries.remove(k);
    map.entries.insert(k, InputSharedContext { input: e.input, rules: e.rules, value: Some(value) });
    proof {
        let m = map.entries@;
        let om = old(map).entries@;
        assert(m =~= om.update(
            k as int,
            InputSharedContext { input: om[k as int].input, rules: om[k as int].rules, value: Some(value) },
        ));
        assert forall|i: int, j: int|
            0 <= i < m.len() && 0 <= j < m.len() && i != j implies (#[trigger] m[i]).input.id@
            != (#[trigger] m[j]).input.id@ by {
            assert(om[i].input.id@ != om[j].input.id@);
        }
    }
}

/// The input values after `id` takes `value`: unchanged when `id` is no input.
pub open spec fn with_input_value(
    m: Seq<InputSharedContext>,
    id: Seq<char>,
    value: IOValue,
) -> Seq<InputSharedContext> {
    match input_index(m, id) {
        Some(k) => m.update(
            k,
            InputSharedContext { input: m[k].input, rules: m[k].rules, value: Some(value) },
        ),
        None => m,
    }
}

/// Handles an action received from an input controller, a websocket client
/// or MQTT. For an input, a `SetValue` records the value and gives the
/// requests of the input's rules whose conditions then hold; other actions
/// on an input are ignored. An action on any other ID is passed on to the
/// outputs unchanged.
pub fn handle_input_action(
    input_map: &mut InputSharedContextMap,
    output_map: &OutputSharedContextMap,
    io_action: IODataAction,
) -> (r: Vec<IODataAction>)
    requires
        old(input_map).wf(),
        output_map.wf(),
    ensures
        final(input_map).wf(),
        match input_index(old(input_map).entries@, io_action.id@) {
            Some(k) => match io_action.action {
                IOAction::SetValue(v) => {
                    &&& final(input_map).entries@ == with_input_value(
                        old(input_map).entries@,
                        io_action.id@,
                        v,
                    )
                    &&& r@.map_values(|a: IODataAction| a@) == rules_requests(
                        old(input_map).entries@[k].rules@.map_values(|x: &Rule| *x),
                        final(input_map).entries@,
                        output_map.entries@,
                    )
                },
                _ => final(input_map).entries@ == old(input_map).entries@ && r@.len() == 0,
            },
            None => final(input_map).entries@ == old(input_map).entries@ && r@ == seq![io_action],
        },
{
    match input_map.find(io_action.id.as_str()) {
        Some(k) => {
            match io_action.action {
                IOAction::SetValue(v) => {
                    set_input_value(input_map, k, v);
                    let rules = &input_map.entries[k].rules;
                    rules_actions(rules, input_map, output_map)
                },
                _ => Vec::new(),
            }
        },
        None => {
            let mut r = Vec::new();
            r.push(io_action);
            r
        },
    }
}

/// The output values after `id` reports `value`: unchanged when `id` is no output.
pub open spec fn with_output_value(
    m: Seq<OutputSharedContext>,
    id: Seq<char>,
    value: IOValue,
) -> Seq<OutputSharedContext> {
    match output_index(m, id) {
        Some(k) => m.update(k, OutputSharedContext { output: m[k].output, value: Some(value) }),
        None => m,
    }
}

/// Records the value that an output controller reports for an output;
/// tells whether the ID is an output.
pub fn handle_output_feedback(output_map: &mut OutputSharedContextMap, io_data: IOData) -> (r:
    bool)
    requires
        old(output_map).wf(),
    ensures
        final(output_map).wf(),
        r == output_index(old(output_map).entries@, io_data.id@) is Some,
        final(output_map).entries@ == with_output_value(
            old(output_map).entries@,
            io_data.id@,
            io_data.value,
        ),
{
    match output_map.find(io_data.id.as_str()) {
        Some(k) => {
            let e = output_map.entries.remove(k);
            output_map.entries.insert(k, OutputSharedContext { output: e.output, value: Some(io_data.value) });
            proof {
                let m = output_map.entries@;
                let om = old(output_map).entries@;
                assert(m =~= om.update(
                    k as int,
                    OutputSharedContext { output: om[k as int].output, value: Some(io_data.value) },
                ));
                assert forall|i: int, j: int|
                    0 <= i < m.len() && 0 <= j < m.len() && i != j implies (#[trigger] m[i]).output.id@
                    != (#[trigger] m[j]).output.id@ by {
                    assert(om[i].output.id@ != om[j].output.id@);
                }
            }
            true
        },
        None => false,
    }
}

/// What an output reports is what the rules engine reads back for it
/// afterwards; the other outputs keep the values they had.
pub proof fn lemma_output_feedback_read_back(
    m: Seq<OutputSharedContext>,
    id: Seq<char>,
    value: IOValue,
    other: Seq<char>,
)
    requires
        outputs_distinct(m),
        output_index(m, id) is Some,
    ensures
        outputs_distinct(with_output_value(m, id, value)),
        output_value(with_output_value(m, id, value), id) == Some(value@),
        other != id ==> output_value(with_output_value(m, id, value), other) == output_value(
            m,
            other,
        ),
{
    let k = output_index(m, id)->0;
    let m2 = with_output_value(m, id, value);
    assert(m2.len() == m.len());
    assert(forall|i: int| 0 <= i < m.len() ==> (#[trigger] m2[i]).output == m[i].output);
    assert(m2[k].output.id@ == id);
    let j = output_index(m2, id)->0;
    assert(j == k);
    if other != id {
        if output_index(m, other) is Some {
            let a = output_index(m, other)->0;
            assert(m2[a].output.id@ == other);
            let b = output_index(m2, other)->0;
            assert(m[b].output.id@ == other);
            assert(a == b);
            assert(m2[a] == m[a]);
        } else {
            if output_index(m2, other) is Some {
                let b = output_index(m2, other)->0;
                assert(m[b].output.id@ == other);
            }
        }
    }
}

/// A value set on an input is what the rules read back for it afterwards;
/// the other inputs keep the values they had.
pub proof fn lemma_input_value_read_back(
    m: Seq<InputSharedContext>,
    id: Seq<char>,
    value: IOValue,
    other: Seq<char>,
)
    requires
        inputs_distinct(m),
        input_index(m, id) is Some,
    ensures
        inputs_distinct(with_input_value(m, id, value)),
        input_value(with_input_value(m, id, value), id) == Some(value@),
        other != id ==> input_value(with_input_value(m, id, value), other) == input_value(
            m,
            other,
        ),
{
    let k = input_index(m, id)->0;
    let m2 = with_input_value(m, id, value);
    assert(m2.len() == m.len());
    assert(forall|i: int| 0 <= i < m.len() ==> (#[trigger] m2[i]).input == m[i].input);
    assert(m2[k].input.id@ == id);
    let j = input_index(m2, id)->0;
    assert(j == k);
    if other != id {
        if input_index(m, other) is Some {
            let a = input_index(m, other)->0;
            assert(m2[a].input.id@ == other);
            let b = input_index(m2, other)->0;
            assert(m[b].input.id@ == other);
            assert(a == b);
            assert(m2[a] == m[a]);
        } else {
            if input_index(m2, other) is Some {
                let b = input_index(m2, other)->0;
                assert(m[b].input.id@ == other);
            }
        }
    }
}

/// How the operators relate, for all values: `<=` holds exactly when `<`
/// holds or the values are equal, `>=` exactly when `>` holds or they are
/// equal; `<` and `>` are each other's mirror, and exactly one of `<`,
/// equal, `>` holds. In particular every value is `<=` and `>=` itself.
pub proof fn lemma_operators_relate(a: IOValueView, b: IOValueView)
    ensures
        operator_holds(Operator::LowerOrEqual, a, b) <==> (operator_holds(Operator::Lower, a, b) || a == b),
        operator_holds(Operator::GreaterOrEqual, a, b) <==> (operator_holds(Operator::Greater, a, b) || a == b),
        operator_holds(Operator::Lower, a, b) <==> operator_holds(Operator::Greater, b, a),
        operator_holds(Operator::Equal, a, b) <==> a == b,
        operator_holds(Operator::NotEqual, a, b) <==> a != b,
        !(operator_holds(Operator::Lower, a, b) && operator_holds(Operator::Greater, a, b)),
        !(operator_holds(Operator::Lower, a, b) && a == b),
        operator_holds(Operator::LowerOrEqual, a, a),
        operator_holds(Operator::GreaterOrEqual, a, a),
        !operator_holds(Operator::Lower, a, a),
{
    crate::io_value::lemma_value_order_laws(a, b);
    crate::io_value::lemma_value_order_laws(a, a);
}

/// On integers the operators are those of arithmetic: `x < y`, `x <= y`,
/// `x > y`, `x >= y`.
pub proof fn lemma_operators_on_integers(x: i32, y: i32)
    ensures
        operator_holds(Operator::Lower, IOValueView::Int(x), IOValueView::Int(y)) <==> x < y,
        operator_holds(Operator::LowerOrEqual, IOValueView::Int(x), IOValueView::Int(y)) <==> x <= y,
        operator_holds(Operator::Greater, IOValueView::Int(x), IOValueView::Int(y)) <==> x > y,
        operator_holds(Operator::GreaterOrEqual, IOValueView::Int(x), IOValueView::Int(y)) <==> x >= y,
        operator_holds(Operator::Equal, IOValueView::Int(x), IOValueView::Int(y)) <==> x == y,
{
    crate::io_value::lemma_int_values_ordered(x, y);
}

} // verus!
