//! What one evaluation of a network does to its activations.
//!
//! An evaluation is a run: the connections of a plan are applied one after
//! the other, each one reading a neuron and accumulating onto another. The
//! run is stated over what the behaviour's own operations may return, so it
//! holds of every behaviour.

use vstd::prelude::*;
use crate::behavior::Behavior;
use crate::codec::{Connection, Layer, Weight};

verus! {

/// The activations of a network: one value for each neuron of each layer.
#[verifier::ext_equal]
pub struct Activations<V> {
    pub input: Seq<V>,
    pub hidden: Seq<V>,
    pub output: Seq<V>,
}

impl<V> Activations<V> {
    /// The values of one layer.
    pub open spec fn layer(self, layer: Layer) -> Seq<V> {
        match layer {
            Layer::Input => self.input,
            Layer::Hidden => self.hidden,
            Layer::Output => self.output,
        }
    }

    /// The activations with the value of one neuron replaced.
    pub open spec fn write(self, layer: Layer, index: int, value: V) -> Self {
        match layer {
            Layer::Input => Activations { input: self.input.update(index, value), ..self },
            Layer::Hidden => Activations { hidden: self.hidden.update(index, value), ..self },
            Layer::Output => Activations { output: self.output.update(index, value), ..self },
        }
    }

    /// The activations have the given number of neurons in each layer.
    pub open spec fn has_shape(self, input_neurons: u32, hidden_neurons: u32, output_neurons: u32) -> bool {
        &&& self.input.len() == input_neurons
        &&& self.hidden.len() == hidden_neurons
        &&& self.output.len() == output_neurons
    }
}

/// One connection takes the network from `before` to `after`: the source
/// neuron is read and put through the activation function of its layer, the
/// result is scaled by the connection's weight, and that is accumulated onto
/// the target neuron. No other neuron changes.
pub open spec fn applies<B: Behavior>(
    behavior: &B,
    connection: Connection,
    before: Activations<B::Signal>,
    after: Activations<B::Signal>,
) -> bool {
    exists|activated: B::Signal, weighted: B::Signal, total: B::Signal|
        {
            &&& #[trigger] call_ensures(
                B::activate,
                (
                    behavior,
                    connection.source_layer,
                    before.layer(connection.source_layer)[connection.source_index as int],
                ),
                activated,
            )
            &&& #[trigger] call_ensures(B::weigh, (behavior, activated, connection.weight), weighted)
            &&& #[trigger] call_ensures(
                B::accumulate,
                (behavior, before.layer(connection.target_layer)[connection.target_index as int], weighted),
                total,
            )
            &&& after == before.write(connection.target_layer, connection.target_index as int, total)
        }
}

/// The connections of `plan`, applied one after the other in the order of the
/// plan, take the network from `before` to `after`.
pub open spec fn runs<B: Behavior>(
    behavior: &B,
    plan: Seq<Connection>,
    before: Activations<B::Signal>,
    after: Activations<B::Signal>,
) -> bool
    decreases plan.len(),
{
    if plan.len() == 0 {
        after == before
    } else {
        exists|middle: Activations<B::Signal>|
            {
                &&& runs(behavior, plan.drop_last(), before, middle)
                &&& #[trigger] applies(behavior, plan.last(), middle, after)
            }
    }
}

/// Applying a connection changes no layer's size and leaves the input layer
/// as it was.
pub proof fn lemma_applies_keeps_shape<B: Behavior>(
    behavior: &B,
    connection: Connection,
    before: Activations<B::Signal>,
    after: Activations<B::Signal>,
)
    requires
        applies(behavior, connection, before, after),
        connection.target_layer != Layer::Input,
        connection.target_index < before.layer(connection.target_layer).len(),
    ensures
        after.input == before.input,
        after.hidden.len() == before.hidden.len(),
        after.output.len() == before.output.len(),
{
}

/// A run changes no layer's size and leaves the input layer as it was.
pub proof fn lemma_runs_keeps_shape<B: Behavior>(
    behavior: &B,
    plan: Seq<Connection>,
    before: Activations<B::Signal>,
    after: Activations<B::Signal>,
)
    requires
        runs(behavior, plan, before, after),
        forall|i: int|
            0 <= i < plan.len() ==> {
                &&& (#[trigger] plan[i]).target_layer != Layer::Input
                &&& plan[i].target_index < before.layer(plan[i].target_layer).len()
            },
    ensures
        after.input == before.input,
        after.hidden.len() == before.hidden.len(),
        after.output.len() == before.output.len(),
    decreases plan.len(),
{
    if plan.len() > 0 {
        let middle = choose|middle: Activations<B::Signal>|
            {
                &&& runs(behavior, plan.drop_last(), before, middle)
                &&& #[trigger] applies(behavior, plan.last(), middle, after)
            };
        lemma_runs_keeps_shape(behavior, plan.drop_last(), before, middle);
        lemma_applies_keeps_shape(behavior, plan.last(), middle, after);
    }
}

/// Evaluation accumulates: a run that starts where another run ended is one
/// run over both plans in a row. Running a plan a second time without
/// clearing the network in between therefore adds the second pass on top of
/// what the first pass left.
pub proof fn lemma_runs_compose<B: Behavior>(
    behavior: &B,
    first: Seq<Connection>,
    second: Seq<Connection>,
    before: Activations<B::Signal>,
    between: Activations<B::Signal>,
    after: Activations<B::Signal>,
)
    requires
        runs(behavior, first, before, between),
        runs(behavior, second, between, after),
    ensures
        runs(behavior, first + second, before, after),
    decreases second.len(),
{
    if second.len() == 0 {
        assert(first + second =~= first);
    } else {
        let middle = choose|middle: Activations<B::Signal>|
            {
                &&& runs(behavior, second.drop_last(), between, middle)
                &&& #[trigger] applies(behavior, second.last(), middle, after)
            };
        lemma_runs_compose(behavior, first, second.drop_last(), before, between, middle);
        assert((first + second).drop_last() =~= first + second.drop_last());
        assert((first + second).last() == second.last());
    }
}

/// The operations of a behaviour as functions: what each of them returns for
/// given arguments.
#[verifier::reject_recursive_types(V)]
pub struct Arithmetic<V> {
    pub zero: V,
    pub activate: spec_fn(Layer, V) -> V,
    pub weigh: spec_fn(V, Weight) -> V,
    pub accumulate: spec_fn(V, V) -> V,
}

/// The behaviour computes what `arithmetic` says: each of its operations
/// returns the value of the function, and nothing else.
pub open spec fn computes<B: Behavior>(behavior: &B, arithmetic: Arithmetic<B::Signal>) -> bool {
    &&& forall|zero: B::Signal| #[trigger] call_ensures(B::zero, (behavior,), zero) ==> zero == arithmetic.zero
    &&& forall|layer: Layer, signal: B::Signal, activated: B::Signal| #[trigger]
        call_ensures(B::activate, (behavior, layer, signal), activated) ==> activated == (arithmetic.activate)(
            layer,
            signal,
        )
    &&& forall|signal: B::Signal, weight: Weight, weighted: B::Signal| #[trigger]
        call_ensures(B::weigh, (behavior, signal, weight), weighted) ==> weighted == (arithmetic.weigh)(
            signal,
            weight,
        )
    &&& forall|total: B::Signal, signal: B::Signal, sum: B::Signal| #[trigger]
        call_ensures(B::accumulate, (behavior, total, signal), sum) ==> sum == (arithmetic.accumulate)(
            total,
            signal,
        )
}

/// Accumulation is exact: it is associative, and zero is neutral on both
/// sides, as for numbers that are added without rounding.
pub open spec fn adds_exactly<V>(arithmetic: Arithmetic<V>) -> bool {
    &&& forall|a: V, b: V, c: V| #[trigger]
        (arithmetic.accumulate)((arithmetic.accumulate)(a, b), c) == (arithmetic.accumulate)(
            a,
            (arithmetic.accumulate)(b, c),
        )
    &&& forall|a: V| #[trigger] (arithmetic.accumulate)(arithmetic.zero, a) == a
    &&& forall|a: V| #[trigger] (arithmetic.accumulate)(a, arithmetic.zero) == a
}

/// Every connection of `plan` reads the input layer, and fits activations of
/// the shape of `activations`.
pub open spec fn reads_input_only<V>(plan: Seq<Connection>, activations: Activations<V>) -> bool {
    forall|i: int|
        0 <= i < plan.len() ==> {
            &&& (#[trigger] plan[i]).source_layer == Layer::Input
            &&& plan[i].target_layer != Layer::Input
            &&& plan[i].source_index < activations.input.len()
            &&& plan[i].target_index < activations.layer(plan[i].target_layer).len()
        }
}

/// What neuron `index` of `layer` holds after the connections of `plan`, all
/// of which read the input layer, have been applied to it in order, when it
/// held `start` before.
pub open spec fn received<V>(
    arithmetic: Arithmetic<V>,
    plan: Seq<Connection>,
    input: Seq<V>,
    layer: Layer,
    index: int,
    start: V,
) -> V
    decreases plan.len(),
{
    if plan.len() == 0 {
        start
    } else {
        let so_far = received(arithmetic, plan.drop_last(), input, layer, index, start);
        let last = plan.last();
        if last.target_layer == layer && last.target_index == index {
            (arithmetic.accumulate)(
                so_far,
                (arithmetic.weigh)((arithmetic.activate)(Layer::Input, input[last.source_index as int]), last.weight),
            )
        } else {
            so_far
        }
    }
}

proof fn lemma_run_of_input_readers<B: Behavior>(
    behavior: &B,
    arithmetic: Arithmetic<B::Signal>,
    plan: Seq<Connection>,
    before: Activations<B::Signal>,
    after: Activations<B::Signal>,
    layer: Layer,
    index: int,
)
    requires
        computes(behavior, arithmetic),
        reads_input_only(plan, before),
        runs(behavior, plan, before, after),
        layer != Layer::Input,
        0 <= index < before.layer(layer).len(),
    ensures
        after.input == before.input,
        after.hidden.len() == before.hidden.len(),
        after.output.len() == before.output.len(),
        after.layer(layer)[index] == received(arithmetic, plan, before.input, layer, index, before.layer(layer)[index]),
    decreases plan.len(),
{
    if plan.len() > 0 {
        let front = plan.drop_last();
        let last = plan.last();
        let middle = choose|middle: Activations<B::Signal>|
            {
                &&& runs(behavior, front, before, middle)
                &&& #[trigger] applies(behavior, last, middle, after)
            };
        assert(reads_input_only(front, before)) by {
            assert forall|i: int| 0 <= i < front.len() implies {
                &&& (#[trigger] front[i]).source_layer == Layer::Input
                &&& front[i].target_layer != Layer::Input
                &&& front[i].source_index < before.input.len()
                &&& front[i].target_index < before.layer(front[i].target_layer).len()
            } by {
                assert(front[i] == plan[i]);
            }
        }
        lemma_run_of_input_readers(behavior, arithmetic, front, before, middle, layer, index);
        assert(last == plan[plan.len() - 1]);
        let (activated, weighted, total) = choose|activated: B::Signal, weighted: B::Signal, total: B::Signal|
            {
                &&& #[trigger] call_ensures(
                    B::activate,
                    (behavior, last.source_layer, middle.layer(last.source_layer)[last.source_index as int]),
                    activated,
                )
                &&& #[trigger] call_ensures(B::weigh, (behavior, activated, last.weight), weighted)
                &&& #[trigger] call_ensures(
                    B::accumulate,
                    (behavior, middle.layer(last.target_layer)[last.target_index as int], weighted),
                    total,
                )
                &&& after == middle.write(last.target_layer, last.target_index as int, total)
            };
        assert(after == middle.write(last.target_layer, last.target_index as int, total));
    }
}

proof fn lemma_received_from<V>(
    arithmetic: Arithmetic<V>,
    plan: Seq<Connection>,
    input: Seq<V>,
    layer: Layer,
    index: int,
    start: V,
)
    requires
        adds_exactly(arithmetic),
    ensures
        received(arithmetic, plan, input, layer, index, start) == (arithmetic.accumulate)(
            start,
            received(arithmetic, plan, input, layer, index, arithmetic.zero),
        ),
    decreases plan.len(),
{
    if plan.len() > 0 {
        lemma_received_from(arithmetic, plan.drop_last(), input, layer, index, start);
    }
}

/// Two passes give twice one pass, where the arithmetic is exact and no
/// connection reads the hidden layer: when a network is evaluated twice from
/// cleared hidden and output layers, with nothing cleared in between, each
/// hidden and output neuron ends at what it held after the first pass,
/// accumulated onto itself.
///
/// A connection that reads the hidden layer reads more in the second pass
/// than in the first, and arithmetic that rounds is not associative; the law
/// speaks of neither.
pub proof fn lemma_second_pass_doubles<B: Behavior>(
    behavior: &B,
    arithmetic: Arithmetic<B::Signal>,
    plan: Seq<Connection>,
    cleared: Activations<B::Signal>,
    once: Activations<B::Signal>,
    twice: Activations<B::Signal>,
    layer: Layer,
    index: int,
)
    requires
        computes(behavior, arithmetic),
        adds_exactly(arithmetic),
        reads_input_only(plan, cleared),
        crate::behavior::all_zero(behavior, cleared.hidden),
        crate::behavior::all_zero(behavior, cleared.output),
        runs(behavior, plan, cleared, once),
        runs(behavior, plan, once, twice),
        layer != Layer::Input,
        0 <= index < cleared.layer(layer).len(),
    ensures
        twice.layer(layer)[index] == (arithmetic.accumulate)(once.layer(layer)[index], once.layer(layer)[index]),
{
    lemma_run_of_input_readers(behavior, arithmetic, plan, cleared, once, layer, index);
    assert(reads_input_only(plan, once));
    lemma_run_of_input_readers(behavior, arithmetic, plan, once, twice, layer, index);
    assert(crate::behavior::is_zero(behavior, cleared.layer(layer)[index]));
    assert(cleared.layer(layer)[index] == arithmetic.zero);
    lemma_received_from(arithmetic, plan, cleared.input, layer, index, once.layer(layer)[index]);
}

} // verus!
