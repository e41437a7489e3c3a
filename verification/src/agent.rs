//! The agent: one genome with its activations, its fitness and its behaviour.

use vstd::prelude::*;
use crate::behavior::Behavior;
use crate::evaluation::Activations;
use crate::codec::Layer;
use crate::error::ConfigError;
use crate::genome::Genome;
use crate::mutation::{mutation_u32, MutationRate};
use rand::rngs::StdRng;

verus! {

/// The fitness of an agent that has not been scored: the worst there is.
pub const UNSCORED: u64 = 0xFFFF_FFFF_FFFF_FFFF;

/// The list index of the input layer in [`Agent::set_value`].
pub const INPUT_LIST: i32 = 0;

/// The list index of the hidden layer in [`Agent::set_value`].
pub const HIDDEN_LIST: i32 = 1;

/// The list index of the output layer in [`Agent::set_value`].
pub const OUTPUT_LIST: i32 = 2;

/// One individual of a population: a genome, the activations of the network
/// that the genome describes, the mutation rate used when the agent
/// reproduces, its fitness (lower is better), and the behaviour it shares with
/// the rest of the population.
pub struct Agent<'a, B: Behavior> {
    pub genome: Genome,
    pub input_list: Vec<B::Signal>,
    pub hidden_list: Vec<B::Signal>,
    pub output_list: Vec<B::Signal>,
    pub behavior: &'a B,
    pub mutation_rate: MutationRate,
    pub fitness: u64,
}

/// The layer that a list index of [`Agent::set_value`] stands for.
pub open spec fn layer_of(list_index: i32) -> Layer {
    if list_index == INPUT_LIST {
        Layer::Input
    } else if list_index == HIDDEN_LIST {
        Layer::Hidden
    } else {
        Layer::Output
    }
}

/// A vector of `len` zeros of the behaviour.
fn zeros<B: Behavior>(behavior: &B, len: usize) -> (values: Vec<B::Signal>)
    ensures
        values@.len() == len,
        crate::behavior::all_zero(behavior, values@),
{
    let zero = behavior.zero();
    let mut values: Vec<B::Signal> = Vec::with_capacity(len);
    let mut i: usize = 0;
    while i < len
        invariant
            i <= len,
            values@.len() == i,
            crate::behavior::is_zero(behavior, zero),
            crate::behavior::all_zero(behavior, values@),
        decreases len - i,
    {
        values.push(zero);
        i += 1;
    }
    values
}

/// A copy of `values`.
fn copy_of<B: Behavior>(values: &Vec<B::Signal>) -> (copy: Vec<B::Signal>)
    ensures
        copy@ == values@,
{
    let n = values.len();
    let mut copy: Vec<B::Signal> = Vec::with_capacity(n);
    let mut i: usize = 0;
    while i < n
        invariant
            i <= n,
            n == values@.len(),
            copy@ == values@.take(i as int),
        decreases n - i,
    {
        copy.push(values[i]);
        i += 1;
        assert(copy@ =~= values@.take(i as int));
    }
    assert(values@.take(n as int) =~= values@);
    copy
}

impl<'a, B: Behavior> Clone for Agent<'a, B> {
    /// A copy of the agent, activations included, that shares its behaviour.
    fn clone(&self) -> (copy: Self)
        ensures
            copy.same_individual(self),
            copy.activations() == self.activations(),
    {
        Agent {
            genome: self.genome.clone(),
            input_list: copy_of::<B>(&self.input_list),
            hidden_list: copy_of::<B>(&self.hidden_list),
            output_list: copy_of::<B>(&self.output_list),
            behavior: self.behavior,
            mutation_rate: self.mutation_rate,
            fitness: self.fitness,
        }
    }
}

impl<'a, B: Behavior> Agent<'a, B> {
    /// The activations of the agent's network.
    pub open spec fn activations(&self) -> Activations<B::Signal> {
        Activations { input: self.input_list@, hidden: self.hidden_list@, output: self.output_list@ }
    }

    /// An agent is well formed when its genome is, and each of its three
    /// buffers has one value for each neuron of its layer.
    pub open spec fn wf(&self) -> bool {
        &&& self.genome.wf()
        &&& self.activations().has_shape(
            self.genome.input_neurons,
            self.genome.hidden_neurons,
            self.genome.output_neurons,
        )
    }

    /// Two agents agree in everything but their activations.
    pub open spec fn same_individual(&self, other: &Self) -> bool {
        &&& self.genome.gene_list@ == other.genome.gene_list@
        &&& self.same_setup(other)
        &&& self.fitness == other.fitness
    }

    /// Two agents have networks of one shape, one mutation rate and one
    /// behaviour.
    pub open spec fn same_setup(&self, other: &Self) -> bool {
        &&& self.genome.input_neurons == other.genome.input_neurons
        &&& self.genome.hidden_neurons == other.genome.hidden_neurons
        &&& self.genome.output_neurons == other.genome.output_neurons
        &&& self.mutation_rate == other.mutation_rate
        &&& self.behavior == other.behavior
    }

    /// Whether the agent is well formed: what evaluation and reproduction ask
    /// of it.
    pub fn is_well_formed(&self) -> (yes: bool)
        ensures
            yes == self.wf(),
    {
        self.genome.input_neurons > 0 && self.genome.hidden_neurons > 0 && self.genome.output_neurons > 0
            && self.input_list.len() == self.genome.input_neurons as usize && self.hidden_list.len()
            == self.genome.hidden_neurons as usize && self.output_list.len()
            == self.genome.output_neurons as usize
    }

    /// Stores `value` as the activation of neuron `index` of the layer that
    /// `list_index` names: 0 the input layer, 1 the hidden layer, 2 the output
    /// layer.
    pub fn set_value(&mut self, value: B::Signal, index: usize, list_index: i32)
        requires
            INPUT_LIST <= list_index <= OUTPUT_LIST,
            index < old(self).activations().layer(layer_of(list_index)).len(),
        ensures
            final(self).activations() == old(self).activations().write(layer_of(list_index), index as int, value),
            final(self).genome == old(self).genome,
            final(self).behavior == old(self).behavior,
            final(self).mutation_rate == old(self).mutation_rate,
            final(self).fitness == old(self).fitness,
            old(self).wf() ==> final(self).wf(),
    {
        if list_index == INPUT_LIST {
            self.input_list[index] = value;
        } else if list_index == HIDDEN_LIST {
            self.hidden_list[index] = value;
        } else {
            self.output_list[index] = value;
        }
    }

    /// Resets every hidden and output neuron to zero, so that the next
    /// evaluation starts from nothing. The input layer is left as it was
    /// written, and no buffer changes its length.
    pub fn clear_values(&mut self)
        ensures
            final(self).input_list == old(self).input_list,
            final(self).hidden_list@.len() == old(self).hidden_list@.len(),
            final(self).output_list@.len() == old(self).output_list@.len(),
            crate::behavior::all_zero(old(self).behavior, final(self).hidden_list@),
            crate::behavior::all_zero(old(self).behavior, final(self).output_list@),
            final(self).genome == old(self).genome,
            final(self).behavior == old(self).behavior,
            final(self).mutation_rate == old(self).mutation_rate,
            final(self).fitness == old(self).fitness,
            old(self).wf() ==> final(self).wf(),
    {
        self.hidden_list = zeros(self.behavior, self.hidden_list.len());
        self.output_list = zeros(self.behavior, self.output_list.len());
    }

    /// Evaluates the network once: applies every connection of the genome,
    /// in evaluation order, to the activations as they stand.
    ///
    /// Each connection reads its source neuron, puts the value through the
    /// activation function of the source layer, scales it by the weight and
    /// accumulates the result onto its target neuron. Nothing is cleared
    /// first, so a second call goes on from what the first one left. The
    /// input layer is only read, and no buffer changes its length.
    pub fn calculate(&mut self)
        requires
            old(self).wf(),
        ensures
            crate::evaluation::runs(
                old(self).behavior,
                old(self).genome.plan_spec(),
                old(self).activations(),
                final(self).activations(),
            ),
            final(self).wf(),
            final(self).input_list@ == old(self).input_list@,
            final(self).genome == old(self).genome,
            final(self).behavior == old(self).behavior,
            final(self).mutation_rate == old(self).mutation_rate,
            final(self).fitness == old(self).fitness,
    {
        let plan = self.genome.evaluation_plan();
        let n = plan.len();
        let mut i: usize = 0;
        assert(plan@.take(0) =~= Seq::empty());
        while i < n
            invariant
                i <= n,
                n == plan@.len(),
                plan@ == old(self).genome.plan_spec(),
                crate::genome::plan_fits(
                    plan@,
                    self.genome.input_neurons,
                    self.genome.hidden_neurons,
                    self.genome.output_neurons,
                ),
                self.wf(),
                self.input_list@ == old(self).input_list@,
                self.genome == old(self).genome,
                self.behavior == old(self).behavior,
                self.mutation_rate == old(self).mutation_rate,
                self.fitness == old(self).fitness,
                crate::evaluation::runs(self.behavior, plan@.take(i as int), old(self).activations(), self.activations()),
            decreases n - i,
        {
            let connection = plan[i];
            let ghost before = self.activations();
            let source_index = connection.source_index as usize;
            let target_index = connection.target_index as usize;
            let source = if connection.source_layer == Layer::Input {
                self.input_list[source_index]
            } else {
                self.hidden_list[source_index]
            };
            let target = if connection.target_layer == Layer::Output {
                self.output_list[target_index]
            } else {
                self.hidden_list[target_index]
            };
            let activated = self.behavior.activate(connection.source_layer, source);
            let weighted = self.behavior.weigh(activated, connection.weight);
            let total = self.behavior.accumulate(target, weighted);
            if connection.target_layer == Layer::Output {
                self.set_value(total, target_index, OUTPUT_LIST);
            } else {
                self.set_value(total, target_index, HIDDEN_LIST);
            }
            proof {
                assert(crate::evaluation::applies(self.behavior, connection, before, self.activations()));
                assert(plan@.take(i + 1).drop_last() =~= plan@.take(i as int));
                assert(plan@.take(i + 1).last() == connection);
            }
            i += 1;
        }
        assert(plan@.take(n as int) =~= plan@);
    }

    /// Scores the agent: stores the fitness that the behaviour gives the
    /// output layer, as it stands, against `expected`. The network is not
    /// evaluated again and nothing is cleared.
    ///
    /// Fails with [`ConfigError::LengthMismatch`], and changes nothing,
    /// exactly when `expected` has not one value for each output neuron.
    pub fn calculate_fitness(&mut self, expected: &Vec<B::Signal>) -> (r: Result<(), ConfigError>)
        ensures
            expected@.len() != old(self).output_list@.len() <==> r is Err,
            r is Err ==> r->Err_0 == ConfigError::LengthMismatch && *final(self) == *old(self),
            r is Ok ==> crate::behavior::is_fitness(
                old(self).behavior,
                old(self).output_list,
                *expected,
                final(self).fitness,
            ),
            final(self).genome == old(self).genome,
            final(self).input_list == old(self).input_list,
            final(self).hidden_list == old(self).hidden_list,
            final(self).output_list == old(self).output_list,
            final(self).behavior == old(self).behavior,
            final(self).mutation_rate == old(self).mutation_rate,
    {
        if expected.len() != self.output_list.len() {
            return Err(ConfigError::LengthMismatch);
        }
        self.fitness = self.behavior.fitness(&self.output_list, expected);
        Ok(())
    }

    /// `cleared` is what a fresh evaluation starts from: the input layer
    /// holds `input`, and every hidden and output neuron is at zero.
    pub open spec fn starts_from(&self, cleared: Activations<B::Signal>, input: Seq<B::Signal>) -> bool {
        &&& cleared.input == input
        &&& cleared.hidden.len() == self.genome.hidden_neurons
        &&& cleared.output.len() == self.genome.output_neurons
        &&& crate::behavior::all_zero(self.behavior, cleared.hidden)
        &&& crate::behavior::all_zero(self.behavior, cleared.output)
    }

    /// `self` is `before` after one fresh evaluation on `input`, scored
    /// against `expected`: the same genome, mutation rate and behaviour; the
    /// input layer holds `input`; the hidden and output layers are what one
    /// run of the genome's plan makes of zeroed layers; and the fitness is one
    /// that the behaviour gives the output layer against `expected`.
    pub open spec fn is_evaluation_of(&self, before: &Self, input: Seq<B::Signal>, expected: Vec<B::Signal>) -> bool {
        &&& self.wf()
        &&& self.genome == before.genome
        &&& self.behavior == before.behavior
        &&& self.mutation_rate == before.mutation_rate
        &&& self.input_list@ == input
        &&& exists|cleared: Activations<B::Signal>|
            {
                &&& #[trigger] before.starts_from(cleared, input)
                &&& crate::evaluation::runs(before.behavior, before.genome.plan_spec(), cleared, self.activations())
            }
        &&& crate::behavior::is_fitness(before.behavior, self.output_list, expected, self.fitness)
    }

    /// Whether `input` and `expected` have one value for each input neuron
    /// and each output neuron of this agent.
    pub fn accepts(&self, input: &Vec<B::Signal>, expected: &Vec<B::Signal>) -> (fits: bool)
        requires
            self.wf(),
        ensures
            fits <==> input@.len() == self.genome.input_neurons && expected@.len()
                == self.genome.output_neurons,
    {
        input.len() == self.input_list.len() && expected.len() == self.output_list.len()
    }

    /// Evaluates the agent afresh and scores it: writes `input` into the
    /// input layer, clears the hidden and output layers, runs the network
    /// once, and stores the fitness of its output against `expected`.
    ///
    /// Fails with [`ConfigError::LengthMismatch`], and changes nothing,
    /// exactly when `input` has not one value for each input neuron or
    /// `expected` has not one value for each output neuron.
    pub fn evaluate(&mut self, input: &Vec<B::Signal>, expected: &Vec<B::Signal>) -> (r: Result<(), ConfigError>)
        requires
            old(self).wf(),
        ensures
            (input@.len() != old(self).genome.input_neurons || expected@.len()
                != old(self).genome.output_neurons) <==> r is Err,
            r is Err ==> r->Err_0 == ConfigError::LengthMismatch && *final(self) == *old(self),
            r is Ok ==> final(self).is_evaluation_of(old(self), input@, *expected),
    {
        if !self.accepts(input, expected) {
            return Err(ConfigError::LengthMismatch);
        }
        self.input_list = copy_of::<B>(input);
        self.clear_values();
        let ghost cleared = self.activations();
        assert(old(self).starts_from(cleared, input@));
        self.calculate();
        self.calculate_fitness(expected)
    }

    /// `self` is a child of `parent`: a well-formed agent with as many genes
    /// as its parent, the parent's layer sizes, mutation rate and behaviour,
    /// activations that are all zero, and the fitness the parent had, which
    /// stays until the child is scored itself.
    pub open spec fn is_offspring_of(&self, parent: &Self) -> bool {
        &&& self.wf()
        &&& self.same_setup(parent)
        &&& self.genome.gene_list@.len() == parent.genome.gene_list@.len()
        &&& crate::behavior::all_zero(parent.behavior, self.input_list@)
        &&& crate::behavior::all_zero(parent.behavior, self.hidden_list@)
        &&& crate::behavior::all_zero(parent.behavior, self.output_list@)
        &&& self.fitness == parent.fitness
    }

    /// Gene `i` of `self` is gene `i` of `parent` with the bits of `masks[i]`
    /// flipped.
    pub open spec fn genes_flipped_by(&self, parent: &Self, masks: Seq<u32>) -> bool {
        &&& self.genome.gene_list@.len() == parent.genome.gene_list@.len()
        &&& forall|i: int|
            0 <= i < parent.genome.gene_list@.len() ==> #[trigger] self.genome.gene_list@[i]
                == parent.genome.gene_list@[i] ^ masks[i]
    }

    /// The child that the masks make of this agent, one mask for each gene:
    /// gene `i` of the child is gene `i` of the parent with the bits of
    /// `masks[i]` flipped. The child has the parent's layer sizes, mutation
    /// rate, behaviour and fitness, and zeroed activations.
    pub fn offspring(&self, masks: &Vec<u32>) -> (child: Self)
        requires
            self.wf(),
            masks@.len() == self.genome.gene_list@.len(),
        ensures
            child.is_offspring_of(self),
            child.genes_flipped_by(self, masks@),
    {
        let n = self.genome.gene_list.len();
        let mut genes: Vec<u32> = Vec::with_capacity(n);
        let mut i: usize = 0;
        while i < n
            invariant
                i <= n,
                n == self.genome.gene_list@.len(),
                n == masks@.len(),
                genes@.len() == i,
                forall|k: int| 0 <= k < i ==> #[trigger] genes@[k] == self.genome.gene_list@[k] ^ masks@[k],
            decreases n - i,
        {
            genes.push(self.genome.gene_list[i] ^ masks[i]);
            i += 1;
        }
        Agent {
            genome: Genome {
                gene_list: genes,
                input_neurons: self.genome.input_neurons,
                hidden_neurons: self.genome.hidden_neurons,
                output_neurons: self.genome.output_neurons,
            },
            input_list: zeros(self.behavior, self.genome.input_neurons as usize),
            hidden_list: zeros(self.behavior, self.genome.hidden_neurons as usize),
            output_list: zeros(self.behavior, self.genome.output_neurons as usize),
            behavior: self.behavior,
            mutation_rate: self.mutation_rate,
            fitness: self.fitness,
        }
    }

    /// The child that this agent has when the mutation masks of its genes
    /// come out as `masks`: gene `i` of the child is gene `i` of the parent
    /// with the bits of `masks[i]` flipped.
    ///
    /// Fails with [`ConfigError::LengthMismatch`] exactly when there is not
    /// one mask for each gene.
    pub fn reproduce_with(&self, masks: &Vec<u32>) -> (r: Result<Self, ConfigError>)
        requires
            self.wf(),
        ensures
            masks@.len() != self.genome.gene_list@.len() <==> r is Err,
            r is Err ==> r->Err_0 == ConfigError::LengthMismatch,
            r is Ok ==> r->Ok_0.is_offspring_of(self) && r->Ok_0.genes_flipped_by(self, masks@),
    {
        if masks.len() != self.genome.gene_list.len() {
            Err(ConfigError::LengthMismatch)
        } else {
            Ok(self.offspring(masks))
        }
    }

    /// Reproduces asexually: the child has the genome of this agent, each
    /// gene mutated by a mask of its own, drawn afresh from `rng`.
    ///
    /// The child has the parent's gene count and layer sizes and zeroed
    /// activations. At mutation rate zero its genes are the parent's,
    /// whatever the generator yields.
    pub fn reproduce(&self, rng: &mut StdRng) -> (child: Self)
        requires
            self.wf(),
        ensures
            child.is_offspring_of(self),
            self.mutation_rate.threshold == 0 ==> child.genome.gene_list@ == self.genome.gene_list@,
    {
        let n = self.genome.gene_list.len();
        let mut masks: Vec<u32> = Vec::with_capacity(n);
        let mut i: usize = 0;
        while i < n
            invariant
                i <= n,
                masks@.len() == i,
                self.mutation_rate.threshold == 0 ==> forall|k: int| 0 <= k < i ==> #[trigger] masks@[k] == 0,
            decreases n - i,
        {
            masks.push(mutation_u32(self.mutation_rate, rng));
            i += 1;
        }
        let child = self.offspring(&masks);
        proof {
            if self.mutation_rate.threshold == 0 {
                assert forall|k: int| 0 <= k < n implies #[trigger] child.genome.gene_list@[k]
                    == self.genome.gene_list@[k] by {
                    let gene = self.genome.gene_list@[k];
                    assert(gene ^ 0u32 == gene) by (bit_vector);
                }
                assert(child.genome.gene_list@ =~= self.genome.gene_list@);
            }
        }
        child
    }
}

/// Where every trial of every gene comes out below the mutation rate, every
/// gene of the child is the parent's gene with all thirty-two bits flipped.
pub proof fn lemma_all_trials_below_rate_invert<'a, B: Behavior>(
    child: Agent<'a, B>,
    parent: Agent<'a, B>,
    masks: Seq<u32>,
    draws: Seq<Seq<u32>>,
)
    requires
        child.genes_flipped_by(&parent, masks),
        masks.len() == parent.genome.gene_list@.len(),
        draws.len() == masks.len(),
        forall|i: int|
            0 <= i < masks.len() ==> crate::mutation::is_mask_of(#[trigger] masks[i], parent.mutation_rate, draws[i]),
        forall|i: int, k: int|
            0 <= i < draws.len() && 0 <= k < 32 ==> (#[trigger] draws[i][k]) < parent.mutation_rate.threshold,
    ensures
        forall|i: int|
            0 <= i < parent.genome.gene_list@.len() ==> #[trigger] child.genome.gene_list@[i]
                == !parent.genome.gene_list@[i],
{
    assert forall|i: int| 0 <= i < parent.genome.gene_list@.len() implies #[trigger] child.genome.gene_list@[i]
        == !parent.genome.gene_list@[i] by {
        let gene = parent.genome.gene_list@[i];
        assert(crate::mutation::is_mask_of(masks[i], parent.mutation_rate, draws[i]));
        assert forall|k: int| 0 <= k < 32 implies (#[trigger] draws[i][k]) < parent.mutation_rate.threshold by {}
        crate::mutation::lemma_mask_of_flips_only(masks[i], parent.mutation_rate, draws[i]);
        assert(gene ^ 0xFFFF_FFFFu32 == !gene) by (bit_vector);
    }
}

/// Two evaluations in a row, with nothing cleared in between, are one run of
/// the plan twice over: the second pass accumulates onto what the first pass
/// left, it does not start again from zero.
pub proof fn lemma_two_passes_accumulate<'a, B: Behavior>(start: Agent<'a, B>, once: Agent<'a, B>, twice: Agent<'a, B>)
    requires
        once.genome == start.genome,
        once.behavior == start.behavior,
        crate::evaluation::runs(start.behavior, start.genome.plan_spec(), start.activations(), once.activations()),
        crate::evaluation::runs(once.behavior, once.genome.plan_spec(), once.activations(), twice.activations()),
    ensures
        crate::evaluation::runs(
            start.behavior,
            start.genome.plan_spec() + start.genome.plan_spec(),
            start.activations(),
            twice.activations(),
        ),
{
    crate::evaluation::lemma_runs_compose(
        start.behavior,
        start.genome.plan_spec(),
        start.genome.plan_spec(),
        start.activations(),
        once.activations(),
        twice.activations(),
    );
}

/// `agent` is as a population starts with it: well formed, with
/// `genome_length` genes that are all zero, the given layer sizes, mutation
/// rate and behaviour, activations that are all zero, and the given fitness
/// to start from.
pub open spec fn is_fresh<'a, B: Behavior>(
    agent: Agent<'a, B>,
    genome_length: usize,
    input_size: u32,
    hidden_size: u32,
    output_size: u32,
    mutation_rate: MutationRate,
    behavior: &'a B,
    fitness: u64,
) -> bool {
    &&& agent.wf()
    &&& agent.genome.gene_list@ == Seq::new(genome_length as nat, |i: int| 0u32)
    &&& agent.genome.input_neurons == input_size
    &&& agent.genome.hidden_neurons == hidden_size
    &&& agent.genome.output_neurons == output_size
    &&& crate::behavior::all_zero(behavior, agent.input_list@)
    &&& crate::behavior::all_zero(behavior, agent.hidden_list@)
    &&& crate::behavior::all_zero(behavior, agent.output_list@)
    &&& agent.mutation_rate == mutation_rate
    &&& agent.behavior == behavior
    &&& agent.fitness == fitness
}

/// Creates a population of `amount` agents that share one behaviour.
///
/// Every agent starts with `genome_length` zero genes, zeroed activations and
/// no score. Fails with [`ConfigError::EmptyLayer`] exactly when one of the
/// layer sizes is zero.
pub fn create_agents<'a, B: Behavior>(
    amount: usize,
    genome_length: usize,
    input_size: u32,
    hidden_size: u32,
    output_size: u32,
    mutation_rate: MutationRate,
    behavior: &'a B,
) -> (r: Result<Vec<Agent<'a, B>>, ConfigError>)
    ensures
        (input_size == 0 || hidden_size == 0 || output_size == 0) <==> r is Err,
        r is Err ==> r->Err_0 == ConfigError::EmptyLayer,
        r is Ok ==> {
            &&& r->Ok_0@.len() == amount
            &&& forall|k: int|
                0 <= k < amount ==> is_fresh(
                    #[trigger] r->Ok_0@[k],
                    genome_length,
                    input_size,
                    hidden_size,
                    output_size,
                    mutation_rate,
                    behavior,
                    UNSCORED,
                )
        },
{
    create_agents_with_fitness(
        amount,
        genome_length,
        input_size,
        hidden_size,
        output_size,
        mutation_rate,
        behavior,
        UNSCORED,
    )
}

/// Creates a population of `amount` agents that share one behaviour and
/// start from the fitness `fitness`, which each of them keeps until it is
/// scored.
///
/// Every agent starts with `genome_length` zero genes and zeroed activations.
/// Fails with [`ConfigError::EmptyLayer`] exactly when one of the layer sizes
/// is zero.
pub fn create_agents_with_fitness<'a, B: Behavior>(
    amount: usize,
    genome_length: usize,
    input_size: u32,
    hidden_size: u32,
    output_size: u32,
    mutation_rate: MutationRate,
    behavior: &'a B,
    fitness: u64,
) -> (r: Result<Vec<Agent<'a, B>>, ConfigError>)
    ensures
        (input_size == 0 || hidden_size == 0 || output_size == 0) <==> r is Err,
        r is Err ==> r->Err_0 == ConfigError::EmptyLayer,
        r is Ok ==> {
            &&& r->Ok_0@.len() == amount
            &&& forall|k: int|
                0 <= k < amount ==> is_fresh(
                    #[trigger] r->Ok_0@[k],
                    genome_length,
                    input_size,
                    hidden_size,
                    output_size,
                    mutation_rate,
                    behavior,
                    fitness,
                )
        },
{
    if input_size == 0 || hidden_size == 0 || output_size == 0 {
        return Err(ConfigError::EmptyLayer);
    }
    let mut agents: Vec<Agent<'a, B>> = Vec::with_capacity(amount);
    let mut k: usize = 0;
    while k < amount
        invariant
            k <= amount,
            agents@.len() == k,
            input_size > 0,
            hidden_size > 0,
            output_size > 0,
            forall|j: int|
                0 <= j < k ==> is_fresh(
                    #[trigger] agents@[j],
                    genome_length,
                    input_size,
                    hidden_size,
                    output_size,
                    mutation_rate,
                    behavior,
                    fitness,
                ),
        decreases amount - k,
    {
        let mut genes: Vec<u32> = Vec::with_capacity(genome_length);
        let mut i: usize = 0;
        while i < genome_length
            invariant
                i <= genome_length,
                genes@ == Seq::new(i as nat, |i: int| 0u32),
            decreases genome_length - i,
        {
            genes.push(0);
            i += 1;
            assert(genes@ =~= Seq::new(i as nat, |i: int| 0u32));
        }
        let agent = Agent {
            genome: Genome {
                gene_list: genes,
                input_neurons: input_size,
                hidden_neurons: hidden_size,
                output_neurons: output_size,
            },
            input_list: zeros(behavior, input_size as usize),
            hidden_list: zeros(behavior, hidden_size as usize),
            output_list: zeros(behavior, output_size as usize),
            behavior,
            mutation_rate,
            fitness,
        };
        agents.push(agent);
        k += 1;
    }
    Ok(agents)
}

} // verus!
