use rand::rngs::StdRng;
use rand::SeedableRng;
use simple_genetic::{
    create_agents, create_agents_with_fitness, mutation_mask, Agent, Behavior, ConfigError, Genome, Layer,
    MutationRate, Weight, HIDDEN_LIST, INPUT_LIST, OUTPUT_LIST, UNSCORED, WEIGHT_SCALE,
};

fn weight_value(weight: Weight) -> f32 {
    let magnitude = weight.magnitude as f32 / WEIGHT_SCALE as f32;
    if weight.negative {
        -magnitude
    } else {
        magnitude
    }
}

fn mean_squared(produced: &[f32], expected: &[f32]) -> f32 {
    let sum: f32 = produced.iter().zip(expected.iter()).map(|(p, e)| (p - e) * (p - e)).sum();
    sum / produced.len() as f32
}

/// Identity on signals from the input layer, doubling on signals from the
/// hidden layer: the two activation functions can be told apart.
struct Plain;

impl Behavior for Plain {
    type Signal = f32;

    fn zero(&self) -> f32 {
        0.0
    }

    fn activate(&self, layer: Layer, signal: f32) -> f32 {
        match layer {
            Layer::Input => signal,
            _ => signal * 2.0,
        }
    }

    fn weigh(&self, signal: f32, weight: Weight) -> f32 {
        signal * weight_value(weight)
    }

    fn accumulate(&self, total: f32, signal: f32) -> f32 {
        total + signal
    }

    fn fitness(&self, produced: &Vec<f32>, expected: &Vec<f32>) -> u64 {
        mean_squared(produced, expected).to_bits() as u64
    }
}

/// An activation that adds one, so that the order of activation and weight
/// shows in the result.
struct Shifted;

impl Behavior for Shifted {
    type Signal = f32;

    fn zero(&self) -> f32 {
        0.0
    }

    fn activate(&self, _layer: Layer, signal: f32) -> f32 {
        signal + 1.0
    }

    fn weigh(&self, signal: f32, weight: Weight) -> f32 {
        signal * weight_value(weight)
    }

    fn accumulate(&self, total: f32, signal: f32) -> f32 {
        total + signal
    }

    fn fitness(&self, produced: &Vec<f32>, expected: &Vec<f32>) -> u64 {
        mean_squared(produced, expected).to_bits() as u64
    }
}

/// The identity everywhere.
struct Linear;

impl Behavior for Linear {
    type Signal = f32;

    fn zero(&self) -> f32 {
        0.0
    }

    fn activate(&self, _layer: Layer, signal: f32) -> f32 {
        signal
    }

    fn weigh(&self, signal: f32, weight: Weight) -> f32 {
        signal * weight_value(weight)
    }

    fn accumulate(&self, total: f32, signal: f32) -> f32 {
        total + signal
    }

    fn fitness(&self, produced: &Vec<f32>, expected: &Vec<f32>) -> u64 {
        mean_squared(produced, expected).to_bits() as u64
    }
}

const FROM_HIDDEN: u32 = 1 << 31;
const TO_OUTPUT: u32 = 1 << 23;
const NEGATIVE: u32 = 1 << 15;

fn agent_with<'a, B: Behavior<Signal = f32>>(
    behavior: &'a B,
    genes: Vec<u32>,
    sizes: (u32, u32, u32),
    rate: MutationRate,
) -> Agent<'a, B> {
    let mut agents = create_agents(1, genes.len(), sizes.0, sizes.1, sizes.2, rate, behavior).unwrap();
    let mut agent = agents.pop().unwrap();
    agent.genome.gene_list = genes;
    agent
}

#[test]
fn identity_network_passes_its_input_through() {
    let behavior = Linear;
    let mut agent = agent_with(&behavior, vec![TO_OUTPUT | 6000], (1, 1, 1), MutationRate::new(0));
    agent.set_value(0.37, 0, INPUT_LIST);
    agent.calculate();
    assert_eq!(agent.output_list, vec![0.37]);
    assert_eq!(agent.hidden_list, vec![0.0]);
    assert_eq!(agent.input_list, vec![0.37]);
}

#[test]
fn evaluating_twice_without_clearing_accumulates() {
    let behavior = Linear;
    let mut agent = agent_with(&behavior, vec![TO_OUTPUT | 6000], (1, 1, 1), MutationRate::new(0));
    agent.set_value(0.37, 0, INPUT_LIST);
    agent.calculate();
    let single = agent.output_list[0];
    agent.calculate();
    assert_eq!(agent.output_list[0], single + single);
    assert_eq!(agent.output_list, vec![0.74]);
}

#[test]
fn second_pass_goes_on_from_the_first() {
    let behavior = Linear;
    let genes = vec![3000, TO_OUTPUT | (1 << 24) | 12000, FROM_HIDDEN | TO_OUTPUT | NEGATIVE | 6000];
    let mut once = agent_with(&behavior, genes.clone(), (2, 1, 1), MutationRate::new(0));
    once.set_value(1.0, 0, INPUT_LIST);
    once.set_value(0.25, 1, INPUT_LIST);
    let mut twice = once.clone();
    once.calculate();
    assert_eq!(once.hidden_list, vec![0.5]);
    assert_eq!(once.output_list, vec![0.0]);
    twice.calculate();
    twice.calculate();
    assert_eq!(twice.hidden_list, vec![1.0]);
    assert_eq!(twice.output_list, vec![-0.5]);
}

#[test]
fn clearing_between_evaluations_repeats_the_result() {
    let behavior = Linear;
    let genes = vec![3000, FROM_HIDDEN | TO_OUTPUT | 6000];
    let mut agent = agent_with(&behavior, genes, (1, 1, 1), MutationRate::new(0));
    agent.set_value(2.0, 0, INPUT_LIST);
    agent.calculate();
    let first = agent.output_list.clone();
    agent.clear_values();
    assert_eq!(agent.input_list, vec![2.0]);
    assert_eq!(agent.hidden_list, vec![0.0]);
    assert_eq!(agent.output_list, vec![0.0]);
    agent.calculate();
    assert_eq!(agent.output_list, first);
    assert_eq!(first, vec![1.0]);
}

#[test]
fn clearing_keeps_the_input_that_was_written() {
    let behavior = Linear;
    let mut agent = agent_with(&behavior, vec![0x0080_1770], (1, 1, 1), MutationRate::new(0));
    agent.set_value(0.37, 0, INPUT_LIST);
    agent.set_value(5.0, 0, HIDDEN_LIST);
    agent.set_value(5.0, 0, OUTPUT_LIST);
    agent.clear_values();
    assert_eq!(agent.input_list, vec![0.37]);
    assert_eq!(agent.hidden_list, vec![0.0]);
    assert_eq!(agent.output_list, vec![0.0]);
    agent.calculate();
    assert_eq!(agent.output_list, vec![0.37]);
}

#[test]
fn input_sourced_connections_are_applied_before_hidden_sourced_ones() {
    let behavior = Linear;
    let genes = vec![FROM_HIDDEN | TO_OUTPUT | 6000, 6000];
    let mut agent = agent_with(&behavior, genes, (1, 1, 1), MutationRate::new(0));
    agent.set_value(0.5, 0, INPUT_LIST);
    agent.calculate();
    assert_eq!(agent.hidden_list, vec![0.5]);
    assert_eq!(agent.output_list, vec![0.5]);
}

#[test]
fn hidden_chains_are_read_in_genome_order() {
    let behavior = Linear;
    let first_hidden_to_output = FROM_HIDDEN | TO_OUTPUT | 6000;
    let second_hidden_to_first = FROM_HIDDEN | (1 << 24) | 6000;
    let input_to_second_hidden = (1 << 16) | 6000;
    let genes = vec![first_hidden_to_output, second_hidden_to_first, input_to_second_hidden];
    let mut agent = agent_with(&behavior, genes, (1, 2, 1), MutationRate::new(0));
    agent.set_value(1.0, 0, INPUT_LIST);
    agent.calculate();
    assert_eq!(agent.hidden_list, vec![1.0, 1.0]);
    assert_eq!(agent.output_list, vec![0.0]);
}

#[test]
fn each_layer_uses_its_own_activation() {
    let behavior = Plain;
    let genes = vec![6000, FROM_HIDDEN | TO_OUTPUT | 3000];
    let mut agent = agent_with(&behavior, genes, (1, 1, 1), MutationRate::new(0));
    agent.set_value(3.0, 0, INPUT_LIST);
    agent.calculate();
    assert_eq!(agent.hidden_list, vec![3.0]);
    assert_eq!(agent.output_list, vec![3.0]);
}

#[test]
fn activation_is_applied_before_the_weight() {
    let behavior = Shifted;
    let mut agent = agent_with(&behavior, vec![TO_OUTPUT | 3000], (1, 1, 1), MutationRate::new(0));
    agent.set_value(3.0, 0, INPUT_LIST);
    agent.calculate();
    assert_eq!(agent.output_list, vec![2.0]);
}

#[test]
fn negative_weight_subtracts() {
    let behavior = Linear;
    let genes = vec![TO_OUTPUT | NEGATIVE | 12000, TO_OUTPUT | 3000];
    let mut agent = agent_with(&behavior, genes, (1, 1, 1), MutationRate::new(0));
    agent.set_value(1.0, 0, INPUT_LIST);
    agent.calculate();
    assert_eq!(agent.output_list, vec![-1.5]);
}

#[test]
fn calculate_never_resizes_the_buffers() {
    let behavior = Linear;
    let genes: Vec<u32> = (0..200u32).map(|i| i.wrapping_mul(0x9E37_79B9)).collect();
    let mut agent = agent_with(&behavior, genes, (3, 5, 7), MutationRate::new(0));
    agent.set_value(1.0, 0, INPUT_LIST);
    agent.set_value(-1.0, 2, INPUT_LIST);
    let input = agent.input_list.clone();
    agent.calculate();
    assert_eq!(agent.input_list, input);
    assert_eq!(agent.hidden_list.len(), 5);
    assert_eq!(agent.output_list.len(), 7);
}

#[test]
fn set_value_writes_the_named_layer() {
    let behavior = Linear;
    let mut agent = agent_with(&behavior, vec![], (2, 3, 2), MutationRate::new(0));
    agent.set_value(1.0, 1, INPUT_LIST);
    agent.set_value(2.0, 2, HIDDEN_LIST);
    agent.set_value(3.0, 0, OUTPUT_LIST);
    assert_eq!(agent.input_list, vec![0.0, 1.0]);
    assert_eq!(agent.hidden_list, vec![0.0, 0.0, 2.0]);
    assert_eq!(agent.output_list, vec![3.0, 0.0]);
    assert_eq!((INPUT_LIST, HIDDEN_LIST, OUTPUT_LIST), (0, 1, 2));
}

#[test]
fn fitness_is_the_behaviours_score_of_the_output() {
    let behavior = Linear;
    let mut agent = agent_with(&behavior, vec![], (1, 1, 2), MutationRate::new(0));
    agent.set_value(1.0, 0, OUTPUT_LIST);
    agent.set_value(3.0, 1, OUTPUT_LIST);
    assert_eq!(agent.fitness, UNSCORED);
    assert_eq!(agent.calculate_fitness(&vec![0.0, 1.0]), Ok(()));
    assert_eq!(agent.fitness, 2.5f32.to_bits() as u64);
    assert_eq!(agent.output_list, vec![1.0, 3.0]);
}

#[test]
fn fitness_against_a_vector_of_the_wrong_length_is_refused() {
    let behavior = Linear;
    let mut agent = agent_with(&behavior, vec![], (1, 1, 2), MutationRate::new(0));
    agent.fitness = 42;
    assert_eq!(agent.calculate_fitness(&vec![0.0]), Err(ConfigError::LengthMismatch));
    assert_eq!(agent.calculate_fitness(&vec![0.0, 0.0, 0.0]), Err(ConfigError::LengthMismatch));
    assert_eq!(agent.fitness, 42);
}

#[test]
fn evaluate_clears_loads_runs_and_scores() {
    let behavior = Linear;
    let genes = vec![TO_OUTPUT | 6000];
    let mut agent = agent_with(&behavior, genes, (1, 1, 1), MutationRate::new(0));
    agent.set_value(9.0, 0, OUTPUT_LIST);
    agent.set_value(9.0, 0, HIDDEN_LIST);
    assert_eq!(agent.evaluate(&vec![0.5], &vec![1.0]), Ok(()));
    assert_eq!(agent.input_list, vec![0.5]);
    assert_eq!(agent.hidden_list, vec![0.0]);
    assert_eq!(agent.output_list, vec![0.5]);
    assert_eq!(agent.fitness, 0.25f32.to_bits() as u64);
    assert_eq!(agent.evaluate(&vec![0.5], &vec![1.0]), Ok(()));
    assert_eq!(agent.output_list, vec![0.5]);
}

#[test]
fn evaluate_refuses_vectors_that_do_not_fit() {
    let behavior = Linear;
    let mut agent = agent_with(&behavior, vec![TO_OUTPUT | 6000], (2, 1, 1), MutationRate::new(0));
    agent.set_value(7.0, 0, OUTPUT_LIST);
    assert!(agent.accepts(&vec![1.0, 2.0], &vec![1.0]));
    assert!(!agent.accepts(&vec![1.0], &vec![1.0]));
    assert_eq!(agent.evaluate(&vec![1.0], &vec![1.0]), Err(ConfigError::LengthMismatch));
    assert_eq!(agent.evaluate(&vec![1.0, 2.0], &Vec::<f32>::new()), Err(ConfigError::LengthMismatch));
    assert_eq!(agent.output_list, vec![7.0]);
    assert_eq!(agent.fitness, UNSCORED);
}

#[test]
fn create_agents_makes_zeroed_agents() {
    let behavior = Linear;
    let rate = MutationRate::from_ratio(1, 10).unwrap();
    let agents = create_agents(5, 4, 1, 2, 3, rate, &behavior).unwrap();
    assert_eq!(agents.len(), 5);
    for agent in &agents {
        assert_eq!(agent.genome.gene_list, vec![0, 0, 0, 0]);
        assert_eq!(
            (agent.genome.input_neurons, agent.genome.hidden_neurons, agent.genome.output_neurons),
            (1, 2, 3)
        );
        assert_eq!(agent.input_list, vec![0.0]);
        assert_eq!(agent.hidden_list, vec![0.0, 0.0]);
        assert_eq!(agent.output_list, vec![0.0, 0.0, 0.0]);
        assert_eq!(agent.mutation_rate, rate);
        assert_eq!(agent.fitness, UNSCORED);
    }
    assert_eq!(UNSCORED, u64::MAX);
    assert!(create_agents(0, 4, 1, 2, 3, rate, &behavior).unwrap().is_empty());
}

#[test]
fn fresh_agents_start_at_the_fitness_given() {
    let behavior = Linear;
    let rate = MutationRate::from_ratio(1, 10).unwrap();
    let start = 100.0f32.to_bits() as u64;
    let agents = create_agents_with_fitness(20, 4, 1, 2, 1, rate, &behavior, start).unwrap();
    assert_eq!(agents.len(), 20);
    for agent in &agents {
        assert_eq!(agent.genome.gene_list, vec![0, 0, 0, 0]);
        assert_eq!(agent.output_list, vec![0.0]);
        assert_eq!(agent.fitness, start);
        assert_eq!(f32::from_bits(agent.fitness as u32), 100.0);
    }
    assert_eq!(
        create_agents_with_fitness(20, 4, 1, 0, 1, rate, &behavior, start).err(),
        Some(ConfigError::EmptyLayer)
    );
}

#[test]
fn create_agents_refuses_an_empty_layer() {
    let behavior = Linear;
    let rate = MutationRate::new(0);
    assert_eq!(create_agents(2, 4, 0, 2, 3, rate, &behavior).err(), Some(ConfigError::EmptyLayer));
    assert_eq!(create_agents(2, 4, 1, 0, 3, rate, &behavior).err(), Some(ConfigError::EmptyLayer));
    assert_eq!(create_agents(2, 4, 1, 2, 0, rate, &behavior).err(), Some(ConfigError::EmptyLayer));
    assert_eq!(create_agents(0, 0, 0, 0, 0, rate, &behavior).err(), Some(ConfigError::EmptyLayer));
}

#[test]
fn reproduction_preserves_shape() {
    let behavior = Linear;
    let rate = MutationRate::from_ratio(1, 2).unwrap();
    let genes: Vec<u32> = (0..17u32).map(|i| i.wrapping_mul(0x9E37_79B9)).collect();
    let mut parent = agent_with(&behavior, genes.clone(), (2, 3, 4), rate);
    parent.set_value(1.0, 0, INPUT_LIST);
    parent.calculate();
    parent.fitness = 1234;
    let mut rng = StdRng::seed_from_u64(3);
    for _ in 0..20 {
        let child = parent.reproduce(&mut rng);
        assert_eq!(child.genome.gene_list.len(), 17);
        assert_eq!(
            (child.genome.input_neurons, child.genome.hidden_neurons, child.genome.output_neurons),
            (2, 3, 4)
        );
        assert_eq!(child.input_list, vec![0.0; 2]);
        assert_eq!(child.hidden_list, vec![0.0; 3]);
        assert_eq!(child.output_list, vec![0.0; 4]);
        assert_eq!(child.mutation_rate, rate);
        assert_eq!(child.fitness, 1234);
        assert_ne!(child.genome.gene_list, genes);
    }
    assert_eq!(parent.genome.gene_list, genes);
}

#[test]
fn reproduction_at_rate_zero_copies_the_genes() {
    let behavior = Linear;
    let genes = vec![1, 2, 3, 0xFFFF_FFFF];
    let parent = agent_with(&behavior, genes.clone(), (1, 1, 1), MutationRate::new(0));
    let mut rng = StdRng::seed_from_u64(11);
    let child = parent.reproduce(&mut rng);
    assert_eq!(child.genome.gene_list, genes);
}

#[test]
fn reproduction_at_the_highest_rate_inverts_the_genes() {
    let behavior = Linear;
    let genes = vec![1, 2, 3, 0xFFFF_FFFF];
    let parent = agent_with(&behavior, genes, (1, 1, 1), MutationRate::new(u32::MAX));
    let mut rng = StdRng::seed_from_u64(11);
    let child = parent.reproduce(&mut rng);
    assert_eq!(child.genome.gene_list, vec![!1, !2, !3, 0]);
}

#[test]
fn reproduce_with_flips_the_bits_of_each_mask() {
    let behavior = Linear;
    let mut parent = agent_with(&behavior, vec![0b1100, 0xFFFF_0000, 7], (2, 2, 2), MutationRate::new(5));
    parent.set_value(4.0, 1, HIDDEN_LIST);
    parent.fitness = 8;
    let child = parent.reproduce_with(&vec![0b1010, 0xFFFF_FFFF, 0]).ok().unwrap();
    assert_eq!(child.genome.gene_list, vec![0b0110, 0x0000_FFFF, 7]);
    assert_eq!(child.hidden_list, vec![0.0, 0.0]);
    assert_eq!(child.fitness, 8);
    assert_eq!(child.mutation_rate, MutationRate::new(5));
    assert_eq!(parent.reproduce_with(&vec![1, 2]).err(), Some(ConfigError::LengthMismatch));
    assert_eq!(parent.reproduce_with(&vec![1, 2, 3, 4]).err(), Some(ConfigError::LengthMismatch));
}

#[test]
fn offspring_flips_the_bits_of_each_mask() {
    let behavior = Linear;
    let mut parent = agent_with(&behavior, vec![0b1100, 0xFFFF_0000, 7], (2, 2, 2), MutationRate::new(5));
    parent.set_value(4.0, 1, INPUT_LIST);
    parent.fitness = 8;
    let child = parent.offspring(&vec![0b1010, 0, 0xFFFF_FFFF]);
    assert_eq!(child.genome.gene_list, vec![0b0110, 0xFFFF_0000, !7]);
    assert_eq!(child.input_list, vec![0.0, 0.0]);
    assert_eq!(child.fitness, 8);
    assert_eq!(parent.genome.gene_list, vec![0b1100, 0xFFFF_0000, 7]);
}

#[test]
fn child_is_inverted_when_every_trial_is_below_the_rate() {
    let behavior = Linear;
    let rate = MutationRate::from_ratio(1, 2).unwrap();
    let genes = vec![0, 1, 0xDEAD_BEEF, u32::MAX];
    let parent = agent_with(&behavior, genes.clone(), (1, 1, 1), rate);
    let masks: Vec<u32> = genes.iter().map(|_| mutation_mask(rate, &[0x7FFF_FFFF; 32])).collect();
    let child = parent.reproduce_with(&masks).ok().unwrap();
    for (mutated, gene) in child.genome.gene_list.iter().zip(genes.iter()) {
        assert_eq!(*mutated, !*gene);
        assert_eq!((mutated ^ gene).count_ones(), 32);
    }
}

#[test]
fn clone_copies_everything() {
    let behavior = Linear;
    let mut agent = agent_with(&behavior, vec![5, 6], (1, 2, 1), MutationRate::new(9));
    agent.set_value(1.5, 1, HIDDEN_LIST);
    agent.fitness = 77;
    let mut copy = agent.clone();
    assert_eq!(copy.genome.gene_list, vec![5, 6]);
    assert_eq!(copy.hidden_list, vec![0.0, 1.5]);
    assert_eq!(copy.fitness, 77);
    assert_eq!(copy.mutation_rate, MutationRate::new(9));
    copy.set_value(2.0, 0, HIDDEN_LIST);
    copy.genome.gene_list[0] = 0;
    assert_eq!(agent.hidden_list, vec![0.0, 1.5]);
    assert_eq!(agent.genome.gene_list, vec![5, 6]);
}

#[test]
fn well_formed_agents_have_buffers_that_fit_their_genome() {
    let behavior = Linear;
    let mut agent = agent_with(&behavior, vec![1, 2], (1, 2, 3), MutationRate::new(0));
    assert!(agent.is_well_formed());
    agent.hidden_list.push(0.0);
    assert!(!agent.is_well_formed());
    agent.hidden_list.pop();
    assert!(agent.is_well_formed());
    agent.genome.output_neurons = 0;
    agent.output_list.clear();
    assert!(!agent.is_well_formed());
    agent.genome = Genome::new(vec![], 2, 2, 3).unwrap();
    assert!(!agent.is_well_formed());
}

#[test]
fn genome_can_be_replaced_by_one_of_the_same_shape() {
    let behavior = Linear;
    let mut agent = agent_with(&behavior, vec![], (1, 1, 1), MutationRate::new(0));
    agent.genome = Genome::new(vec![TO_OUTPUT | 3000], 1, 1, 1).unwrap();
    agent.set_value(1.0, 0, INPUT_LIST);
    agent.calculate();
    assert_eq!(agent.output_list, vec![0.5]);
}
