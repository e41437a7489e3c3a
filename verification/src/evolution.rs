//! The evolutionary loop: rank the population by fitness, keep the better
//! half, and refill it with mutated children of the survivors.
//!
//! Fitness is an error: the lower, the better. Reproduction is asexual; a
//! child has exactly one parent.

use vstd::prelude::*;
use rand::rngs::StdRng;
use rand::Rng;
use crate::agent::Agent;
use crate::behavior::Behavior;
use crate::error::ConfigError;

verus! {

/// How a parent is picked among the survivors for each child that refills
/// the population.
#[derive(Clone, Copy, Debug, PartialEq, Eq, Structural)]
pub enum Refill {
    /// The survivors take turns, best first, starting over when all have had
    /// their turn.
    Cycle,
    /// Each child's parent is drawn at random among the survivors.
    Random,
}

/// The agents are in ascending order of fitness: best first.
pub open spec fn ascending<'a, B: Behavior>(agents: Seq<Agent<'a, B>>) -> bool {
    forall|i: int, j: int| 0 <= i <= j < agents.len() ==> agents[i].fitness <= agents[j].fitness
}

/// The agents whose fitness is `fitness`, in their given order.
pub open spec fn with_fitness<'a, B: Behavior>(agents: Seq<Agent<'a, B>>, fitness: u64) -> Seq<Agent<'a, B>> {
    agents.filter(|agent: Agent<'a, B>| agent.fitness == fitness)
}

/// `ranked` with `agent` put in behind the last agent that is at least as
/// good as it.
pub open spec fn insert_ranked<'a, B: Behavior>(ranked: Seq<Agent<'a, B>>, agent: Agent<'a, B>) -> Seq<
    Agent<'a, B>,
>
    decreases ranked.len(),
{
    if ranked.len() == 0 {
        seq![agent]
    } else if ranked.last().fitness <= agent.fitness {
        ranked.push(agent)
    } else {
        insert_ranked(ranked.drop_last(), agent).push(ranked.last())
    }
}

/// The population in ascending order of fitness, agents of equal fitness in
/// the order they had.
pub open spec fn ranking<'a, B: Behavior>(population: Seq<Agent<'a, B>>) -> Seq<Agent<'a, B>>
    decreases population.len(),
{
    if population.len() == 0 {
        population
    } else {
        insert_ranked(ranking(population.drop_last()), population.last())
    }
}

/// The best half of the population, best first: the survivors of one
/// truncation selection.
pub open spec fn survivors<'a, B: Behavior>(population: Seq<Agent<'a, B>>) -> Seq<Agent<'a, B>> {
    ranking(population).take(population.len() as int / 2)
}

/// The worse half of the population: those that a truncation selection
/// discards.
pub open spec fn discarded<'a, B: Behavior>(population: Seq<Agent<'a, B>>) -> Seq<Agent<'a, B>> {
    ranking(population).skip(population.len() as int / 2)
}

proof fn lemma_insert_ranked<'a, B: Behavior>(ranked: Seq<Agent<'a, B>>, agent: Agent<'a, B>)
    ensures
        insert_ranked(ranked, agent).len() == ranked.len() + 1,
        insert_ranked(ranked, agent).to_multiset() == ranked.to_multiset().insert(agent),
        ascending(ranked) ==> ascending(insert_ranked(ranked, agent)),
        forall|fitness: u64| #[trigger]
            with_fitness(insert_ranked(ranked, agent), fitness) == if agent.fitness == fitness {
                with_fitness(ranked, fitness).push(agent)
            } else {
                with_fitness(ranked, fitness)
            },
        forall|i: int|
            0 <= i < ranked.len() + 1 ==> (#[trigger] insert_ranked(ranked, agent)[i]) == agent || ranked.contains(
                insert_ranked(ranked, agent)[i],
            ),
    decreases ranked.len(),
{
    broadcast use vstd::seq_lib::group_to_multiset_ensures;

    reveal(Seq::filter);
    let result = insert_ranked(ranked, agent);
    if ranked.len() == 0 {
        assert(ranked =~= Seq::empty());
        assert(result =~= Seq::<Agent<'a, B>>::empty().push(agent));
        assert forall|fitness: u64| #[trigger]
            with_fitness(result, fitness) == if agent.fitness == fitness {
                with_fitness(ranked, fitness).push(agent)
            } else {
                with_fitness(ranked, fitness)
            } by {
            assert(result.drop_last() =~= ranked);
        }
    } else if ranked.last().fitness <= agent.fitness {
        assert forall|fitness: u64| #[trigger]
            with_fitness(result, fitness) == if agent.fitness == fitness {
                with_fitness(ranked, fitness).push(agent)
            } else {
                with_fitness(ranked, fitness)
            } by {
            assert(result.drop_last() =~= ranked);
        }
        assert forall|i: int| 0 <= i < ranked.len() + 1 implies (#[trigger] result[i]) == agent || ranked.contains(
            result[i],
        ) by {
            if i < ranked.len() {
                assert(ranked[i] == result[i]);
            }
        }
    } else {
        let front = ranked.drop_last();
        let last = ranked.last();
        let inner = insert_ranked(front, agent);
        lemma_insert_ranked(front, agent);
        assert(ranked =~= front.push(last));
        assert(result.drop_last() =~= inner);
        assert forall|fitness: u64| #[trigger]
            with_fitness(result, fitness) == if agent.fitness == fitness {
                with_fitness(ranked, fitness).push(agent)
            } else {
                with_fitness(ranked, fitness)
            } by {
            assert(with_fitness(inner, fitness) == if agent.fitness == fitness {
                with_fitness(front, fitness).push(agent)
            } else {
                with_fitness(front, fitness)
            });
            assert(ranked.drop_last() =~= front);
        }
        assert forall|i: int| 0 <= i < ranked.len() + 1 implies (#[trigger] result[i]) == agent || ranked.contains(
            result[i],
        ) by {
            if i < ranked.len() {
                assert(result[i] == inner[i]);
                if inner[i] != agent {
                    assert(front.contains(inner[i]));
                    let k = choose|k: int| 0 <= k < front.len() && front[k] == inner[i];
                    assert(ranked[k] == inner[i]);
                }
            } else {
                assert(result[i] == last);
                assert(ranked[ranked.len() - 1] == last);
            }
        }
        if ascending(ranked) {
            assert(ascending(front)) by {
                assert forall|i: int, j: int| 0 <= i <= j < front.len() implies front[i].fitness
                    <= front[j].fitness by {
                    assert(ranked[i].fitness <= ranked[j].fitness);
                }
            }
            assert forall|i: int, j: int| 0 <= i <= j < result.len() implies result[i].fitness
                <= result[j].fitness by {
                if j < inner.len() {
                    assert(result[i] == inner[i] && result[j] == inner[j]);
                } else if i < inner.len() {
                    assert(result[i] == inner[i]);
                    if inner[i] != agent {
                        let k = choose|k: int| 0 <= k < front.len() && front[k] == inner[i];
                        assert(ranked[k].fitness <= ranked[ranked.len() - 1].fitness);
                    }
                }
            }
        }
    }
}

/// A ranking is in ascending order of fitness.
pub proof fn lemma_ranking_ascending<'a, B: Behavior>(population: Seq<Agent<'a, B>>)
    ensures
        ascending(ranking(population)),
    decreases population.len(),
{
    if population.len() > 0 {
        lemma_ranking_ascending(population.drop_last());
        lemma_insert_ranked(ranking(population.drop_last()), population.last());
    }
}

/// A ranking rearranges the population: it holds every agent exactly as
/// often as the population does.
pub proof fn lemma_ranking_permutes<'a, B: Behavior>(population: Seq<Agent<'a, B>>)
    ensures
        ranking(population).len() == population.len(),
        ranking(population).to_multiset() == population.to_multiset(),
    decreases population.len(),
{
    broadcast use vstd::seq_lib::group_to_multiset_ensures;

    if population.len() > 0 {
        lemma_ranking_permutes(population.drop_last());
        lemma_insert_ranked(ranking(population.drop_last()), population.last());
        assert(population =~= population.drop_last().push(population.last()));
    }
}

/// A ranking is stable: the agents of any one fitness stand in the order
/// they had in the population.
pub proof fn lemma_ranking_stable<'a, B: Behavior>(population: Seq<Agent<'a, B>>, fitness: u64)
    ensures
        with_fitness(ranking(population), fitness) == with_fitness(population, fitness),
    decreases population.len(),
{
    reveal(Seq::filter);
    if population.len() > 0 {
        lemma_ranking_stable(population.drop_last(), fitness);
        lemma_insert_ranked(ranking(population.drop_last()), population.last());
    }
}

/// Selection is monotone: no survivor of a truncation selection is worse
/// than any agent that the selection discards. In particular the best
/// fitness among the survivors is at most the best fitness among the
/// discarded.
pub proof fn lemma_selection_monotone<'a, B: Behavior>(population: Seq<Agent<'a, B>>)
    ensures
        survivors(population).len() == population.len() / 2,
        survivors(population) + discarded(population) == ranking(population),
        ranking(population).to_multiset() == population.to_multiset(),
        forall|i: int, j: int|
            0 <= i < survivors(population).len() && 0 <= j < discarded(population).len() ==> (
            #[trigger] survivors(population)[i]).fitness <= (#[trigger] discarded(population)[j]).fitness,
{
    lemma_ranking_ascending(population);
    lemma_ranking_permutes(population);
    let ranked = ranking(population);
    let half = population.len() as int / 2;
    assert(survivors(population) + discarded(population) =~= ranked);
    assert forall|i: int, j: int|
        0 <= i < survivors(population).len() && 0 <= j < discarded(population).len() implies (
    #[trigger] survivors(population)[i]).fitness <= (#[trigger] discarded(population)[j]).fitness by {
        assert(survivors(population)[i] == ranked[i]);
        assert(discarded(population)[j] == ranked[half + j]);
    }
}

/// Sorts the agents by ascending fitness, best first. Agents of equal
/// fitness keep the order they had.
pub fn rank<'a, B: Behavior>(agents: &mut Vec<Agent<'a, B>>)
    ensures
        final(agents)@ == ranking(old(agents)@),
        final(agents)@.len() == old(agents)@.len(),
        ascending(final(agents)@),
        final(agents)@.to_multiset() == old(agents)@.to_multiset(),
        forall|fitness: u64| #[trigger]
            with_fitness(final(agents)@, fitness) == with_fitness(old(agents)@, fitness),
{
    let n = agents.len();
    let ghost population = agents@;
    let mut i: usize = 0;
    assert(agents@.take(0) =~= ranking(population.take(0)));
    while i < n
        invariant
            i <= n,
            n == population.len(),
            agents@.len() == n,
            agents@.take(i as int) == ranking(population.take(i as int)),
            agents@.skip(i as int) == population.skip(i as int),
        decreases n - i,
    {
        let ghost ranked = agents@.take(i as int);
        let ghost rest = agents@.skip(i + 1);
        assert(agents@[i as int] == agents@.skip(i as int)[0]);
        assert(rest =~= population.skip(i + 1)) by {
            assert(rest =~= agents@.skip(i as int).skip(1));
            assert(population.skip(i + 1) =~= population.skip(i as int).skip(1));
        }
        let agent = agents.remove(i);
        assert(agents@ =~= ranked + rest);
        let mut j: usize = i;
        assert(ranked.take(j as int) =~= ranked && ranked.skip(j as int) =~= Seq::empty());
        assert(insert_ranked(ranked.take(j as int), agent) + ranked.skip(j as int) =~= insert_ranked(ranked, agent));
        while j > 0 && agents[j - 1].fitness > agent.fitness
            invariant
                j <= i,
                i < n,
                ranked.len() == i,
                agents@ == ranked + rest,
                insert_ranked(ranked, agent) == insert_ranked(ranked.take(j as int), agent) + ranked.skip(j as int),
            decreases j,
        {
            proof {
                let prefix = ranked.take(j as int);
                assert(prefix.last() == agents@[j - 1]);
                assert(prefix.drop_last() =~= ranked.take(j - 1));
                assert(insert_ranked(prefix, agent) == insert_ranked(ranked.take(j - 1), agent).push(
                    prefix.last(),
                ));
                assert(insert_ranked(ranked.take(j - 1), agent).push(prefix.last()) + ranked.skip(j as int)
                    =~= insert_ranked(ranked.take(j - 1), agent) + ranked.skip(j - 1));
            }
            j -= 1;
        }
        proof {
            let prefix = ranked.take(j as int);
            if j > 0 {
                assert(prefix.last() == agents@[j - 1]);
            }
            assert(insert_ranked(prefix, agent) == prefix.push(agent));
        }
        agents.insert(j, agent);
        proof {
            assert(agents@ =~= insert_ranked(ranked, agent) + rest);
            lemma_insert_ranked(ranked, agent);
            assert(agents@.take(i + 1) =~= insert_ranked(ranked, agent));
            assert(population.take(i + 1).drop_last() =~= population.take(i as int));
            assert(population.take(i + 1).last() == population[i as int]);
            assert(population[i as int] == population.skip(i as int)[0]);
            assert(agents@.skip(i + 1) =~= rest);
        }
        i += 1;
    }
    proof {
        assert(agents@.take(n as int) =~= agents@);
        assert(population.take(n as int) =~= population);
        lemma_ranking_ascending(population);
        lemma_ranking_permutes(population);
        assert forall|fitness: u64| #[trigger]
            with_fitness(agents@, fitness) == with_fitness(population, fitness) by {
            lemma_ranking_stable(population, fitness);
        }
    }
}

/// Calls `rand::Rng::gen_range` on the standard generator with the range
/// from zero up to, and without, `bound`. The contract claims what the
/// method's documentation does: the value lies in the range. The method
/// panics on an empty range, which `requires` leaves out.
#[verifier::external_body]
fn pick_index(rng: &mut StdRng, bound: usize) -> (index: usize)
    requires
        bound > 0,
    ensures
        index < bound,
{
    rng.gen_range(0..bound)
}

/// `child` may fill place `place` among the children of `parents` under
/// `policy`: it is the offspring of a parent that the policy allows for that
/// place, and it has that parent's genes if the parent's mutation rate is
/// zero. When the parents take turns, the parent of place `k` is parent
/// `k % parents.len()`; when parents are drawn, it is any of them.
pub open spec fn fills_place<'a, B: Behavior>(
    child: Agent<'a, B>,
    parents: Seq<Agent<'a, B>>,
    place: int,
    policy: Refill,
) -> bool {
    exists|p: int|
        {
            &&& 0 <= p < parents.len()
            &&& policy == Refill::Cycle ==> p == place % (parents.len() as int)
            &&& #[trigger] child.is_offspring_of(&parents[p])
            &&& parents[p].mutation_rate.threshold == 0 ==> child.genome.gene_list@
                == parents[p].genome.gene_list@
        }
}

/// `after` is `parents` refilled to `size` agents under `policy`: the
/// parents stay in front, as they were, and behind them stand their
/// children.
pub open spec fn is_refill_of<'a, B: Behavior>(
    after: Seq<Agent<'a, B>>,
    parents: Seq<Agent<'a, B>>,
    size: int,
    policy: Refill,
) -> bool {
    &&& after.len() == size
    &&& parents.len() <= size
    &&& after.take(parents.len() as int) == parents
    &&& forall|k: int|
        parents.len() <= k < size ==> fills_place(#[trigger] after[k], parents, k - parents.len(), policy)
}

/// Every agent of the population is well formed.
pub open spec fn all_wf<'a, B: Behavior>(agents: Seq<Agent<'a, B>>) -> bool {
    forall|i: int| 0 <= i < agents.len() ==> (#[trigger] agents[i]).wf()
}

/// `after` is `before` with every agent evaluated afresh on `input` and
/// scored against `expected`.
pub open spec fn is_evaluation_of<'a, B: Behavior>(
    after: Seq<Agent<'a, B>>,
    before: Seq<Agent<'a, B>>,
    input: Seq<B::Signal>,
    expected: Vec<B::Signal>,
) -> bool {
    &&& after.len() == before.len()
    &&& forall|k: int|
        0 <= k < before.len() ==> (#[trigger] after[k]).is_evaluation_of(&before[k], input, expected)
}

/// Every agent of the population takes an input of this length and an
/// expected output of that length.
pub open spec fn all_accept<'a, B: Behavior>(agents: Seq<Agent<'a, B>>, input_len: nat, expected_len: nat) -> bool {
    forall|i: int|
        0 <= i < agents.len() ==> (#[trigger] agents[i]).genome.input_neurons == input_len
            && agents[i].genome.output_neurons == expected_len
}

proof fn lemma_ranking_keeps_wf<'a, B: Behavior>(population: Seq<Agent<'a, B>>)
    requires
        all_wf(population),
    ensures
        all_wf(ranking(population)),
{
    broadcast use vstd::seq_lib::group_to_multiset_ensures;

    lemma_ranking_permutes(population);
    let ranked = ranking(population);
    assert forall|i: int| 0 <= i < ranked.len() implies (#[trigger] ranked[i]).wf() by {
        assert(ranked.contains(ranked[i]));
        assert(ranked.to_multiset().count(ranked[i]) > 0);
        assert(population.contains(ranked[i]));
    }
}

/// Truncation selection: keeps the best half of the population, best first,
/// and discards the rest. A population of odd size loses one agent more than
/// it keeps.
pub fn select<'a, B: Behavior>(agents: &mut Vec<Agent<'a, B>>)
    ensures
        final(agents)@ == survivors(old(agents)@),
        final(agents)@.len() == old(agents)@.len() / 2,
        all_wf(old(agents)@) ==> all_wf(final(agents)@),
{
    let half = agents.len() / 2;
    rank(agents);
    proof {
        if all_wf(old(agents)@) {
            lemma_ranking_keeps_wf(old(agents)@);
        }
    }
    agents.truncate(half);
}

/// Refills the population to `size` agents: as long as agents are missing,
/// one of those that were there at the start reproduces, and its child is
/// added at the end. `policy` says whose turn it is. A population that has
/// `size` agents or more stays as it is.
///
/// Nobody can be born into an empty population.
pub fn refill<'a, B: Behavior>(agents: &mut Vec<Agent<'a, B>>, size: usize, policy: Refill, rng: &mut StdRng)
    requires
        all_wf(old(agents)@),
        old(agents)@.len() == 0 ==> size == 0,
    ensures
        size <= old(agents)@.len() ==> final(agents)@ == old(agents)@,
        size > old(agents)@.len() ==> is_refill_of(final(agents)@, old(agents)@, size as int, policy),
        all_wf(final(agents)@),
{
    let parents = agents.len();
    if size <= parents {
        return;
    }
    let mut k: usize = parents;
    let mut turn: usize = 0;
    assert(agents@.take(parents as int) =~= old(agents)@);
    assert(0int % (parents as int) == 0);
    while k < size
        invariant
            0 < parents <= k <= size,
            parents == old(agents)@.len(),
            agents@.len() == k,
            turn == (k - parents) % (parents as int),
            agents@.take(parents as int) == old(agents)@,
            all_wf(agents@),
            forall|j: int|
                parents <= j < k ==> fills_place(#[trigger] agents@[j], old(agents)@, j - parents, policy),
        decreases size - k,
    {
        let parent = match policy {
            Refill::Cycle => turn,
            Refill::Random => pick_index(rng, parents),
        };
        assert(agents@[parent as int] == agents@.take(parents as int)[parent as int]);
        let child = agents[parent].reproduce(rng);
        agents.push(child);
        proof {
            assert(child.is_offspring_of(&old(agents)@[parent as int]));
            assert(fills_place(child, old(agents)@, k - parents, policy));
            assert(agents@.take(parents as int) =~= old(agents)@);
            assert((k + 1 - parents) % (parents as int) == if turn + 1 == parents {
                0
            } else {
                turn + 1
            }) by (nonlinear_arith)
                requires
                    turn == (k - parents) % (parents as int),
                    0 < parents <= k,
            ;
        }
        turn = if turn + 1 == parents {
            0
        } else {
            turn + 1
        };
        k += 1;
    }
}

/// One step of selection and reproduction on a population that has been
/// scored: the agents are ranked by fitness, the better half survives, and
/// the survivors' children bring the population back to its size. The best
/// agent stands first.
///
/// A population of one has no better half to breed from.
pub fn next_generation<'a, B: Behavior>(agents: &mut Vec<Agent<'a, B>>, policy: Refill, rng: &mut StdRng)
    requires
        all_wf(old(agents)@),
        old(agents)@.len() != 1,
    ensures
        final(agents)@.len() == old(agents)@.len(),
        final(agents)@.take(old(agents)@.len() as int / 2) == survivors(old(agents)@),
        is_refill_of(final(agents)@, survivors(old(agents)@), old(agents)@.len() as int, policy),
        all_wf(final(agents)@),
{
    let size = agents.len();
    select(agents);
    refill(agents, size, policy, rng);
    proof {
        if size == 0 {
            assert(final(agents)@.take(0) =~= survivors(old(agents)@));
        }
    }
}

/// Whether every agent has one input neuron for each value of `input` and one
/// output neuron for each value of `expected`.
pub fn population_accepts<'a, B: Behavior>(
    agents: &Vec<Agent<'a, B>>,
    input: &Vec<B::Signal>,
    expected: &Vec<B::Signal>,
) -> (fits: bool)
    requires
        all_wf(agents@),
    ensures
        fits == all_accept(agents@, input@.len(), expected@.len()),
{
    let n = agents.len();
    let mut i: usize = 0;
    while i < n
        invariant
            i <= n,
            n == agents@.len(),
            all_wf(agents@),
            all_accept(agents@.take(i as int), input@.len(), expected@.len()),
        decreases n - i,
    {
        if !agents[i].accepts(input, expected) {
            return false;
        }
        i += 1;
    }
    assert(agents@.take(n as int) =~= agents@);
    true
}

/// Evaluates every agent afresh on `input` and scores it against `expected`.
///
/// Fails with [`ConfigError::LengthMismatch`], and changes nothing, exactly
/// when some agent has not one input neuron for each value of `input` and
/// one output neuron for each value of `expected`.
pub fn evaluate_all<'a, B: Behavior>(
    agents: &mut Vec<Agent<'a, B>>,
    input: &Vec<B::Signal>,
    expected: &Vec<B::Signal>,
) -> (r: Result<(), ConfigError>)
    requires
        all_wf(old(agents)@),
    ensures
        !all_accept(old(agents)@, input@.len(), expected@.len()) <==> r is Err,
        r is Err ==> r->Err_0 == ConfigError::LengthMismatch && final(agents)@ == old(agents)@,
        r is Ok ==> is_evaluation_of(final(agents)@, old(agents)@, input@, *expected),
        all_wf(final(agents)@),
{
    if !population_accepts(agents, input, expected) {
        return Err(ConfigError::LengthMismatch);
    }
    let n = agents.len();
    let mut k: usize = 0;
    while k < n
        invariant
            k <= n,
            n == agents@.len(),
            n == old(agents)@.len(),
            all_accept(old(agents)@, input@.len(), expected@.len()),
            all_wf(old(agents)@),
            all_wf(agents@),
            forall|j: int|
                0 <= j < k ==> (#[trigger] agents@[j]).is_evaluation_of(&old(agents)@[j], input@, *expected),
            forall|j: int| k <= j < n ==> agents@[j] == old(agents)@[j],
        decreases n - k,
    {
        match agents[k].evaluate(input, expected) {
            Ok(()) => {},
            Err(error) => {
                return Err(error);
            },
        }
        k += 1;
    }
    Ok(())
}

/// `after` is `before` one generation on: every agent was evaluated afresh on
/// `input` and scored against `expected`, the better half of the scored
/// population stands in front, best first, and behind it stand the
/// survivors' children.
pub open spec fn is_generation_of<'a, B: Behavior>(
    after: Seq<Agent<'a, B>>,
    before: Seq<Agent<'a, B>>,
    input: Seq<B::Signal>,
    expected: Vec<B::Signal>,
    policy: Refill,
) -> bool {
    exists|scored: Seq<Agent<'a, B>>|
        {
            &&& #[trigger] is_evaluation_of(scored, before, input, expected)
            &&& after.take(scored.len() as int / 2) == survivors(scored)
            &&& is_refill_of(after, survivors(scored), scored.len() as int, policy)
        }
}

/// What one generation is trained on: an input for the network and the
/// output that is expected for it.
pub struct Lesson<S> {
    pub input: Vec<S>,
    pub expected: Vec<S>,
}

/// `after` is `before` after one generation for each lesson, in the order of
/// the lessons.
pub open spec fn evolves<'a, B: Behavior>(
    after: Seq<Agent<'a, B>>,
    before: Seq<Agent<'a, B>>,
    lessons: Seq<Lesson<B::Signal>>,
    policy: Refill,
) -> bool
    decreases lessons.len(),
{
    if lessons.len() == 0 {
        after == before
    } else {
        exists|middle: Seq<Agent<'a, B>>|
            {
                &&& evolves(middle, before, lessons.drop_last(), policy)
                &&& #[trigger] is_generation_of(
                    after,
                    middle,
                    lessons.last().input@,
                    lessons.last().expected,
                    policy,
                )
            }
    }
}

/// Every agent of the population takes every lesson.
pub open spec fn all_accept_lessons<'a, B: Behavior>(agents: Seq<Agent<'a, B>>, lessons: Seq<Lesson<B::Signal>>) -> bool {
    forall|g: int|
        0 <= g < lessons.len() ==> all_accept(
            agents,
            (#[trigger] lessons[g]).input@.len(),
            lessons[g].expected@.len(),
        )
}

/// Some agent of `population` has the layer sizes and the gene count of
/// `agent`.
pub open spec fn has_shape_in<'a, B: Behavior>(agent: Agent<'a, B>, population: Seq<Agent<'a, B>>) -> bool {
    exists|j: int|
        {
            &&& 0 <= j < population.len()
            &&& (#[trigger] population[j]).genome.input_neurons == agent.genome.input_neurons
            &&& population[j].genome.hidden_neurons == agent.genome.hidden_neurons
            &&& population[j].genome.output_neurons == agent.genome.output_neurons
            &&& population[j].genome.gene_list@.len() == agent.genome.gene_list@.len()
        }
}

/// Every agent of `after` has the layer sizes and the gene count of some
/// agent of `before`.
pub open spec fn keeps_shapes<'a, B: Behavior>(after: Seq<Agent<'a, B>>, before: Seq<Agent<'a, B>>) -> bool {
    forall|k: int| 0 <= k < after.len() ==> has_shape_in(#[trigger] after[k], before)
}

/// A generation changes neither the size of the population, nor a layer
/// size, nor the length of a genome: every agent of the new population has
/// the layer sizes and the gene count of an agent of the old one.
pub proof fn lemma_generation_keeps_shapes<'a, B: Behavior>(
    after: Seq<Agent<'a, B>>,
    before: Seq<Agent<'a, B>>,
    input: Seq<B::Signal>,
    expected: Vec<B::Signal>,
    policy: Refill,
)
    requires
        is_generation_of(after, before, input, expected, policy),
    ensures
        after.len() == before.len(),
        keeps_shapes(after, before),
{
    broadcast use vstd::seq_lib::group_to_multiset_ensures;

    let scored = choose|scored: Seq<Agent<'a, B>>|
        {
            &&& #[trigger] is_evaluation_of(scored, before, input, expected)
            &&& after.take(scored.len() as int / 2) == survivors(scored)
            &&& is_refill_of(after, survivors(scored), scored.len() as int, policy)
        };
    let best = survivors(scored);
    let ranked = ranking(scored);
    lemma_ranking_permutes(scored);
    assert forall|p: int| 0 <= p < best.len() implies has_shape_in(#[trigger] best[p], before) by {
        assert(best[p] == ranked[p]);
        assert(ranked.contains(ranked[p]));
        assert(ranked.to_multiset().count(ranked[p]) > 0);
        assert(scored.contains(ranked[p]));
        let j = choose|j: int| 0 <= j < scored.len() && scored[j] == ranked[p];
        assert(scored[j].is_evaluation_of(&before[j], input, expected));
        assert(before[j].genome == best[p].genome);
    }
    assert forall|k: int| 0 <= k < after.len() implies has_shape_in(#[trigger] after[k], before) by {
        let p = if k < best.len() {
            assert(after[k] == after.take(best.len() as int)[k]);
            k
        } else {
            assert(fills_place(after[k], best, k - best.len(), policy));
            choose|p: int|
                {
                    &&& 0 <= p < best.len()
                    &&& policy == Refill::Cycle ==> p == (k - best.len()) % (best.len() as int)
                    &&& #[trigger] after[k].is_offspring_of(&best[p])
                    &&& best[p].mutation_rate.threshold == 0 ==> after[k].genome.gene_list@
                        == best[p].genome.gene_list@
                }
        };
        assert(has_shape_in(best[p], before));
        let j = choose|j: int|
            {
                &&& 0 <= j < before.len()
                &&& (#[trigger] before[j]).genome.input_neurons == best[p].genome.input_neurons
                &&& before[j].genome.hidden_neurons == best[p].genome.hidden_neurons
                &&& before[j].genome.output_neurons == best[p].genome.output_neurons
                &&& before[j].genome.gene_list@.len() == best[p].genome.gene_list@.len()
            };
        assert(before[j].genome.input_neurons == after[k].genome.input_neurons);
    }
}

proof fn lemma_shapes_accept<'a, B: Behavior>(
    after: Seq<Agent<'a, B>>,
    before: Seq<Agent<'a, B>>,
    lessons: Seq<Lesson<B::Signal>>,
)
    requires
        keeps_shapes(after, before),
        all_accept_lessons(before, lessons),
    ensures
        all_accept_lessons(after, lessons),
{
    assert forall|g: int| 0 <= g < lessons.len() implies all_accept(
        after,
        (#[trigger] lessons[g]).input@.len(),
        lessons[g].expected@.len(),
    ) by {
        assert(all_accept(before, lessons[g].input@.len(), lessons[g].expected@.len()));
        assert forall|k: int| 0 <= k < after.len() implies (#[trigger] after[k]).genome.input_neurons
            == lessons[g].input@.len() && after[k].genome.output_neurons == lessons[g].expected@.len() by {
            assert(has_shape_in(after[k], before));
            let j = choose|j: int|
                {
                    &&& 0 <= j < before.len()
                    &&& (#[trigger] before[j]).genome.input_neurons == after[k].genome.input_neurons
                    &&& before[j].genome.hidden_neurons == after[k].genome.hidden_neurons
                    &&& before[j].genome.output_neurons == after[k].genome.output_neurons
                    &&& before[j].genome.gene_list@.len() == after[k].genome.gene_list@.len()
                };
        }
    }
}

/// One generation: every agent is evaluated afresh on `input` and scored
/// against `expected`; then the population is ranked, the better half
/// survives, and the survivors' children refill it. The best agent of the
/// generation stands first.
///
/// Fails with [`ConfigError::LengthMismatch`], and changes nothing, exactly
/// when some agent has not one input neuron for each value of `input` and
/// one output neuron for each value of `expected`.
///
/// A population of one has no better half to breed from.
pub fn generation<'a, B: Behavior>(
    agents: &mut Vec<Agent<'a, B>>,
    input: &Vec<B::Signal>,
    expected: &Vec<B::Signal>,
    policy: Refill,
    rng: &mut StdRng,
) -> (r: Result<(), ConfigError>)
    requires
        all_wf(old(agents)@),
        old(agents)@.len() != 1,
    ensures
        !all_accept(old(agents)@, input@.len(), expected@.len()) <==> r is Err,
        r is Err ==> r->Err_0 == ConfigError::LengthMismatch && final(agents)@ == old(agents)@,
        r is Ok ==> is_generation_of(final(agents)@, old(agents)@, input@, *expected, policy),
        final(agents)@.len() == old(agents)@.len(),
        all_wf(final(agents)@),
{
    match evaluate_all(agents, input, expected) {
        Err(error) => Err(error),
        Ok(()) => {
            next_generation(agents, policy, rng);
            Ok(())
        },
    }
}

/// Runs one generation for each lesson, in order. Afterwards the best agent
/// of the last generation stands first.
///
/// Fails with [`ConfigError::LengthMismatch`], and changes nothing, exactly
/// when the input or the expected output of some lesson does not fit some
/// agent of the population. Layer sizes never change, so lessons that fit at
/// the start fit in every generation.
///
/// A population of one has no better half to breed from.
pub fn evolve<'a, B: Behavior>(
    agents: &mut Vec<Agent<'a, B>>,
    lessons: &Vec<Lesson<B::Signal>>,
    policy: Refill,
    rng: &mut StdRng,
) -> (r: Result<(), ConfigError>)
    requires
        all_wf(old(agents)@),
        old(agents)@.len() != 1,
    ensures
        !all_accept_lessons(old(agents)@, lessons@) <==> r is Err,
        r is Err ==> r->Err_0 == ConfigError::LengthMismatch && final(agents)@ == old(agents)@,
        r is Ok ==> evolves(final(agents)@, old(agents)@, lessons@, policy),
        final(agents)@.len() == old(agents)@.len(),
        all_wf(final(agents)@),
{
    let generations = lessons.len();
    let mut g: usize = 0;
    while g < generations
        invariant
            g <= generations,
            generations == lessons@.len(),
            agents@ == old(agents)@,
            all_wf(agents@),
            all_accept_lessons(agents@, lessons@.take(g as int)),
        decreases generations - g,
    {
        if !population_accepts(agents, &lessons[g].input, &lessons[g].expected) {
            return Err(ConfigError::LengthMismatch);
        }
        g += 1;
    }
    assert(lessons@.take(generations as int) =~= lessons@);
    assert(lessons@.take(0) =~= Seq::empty());
    g = 0;
    while g < generations
        invariant
            g <= generations,
            generations == lessons@.len(),
            agents@.len() == old(agents)@.len(),
            agents@.len() != 1,
            all_wf(agents@),
            all_accept_lessons(old(agents)@, lessons@),
            all_accept_lessons(agents@, lessons@),
            evolves(agents@, old(agents)@, lessons@.take(g as int), policy),
        decreases generations - g,
    {
        let ghost before = agents@;
        assert(all_accept(before, lessons@[g as int].input@.len(), lessons@[g as int].expected@.len()));
        match generation(agents, &lessons[g].input, &lessons[g].expected, policy, rng) {
            Ok(()) => {},
            Err(error) => {
                return Err(error);
            },
        }
        proof {
            lemma_generation_keeps_shapes(
                agents@,
                before,
                lessons@[g as int].input@,
                lessons@[g as int].expected,
                policy,
            );
            lemma_shapes_accept(agents@, before, lessons@);
            assert(lessons@.take(g + 1).drop_last() =~= lessons@.take(g as int));
            assert(lessons@.take(g + 1).last() == lessons@[g as int]);
        }
        g += 1;
    }
    assert(lessons@.take(generations as int) =~= lessons@);
    Ok(())
}

} // verus!
