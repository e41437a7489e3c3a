//! The genome: an ordered sequence of genes and the sizes of the three layers.

use vstd::prelude::*;
use crate::codec::{connection_of, source_hidden, Connection};
use crate::error::ConfigError;

verus! {

/// The genes of one network, in the order they were laid down, together with
/// the number of input, hidden and output neurons they are decoded for.
///
/// The layer sizes are fixed when the genome is made; only the genes vary.
#[derive(Debug)]
pub struct Genome {
    pub gene_list: Vec<u32>,
    pub input_neurons: u32,
    pub hidden_neurons: u32,
    pub output_neurons: u32,
}

/// The genes whose connection starts in the input layer, in their given order.
pub open spec fn input_sourced(genes: Seq<u32>) -> Seq<u32> {
    genes.filter(|g: u32| !crate::codec::source_is_hidden(g))
}

/// The genes whose connection starts in the hidden layer, in their given order.
pub open spec fn hidden_sourced(genes: Seq<u32>) -> Seq<u32> {
    genes.filter(|g: u32| crate::codec::source_is_hidden(g))
}

/// The order in which genes are evaluated: a stable partition, every
/// input-sourced gene before every hidden-sourced gene.
pub open spec fn evaluation_order(genes: Seq<u32>) -> Seq<u32> {
    input_sourced(genes) + hidden_sourced(genes)
}

/// The connections that `genes` decode to, one for one.
pub open spec fn decode_all(genes: Seq<u32>, input_neurons: u32, hidden_neurons: u32, output_neurons: u32) -> Seq<
    Connection,
> {
    Seq::new(
        genes.len(),
        |i: int| crate::codec::decode_spec(genes[i], input_neurons, hidden_neurons, output_neurons),
    )
}

/// Every connection of `plan` fits a network with the given layer sizes.
pub open spec fn plan_fits(plan: Seq<Connection>, input_neurons: u32, hidden_neurons: u32, output_neurons: u32) -> bool {
    forall|i: int|
        0 <= i < plan.len() ==> crate::codec::connection_fits(
            #[trigger] plan[i],
            input_neurons,
            hidden_neurons,
            output_neurons,
        )
}

proof fn lemma_filter_push(s: Seq<u32>, pred: spec_fn(u32) -> bool, x: u32)
    ensures
        s.push(x).filter(pred) == if pred(x) {
            s.filter(pred).push(x)
        } else {
            s.filter(pred)
        },
{
    reveal(Seq::filter);
    assert(s.push(x).drop_last() =~= s);
}

/// The evaluation order is a rearrangement of the genes: it holds each gene
/// exactly as often as the genome does.
pub proof fn lemma_evaluation_order_permutes(genes: Seq<u32>)
    ensures
        evaluation_order(genes).len() == genes.len(),
        evaluation_order(genes).to_multiset() == genes.to_multiset(),
    decreases genes.len(),
{
    broadcast use vstd::seq_lib::group_to_multiset_ensures;

    reveal(Seq::filter);
    if genes.len() == 0 {
        assert(evaluation_order(genes) =~= genes);
    } else {
        let front = genes.drop_last();
        let x = genes.last();
        lemma_evaluation_order_permutes(front);
        assert(genes =~= front.push(x));
        lemma_filter_push(front, |g: u32| !crate::codec::source_is_hidden(g), x);
        lemma_filter_push(front, |g: u32| crate::codec::source_is_hidden(g), x);
        if crate::codec::source_is_hidden(x) {
            assert(evaluation_order(genes) =~= evaluation_order(front).push(x));
        } else {
            let a = input_sourced(front);
            let b = hidden_sourced(front);
            assert(evaluation_order(genes) =~= a.push(x) + b);
            assert(a.push(x) =~= a + seq![x]);
            vstd::seq_lib::lemma_multiset_commutative(a + seq![x], b);
            vstd::seq_lib::lemma_multiset_commutative(a, seq![x]);
            vstd::seq_lib::lemma_multiset_commutative(a, b);
            vstd::seq_lib::lemma_multiset_commutative(a + b, seq![x]);
            assert((a + b) + seq![x] =~= (a + b).push(x));
        }
    }
}

/// In the evaluation order no connection that reads the hidden layer comes
/// before a connection that reads the input layer: whatever the input feeds
/// into the hidden layer is there before any hidden neuron is read.
pub proof fn lemma_input_sourced_first(genes: Seq<u32>, i: int, j: int)
    requires
        0 <= i <= j < genes.len(),
    ensures
        evaluation_order(genes).len() == genes.len(),
        crate::codec::source_is_hidden(evaluation_order(genes)[i]) ==> crate::codec::source_is_hidden(
            evaluation_order(genes)[j],
        ),
{
    broadcast use vstd::seq_lib::group_filter_ensures;

    lemma_evaluation_order_permutes(genes);
    let first = input_sourced(genes);
    let second = hidden_sourced(genes);
    let order = evaluation_order(genes);
    if i < first.len() {
        assert(order[i] == first[i]);
        assert(!crate::codec::source_is_hidden(first[i]));
    } else {
        assert(order[j] == second[j - first.len()]);
        assert(crate::codec::source_is_hidden(second[j - first.len()]));
    }
}

/// Decodes each gene of `genes`, in order.
fn decode_genes(genes: &Vec<u32>, input_neurons: u32, hidden_neurons: u32, output_neurons: u32) -> (plan: Vec<
    Connection,
>)
    requires
        input_neurons > 0,
        hidden_neurons > 0,
        output_neurons > 0,
    ensures
        plan@ == decode_all(genes@, input_neurons, hidden_neurons, output_neurons),
        plan_fits(plan@, input_neurons, hidden_neurons, output_neurons),
{
    let n = genes.len();
    let mut plan: Vec<Connection> = Vec::with_capacity(n);
    let mut i: usize = 0;
    while i < n
        invariant
            i <= n,
            n == genes@.len(),
            input_neurons > 0,
            hidden_neurons > 0,
            output_neurons > 0,
            plan@ == decode_all(genes@.take(i as int), input_neurons, hidden_neurons, output_neurons),
            plan_fits(plan@, input_neurons, hidden_neurons, output_neurons),
        decreases n - i,
    {
        plan.push(connection_of(genes[i], input_neurons, hidden_neurons, output_neurons));
        i += 1;
        assert(plan@ =~= decode_all(genes@.take(i as int), input_neurons, hidden_neurons, output_neurons));
    }
    assert(genes@.take(n as int) =~= genes@);
    plan
}

impl Clone for Genome {
    fn clone(&self) -> (copy: Self)
        ensures
            copy.gene_list@ == self.gene_list@,
            copy.input_neurons == self.input_neurons,
            copy.hidden_neurons == self.hidden_neurons,
            copy.output_neurons == self.output_neurons,
    {
        Genome {
            gene_list: self.gene_list.clone(),
            input_neurons: self.input_neurons,
            hidden_neurons: self.hidden_neurons,
            output_neurons: self.output_neurons,
        }
    }
}

impl Genome {
    /// A genome is well formed when none of its layers is empty.
    pub open spec fn wf(&self) -> bool {
        self.input_neurons > 0 && self.hidden_neurons > 0 && self.output_neurons > 0
    }

    /// The connections of the genome in the order of its genes.
    pub open spec fn connections_spec(&self) -> Seq<Connection> {
        decode_all(self.gene_list@, self.input_neurons, self.hidden_neurons, self.output_neurons)
    }

    /// The connections of the genome in the order they are evaluated.
    pub open spec fn plan_spec(&self) -> Seq<Connection> {
        decode_all(evaluation_order(self.gene_list@), self.input_neurons, self.hidden_neurons, self.output_neurons)
    }

    /// Makes a genome from its genes and layer sizes.
    ///
    /// Fails with [`ConfigError::EmptyLayer`] exactly when a layer size is zero.
    pub fn new(gene_list: Vec<u32>, input_neurons: u32, hidden_neurons: u32, output_neurons: u32) -> (r: Result<
        Genome,
        ConfigError,
    >)
        ensures
            (input_neurons == 0 || hidden_neurons == 0 || output_neurons == 0) <==> r is Err,
            r is Err ==> r->Err_0 == ConfigError::EmptyLayer,
            r is Ok ==> {
                &&& r->Ok_0.wf()
                &&& r->Ok_0.gene_list == gene_list
                &&& r->Ok_0.input_neurons == input_neurons
                &&& r->Ok_0.hidden_neurons == hidden_neurons
                &&& r->Ok_0.output_neurons == output_neurons
            },
    {
        if input_neurons == 0 || hidden_neurons == 0 || output_neurons == 0 {
            Err(ConfigError::EmptyLayer)
        } else {
            Ok(Genome { gene_list, input_neurons, hidden_neurons, output_neurons })
        }
    }

    /// The connection that each gene stands for, in the order of the genes.
    pub fn connections(&self) -> (decoded: Vec<Connection>)
        requires
            self.wf(),
        ensures
            decoded@ == self.connections_spec(),
            plan_fits(decoded@, self.input_neurons, self.hidden_neurons, self.output_neurons),
    {
        decode_genes(&self.gene_list, self.input_neurons, self.hidden_neurons, self.output_neurons)
    }

    /// The connections to apply in one evaluation, in the order to apply
    /// them: every connection that reads the input layer comes before every
    /// connection that reads the hidden layer.
    pub fn evaluation_plan(&self) -> (plan: Vec<Connection>)
        requires
            self.wf(),
        ensures
            plan@ == self.plan_spec(),
            plan@.len() == self.gene_list@.len(),
            plan_fits(plan@, self.input_neurons, self.hidden_neurons, self.output_neurons),
    {
        let sorted = self.sorted_genes();
        decode_genes(&sorted, self.input_neurons, self.hidden_neurons, self.output_neurons)
    }

    /// The genes in evaluation order: those that read the input layer first,
    /// those that read the hidden layer second, each group in genome order.
    pub fn sorted_genes(&self) -> (sorted: Vec<u32>)
        ensures
            sorted@ == evaluation_order(self.gene_list@),
            sorted@.len() == self.gene_list@.len(),
    {
        let n = self.gene_list.len();
        let mut sorted: Vec<u32> = Vec::with_capacity(n);
        let ghost genes = self.gene_list@;
        let ghost from_input = |g: u32| !crate::codec::source_is_hidden(g);
        let ghost from_hidden = |g: u32| crate::codec::source_is_hidden(g);
        proof {
            reveal(Seq::filter);
            assert(genes.take(0).filter(from_input) =~= Seq::<u32>::empty());
        }
        let mut i: usize = 0;
        while i < n
            invariant
                i <= n,
                n == genes.len(),
                genes == self.gene_list@,
                from_input == (|g: u32| !crate::codec::source_is_hidden(g)),
                sorted@ == genes.take(i as int).filter(from_input),
            decreases n - i,
        {
            let gene = self.gene_list[i];
            proof {
                assert(genes.take(i + 1) =~= genes.take(i as int).push(gene));
                lemma_filter_push(genes.take(i as int), from_input, gene);
            }
            if !source_hidden(gene) {
                sorted.push(gene);
            }
            i += 1;
        }
        proof {
            reveal(Seq::filter);
            assert(genes.take(n as int) =~= genes);
            assert(genes.take(0).filter(from_hidden) =~= Seq::<u32>::empty());
            assert(sorted@ =~= input_sourced(genes) + genes.take(0).filter(from_hidden));
        }
        let mut j: usize = 0;
        while j < n
            invariant
                j <= n,
                n == genes.len(),
                genes == self.gene_list@,
                from_hidden == (|g: u32| crate::codec::source_is_hidden(g)),
                sorted@ == input_sourced(genes) + genes.take(j as int).filter(from_hidden),
            decreases n - j,
        {
            let gene = self.gene_list[j];
            proof {
                assert(genes.take(j + 1) =~= genes.take(j as int).push(gene));
                lemma_filter_push(genes.take(j as int), from_hidden, gene);
                assert((input_sourced(genes) + genes.take(j as int).filter(from_hidden)).push(gene)
                    =~= input_sourced(genes) + genes.take(j as int).filter(from_hidden).push(gene));
            }
            if source_hidden(gene) {
                sorted.push(gene);
            }
            j += 1;
        }
        proof {
            assert(genes.take(n as int) =~= genes);
            lemma_evaluation_order_permutes(genes);
        }
        sorted
    }
}

} // verus!
