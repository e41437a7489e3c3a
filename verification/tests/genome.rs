use simple_genetic::{decode, ConfigError, Genome, Layer};

const HIDDEN: u32 = 1 << 31;

#[test]
fn sorted_genes_puts_input_sourced_genes_first() {
    let genome = Genome::new(vec![HIDDEN | 1, 2, HIDDEN | 3, 4, 5, HIDDEN | 6], 2, 2, 2).unwrap();
    assert_eq!(genome.sorted_genes(), vec![2, 4, 5, HIDDEN | 1, HIDDEN | 3, HIDDEN | 6]);
}

#[test]
fn sorted_genes_keeps_every_gene() {
    let genes: Vec<u32> = (0..64u32).map(|i| i.wrapping_mul(0x9E37_79B9)).collect();
    let genome = Genome::new(genes.clone(), 3, 3, 3).unwrap();
    let mut sorted = genome.sorted_genes();
    assert_eq!(sorted.len(), genes.len());
    let boundary = sorted.iter().position(|g| g & HIDDEN != 0).unwrap_or(sorted.len());
    assert!(sorted[..boundary].iter().all(|g| g & HIDDEN == 0));
    assert!(sorted[boundary..].iter().all(|g| g & HIDDEN != 0));
    let mut given = genes;
    given.sort();
    sorted.sort();
    assert_eq!(sorted, given);
}

#[test]
fn sorted_genes_is_not_a_numeric_sort() {
    let genome = Genome::new(vec![9, 3, 7], 1, 1, 1).unwrap();
    assert_eq!(genome.sorted_genes(), vec![9, 3, 7]);
    let hidden_only = Genome::new(vec![HIDDEN | 9, HIDDEN | 3], 1, 1, 1).unwrap();
    assert_eq!(hidden_only.sorted_genes(), vec![HIDDEN | 9, HIDDEN | 3]);
}

#[test]
fn sorted_genes_of_an_empty_genome_is_empty() {
    let genome = Genome::new(Vec::new(), 1, 1, 1).unwrap();
    assert_eq!(genome.sorted_genes(), Vec::<u32>::new());
    assert!(genome.evaluation_plan().is_empty());
    assert!(genome.connections().is_empty());
}

#[test]
fn connections_follow_the_genes() {
    let genes = vec![HIDDEN | (5 << 24) | (1 << 23) | 7, (3 << 24) | (2 << 16) | (1 << 15) | 9];
    let genome = Genome::new(genes.clone(), 4, 5, 6).unwrap();
    let connections = genome.connections();
    assert_eq!(connections.len(), 2);
    for (connection, gene) in connections.iter().zip(genes.iter()) {
        assert_eq!(*connection, decode(*gene, 4, 5, 6).unwrap());
    }
    assert_eq!(connections[0].source_layer, Layer::Hidden);
    assert_eq!(connections[0].source_index, 0);
    assert_eq!(connections[0].target_layer, Layer::Output);
    assert_eq!(connections[1].source_index, 3);
    assert_eq!(connections[1].target_index, 2);
    assert!(connections[1].weight.negative);
}

#[test]
fn evaluation_plan_is_the_sorted_genes_decoded() {
    let genes = vec![HIDDEN | 1, 2, HIDDEN | (1 << 23) | 3, (1 << 23) | 4];
    let genome = Genome::new(genes, 2, 3, 4).unwrap();
    let plan = genome.evaluation_plan();
    let sorted = genome.sorted_genes();
    assert_eq!(plan.len(), 4);
    for (connection, gene) in plan.iter().zip(sorted.iter()) {
        assert_eq!(*connection, decode(*gene, 2, 3, 4).unwrap());
    }
    assert_eq!(plan[0].source_layer, Layer::Input);
    assert_eq!(plan[1].source_layer, Layer::Input);
    assert_eq!(plan[2].source_layer, Layer::Hidden);
    assert_eq!(plan[3].source_layer, Layer::Hidden);
    assert_eq!(plan[0].weight.magnitude, 2);
    assert_eq!(plan[1].weight.magnitude, 4);
    assert_eq!(plan[2].weight.magnitude, 1);
    assert_eq!(plan[3].weight.magnitude, 3);
}

#[test]
fn genome_without_neurons_is_rejected() {
    assert_eq!(Genome::new(vec![1], 0, 1, 1).err(), Some(ConfigError::EmptyLayer));
    assert_eq!(Genome::new(vec![1], 1, 0, 1).err(), Some(ConfigError::EmptyLayer));
    assert_eq!(Genome::new(vec![1], 1, 1, 0).err(), Some(ConfigError::EmptyLayer));
}

#[test]
fn genome_clone_is_equal_and_independent() {
    let genome = Genome::new(vec![1, 2, 3], 4, 5, 6).unwrap();
    let mut copy = genome.clone();
    assert_eq!(copy.gene_list, genome.gene_list);
    assert_eq!(
        (copy.input_neurons, copy.hidden_neurons, copy.output_neurons),
        (4, 5, 6)
    );
    copy.gene_list[0] = 99;
    assert_eq!(genome.gene_list, vec![1, 2, 3]);
}
