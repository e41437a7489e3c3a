//! The gene codec: one 32-bit gene is one weighted connection.
//!
//! Bit layout of a gene, most significant bit first:
//!
//! | bits  | meaning                                              |
//! |-------|------------------------------------------------------|
//! | 31    | source layer: 0 = input, 1 = hidden                  |
//! | 24-30 | source neuron, reduced modulo the source layer size  |
//! | 23    | target layer: 0 = hidden, 1 = output                 |
//! | 16-22 | target neuron, reduced modulo the target layer size  |
//! | 15    | weight sign: 1 = negative                            |
//! | 0-14  | weight magnitude, in units of 1 / 6000               |
//!
//! Both neuron fields are contiguous seven-bit fields: each is masked with
//! `0x7F` at its offset and shifted down to a value below 128 before it is
//! reduced modulo the layer size.

use vstd::prelude::*;
use crate::error::ConfigError;

verus! {

/// One of the three neuron groups of a network.
#[derive(Clone, Copy, Debug, PartialEq, Eq, Structural)]
pub enum Layer {
    Input,
    Hidden,
    Output,
}

/// The number of weight units that make a weight of one.
pub const WEIGHT_SCALE: u16 = 6000;

/// The largest weight magnitude a gene can hold.
pub const MAX_MAGNITUDE: u16 = 32767;

/// A connection weight in sign-and-magnitude form. Its value is
/// `magnitude / WEIGHT_SCALE`, negated when `negative` is set.
#[derive(Clone, Copy, Debug, PartialEq, Eq, Structural)]
pub struct Weight {
    pub negative: bool,
    pub magnitude: u16,
}

/// A decoded gene: a weighted, directed connection from one neuron to another.
#[derive(Clone, Copy, Debug, PartialEq, Eq, Structural)]
pub struct Connection {
    pub source_layer: Layer,
    pub source_index: u32,
    pub target_layer: Layer,
    pub target_index: u32,
    pub weight: Weight,
}

/// Bit 31: the connection starts in the hidden layer rather than the input layer.
pub open spec fn source_is_hidden(gene: u32) -> bool {
    gene >= 0x8000_0000
}

/// Bits 24 to 30 as a number below 128.
pub open spec fn source_field(gene: u32) -> int {
    (gene as int / 0x100_0000) % 0x80
}

/// Bit 23: the connection ends in the output layer rather than the hidden layer.
pub open spec fn target_is_output(gene: u32) -> bool {
    (gene as int / 0x80_0000) % 2 == 1
}

/// Bits 16 to 22 as a number below 128.
pub open spec fn target_field(gene: u32) -> int {
    (gene as int / 0x1_0000) % 0x80
}

/// Bit 15: the weight is negative.
pub open spec fn weight_is_negative(gene: u32) -> bool {
    (gene as int / 0x8000) % 2 == 1
}

/// Bits 0 to 14.
pub open spec fn weight_magnitude(gene: u32) -> int {
    gene as int % 0x8000
}

/// The layer a gene's connection starts in.
pub open spec fn source_layer_of(gene: u32) -> Layer {
    if source_is_hidden(gene) {
        Layer::Hidden
    } else {
        Layer::Input
    }
}

/// The layer a gene's connection ends in.
pub open spec fn target_layer_of(gene: u32) -> Layer {
    if target_is_output(gene) {
        Layer::Output
    } else {
        Layer::Hidden
    }
}

/// The number of neurons in `layer` of a network with the given layer sizes.
pub open spec fn layer_size(layer: Layer, input_neurons: u32, hidden_neurons: u32, output_neurons: u32) -> u32 {
    match layer {
        Layer::Input => input_neurons,
        Layer::Hidden => hidden_neurons,
        Layer::Output => output_neurons,
    }
}

/// The weight a gene carries.
pub open spec fn weight_of(gene: u32) -> Weight {
    Weight { negative: weight_is_negative(gene), magnitude: weight_magnitude(gene) as u16 }
}

/// The connection a gene stands for in a network with the given, non-zero,
/// layer sizes.
pub open spec fn decode_spec(gene: u32, input_neurons: u32, hidden_neurons: u32, output_neurons: u32) -> Connection {
    let source_layer = source_layer_of(gene);
    let target_layer = target_layer_of(gene);
    Connection {
        source_layer,
        source_index: (source_field(gene) % (layer_size(
            source_layer,
            input_neurons,
            hidden_neurons,
            output_neurons,
        ) as int)) as u32,
        target_layer,
        target_index: (target_field(gene) % (layer_size(
            target_layer,
            input_neurons,
            hidden_neurons,
            output_neurons,
        ) as int)) as u32,
        weight: weight_of(gene),
    }
}

/// A connection that a network with the given layer sizes can apply: it leads
/// from the input or hidden layer to the hidden or output layer, between
/// neurons that exist, with a magnitude of fifteen bits.
pub open spec fn connection_fits(c: Connection, input_neurons: u32, hidden_neurons: u32, output_neurons: u32) -> bool {
    &&& c.source_layer != Layer::Output
    &&& c.target_layer != Layer::Input
    &&& c.source_index < layer_size(c.source_layer, input_neurons, hidden_neurons, output_neurons)
    &&& c.target_index < layer_size(c.target_layer, input_neurons, hidden_neurons, output_neurons)
    &&& c.weight.magnitude <= MAX_MAGNITUDE
}

/// Every gene decodes to a connection that fits the network: both neuron
/// indices lie below the size of their layer, whatever the gene, as long as no
/// layer is empty.
pub proof fn lemma_decoded_indices_in_range(gene: u32, input_neurons: u32, hidden_neurons: u32, output_neurons: u32)
    requires
        input_neurons > 0,
        hidden_neurons > 0,
        output_neurons > 0,
    ensures
        connection_fits(
            decode_spec(gene, input_neurons, hidden_neurons, output_neurons),
            input_neurons,
            hidden_neurons,
            output_neurons,
        ),
{
}

/// The decoded magnitude never exceeds `MAX_MAGNITUDE`, so the weight's
/// absolute value is at most 32767 / 6000, and the weight is negative exactly
/// when bit 15 of the gene is set.
pub proof fn lemma_weight_range(gene: u32)
    ensures
        0 <= weight_of(gene).magnitude <= MAX_MAGNITUDE,
        weight_of(gene).magnitude == gene as int % 0x8000,
        weight_of(gene).negative <==> (gene & 0x8000) != 0,
{
    assert(((gene as int / 0x8000) % 2 == 1) <==> (gene & 0x8000) != 0) by (bit_vector);
}

/// Reads bit 31 of a gene.
pub(crate) fn source_hidden(gene: u32) -> (r: bool)
    ensures
        r == source_is_hidden(gene),
{
    assert((gene & 0x8000_0000 != 0) <==> gene >= 0x8000_0000) by (bit_vector);
    gene & 0x8000_0000 != 0
}

fn target_output(gene: u32) -> (r: bool)
    ensures
        r == target_is_output(gene),
{
    assert((gene & 0x80_0000 != 0) <==> (gene / 0x80_0000) % 2 == 1) by (bit_vector);
    gene & 0x80_0000 != 0
}

fn weight(gene: u32) -> (r: Weight)
    ensures
        r == weight_of(gene),
{
    assert((gene & 0x8000 != 0) <==> (gene / 0x8000) % 2 == 1) by (bit_vector);
    assert(gene & 0x7FFF == gene % 0x8000) by (bit_vector);
    Weight { negative: gene & 0x8000 != 0, magnitude: (gene & 0x7FFF) as u16 }
}

/// Decodes `gene` for a network none of whose layers is empty.
pub(crate) fn connection_of(gene: u32, input_neurons: u32, hidden_neurons: u32, output_neurons: u32) -> (c:
    Connection)
    requires
        input_neurons > 0,
        hidden_neurons > 0,
        output_neurons > 0,
    ensures
        c == decode_spec(gene, input_neurons, hidden_neurons, output_neurons),
        connection_fits(c, input_neurons, hidden_neurons, output_neurons),
{
    let from_hidden = source_hidden(gene);
    let to_output = target_output(gene);
    let source_size: u32 = if from_hidden {
        hidden_neurons
    } else {
        input_neurons
    };
    let target_size: u32 = if to_output {
        output_neurons
    } else {
        hidden_neurons
    };
    assert((gene >> 24) & 0x7F == (gene / 0x100_0000) % 0x80) by (bit_vector);
    assert((gene >> 16) & 0x7F == (gene / 0x1_0000) % 0x80) by (bit_vector);
    Connection {
        source_layer: if from_hidden {
            Layer::Hidden
        } else {
            Layer::Input
        },
        source_index: ((gene >> 24) & 0x7F) % source_size,
        target_layer: if to_output {
            Layer::Output
        } else {
            Layer::Hidden
        },
        target_index: ((gene >> 16) & 0x7F) % target_size,
        weight: weight(gene),
    }
}

/// Decodes `gene` for a network with the given layer sizes.
///
/// Fails with [`ConfigError::EmptyLayer`] exactly when one of the sizes is
/// zero; otherwise every gene decodes, to a connection whose indices lie
/// inside their layers.
pub fn decode(gene: u32, input_neurons: u32, hidden_neurons: u32, output_neurons: u32) -> (r: Result<
    Connection,
    ConfigError,
>)
    ensures
        (input_neurons == 0 || hidden_neurons == 0 || output_neurons == 0) ==> r == Err::<
            Connection,
            ConfigError,
        >(ConfigError::EmptyLayer),
        (input_neurons > 0 && hidden_neurons > 0 && output_neurons > 0) ==> r == Ok::<
            Connection,
            ConfigError,
        >(decode_spec(gene, input_neurons, hidden_neurons, output_neurons)),
        r is Ok ==> connection_fits(r->Ok_0, input_neurons, hidden_neurons, output_neurons),
{
    if input_neurons == 0 || hidden_neurons == 0 || output_neurons == 0 {
        Err(ConfigError::EmptyLayer)
    } else {
        Ok(connection_of(gene, input_neurons, hidden_neurons, output_neurons))
    }
}

} // verus!
