//! The embedding module: word, position and token-type lookup, trigram
//! fusion, projection to the hidden width, normalization and dropout.
use vstd::prelude::*;
use crate::batch::Batch;
use crate::dropout::{Dropout, dropout_fault, dropped};
use crate::error::{EmbeddingError, InputConflict, shape_error, value_error};
use crate::fixed::ONE;
use crate::normalizer::{NormalizationVariant, Normalizer, normalized, normalizer_fault};
use crate::projector::{Projector, projected, projector_fault};
use crate::table::{EmbeddingTable, lookup_of, table_of, with_zero_row};
use crate::tensor::{Tensor3, has_shape, sum_of_three, zero_vector};
use crate::trigram::{TrigramFuser, fused};

verus! {

/// The sizes and switches of an embedding module.
#[derive(Debug, Clone, Copy)]
pub struct EmbeddingConfig {
    /// The number of word ids.
    pub vocab_size: usize,
    /// The width of a word vector.
    pub embedding_size: usize,
    /// The width of a hidden vector.
    pub hidden_size: usize,
    /// The number of position ids.
    pub max_position_embeddings: usize,
    /// The number of token-type ids.
    pub type_vocab_size: usize,
    /// The padding id; zero where none is given.
    pub pad_token_id: Option<usize>,
    /// Whether word vectors are fused with their neighbours; they are where
    /// nothing is given.
    pub trigram_input: Option<bool>,
    /// Which normalization is applied.
    pub normalization_variant: NormalizationVariant,
    /// The probability of dropout in training, as a stored number.
    pub dropout_probability: u32,
}

impl EmbeddingConfig {
    /// The padding id that the configuration stands for.
    pub open spec fn padding(&self) -> usize {
        match self.pad_token_id {
            Some(p) => p,
            None => 0,
        }
    }

    /// Whether the configuration asks for trigram fusion.
    pub open spec fn trigram(&self) -> bool {
        match self.trigram_input {
            Some(t) => t,
            None => true,
        }
    }

    /// The width of the vectors that reach the projection.
    pub open spec fn embedded_input_size(&self) -> nat {
        if self.trigram() {
            3 * self.embedding_size as nat
        } else {
            self.embedding_size as nat
        }
    }
}

/// The weights of an embedding module, as they were loaded.
#[derive(Debug)]
pub struct EmbeddingWeights {
    /// One row of `embedding_size` numbers for each word id.
    pub word_embeddings: Vec<Vec<i32>>,
    /// One row of `hidden_size` numbers for each position id.
    pub position_embeddings: Vec<Vec<i32>>,
    /// One row of `hidden_size` numbers for each token-type id.
    pub token_type_embeddings: Vec<Vec<i32>>,
    /// One row of weights for each hidden feature, as wide as the vectors
    /// that reach the projection.
    pub transformation_weight: Vec<Vec<i32>>,
    /// One bias for each hidden feature.
    pub transformation_bias: Vec<i32>,
    /// One scale for each hidden feature.
    pub norm_scale: Vec<i32>,
    /// One shift for each hidden feature; read by the full variant only.
    pub norm_shift: Option<Vec<i32>>,
}

impl EmbeddingWeights {
    /// The shift that the normalizer of `variant` is made with.
    pub open spec fn shift_for(&self, variant: NormalizationVariant) -> Option<Seq<i32>> {
        match (variant, self.norm_shift) {
            (NormalizationVariant::Full, Some(shift)) => Some(shift@),
            _ => None,
        }
    }
}

/// Why `weights` do not make a table of `rows` vectors of `width` numbers, if
/// they do not.
pub open spec fn table_fault(weights: Seq<Seq<i32>>, rows: nat, width: nat, padding: Option<usize>) -> Option<
    EmbeddingError,
> {
    if weights.len() != rows {
        Some(shape_error(rows as usize, weights.len() as usize))
    } else {
        match table_of(weights, width, padding) {
            Ok(_) => None,
            Err(e) => Some(e),
        }
    }
}

/// Why a module cannot be made of `weights` under `config`, if it cannot: the
/// first of its parts, in the order of the data flow, that does not fit.
pub open spec fn model_fault(config: EmbeddingConfig, weights: EmbeddingWeights) -> Option<EmbeddingError> {
    let word = table_fault(
        weights.word_embeddings.deep_view(),
        config.vocab_size as nat,
        config.embedding_size as nat,
        Some(config.padding()),
    );
    let position = table_fault(
        weights.position_embeddings.deep_view(),
        config.max_position_embeddings as nat,
        config.hidden_size as nat,
        None,
    );
    let token_type = table_fault(
        weights.token_type_embeddings.deep_view(),
        config.type_vocab_size as nat,
        config.hidden_size as nat,
        None,
    );
    let projector = projector_fault(
        weights.transformation_weight.deep_view(),
        weights.transformation_bias@,
        config.embedded_input_size(),
    );
    let normalizer = normalizer_fault(
        weights.norm_scale@,
        weights.shift_for(config.normalization_variant),
        config.hidden_size as nat,
    );
    if word is Some {
        word
    } else if position is Some {
        position
    } else if token_type is Some {
        token_type
    } else if config.trigram() && 3 * config.embedding_size > usize::MAX {
        Some(shape_error((usize::MAX / 3) as usize, config.embedding_size))
    } else if weights.transformation_bias@.len() != config.hidden_size {
        Some(shape_error(config.hidden_size, weights.transformation_bias@.len() as usize))
    } else if projector is Some {
        projector
    } else if config.normalization_variant == NormalizationVariant::Full && weights.norm_shift is None {
        Some(value_error(InputConflict::NoShift))
    } else if normalizer is Some {
        normalizer
    } else if config.dropout_probability > ONE {
        Some(value_error(InputConflict::Probability))
    } else {
        None
    }
}

/// Why ids of extents `found` do not go with inputs of `expected` rows and
/// positions, if they do not.
pub open spec fn ids_mismatch(expected: (nat, nat), found: (nat, nat)) -> Option<EmbeddingError> {
    if found.0 != expected.0 {
        Some(shape_error(expected.0 as usize, found.0 as usize))
    } else if found.1 != expected.1 {
        Some(shape_error(expected.1 as usize, found.1 as usize))
    } else {
        None
    }
}

/// The embedding module of a MobileBERT-style encoder.
#[derive(Debug)]
pub struct MobileBertEmbeddings {
    trigram_input: bool,
    embedding_size: usize,
    hidden_size: usize,
    word_embeddings: EmbeddingTable,
    position_embeddings: EmbeddingTable,
    token_type_embeddings: EmbeddingTable,
    embedding_transformation: Projector,
    layer_norm: Normalizer,
    dropout: Dropout,
}

impl MobileBertEmbeddings {
    /// The parts fit each other: the word table is as wide as the embedding,
    /// the other tables, the projection's output and the normalizer as wide as
    /// the hidden vectors.
    #[verifier::type_invariant]
    pub closed spec fn wf(&self) -> bool {
        &&& self.word_embeddings.wf()
        &&& self.position_embeddings.wf()
        &&& self.token_type_embeddings.wf()
        &&& self.embedding_transformation.wf()
        &&& self.dropout.wf()
        &&& self.word_embeddings.dim() == self.embedding_size
        &&& self.word_embeddings.padding_id() is Some
        &&& self.position_embeddings.dim() == self.hidden_size
        &&& self.token_type_embeddings.dim() == self.hidden_size
        &&& self.trigram_input ==> 3 * self.embedding_size <= usize::MAX
        &&& self.embedding_transformation.inputs() == (if self.trigram_input {
            3 * self.embedding_size as nat
        } else {
            self.embedding_size as nat
        })
        &&& self.embedding_transformation.outputs() == self.hidden_size
        &&& normalizer_fault(self.layer_norm.scale(), self.layer_norm.shift(), self.hidden_size as nat) is None
    }

    /// Whether word vectors are fused with their neighbours.
    pub closed spec fn trigram(&self) -> bool {
        self.trigram_input
    }

    /// The width of a word vector.
    pub closed spec fn embedding_width(&self) -> nat {
        self.embedding_size as nat
    }

    /// The width of a hidden vector.
    pub closed spec fn hidden_width(&self) -> nat {
        self.hidden_size as nat
    }

    /// The word table.
    pub closed spec fn word_table(&self) -> EmbeddingTable {
        self.word_embeddings
    }

    /// The position table.
    pub closed spec fn position_table(&self) -> EmbeddingTable {
        self.position_embeddings
    }

    /// The token-type table.
    pub closed spec fn token_type_table(&self) -> EmbeddingTable {
        self.token_type_embeddings
    }

    /// The projection to the hidden width.
    pub closed spec fn transformation(&self) -> Projector {
        self.embedding_transformation
    }

    /// The normalizer.
    pub closed spec fn normalizer(&self) -> Normalizer {
        self.layer_norm
    }

    /// The probability of dropout in training.
    pub closed spec fn dropout_probability(&self) -> u32 {
        self.dropout.p()
    }

    /// Whether the projection is applied: with trigram fusion, or where the
    /// embedding and the hidden vectors differ in width.
    pub open spec fn projects(&self) -> bool {
        self.trigram() || self.embedding_width() != self.hidden_width()
    }

    /// The hidden vectors that the word-level vectors `base` are turned
    /// into: fused if the module fuses, then projected if it projects.
    pub open spec fn hidden_of(&self, base: Seq<Seq<Seq<i32>>>) -> Seq<Seq<Seq<i32>>> {
        let fusion = if self.trigram() {
            fused(base, self.embedding_width())
        } else {
            base
        };
        if self.projects() {
            projected(fusion, self.transformation().weights(), self.transformation().biases())
        } else {
            fusion
        }
    }

    /// The word-level vectors and their extents: looked up for `input_ids`,
    /// or `input_embeds` as they are. Exactly one of the two must be given.
    pub open spec fn base_of(&self, input_ids: Option<&Batch>, input_embeds: Option<Tensor3>) -> Result<
        (Seq<Seq<Seq<i32>>>, (nat, nat)),
        EmbeddingError,
    > {
        match (input_ids, input_embeds) {
            (Some(_), Some(_)) => Err(value_error(InputConflict::BothInputs)),
            (None, None) => Err(value_error(InputConflict::NoInput)),
            (Some(ids), None) => match lookup_of(self.word_table()@, ids@) {
                Ok(e) => Ok((e, (ids@.len(), ids.width()))),
                Err(e) => Err(e),
            },
            (None, Some(x)) => if x.dims().2 != self.embedding_width() {
                Err(shape_error(self.embedding_width() as usize, x.dims().2 as usize))
            } else {
                Ok((x@, (x.dims().0, x.dims().1)))
            },
        }
    }

    /// What the forward pass gives: the hidden vectors, or the first failure
    /// in the order of the data flow.
    pub open spec fn forward_of(
        &self,
        input_ids: Option<&Batch>,
        token_type_ids: &Batch,
        position_ids: &Batch,
        input_embeds: Option<Tensor3>,
        train: bool,
        keep: Option<&Tensor3>,
    ) -> Result<Seq<Seq<Seq<i32>>>, EmbeddingError> {
        match self.base_of(input_ids, input_embeds) {
            Err(e) => Err(e),
            Ok((base, extents)) => {
                let type_fault = ids_mismatch(extents, (token_type_ids@.len(), token_type_ids.width()));
                let position_fault = ids_mismatch(extents, (position_ids@.len(), position_ids.width()));
                let positions = lookup_of(self.position_table()@, position_ids@);
                let types = lookup_of(self.token_type_table()@, token_type_ids@);
                let mask_fault = dropout_fault(
                    (extents.0, extents.1, self.hidden_width()),
                    train,
                    match keep {
                        Some(k) => Some(k.dims()),
                        None => None,
                    },
                );
                if type_fault is Some {
                    Err(type_fault.unwrap())
                } else if position_fault is Some {
                    Err(position_fault.unwrap())
                } else if positions is Err {
                    Err(positions->Err_0)
                } else if types is Err {
                    Err(types->Err_0)
                } else if mask_fault is Some {
                    Err(mask_fault.unwrap())
                } else {
                    let sum = sum_of_three(self.hidden_of(base), positions.unwrap(), types.unwrap());
                    let normal = normalized(sum, self.normalizer().scale(), self.normalizer().shift());
                    if train {
                        Ok(dropped(normal, keep.unwrap()@, self.dropout_probability()))
                    } else {
                        Ok(normal)
                    }
                }
            },
        }
    }

    /// `result` is what the forward pass gives on these inputs.
    pub open spec fn is_forward_result(
        &self,
        input_ids: Option<&Batch>,
        token_type_ids: &Batch,
        position_ids: &Batch,
        input_embeds: Option<Tensor3>,
        train: bool,
        keep: Option<&Tensor3>,
        result: Result<Tensor3, EmbeddingError>,
    ) -> bool {
        match result {
            Ok(out) => {
                &&& self.forward_of(input_ids, token_type_ids, position_ids, input_embeds, train, keep) == Ok::<
                    Seq<Seq<Seq<i32>>>,
                    EmbeddingError,
                >(out@)
                &&& out.wf()
                &&& out.dims() == (position_ids@.len(), position_ids.width(), self.hidden_width())
                &&& has_shape(out@, position_ids@.len(), position_ids.width(), self.hidden_width())
            },
            Err(e) => self.forward_of(input_ids, token_type_ids, position_ids, input_embeds, train, keep) == Err::<
                Seq<Seq<Seq<i32>>>,
                EmbeddingError,
            >(e),
        }
    }

    /// Two forward passes on the same inputs agree: both fail with the same
    /// failure, or both give arrays of the same extents and contents. So at
    /// inference, where no draw is made, the module has no hidden source of
    /// difference.
    pub proof fn lemma_forward_repeatable(
        &self,
        input_ids: Option<&Batch>,
        token_type_ids: &Batch,
        position_ids: &Batch,
        input_embeds: Option<Tensor3>,
        train: bool,
        keep: Option<&Tensor3>,
        first: Result<Tensor3, EmbeddingError>,
        second: Result<Tensor3, EmbeddingError>,
    )
        requires
            self.is_forward_result(input_ids, token_type_ids, position_ids, input_embeds, train, keep, first),
            self.is_forward_result(input_ids, token_type_ids, position_ids, input_embeds, train, keep, second),
        ensures
            first is Ok <==> second is Ok,
            first is Ok ==> first->Ok_0@ == second->Ok_0@ && first->Ok_0.dims() == second->Ok_0.dims(),
            first is Err ==> first->Err_0 == second->Err_0,
    {
    }

    /// At inference the keep decisions are not read: whatever is passed for
    /// them, the forward pass gives the same.
    pub proof fn lemma_inference_ignores_keep(
        &self,
        input_ids: Option<&Batch>,
        token_type_ids: &Batch,
        position_ids: &Batch,
        input_embeds: Option<Tensor3>,
        keep: Option<&Tensor3>,
        other: Option<&Tensor3>,
    )
        ensures
            self.forward_of(input_ids, token_type_ids, position_ids, input_embeds, false, keep) == self.forward_of(
                input_ids,
                token_type_ids,
                position_ids,
                input_embeds,
                false,
                other,
            ),
    {
    }

    /// In every module the word table has a padding id, and its vector holds
    /// only zeros.
    pub proof fn lemma_padding_vector_is_zero(&self)
        requires
            self.wf(),
        ensures
            self.word_table().padding_id() matches Some(p) && p < self.word_table()@.len()
                && self.word_table()@[p as int] == zero_vector(self.embedding_width()),
    {
        self.word_embeddings.lemma_padding_is_zero();
    }

    /// The module of the given configuration and weights. The row of the
    /// padding id in the word table is set to zeros. Fails on the first part
    /// that does not fit the configuration.
    pub fn new(weights: EmbeddingWeights, config: &EmbeddingConfig) -> (result: Result<
        MobileBertEmbeddings,
        EmbeddingError,
    >)
        ensures
            match result {
                Ok(model) => {
                    &&& model_fault(*config, weights) is None
                    &&& model.wf()
                    &&& model.trigram() == config.trigram()
                    &&& model.embedding_width() == config.embedding_size
                    &&& model.hidden_width() == config.hidden_size
                    &&& model.word_table()@ == with_zero_row(
                        weights.word_embeddings.deep_view(),
                        config.embedding_size as nat,
                        Some(config.padding()),
                    )
                    &&& model.word_table().padding_id() == Some(config.padding())
                    &&& model.position_table()@ == weights.position_embeddings.deep_view()
                    &&& model.token_type_table()@ == weights.token_type_embeddings.deep_view()
                    &&& model.transformation().weights() == weights.transformation_weight.deep_view()
                    &&& model.transformation().biases() == weights.transformation_bias@
                    &&& model.normalizer().scale() == weights.norm_scale@
                    &&& model.normalizer().shift() == weights.shift_for(config.normalization_variant)
                    &&& model.dropout_probability() == config.dropout_probability
                },
                Err(e) => model_fault(*config, weights) == Some(e),
            },
    {
        let trigram_input: bool = match config.trigram_input {
            Some(t) => t,
            None => true,
        };
        let padding: usize = match config.pad_token_id {
            Some(p) => p,
            None => 0,
        };
        let embedding_size: usize = config.embedding_size;
        let hidden_size: usize = config.hidden_size;
        let ghost all = weights;
        let EmbeddingWeights {
            word_embeddings,
            position_embeddings,
            token_type_embeddings,
            transformation_weight,
            transformation_bias,
            norm_scale,
            norm_shift,
        } = weights;

        if word_embeddings.len() != config.vocab_size {
            return Err(EmbeddingError::ShapeError { expected: config.vocab_size, found: word_embeddings.len() });
        }
        let word_embeddings = match EmbeddingTable::new(word_embeddings, embedding_size, Some(padding)) {
            Ok(table) => table,
            Err(e) => {
                return Err(e);
            },
        };
        if position_embeddings.len() != config.max_position_embeddings {
            return Err(
                EmbeddingError::ShapeError {
                    expected: config.max_position_embeddings,
                    found: position_embeddings.len(),
                },
            );
        }
        let position_embeddings = match EmbeddingTable::new(position_embeddings, hidden_size, None) {
            Ok(table) => table,
            Err(e) => {
                return Err(e);
            },
        };
        if token_type_embeddings.len() != config.type_vocab_size {
            return Err(
                EmbeddingError::ShapeError { expected: config.type_vocab_size, found: token_type_embeddings.len() },
            );
        }
        let token_type_embeddings = match EmbeddingTable::new(token_type_embeddings, hidden_size, None) {
            Ok(table) => table,
            Err(e) => {
                return Err(e);
            },
        };
        if trigram_input && embedding_size > usize::MAX / 3 {
            return Err(EmbeddingError::ShapeError { expected: usize::MAX / 3, found: embedding_size });
        }
        let embedded_input_size: usize = if trigram_input {
            3 * embedding_size
        } else {
            embedding_size
        };
        if transformation_bias.len() != hidden_size {
            return Err(EmbeddingError::ShapeError { expected: hidden_size, found: transformation_bias.len() });
        }
        let embedding_transformation = match Projector::new(
            transformation_weight,
            transformation_bias,
            embedded_input_size,
        ) {
            Ok(projector) => projector,
            Err(e) => {
                return Err(e);
            },
        };
        let layer_norm = match Normalizer::new(config.normalization_variant, norm_scale, norm_shift) {
            Ok(normalizer) => normalizer,
            Err(e) => {
                return Err(e);
            },
        };
        match layer_norm.accepts(hidden_size) {
            Ok(_) => {},
            Err(e) => {
                return Err(e);
            },
        }
        let dropout = match Dropout::new(config.dropout_probability) {
            Ok(dropout) => dropout,
            Err(e) => {
                return Err(e);
            },
        };
        Ok(
            MobileBertEmbeddings {
                trigram_input,
                embedding_size,
                hidden_size,
                word_embeddings,
                position_embeddings,
                token_type_embeddings,
                embedding_transformation,
                layer_norm,
                dropout,
            },
        )
    }

    /// Whether word vectors are fused with their neighbours.
    pub fn trigram_input(&self) -> (trigram: bool)
        ensures
            trigram == self.trigram(),
    {
        self.trigram_input
    }

    /// The width of a word vector.
    pub fn embedding_size(&self) -> (width: usize)
        ensures
            width == self.embedding_width(),
    {
        self.embedding_size
    }

    /// The width of a hidden vector.
    pub fn hidden_size(&self) -> (width: usize)
        ensures
            width == self.hidden_width(),
    {
        self.hidden_size
    }

    /// The probability of dropout in training, as a stored number.
    pub fn dropout(&self) -> (p: u32)
        ensures
            p == self.dropout_probability(),
            p <= ONE,
    {
        self.dropout.probability()
    }

    /// The padding id; its word vector holds only zeros.
    pub fn pad_token_id(&self) -> (id: usize)
        ensures
            self.word_table().padding_id() == Some(id),
            id < self.word_table()@.len(),
            self.word_table()@[id as int] == zero_vector(self.embedding_width()),
    {
        proof {
            use_type_invariant(self);
        }
        match self.word_embeddings.padding_idx() {
            Some(id) => id,
            None => 0,
        }
    }

    /// The hidden vectors of a batch.
    ///
    /// The word-level vectors are looked up for `input_ids` or taken from
    /// `input_embeds`; exactly one of the two must be given. They are fused
    /// with their neighbours if the module fuses, and projected to the hidden
    /// width if it fuses or if the two widths differ. The vectors of
    /// `position_ids` and `token_type_ids`, which must have the extents of
    /// the input, are added, and the sums are normalized. With `train`,
    /// dropout is applied with the caller's draw `keep`; without it the
    /// result depends on the arguments and the weights alone.
    pub fn forward_t(
        &self,
        input_ids: Option<&Batch>,
        token_type_ids: &Batch,
        position_ids: &Batch,
        input_embeds: Option<Tensor3>,
        train: bool,
        keep: Option<&Tensor3>,
    ) -> (result: Result<Tensor3, EmbeddingError>)
        ensures
            input_ids is Some && input_embeds is Some ==> result == Err::<Tensor3, EmbeddingError>(
                value_error(InputConflict::BothInputs),
            ),
            input_ids is None && input_embeds is None ==> result == Err::<Tensor3, EmbeddingError>(
                value_error(InputConflict::NoInput),
            ),
            self.is_forward_result(input_ids, token_type_ids, position_ids, input_embeds, train, keep, result),
    {
        proof {
            use_type_invariant(self);
        }
        let base: Tensor3 = match input_ids {
            Some(ids) => match input_embeds {
                Some(_) => {
                    return Err(EmbeddingError::ValueError(InputConflict::BothInputs));
                },
                None => match self.word_embeddings.lookup(ids) {
                    Ok(e) => e,
                    Err(e) => {
                        return Err(e);
                    },
                },
            },
            None => match input_embeds {
                Some(embeds) => {
                    if embeds.width() != self.embedding_size {
                        return Err(
                            EmbeddingError::ShapeError { expected: self.embedding_size, found: embeds.width() },
                        );
                    }
                    embeds
                },
                None => {
                    return Err(EmbeddingError::ValueError(InputConflict::NoInput));
                },
            },
        };
        let batch: usize = base.batch_size();
        let len: usize = base.seq_len();
        assert(self.base_of(input_ids, input_embeds) == Ok::<(Seq<Seq<Seq<i32>>>, (nat, nat)), EmbeddingError>(
            (base@, (batch as nat, len as nat)),
        ));
        if token_type_ids.num_rows() != batch {
            return Err(EmbeddingError::ShapeError { expected: batch, found: token_type_ids.num_rows() });
        }
        if token_type_ids.num_cols() != len {
            return Err(EmbeddingError::ShapeError { expected: len, found: token_type_ids.num_cols() });
        }
        if position_ids.num_rows() != batch {
            return Err(EmbeddingError::ShapeError { expected: batch, found: position_ids.num_rows() });
        }
        if position_ids.num_cols() != len {
            return Err(EmbeddingError::ShapeError { expected: len, found: position_ids.num_cols() });
        }
        let position_embeddings = match self.position_embeddings.lookup(position_ids) {
            Ok(e) => e,
            Err(e) => {
                return Err(e);
            },
        };
        let token_type_embeddings = match self.token_type_embeddings.lookup(token_type_ids) {
            Ok(e) => e,
            Err(e) => {
                return Err(e);
            },
        };
        let fusion: Tensor3 = if self.trigram_input {
            TrigramFuser::fuse(&base)
        } else {
            base
        };
        let hidden: Tensor3 = if self.trigram_input || self.embedding_size != self.hidden_size {
            match self.embedding_transformation.project(&fusion) {
                Ok(y) => y,
                Err(e) => {
                    return Err(e);
                },
            }
        } else {
            fusion
        };
        let sum = hidden.add3(&position_embeddings, &token_type_embeddings);
        let normal = match self.layer_norm.normalize(&sum) {
            Ok(y) => y,
            Err(e) => {
                return Err(e);
            },
        };
        self.dropout.apply(normal, train, keep)
    }
}

} // verus!
