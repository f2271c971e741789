//! What the engines accept from the embedding service.
//!
//! The service is asked for one vector for each text, in the order of the
//! texts, and all its vectors have one length, the dimension of its model.
//! An answer that is anything else is refused here and never used.

use vstd::prelude::*;

verus! {

/// Why the embedding service gave nothing to work with.
#[derive(Clone, Copy, Debug, PartialEq, Eq)]
pub enum EmbeddingProviderError {
    /// The service failed or could not be reached.
    Unavailable,
    /// The service answered with too few or too many vectors, with an empty
    /// vector, or with vectors of different lengths.
    Malformed,
}

/// Whether `vectors` answers a request for the embeddings of `expected`
/// texts: one vector for each text, none empty, all of one length.
pub open spec fn is_embedding_batch(vectors: Seq<Seq<u32>>, expected: nat) -> bool {
    &&& vectors.len() == expected
    &&& forall|i: int|
        0 <= i < vectors.len() ==> (#[trigger] vectors[i]).len() == vectors[0].len()
            && vectors[i].len() >= 1
}

/// What the engines make of the service's answer to a request for the
/// embeddings of `expected` texts. `None` stands for a failed request.
pub open spec fn validated(expected: nat, response: Option<Seq<Seq<u32>>>) -> Result<
    Seq<Seq<u32>>,
    EmbeddingProviderError,
> {
    match response {
        None => Err(EmbeddingProviderError::Unavailable),
        Some(vectors) => if is_embedding_batch(vectors, expected) {
            Ok(vectors)
        } else {
            Err(EmbeddingProviderError::Malformed)
        },
    }
}

/// Checks the service's answer to a request for the embeddings of `expected`
/// texts, and hands the vectors on only if they answer the request.
pub fn validate_embeddings(expected: usize, response: Option<Vec<Vec<u32>>>) -> (checked: Result<
    Vec<Vec<u32>>,
    EmbeddingProviderError,
>)
    ensures
        match checked {
            Ok(vectors) => validated(expected as nat, response.deep_view()) == Ok::<
                Seq<Seq<u32>>,
                EmbeddingProviderError,
            >(vectors.deep_view()),
            Err(error) => validated(expected as nat, response.deep_view()) == Err::<
                Seq<Seq<u32>>,
                EmbeddingProviderError,
            >(error),
        },
{
    let vectors = match response {
        None => { return Err(EmbeddingProviderError::Unavailable); },
        Some(vectors) => vectors,
    };
    if vectors.len() != expected {
        return Err(EmbeddingProviderError::Malformed);
    }
    let mut i: usize = 0;
    while i < vectors.len()
        invariant
            i <= vectors.len(),
            vectors.len() == expected,
            response.deep_view() == Some(vectors.deep_view()),
            forall|j: int|
                0 <= j < i ==> (#[trigger] vectors.deep_view()[j]).len()
                    == vectors.deep_view()[0].len() && vectors.deep_view()[j].len() >= 1,
        decreases vectors.len() - i,
    {
        proof {
            assert(vectors.deep_view()[i as int] == vectors[i as int]@);
            assert(vectors.deep_view()[0] == vectors[0]@);
        }
        if vectors[i].len() == 0 || vectors[i].len() != vectors[0].len() {
            return Err(EmbeddingProviderError::Malformed);
        }
        i += 1;
    }
    Ok(vectors)
}

} // verus!
