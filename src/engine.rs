//! The decisions of the retrieval engine between its calls to the store and
//! to the embedding provider.

use vstd::prelude::*;
use crate::clip::ClipItem;
use crate::codec::CodecError;
use crate::merge::{ids_distinct, lemma_lexical_rank_kept, lemma_merged_ids_distinct, merge_results, merged};
use crate::rank::{has_embedding, is_ranking, keys_of, pick, rank_by_similarity};

verus! {

/// Why an engine operation failed.
#[derive(Debug, Clone, Copy, PartialEq, Eq, Structural)]
pub enum EngineError {
    /// The store could not be read or written, or refused the write.
    Persistence,
    /// The embedding provider could not be reached.
    ProviderUnavailable,
    /// The embedding provider answered with something that is not an embedding.
    ProviderError,
    /// A stored value could not be read back.
    Codec(CodecError),
}

/// Number of most recent clips that semantic ranking scores.
pub const WORKING_SET_SIZE: usize = 1000;

/// Number of results that the boundary asks for.
pub const RESULT_LIMIT: usize = 50;

/// The hybrid result for lexical candidates and a scored working set.
pub open spec fn hybrid_result(
    lexical: Seq<ClipItem>,
    working: Seq<ClipItem>,
    scores: Seq<u32>,
    limit: nat,
    r: Seq<ClipItem>,
) -> bool {
    exists|idx: Seq<int>|
        is_ranking(keys_of(scores), has_embedding(working), limit, idx)
        && r == merged(lexical, pick(working, idx), limit)
}

/// Completes a hybrid search. `semantic` is the outcome of the semantic half:
/// the working set with the bit patterns of its scores against the query
/// embedding, or the error that embedding the query (or reading the working
/// set) gave. An error there fails the whole search; else the result is the
/// lexical candidates merged with the best-scored clips. Where the lexical
/// list holds no id twice and no more than `limit` clips, the result starts
/// with it, each clip at its lexical rank.
pub fn combine_search(
    lexical: Vec<ClipItem>,
    semantic: Result<(Vec<ClipItem>, Vec<u32>), EngineError>,
    limit: usize,
) -> (r: Result<Vec<ClipItem>, EngineError>)
    requires
        semantic is Ok ==> semantic->Ok_0.0@.len() == semantic->Ok_0.1@.len(),
    ensures
        semantic is Err ==> r == Err::<Vec<ClipItem>, EngineError>(semantic->Err_0),
        semantic is Ok ==> r is Ok && hybrid_result(
            lexical@,
            semantic->Ok_0.0@,
            semantic->Ok_0.1@,
            limit as nat,
            r->Ok_0@,
        ),
        r is Ok ==> ids_distinct(r->Ok_0@),
        r is Ok && ids_distinct(lexical@) && lexical@.len() <= limit ==> lexical@.len() <= r->Ok_0@.len()
            && r->Ok_0@.subrange(0, lexical@.len() as int) == lexical@,
{
    match semantic {
        Err(e) => Err(e),
        Ok((working, scores)) => {
            let ranked = rank_by_similarity(working, &scores, limit);
            let ghost lex = lexical@;
            let out = merge_results(lexical, ranked, limit);
            proof {
                lemma_merged_ids_distinct(lex, ranked@, limit as nat);
                if ids_distinct(lex) && lex.len() <= limit {
                    assert forall|i: int| 0 <= i < lex.len() implies i < out@.len() && #[trigger] out@[i] == lex[i] by {
                        lemma_lexical_rank_kept(lex, ranked@, limit as nat, i);
                    }
                    if lex.len() > 0 {
                        lemma_lexical_rank_kept(lex, ranked@, limit as nat, lex.len() - 1);
                    }
                    assert(out@.subrange(0, lex.len() as int) =~= lex);
                }
            }
            Ok(out)
        },
    }
}

} // verus!
