//! Text as tokens.

use crate::tokens::TokenBatch;
use vstd::prelude::*;

verus! {

/// The tokens of a text in the encoding `r50k_base` with its special tokens, as
/// `CoreBPE::encode` gives them, or `None` where it fails.
pub uninterp spec fn r50k_tokens(text: Seq<char>) -> Option<Seq<u32>>;

/// The content of a list that may be missing.
pub open spec fn content(list: Option<Vec<u32>>) -> Option<Seq<u32>> {
    match list {
        Some(list) => Some(list@),
        None => None,
    }
}

/// `CoreBPE::encode` of `tiktoken_rs::r50k_base_singleton`, with all special tokens allowed: the
/// tokens are a function of the text.
#[verifier::external_body]
fn r50k_encode(text: &str) -> (tokens: Option<Vec<u32>>)
    ensures
        content(tokens) == r50k_tokens(text@),
{
    let bpe = tiktoken_rs::r50k_base_singleton();
    let (tokens, _) = bpe.encode(text, &bpe.special_tokens()).ok()?;
    Some(tokens)
}

/// The tokens of a text, or `None` where the tokenizer fails on it.
pub fn encode(text: &str) -> (tokens: Option<Vec<u32>>)
    ensures
        content(tokens) == r50k_tokens(text@),
{
    r50k_encode(text)
}

/// A prompt: the tokens of a text as a batch of a single sequence, or `None` where the tokenizer
/// fails on the text.
pub fn encode_prompt(text: &str) -> (prompt: Option<TokenBatch>)
    ensures
        prompt is None <==> r50k_tokens(text@) is None,
        prompt matches Some(batch) ==> {
            &&& batch.wf()
            &&& batch@ == seq![r50k_tokens(text@).unwrap()]
            &&& batch.len == r50k_tokens(text@).unwrap().len()
        },
{
    match encode(text) {
        Some(tokens) => Some(TokenBatch::single(tokens)),
        None => None,
    }
}

} // verus!
