use vstd::prelude::*;

use std::sync::Arc;

verus! {

#[verifier::external_type_specification]
#[verifier::external_body]
pub struct ExCoreBPE(tiktoken_rs::CoreBPE);

/// The byte-pair encodings the benchmark counts tokens with.
#[derive(PartialEq, Eq, Structural, Clone, Copy, Debug)]
pub enum TokenEncoding {
    Cl100k,
    O200k,
}

/// The number of tokens `text` has in `encoding`, as tiktoken counts them;
/// `None` where tiktoken's pattern matching gives up on the text.
pub uninterp spec fn spec_token_count(encoding: TokenEncoding, text: Seq<char>) -> Option<u64>;

/// The token count, or 0 where it cannot be had.
pub open spec fn token_count_or_zero(encoding: TokenEncoding, text: Seq<char>) -> u64 {
    match spec_token_count(encoding, text) {
        Some(n) => n,
        None => 0,
    }
}

/// Counts tokens with one of tiktoken's encodings. `encoding` names the
/// tables held in `bpe`; the constructors below set both together.
#[derive(Clone)]
pub struct TokenCounter {
    encoding: TokenEncoding,
    bpe: Arc<tiktoken_rs::CoreBPE>,
}

impl View for TokenCounter {
    type V = TokenEncoding;

    closed spec fn view(&self) -> TokenEncoding {
        self.encoding
    }
}

/// Calls `tiktoken_rs::cl100k_base`, which builds the cl100k tables from the
/// data compiled into the crate; `None` stands for its error.
#[verifier::external_body]
fn load_cl100k() -> (r: Option<Arc<tiktoken_rs::CoreBPE>>) {
    tiktoken_rs::cl100k_base().ok().map(Arc::new)
}

/// Calls `tiktoken_rs::o200k_base`; `None` stands for its error.
#[verifier::external_body]
fn load_o200k() -> (r: Option<Arc<tiktoken_rs::CoreBPE>>) {
    tiktoken_rs::o200k_base().ok().map(Arc::new)
}

/// Calls `CoreBPE::encode` with no special token allowed and takes the
/// number of tokens, which the name gives for the counter's encoding and
/// the text. With none allowed, every special token found is skipped, so the
/// text is split and encoded as `encode_ordinary` does it (the special-token
/// pattern is plain alternation, which fancy-regex hands whole to the regex
/// crate, so finding special tokens cannot fail); where the split pattern's
/// matching fails (its backtrack limit), `encode` returns the error and this
/// gives `None`. A counter's tables are always those of its encoding: the
/// constructors below are the only way to make one. The encoder gives each
/// non-empty piece of the text at most one token per byte, so there are no
/// more tokens than UTF-8 bytes, which are at most four per character.
#[verifier::external_body]
fn encode_len(counter: &TokenCounter, text: &str) -> (r: Option<u64>)
    ensures
        r == spec_token_count(counter@, text@),
        r matches Some(n) ==> n <= 4 * text@.len(),
{
    let allowed: std::collections::HashSet<&str> = std::collections::HashSet::new();
    counter.bpe.encode(text, &allowed).ok().map(|(tokens, _)| tokens.len() as u64)
}

impl TokenCounter {
    pub fn cl100k() -> (r: Result<TokenCounter, String>)
        ensures
            r matches Ok(c) ==> c@ == TokenEncoding::Cl100k,
            r matches Err(e) ==> e@ == "failed to load cl100k_base encoding"@,
    {
        match load_cl100k() {
            Some(bpe) => Ok(TokenCounter { encoding: TokenEncoding::Cl100k, bpe }),
            None => Err(String::from_str("failed to load cl100k_base encoding")),
        }
    }

    pub fn o200k() -> (r: Result<TokenCounter, String>)
        ensures
            r matches Ok(c) ==> c@ == TokenEncoding::O200k,
            r matches Err(e) ==> e@ == "failed to load o200k_base encoding"@,
    {
        match load_o200k() {
            Some(bpe) => Ok(TokenCounter { encoding: TokenEncoding::O200k, bpe }),
            None => Err(String::from_str("failed to load o200k_base encoding")),
        }
    }

    /// The number of tokens of `text`; `None` where the encoder gives up on
    /// the text.
    pub fn count_tokens(&self, text: &str) -> (r: Option<u64>)
        ensures
            r == spec_token_count(self@, text@),
            r matches Some(n) ==> n <= 4 * text@.len(),
    {
        encode_len(self, text)
    }
}

} // verus!
