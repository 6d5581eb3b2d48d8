//! Token counting via `tiktoken-rs`, used by the token budget rules.

use vstd::prelude::*;
use tiktoken_rs::CoreBPE;
use crate::diagnostic::AdeptError;

verus! {

#[verifier::external_type_specification]
#[verifier::external_body]
pub struct ExCoreBPE(CoreBPE);

/// Which BPE encoding a [`TokenCounter`] uses.
#[derive(Clone, Copy, Debug, PartialEq, Eq, Structural)]
pub enum Tokenizer {
    /// `o200k_base` (GPT-4o and newer); the default.
    O200kBase,
    /// `cl100k_base` (GPT-4 / GPT-3.5 era).
    Cl100kBase,
}

impl Default for Tokenizer {
    /// `o200k_base`.
    fn default() -> (t: Tokenizer)
        ensures
            t == Tokenizer::O200kBase,
    {
        Tokenizer::O200kBase
    }
}

impl Tokenizer {
    /// The encoding's name, as `Display` renders it.
    pub fn as_str(&self) -> (s: &'static str)
        ensures
            s@ == tokenizer_name(*self),
    {
        match self {
            Tokenizer::O200kBase => "o200k_base",
            Tokenizer::Cl100kBase => "cl100k_base",
        }
    }
}

pub open spec fn tokenizer_name(t: Tokenizer) -> Seq<char> {
    match t {
        Tokenizer::O200kBase => "o200k_base"@,
        Tokenizer::Cl100kBase => "cl100k_base"@,
    }
}

/// How many tokens `tiktoken-rs`'s encoding of `text` under `tokenizer`
/// has, with no special token allowed; `None` when its regex engine gives
/// up on `text` (a fixed backtracking limit, so this depends on the text
/// alone).
pub uninterp spec fn token_count(tokenizer: Tokenizer, text: Seq<char>) -> Option<nat>;

/// Whether the bundled BPE tables of `tokenizer` load.
pub uninterp spec fn tables_load(tokenizer: Tokenizer) -> bool;

/// Calls `tiktoken_rs::o200k_base` or `tiktoken_rs::cl100k_base`, which
/// build an encoding's tables from the data bundled in the crate; the error
/// is rendered to text. Whether loading succeeds is named.
#[verifier::external_body]
fn load_tables(tokenizer: Tokenizer) -> (r: Result<CoreBPE, String>)
    ensures
        r is Ok <==> tables_load(tokenizer),
{
    let loaded = match tokenizer {
        Tokenizer::O200kBase => tiktoken_rs::o200k_base(),
        Tokenizer::Cl100kBase => tiktoken_rs::cl100k_base(),
    };
    match loaded {
        Ok(bpe) => Ok(bpe),
        Err(e) => Err(e.to_string()),
    }
}

/// Counts tokens in text using one tiktoken BPE encoding. Only
/// [`TokenCounter::new`] builds one, so its tables always belong to its
/// tokenizer.
pub struct TokenCounter {
    bpe: CoreBPE,
    tokenizer: Tokenizer,
}

impl TokenCounter {
    pub closed spec fn spec_tokenizer(&self) -> Tokenizer {
        self.tokenizer
    }

    /// A counter for `tokenizer`: `Ok` exactly when its tables load, else
    /// [`AdeptError::TokenizerLoad`].
    pub fn new(tokenizer: Tokenizer) -> (r: Result<TokenCounter, AdeptError>)
        ensures
            r is Ok <==> tables_load(tokenizer),
            r matches Ok(c) ==> c.spec_tokenizer() == tokenizer,
            r matches Err(e) ==> e matches AdeptError::TokenizerLoad { tokenizer: t, .. } && t
                == tokenizer,
    {
        let loaded = load_tables(tokenizer);
        match loaded {
            Ok(bpe) => Ok(TokenCounter { bpe, tokenizer }),
            Err(message) => Err(AdeptError::TokenizerLoad { tokenizer, message }),
        }
    }

    /// Which tokenizer this counter uses.
    pub fn tokenizer(&self) -> (t: Tokenizer)
        ensures
            t == self.spec_tokenizer(),
    {
        self.tokenizer
    }

    /// Counts the tokens of `text`: calls `CoreBPE::encode` on the counter's
    /// tables with no special token allowed and takes the length, or `None`
    /// when the encoder reports a regex error (its backtracking limit).
    #[verifier::external_body]
    pub fn count(&self, text: &str) -> (n: Option<usize>)
        ensures
            match n {
                Some(k) => token_count(self.spec_tokenizer(), text@) == Some(k as nat),
                None => token_count(self.spec_tokenizer(), text@) is None,
            },
    {
        match self.bpe.encode(text, &std::collections::HashSet::new()) {
            Ok((tokens, _)) => Some(tokens.len()),
            Err(_) => None,
        }
    }
}

} // verus!
