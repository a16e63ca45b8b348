//! Token counting under a named encoding.

use crate::errors::LintError;
use crate::text::same_text;
use vstd::prelude::*;

verus! {

/// The encodings under which tokens can be counted.
#[derive(Debug, Clone, Copy, PartialEq, Eq, Hash, Structural)]
pub enum Encoding {
    Cl100kBase,
    O200kBase,
    P50kBase,
    R50kBase,
}

/// What counting the tokens of `text` under `cl100k_base` gives: the number
/// of tokens, or `None` if the encoder cannot be built or the text cannot be
/// encoded.
pub uninterp spec fn cl100k_outcome(text: Seq<char>) -> Option<nat>;

/// What counting the tokens of `text` under `o200k_base` gives: the number
/// of tokens, or `None` if the encoder cannot be built or the text cannot be
/// encoded.
pub uninterp spec fn o200k_outcome(text: Seq<char>) -> Option<nat>;

/// What counting the tokens of `text` under `p50k_base` gives: the number of
/// tokens, or `None` if the encoder cannot be built or the text cannot be
/// encoded.
pub uninterp spec fn p50k_outcome(text: Seq<char>) -> Option<nat>;

/// What counting the tokens of `text` under `r50k_base` gives: the number of
/// tokens, or `None` if the encoder cannot be built or the text cannot be
/// encoded.
pub uninterp spec fn r50k_outcome(text: Seq<char>) -> Option<nat>;

/// What counting the tokens of `text` under `encoding` gives: the number of
/// tokens, or `None` if the tokenizer fails on this text.
pub open spec fn token_outcome(text: Seq<char>, encoding: Encoding) -> Option<nat> {
    match encoding {
        Encoding::Cl100kBase => cl100k_outcome(text),
        Encoding::O200kBase => o200k_outcome(text),
        Encoding::P50kBase => p50k_outcome(text),
        Encoding::R50kBase => r50k_outcome(text),
    }
}

impl Encoding {
    /// The name of this encoding.
    pub open spec fn spec_name(self) -> Seq<char> {
        match self {
            Encoding::Cl100kBase => "cl100k_base"@,
            Encoding::O200kBase => "o200k_base"@,
            Encoding::P50kBase => "p50k_base"@,
            Encoding::R50kBase => "r50k_base"@,
        }
    }

    /// The encoding that `name` names.
    pub open spec fn spec_from_name(name: Seq<char>) -> Option<Encoding> {
        if name == "cl100k_base"@ {
            Some(Encoding::Cl100kBase)
        } else if name == "o200k_base"@ {
            Some(Encoding::O200kBase)
        } else if name == "p50k_base"@ {
            Some(Encoding::P50kBase)
        } else if name == "r50k_base"@ {
            Some(Encoding::R50kBase)
        } else {
            None
        }
    }

    /// The name of this encoding.
    pub fn name(&self) -> (r: &'static str)
        ensures
            r@ == self.spec_name(),
    {
        match self {
            Encoding::Cl100kBase => "cl100k_base",
            Encoding::O200kBase => "o200k_base",
            Encoding::P50kBase => "p50k_base",
            Encoding::R50kBase => "r50k_base",
        }
    }

    /// The encoding that `name` names, if it names one.
    pub fn from_name(name: &str) -> (r: Option<Encoding>)
        ensures
            r == Encoding::spec_from_name(name@),
    {
        if same_text(name, "cl100k_base") {
            Some(Encoding::Cl100kBase)
        } else if same_text(name, "o200k_base") {
            Some(Encoding::O200kBase)
        } else if same_text(name, "p50k_base") {
            Some(Encoding::P50kBase)
        } else if same_text(name, "r50k_base") {
            Some(Encoding::R50kBase)
        } else {
            None
        }
    }
}

/// Counts the tokens of `text` with the encoder that
/// `tiktoken_rs::cl100k_base` builds, by `CoreBPE::encode` with every special
/// token allowed. The encoder is built from data that is part of the crate,
/// and whether the text can be encoded depends on the text alone, so what
/// comes back, a count or a failure, is the same for the same text.
#[verifier::external_body]
fn count_cl100k(text: &str) -> (r: Result<usize, String>)
    ensures
        match r {
            Ok(n) => cl100k_outcome(text@) == Some(n as nat),
            Err(_) => cl100k_outcome(text@) is None,
        },
{
    let bpe = tiktoken_rs::cl100k_base().map_err(|e| e.to_string())?;
    let allowed = bpe.special_tokens();
    let (tokens, _) = bpe.encode(text, &allowed).map_err(|e| e.to_string())?;
    Ok(tokens.len())
}

/// Counts the tokens of `text` with the encoder that
/// `tiktoken_rs::o200k_base` builds, by `CoreBPE::encode` with every special
/// token allowed. The encoder is built from data that is part of the crate,
/// and whether the text can be encoded depends on the text alone, so what
/// comes back, a count or a failure, is the same for the same text.
#[verifier::external_body]
fn count_o200k(text: &str) -> (r: Result<usize, String>)
    ensures
        match r {
            Ok(n) => o200k_outcome(text@) == Some(n as nat),
            Err(_) => o200k_outcome(text@) is None,
        },
{
    let bpe = tiktoken_rs::o200k_base().map_err(|e| e.to_string())?;
    let allowed = bpe.special_tokens();
    let (tokens, _) = bpe.encode(text, &allowed).map_err(|e| e.to_string())?;
    Ok(tokens.len())
}

/// Counts the tokens of `text` with the encoder that
/// `tiktoken_rs::p50k_base` builds, by `CoreBPE::encode` with every special
/// token allowed. The encoder is built from data that is part of the crate,
/// and whether the text can be encoded depends on the text alone, so what
/// comes back, a count or a failure, is the same for the same text.
#[verifier::external_body]
fn count_p50k(text: &str) -> (r: Result<usize, String>)
    ensures
        match r {
            Ok(n) => p50k_outcome(text@) == Some(n as nat),
            Err(_) => p50k_outcome(text@) is None,
        },
{
    let bpe = tiktoken_rs::p50k_base().map_err(|e| e.to_string())?;
    let allowed = bpe.special_tokens();
    let (tokens, _) = bpe.encode(text, &allowed).map_err(|e| e.to_string())?;
    Ok(tokens.len())
}

/// Counts the tokens of `text` with the encoder that
/// `tiktoken_rs::r50k_base` builds, by `CoreBPE::encode` with every special
/// token allowed. The encoder is built from data that is part of the crate,
/// and whether the text can be encoded depends on the text alone, so what
/// comes back, a count or a failure, is the same for the same text.
#[verifier::external_body]
fn count_r50k(text: &str) -> (r: Result<usize, String>)
    ensures
        match r {
            Ok(n) => r50k_outcome(text@) == Some(n as nat),
            Err(_) => r50k_outcome(text@) is None,
        },
{
    let bpe = tiktoken_rs::r50k_base().map_err(|e| e.to_string())?;
    let allowed = bpe.special_tokens();
    let (tokens, _) = bpe.encode(text, &allowed).map_err(|e| e.to_string())?;
    Ok(tokens.len())
}

/// What a run makes of the tokenizer's answer: the count, or a tokenizer
/// error with the tokenizer's words.
pub open spec fn spec_tokenizer_outcome(answer: Result<usize, String>) -> Result<
    usize,
    LintError,
> {
    match answer {
        Ok(n) => Ok(n),
        Err(cause) => Err(LintError::Tokenizer(cause)),
    }
}

/// What a run makes of the tokenizer's answer.
pub fn tokenizer_outcome(answer: Result<usize, String>) -> (r: Result<usize, LintError>)
    ensures
        r == spec_tokenizer_outcome(answer),
{
    match answer {
        Ok(n) => Ok(n),
        Err(cause) => Err(LintError::Tokenizer(cause)),
    }
}

/// Whether `r` is the answer to counting `text` under the encoding named
/// `name`: the count, if the name names an encoding and the tokenizer gives
/// one; a tokenizer error, if the name names an encoding and the tokenizer
/// fails on this text; an unknown-encoding error that carries the name, if
/// it names no encoding.
pub open spec fn counts(r: Result<usize, LintError>, text: Seq<char>, name: Seq<char>) -> bool {
    match r {
        Ok(n) => Encoding::spec_from_name(name) matches Some(e) && token_outcome(text, e)
            == Some(n as nat),
        Err(LintError::UnknownEncoding(unknown)) => Encoding::spec_from_name(name) is None
            && unknown@ == name,
        Err(LintError::Tokenizer(_)) => Encoding::spec_from_name(name) matches Some(e)
            && token_outcome(text, e) is None,
        Err(_) => false,
    }
}

/// The encoding that `name` names.
pub fn get_encoding(name: &str) -> (r: Result<Encoding, LintError>)
    ensures
        match r {
            Ok(e) => Encoding::spec_from_name(name@) == Some(e),
            Err(LintError::UnknownEncoding(unknown)) => Encoding::spec_from_name(name@) is None
                && unknown@ == name@,
            Err(_) => false,
        },
{
    match Encoding::from_name(name) {
        Some(e) => Ok(e),
        None => Err(LintError::UnknownEncoding(name.to_string())),
    }
}

/// Counts the tokens of `text` under `encoding`. Fails with a tokenizer
/// error exactly if the tokenizer gives no count for this text.
pub fn count_with(text: &str, encoding: Encoding) -> (r: Result<usize, LintError>)
    ensures
        match r {
            Ok(n) => token_outcome(text@, encoding) == Some(n as nat),
            Err(LintError::Tokenizer(_)) => token_outcome(text@, encoding) is None,
            Err(_) => false,
        },
{
    let answer = match encoding {
        Encoding::Cl100kBase => count_cl100k(text),
        Encoding::O200kBase => count_o200k(text),
        Encoding::P50kBase => count_p50k(text),
        Encoding::R50kBase => count_r50k(text),
    };
    tokenizer_outcome(answer)
}

/// Counts the tokens of `text` under the encoding named `encoding_name`.
pub fn count_tokens(text: &str, encoding_name: &str) -> (r: Result<usize, LintError>)
    ensures
        counts(r, text@, encoding_name@),
{
    match get_encoding(encoding_name) {
        Ok(encoding) => count_with(text, encoding),
        Err(e) => Err(e),
    }
}

} // verus!
