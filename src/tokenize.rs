use vstd::prelude::*;
use crate::chain::{build_chain, chain_of, words_view, Chain};

verus! {

#[verifier::external_type_specification]
#[verifier::external_body]
pub struct ExRegex(regex::Regex);

#[verifier::external_type_specification]
#[verifier::external_body]
pub struct ExRegexError(regex::Error);

/// The texts matched, left to right and without overlap, by the regular
/// expression `pattern` in `text`.
pub uninterp spec fn regex_matches(pattern: Seq<char>, text: Seq<char>) -> Seq<Seq<char>>;

/// A word: a run of letters, digits, apostrophes and hyphens, optionally
/// followed by sentence-ending marks.
/// Whether `pattern` is a regular expression that compiles.
pub uninterp spec fn regex_compiles(pattern: Seq<char>) -> bool;

pub const WORD_PATTERN: &'static str = "[\\p{L}\\d'-]+[.!?]*";

/// Why a tokenizer could not be made.
#[derive(Debug, PartialEq, Eq)]
pub enum TokenizerError {
    InvalidPattern,
}

/// Splits text into the tokens that a regular expression matches.
pub struct Tokenizer {
    pattern: String,
    re: regex::Regex,
}

/// Relies on regex::Regex::new: compiles `pattern`, or reports why it cannot;
/// which of the two depends on the pattern alone.
#[verifier::external_body]
fn compile(pattern: &str) -> (r: Result<regex::Regex, regex::Error>)
    ensures
        r is Ok <==> regex_compiles(pattern@),
{
    regex::Regex::new(pattern)
}

/// Relies on regex::Regex::find_iter: the successive non-overlapping matches
/// of the tokenizer's expression, which was compiled from its pattern.
#[verifier::external_body]
fn find_all(tok: &Tokenizer, text: &str) -> (r: Vec<String>)
    ensures
        words_view(r@) == regex_matches(tok.pattern(), text@),
{
    tok.re.find_iter(text).map(|m| m.as_str().to_string()).collect()
}

impl Tokenizer {
    /// The pattern this tokenizer matches.
    pub closed spec fn pattern(&self) -> Seq<char> {
        self.pattern@
    }

    /// A tokenizer for the tokens that `pattern` matches.
    pub fn new(pattern: &str) -> (r: Result<Tokenizer, TokenizerError>)
        ensures
            r is Ok <==> regex_compiles(pattern@),
            r matches Ok(t) ==> t.pattern() == pattern@,
    {
        match compile(pattern) {
            Ok(re) => Ok(Tokenizer { pattern: pattern.to_string(), re }),
            Err(_) => Err(TokenizerError::InvalidPattern),
        }
    }

    /// A tokenizer for words (see `WORD_PATTERN`).
    pub fn words() -> (r: Result<Tokenizer, TokenizerError>)
        ensures
            r is Ok <==> regex_compiles(WORD_PATTERN@),
            r matches Ok(t) ==> t.pattern() == WORD_PATTERN@,
    {
        Tokenizer::new(WORD_PATTERN)
    }

    /// The tokens of `text`, left to right.
    pub fn tokenize(&self, text: &str) -> (r: Vec<String>)
        ensures
            words_view(r@) == regex_matches(self.pattern(), text@),
    {
        find_all(self, text)
    }
}

/// The chain of one text: its tokens, each recorded after the one before it.
pub fn gen_chain(tokenizer: &Tokenizer, text: &str) -> (r: Chain)
    ensures
        r.wf(),
        r@ == chain_of(regex_matches(tokenizer.pattern(), text@)),
{
    let tokens = tokenizer.tokenize(text);
    build_chain(&tokens)
}

} // verus!
