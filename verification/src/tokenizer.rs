//! The lexer: source text cut into tokens by a fixed pattern, and the
//! pattern that a name must match.

use vstd::prelude::*;
use vstd::string::*;
use crate::compiler_error::CompilerError;

verus! {

/// The tokens of the language, in order of priority: a newline with the
/// indentation that follows it, a one-character operator, a run of word
/// characters, a quoted string.
pub const TOKEN_REGEX: &'static str = "\n[ \t]*|[-+*/%|&~^()=,]|\\w+|\".*?\"";

/// What a name must look like: word characters, at least one, nothing else.
pub const SYMBOL_REGEX: &'static str = "^\\w+$";

/// Whether the regular expression `pattern` finds a match in `text`;
/// `None` if `pattern` is no regular expression that the engine compiles.
pub uninterp spec fn pattern_accepts(pattern: Seq<char>, text: Seq<char>) -> Option<bool>;

/// The successive non-overlapping matches of the regular expression
/// `pattern` in `text`, leftmost first; `None` if `pattern` is no regular
/// expression that the engine compiles.
pub uninterp spec fn pattern_matches(pattern: Seq<char>, text: Seq<char>) -> Option<Seq<Seq<char>>>;

/// The texts of a sequence of tokens.
pub open spec fn token_texts(tokens: Seq<String>) -> Seq<Seq<char>> {
    tokens.map_values(|t: String| t@)
}

/// Compiles `pattern` with `regex::Regex::new` and asks `Regex::is_match`
/// whether it matches anywhere in `text`. Trusted: the answer is taken to
/// depend on the two texts alone.
#[verifier::external_body]
fn regex_is_match(pattern: &str, text: &str) -> (outcome: Option<bool>)
    ensures
        outcome == pattern_accepts(pattern@, text@),
{
    match regex::Regex::new(pattern) {
        Ok(re) => Some(re.is_match(text)),
        Err(_) => None,
    }
}

/// Compiles `pattern` with `regex::Regex::new` and collects the whole text
/// of every match that `Regex::captures_iter` yields on `text`. Trusted:
/// the matches are taken to depend on the two texts alone.
#[verifier::external_body]
fn regex_all_matches(pattern: &str, text: &str) -> (outcome: Option<Vec<String>>)
    ensures
        outcome.is_some() == pattern_matches(pattern@, text@).is_some(),
        outcome matches Some(found) ==> pattern_matches(pattern@, text@) == Some(
            token_texts(found@),
        ),
{
    match regex::Regex::new(pattern) {
        Ok(re) => {
            let mut found: Vec<String> = Vec::new();
            for captures in re.captures_iter(text) {
                found.push(captures[0].to_string());
            }
            Some(found)
        },
        Err(_) => None,
    }
}

/// Whether a name is well formed.
pub open spec fn is_valid_symbol(name: Seq<char>) -> bool {
    pattern_accepts(SYMBOL_REGEX@, name) == Some(true)
}

/// The verdict on a name, given what matching it against the pattern of
/// names came to: only an actual match lets the name pass.
pub fn symbol_verdict(outcome: Option<bool>, symbol: &String, line_num: usize) -> (verdict: Result<
    (),
    CompilerError,
>)
    ensures
        outcome == Some(true) ==> verdict.is_ok(),
        outcome != Some(true) ==> verdict == Err::<(), CompilerError>(
            CompilerError::InvalidSymbol(line_num, *symbol),
        ),
{
    match outcome {
        Some(true) => Ok(()),
        _ => Err(CompilerError::InvalidSymbol(line_num, symbol.clone())),
    }
}

/// Lets `symbol` pass if it is a well-formed name.
pub fn assert_valid_symbol(symbol: &String, line_num: usize) -> (verdict: Result<
    (),
    CompilerError,
>)
    ensures
        is_valid_symbol(symbol@) ==> verdict.is_ok(),
        !is_valid_symbol(symbol@) ==> verdict == Err::<(), CompilerError>(
            CompilerError::InvalidSymbol(line_num, *symbol),
        ),
{
    symbol_verdict(regex_is_match(SYMBOL_REGEX, symbol.as_str()), symbol, line_num)
}

/// The token stream for a run of lexer matches: the matches between two
/// bare newline markers, so that every line starts and ends at a marker.
pub fn frame_tokens(found: Vec<String>) -> (tokens: Vec<String>)
    ensures
        tokens@.len() == found@.len() + 2,
        tokens@[0]@ == seq!['\n'],
        tokens@[tokens@.len() - 1]@ == seq!['\n'],
        tokens@.subrange(1, tokens@.len() - 1) == found@,
{
    let mut found = found;
    let ghost middle = found@;
    let mut tokens: Vec<String> = Vec::new();
    proof {
        reveal_strlit("\n");
    }
    let newline: &str = "\n";
    assert(newline@ =~= seq!['\n']);
    tokens.push(newline.to_owned());
    tokens.append(&mut found);
    tokens.push(newline.to_owned());
    assert(tokens@.subrange(1, tokens@.len() - 1) =~= middle);
    tokens
}

/// Cuts source text into tokens. There is no stream only if the engine
/// does not compile the pattern of tokens.
pub fn tokenize(code: &str) -> (stream: Option<Vec<String>>)
    ensures
        stream.is_some() == pattern_matches(TOKEN_REGEX@, code@).is_some(),
        stream matches Some(tokens) ==> {
            &&& tokens@.len() >= 2
            &&& tokens@[0]@ == seq!['\n']
            &&& tokens@[tokens@.len() - 1]@ == seq!['\n']
            &&& pattern_matches(TOKEN_REGEX@, code@) == Some(
                token_texts(tokens@.subrange(1, tokens@.len() - 1)),
            )
        },
{
    match regex_all_matches(TOKEN_REGEX, code) {
        Some(found) => Some(frame_tokens(found)),
        None => None,
    }
}

} // verus!
