//! The calls that leave this library. Each function here is believed, not
//! proved: its comment says what is taken on trust and from where.

use vstd::prelude::*;
use vstd::string::StringSliceAdditionalSpecFns;
use vstd::utf8::valid_utf8;
use crate::tool::{brace_count, digit_count, SizeError, MAX_HEX_WIDTH, MAX_PATTERN_BRACES,
    MAX_PATTERN_LEN, MAX_SIZE_DIGITS};

verus! {

/// `globset::GlobMatcher`, a compiled glob pattern. Nothing of its inside is known here.
#[verifier::external_type_specification]
#[verifier::external_body]
pub struct ExGlobMatcher(globset::GlobMatcher);

/// What `globset::Glob::new` answers for a pattern: nothing where it takes
/// the pattern for a glob, and otherwise its sentence on why it does not.
pub uninterp spec fn glob_refusal(pattern: Seq<char>) -> Option<Seq<char>>;

/// What `globset::GlobMatcher::glob` holds: the text of the pattern that the
/// matcher was compiled from.
pub uninterp spec fn glob_pattern(matcher: globset::GlobMatcher) -> Seq<char>;

/// What `globset::GlobMatcher::is_match` returns: whether the matcher's
/// pattern matches `name`.
pub uninterp spec fn glob_matches(matcher: globset::GlobMatcher, name: Seq<char>) -> bool;

/// What `parse_size::Config::new().with_binary().parse_size` returns for a
/// text: the number of bytes it denotes, with K, M, G, T, P and E read as
/// powers of 1024, or the reason it denotes none.
pub uninterp spec fn binary_size(text: Seq<char>) -> Result<u64, SizeError>;

/// What `pretty_hex` writes for `data` in rows of `width` bytes, in groups
/// of `group`, with an ASCII column, the first row's address being `offset`;
/// with `title`, a line that gives the data's length comes first.
pub uninterp spec fn hex_dump_text(
    data: Seq<u8>,
    title: bool,
    width: int,
    group: int,
    offset: int,
) -> Seq<char>;

/// What `char::is_alphabetic` returns: whether Unicode lists `c` as alphabetic.
pub uninterp spec fn alphabetic(c: char) -> bool;

/// `char::is_alphabetic`. The answer is a function of the character alone
/// and is named `alphabetic`.
#[verifier::external_body]
pub(crate) fn char_is_alphabetic(c: char) -> (b: bool)
    ensures
        b == alphabetic(c),
{
    c.is_alphabetic()
}

/// `core::str::from_utf8`: the string slice over `bytes`, which exists
/// exactly where `bytes` are valid UTF-8 and then consists of those bytes.
#[verifier::external_body]
pub(crate) fn str_from_utf8(bytes: &[u8]) -> (r: Option<&str>)
    ensures
        r is Some <==> valid_utf8(bytes@),
        r matches Some(s) ==> s.spec_bytes() == bytes@,
{
    core::str::from_utf8(bytes).ok()
}

/// `parse_size::Config::parse_size` with binary units. The result is a
/// function of the text alone and is named `binary_size`; the three failures
/// of the crate are handed on under this library's names.
///
/// With fewer than `MAX_SIZE_DIGITS` digits in the text every step of the
/// crate's arithmetic is checked or stays in range; with more, rounding a
/// number up can overflow, so such a text is not handed to it.
#[verifier::external_body]
pub(crate) fn parse_binary_size(text: &str) -> (r: Result<u64, SizeError>)
    requires
        digit_count(text.spec_bytes()) < MAX_SIZE_DIGITS,
    ensures
        r == binary_size(text@),
{
    match parse_size::Config::new().with_binary().parse_size(text) {
        Ok(size) => Ok(size),
        Err(parse_size::Error::Empty) => Err(SizeError::Empty),
        Err(parse_size::Error::InvalidDigit) => Err(SizeError::InvalidDigit),
        Err(_) => Err(SizeError::Overflow),
    }
}

/// `globset::Glob::new` followed by `Glob::compile_matcher`: the compiled
/// pattern, or the crate's sentence on why it refuses it. Whether the pattern
/// is taken, and the sentence if it is not, depend on the pattern alone and
/// are named `glob_refusal`; a matcher that comes back keeps the pattern as
/// it was given.
///
/// `compile_matcher` builds a regular expression and treats a failure as
/// impossible, yet the expression is built under two limits. One is on its
/// size: a pattern of at most `MAX_PATTERN_LEN` bytes stays far below it. The
/// other is on its nesting, 250 levels: only alternates nest, every opening
/// brace adds at most three levels, and with at most `MAX_PATTERN_BRACES` of
/// them the expression stays below it. No other pattern is handed on.
#[verifier::external_body]
pub(crate) fn compile_glob(pattern: &str) -> (r: Result<globset::GlobMatcher, String>)
    requires
        pattern.spec_bytes().len() <= MAX_PATTERN_LEN,
        brace_count(pattern.spec_bytes()) <= MAX_PATTERN_BRACES,
    ensures
        r is Ok <==> glob_refusal(pattern@) is None,
        r matches Ok(matcher) ==> glob_pattern(matcher) == pattern@,
        r matches Err(reason) ==> glob_refusal(pattern@) == Some(reason@),
{
    match globset::Glob::new(pattern) {
        Ok(glob) => Ok(glob.compile_matcher()),
        Err(e) => Err(e.to_string()),
    }
}

/// `globset::GlobMatcher::is_match`: whether the pattern matches `name`.
/// The answer is a function of the matcher and the name alone and is named
/// `glob_matches`.
#[verifier::external_body]
pub(crate) fn glob_is_match(matcher: &globset::GlobMatcher, name: &str) -> (matched: bool)
    ensures
        matched == glob_matches(*matcher, name@),
{
    matcher.is_match(name)
}

/// `pretty_hex::PrettyHex::hex_conf`, formatted with `{:?}`: the hex dump of
/// `data`, named `hex_dump_text`. The crate fills every row up to `width`
/// and adds the data's length to the offset, so the one is kept small and
/// the sum has to fit.
#[verifier::external_body]
pub(crate) fn hex_rows(
    data: &[u8],
    title: bool,
    width: usize,
    group: usize,
    offset: usize,
) -> (text: String)
    requires
        1 <= width <= MAX_HEX_WIDTH,
        data@.len() + offset <= usize::MAX,
    ensures
        text@ == hex_dump_text(data@, title, width as int, group as int, offset as int),
{
    let cfg = pretty_hex::HexConfig {
        title,
        width,
        group,
        display_offset: offset,
        ..pretty_hex::HexConfig::default()
    };
    format!("{:?}", pretty_hex::PrettyHex::hex_conf(data, cfg))
}

} // verus!
