//! What a command-line front end needs around the codec: reading a block
//! size, choosing sections by a glob pattern, and the texts that describe a
//! section or sum up a run.

use vstd::prelude::*;
use vstd::string::{StrSliceExecFns, StringExecFns, StringSliceAdditionalSpecFns};
use vstd::utf8::{decode_utf8, encode_utf8, encode_utf8_decode_utf8, encode_utf8_valid_utf8,
    is_ascii_chars, is_ascii_chars_encode_utf8, valid_utf8};
use crate::entry::{views, EntryView, TocEntry};
use crate::outside::{alphabetic, binary_size, char_is_alphabetic, compile_glob, glob_is_match,
    glob_matches, glob_pattern, glob_refusal, hex_dump_text, hex_rows, parse_binary_size,
    str_from_utf8};
use crate::text::{byte_list, decimal, hexadecimal, push_byte_list, push_decimal,
    push_hexadecimal};
use crate::toc::Toc;

verus! {

/// A block size is written with fewer digits than this.
///
/// The size parser keeps the digits in 64 bits and rounds up when they no
/// longer fit. Twenty digits can fill the 64 bits to the last one; a digit
/// behind them would round up beyond it. So twenty digits are the most that
/// are handed to the parser.
pub const MAX_SIZE_DIGITS: usize = 21;

/// A glob pattern is at most this many bytes long.
///
/// A glob is compiled to an automaton that may take 10 MiB at most. A byte
/// of a pattern becomes a few states of it, of some tens of bytes each, so a
/// pattern of this length stays below the limit by more than a factor of ten.
pub const MAX_PATTERN_LEN: usize = 4096;

/// A glob pattern holds at most this many opening braces.
///
/// A glob is compiled by way of a regular expression that may nest 250
/// levels deep at most. Only alternates in braces nest, and every level of
/// them is three levels of the expression: a group, the alternation in it, a
/// sequence in one of its branches. So about 80 levels of braces could be
/// taken; this bound leaves room. It counts every opening brace, nested or
/// not, escaped or not: what nests cannot be told without reading the
/// pattern as a glob.
pub const MAX_PATTERN_BRACES: usize = 64;

/// The bytes that are read at once when a section is dumped.
pub const DUMP_BLOCK_SIZE: usize = 4096;

/// The bytes in one row of a hex dump.
pub const HEX_ROW_WIDTH: usize = 16;

/// The bytes in one group of a row of a hex dump.
pub const HEX_GROUP: usize = 8;

/// Whether a hex dump begins with a line that gives the data's length.
pub const HEX_TITLE: bool = false;

/// A row of a hex dump is at most this wide.
pub const MAX_HEX_WIDTH: usize = 256;

/// Why a text is no block size.
#[derive(Clone, Copy, Debug, PartialEq, Eq, Structural)]
pub enum SizeError {
    /// The text holds no number.
    Empty,
    /// The text holds a character that has no place in a size.
    InvalidDigit,
    /// The number does not fit in 64 bits, or is written with too many digits.
    Overflow,
}

impl SizeError {
    /// The text of `message`.
    pub open spec fn message_text(self) -> Seq<char> {
        match self {
            SizeError::Empty => "cannot parse integer from empty string"@,
            SizeError::InvalidDigit => "invalid digit found in string"@,
            SizeError::Overflow => "number too large to fit in target type"@,
        }
    }

    /// A sentence for the user.
    pub fn message(self) -> (text: String)
        ensures
            text@ == self.message_text(),
    {
        match self {
            SizeError::Empty => "cannot parse integer from empty string".to_owned(),
            SizeError::InvalidDigit => "invalid digit found in string".to_owned(),
            SizeError::Overflow => "number too large to fit in target type".to_owned(),
        }
    }
}

/// The number of decimal digits among `bytes`.
pub open spec fn digit_count(bytes: Seq<u8>) -> nat
    decreases bytes.len(),
{
    if bytes.len() == 0 {
        0
    } else {
        digit_count(bytes.drop_last()) + if 0x30 <= bytes.last() <= 0x39 {
            1nat
        } else {
            0nat
        }
    }
}

/// Counts the decimal digits among `bytes`.
pub fn count_digits(bytes: &[u8]) -> (n: usize)
    ensures
        n == digit_count(bytes@),
        n <= bytes@.len(),
{
    let mut n: usize = 0;
    let mut i: usize = 0;
    while i < bytes.len()
        invariant
            i <= bytes@.len(),
            n <= i,
            n == digit_count(bytes@.take(i as int)),
        decreases bytes@.len() - i,
    {
        assert(bytes@.take(i + 1).drop_last() =~= bytes@.take(i as int));
        if 0x30 <= bytes[i] && bytes[i] <= 0x39 {
            n = n + 1;
        }
        i = i + 1;
    }
    assert(bytes@.take(bytes@.len() as int) =~= bytes@);
    n
}

/// The block size for a parsed size: the size itself, cut to the machine's word.
pub open spec fn block_size_from_spec(parsed: Result<u64, SizeError>) -> Result<usize, SizeError> {
    match parsed {
        Ok(size) => Ok(size as usize),
        Err(e) => Err(e),
    }
}

/// The block size for a parsed size: the size itself, cut to the machine's word.
#[verifier::when_used_as_spec(block_size_from_spec)]
pub fn block_size_from(parsed: Result<u64, SizeError>) -> (r: Result<usize, SizeError>)
    ensures
        r == block_size_from_spec(parsed),
{
    match parsed {
        Ok(size) => Ok(
            #[verifier::truncate]
            (size as usize),
        ),
        Err(e) => Err(e),
    }
}

/// The block size that `text` denotes. A text with `MAX_SIZE_DIGITS` digits
/// or more is too large whatever else it holds; any other is read with K, M,
/// G, T, P and E as powers of 1024.
pub open spec fn block_size_of(text: Seq<char>) -> Result<usize, SizeError> {
    if digit_count(encode_utf8(text)) >= MAX_SIZE_DIGITS {
        Err(SizeError::Overflow)
    } else {
        block_size_from_spec(binary_size(text))
    }
}

/// Reads a block size such as `64KB`, using powers of two for the units.
pub fn parse_block_size(s: &str) -> (r: Result<usize, SizeError>)
    ensures
        r == block_size_of(s@),
{
    if count_digits(s.as_bytes()) >= MAX_SIZE_DIGITS {
        return Err(SizeError::Overflow);
    }
    block_size_from(parse_binary_size(s))
}

/// Why a section pattern gives no matcher.
#[derive(Debug)]
pub enum MatcherError {
    /// The pattern is longer than `MAX_PATTERN_LEN` bytes.
    TooLong,
    /// The pattern holds more than `MAX_PATTERN_BRACES` opening braces.
    TooManyBraces,
    /// The pattern is no glob; the text says why.
    Invalid(String),
}

impl MatcherError {
    /// A sentence for the user.
    pub fn message(&self) -> (text: String)
        ensures
            self matches MatcherError::Invalid(reason) ==> text@ == reason@,
            self is TooLong ==> text@ == "pattern is too long"@,
            self is TooManyBraces ==> text@ == "pattern has too many braces"@,
    {
        match self {
            MatcherError::TooLong => "pattern is too long".to_owned(),
            MatcherError::TooManyBraces => "pattern has too many braces".to_owned(),
            MatcherError::Invalid(reason) => reason.clone(),
        }
    }
}

/// The number of opening braces among `bytes`.
pub open spec fn brace_count(bytes: Seq<u8>) -> nat
    decreases bytes.len(),
{
    if bytes.len() == 0 {
        0
    } else {
        brace_count(bytes.drop_last()) + if bytes.last() == 0x7b {
            1nat
        } else {
            0nat
        }
    }
}

/// Counts the opening braces among `bytes`.
pub fn count_braces(bytes: &[u8]) -> (n: usize)
    ensures
        n == brace_count(bytes@),
        n <= bytes@.len(),
{
    let mut n: usize = 0;
    let mut i: usize = 0;
    while i < bytes.len()
        invariant
            i <= bytes@.len(),
            n <= i,
            n == brace_count(bytes@.take(i as int)),
        decreases bytes@.len() - i,
    {
        assert(bytes@.take(i + 1).drop_last() =~= bytes@.take(i as int));
        if bytes[i] == 0x7b {
            n = n + 1;
        }
        i = i + 1;
    }
    assert(bytes@.take(bytes@.len() as int) =~= bytes@);
    n
}

/// Why a pattern is refused before it is compiled, if it is: for its
/// length first, then for its braces.
pub open spec fn pattern_refusal(pattern: Seq<u8>) -> Option<MatcherError> {
    if pattern.len() > MAX_PATTERN_LEN {
        Some(MatcherError::TooLong)
    } else if brace_count(pattern) > MAX_PATTERN_BRACES {
        Some(MatcherError::TooManyBraces)
    } else {
        None
    }
}

/// What becomes of a compiled pattern: the matcher is the one to use, and a
/// refusal is handed on as `Invalid` with the sentence that came with it.
pub fn matcher_from(compiled: Result<globset::GlobMatcher, String>) -> (r: Result<
    Option<globset::GlobMatcher>,
    MatcherError,
>)
    ensures
        compiled matches Ok(m) ==> r == Ok::<Option<globset::GlobMatcher>, MatcherError>(Some(m)),
        compiled matches Err(reason) ==> r matches Err(MatcherError::Invalid(text)) && text@
            == reason@,
{
    match compiled {
        Ok(matcher) => Ok(Some(matcher)),
        Err(reason) => Err(MatcherError::Invalid(reason)),
    }
}

/// The matcher for an optional section pattern: none without a pattern,
/// and otherwise the compiled pattern or the reason there is none.
///
/// A pattern that is too long or holds too many braces is refused as
/// `pattern_refusal` says. Any other is compiled as it came: where it is a
/// glob, a matcher for that very pattern comes back, and where it is none,
/// `Invalid` with the reason.
pub fn build_section_matcher(section_pattern: Option<&str>) -> (r: Result<
    Option<globset::GlobMatcher>,
    MatcherError,
>)
    ensures
        section_pattern is None ==> r matches Ok(None),
        section_pattern matches Some(pattern) ==> match r {
            Ok(Some(m)) => pattern_refusal(pattern.spec_bytes()) is None && glob_refusal(pattern@)
                is None && glob_pattern(m) == pattern@,
            Ok(None) => false,
            Err(MatcherError::Invalid(reason)) => pattern_refusal(pattern.spec_bytes()) is None
                && glob_refusal(pattern@) == Some(reason@),
            Err(e) => pattern_refusal(pattern.spec_bytes()) == Some(e),
        },
{
    match section_pattern {
        None => Ok(None),
        Some(pattern) => {
            if pattern.as_bytes().len() > MAX_PATTERN_LEN {
                return Err(MatcherError::TooLong);
            }
            if count_braces(pattern.as_bytes()) > MAX_PATTERN_BRACES {
                return Err(MatcherError::TooManyBraces);
            }
            matcher_from(compile_glob(pattern))
        },
    }
}

impl TocEntry {
    /// The name as text, where it is valid UTF-8.
    pub fn name_str(&self) -> (r: Option<&str>)
        ensures
            r is Some <==> valid_utf8(self@.name),
            r matches Some(s) ==> s@ == decode_utf8(self@.name),
    {
        let r = str_from_utf8(self.name());
        proof {
            if let Some(s) = r {
                encode_utf8_decode_utf8(s@);
            }
        }
        r
    }
}

/// Whether a section is chosen, given what is known of it: every section
/// is where there is no pattern, and otherwise those whose name is text that
/// the pattern matches.
pub open spec fn is_selected_spec(filtered: bool, name_is_text: bool, pattern_matches: bool) -> bool {
    !filtered || (name_is_text && pattern_matches)
}

/// Whether a section is chosen, given what is known of it.
#[verifier::when_used_as_spec(is_selected_spec)]
pub fn is_selected(filtered: bool, name_is_text: bool, pattern_matches: bool) -> (b: bool)
    ensures
        b == is_selected_spec(filtered, name_is_text, pattern_matches),
{
    !filtered || (name_is_text && pattern_matches)
}

/// Whether the section named `name` is chosen by `matcher`: without a
/// matcher every section is; with one, a name that is not valid UTF-8 never
/// is, and any other name is where the matcher matches its text.
pub open spec fn is_chosen(matcher: Option<&globset::GlobMatcher>, name: Seq<u8>) -> bool {
    match matcher {
        None => true,
        Some(m) => valid_utf8(name) && glob_matches(*m, decode_utf8(name)),
    }
}

/// Whether `entry` is chosen by `matcher`.
///
/// Without a matcher every entry is. With one, an entry whose name is not
/// valid UTF-8 never is, and for any other the pattern decides.
pub fn section_matches(entry: &TocEntry, matcher: Option<&globset::GlobMatcher>) -> (b: bool)
    ensures
        b == is_chosen(matcher, entry@.name),
{
    match matcher {
        None => is_selected(false, false, false),
        Some(matcher) => match entry.name_str() {
            Some(name) => is_selected(true, true, glob_is_match(matcher, name)),
            None => is_selected(true, false, false),
        },
    }
}

/// For each entry of `toc`, in stored order, whether `matcher` chooses it.
pub fn select_sections(toc: &Toc, matcher: Option<&globset::GlobMatcher>) -> (flags: Vec<bool>)
    ensures
        flags@.len() == toc@.len(),
        forall|i: int| 0 <= i < flags@.len() ==> flags@[i] == is_chosen(matcher, toc@[i].name),
{
    let entries = toc.as_slice();
    let mut flags: Vec<bool> = Vec::with_capacity(entries.len());
    let mut i: usize = 0;
    while i < entries.len()
        invariant
            i <= entries@.len(),
            views(entries@) == toc@,
            flags@.len() == i,
            forall|j: int| 0 <= j < i ==> flags@[j] == is_chosen(matcher, toc@[j].name),
        decreases entries@.len() - i,
    {
        let flag = section_matches(&entries[i], matcher);
        flags.push(flag);
        i = i + 1;
    }
    flags
}

/// The number of flags that are set.
pub open spec fn count_true(flags: Seq<bool>) -> nat
    decreases flags.len(),
{
    if flags.len() == 0 {
        0
    } else {
        count_true(flags.drop_last()) + if flags.last() {
            1nat
        } else {
            0nat
        }
    }
}

/// Counts the sections that were chosen.
pub fn count_selected(flags: &[bool]) -> (n: usize)
    ensures
        n == count_true(flags@),
        n <= flags@.len(),
{
    let mut n: usize = 0;
    let mut i: usize = 0;
    while i < flags.len()
        invariant
            i <= flags@.len(),
            n <= i,
            n == count_true(flags@.take(i as int)),
        decreases flags@.len() - i,
    {
        assert(flags@.take(i + 1).drop_last() =~= flags@.take(i as int));
        if flags[i] {
            n = n + 1;
        }
        i = i + 1;
    }
    assert(flags@.take(flags@.len() as int) =~= flags@);
    n
}

/// The sentence that sums up a run over `total` sections of which `matched`
/// were chosen: with a pattern it names both numbers, without one the total.
pub open spec fn summary_text(verb: Seq<char>, matched: nat, total: nat, filtered: bool) -> Seq<
    char,
> {
    if filtered {
        verb + " "@ + decimal(matched) + " of "@ + decimal(total) + " sections."@
    } else {
        verb + " "@ + decimal(total) + " sections."@
    }
}

/// The sentence that sums up a run, such as `Dumped 2 of 3 sections.`
pub fn summary_line(verb: &str, matched: usize, total: usize, filtered: bool) -> (text: String)
    ensures
        text@ == summary_text(verb@, matched as nat, total as nat, filtered),
{
    let mut text = String::from_str(verb);
    text.append(" ");
    if filtered {
        push_decimal(&mut text, matched as u64);
        text.append(" of ");
    }
    push_decimal(&mut text, total as u64);
    text.append(" sections.");
    text
}

/// The line that names the archive, such as `SFA file: archive.sfa`.
pub fn archive_line(path: &str) -> (text: String)
    ensures
        text@ == "SFA file: "@ + path@,
{
    let mut text = String::from_str("SFA file: ");
    text.append(path);
    text
}

/// The line that counts the sections, such as `Number of sections: 3`.
pub fn sections_line(count: usize) -> (text: String)
    ensures
        text@ == "Number of sections: "@ + decimal(count as nat),
{
    let mut text = String::from_str("Number of sections: ");
    push_decimal(&mut text, count as u64);
    text
}

/// The line that reports a new archive, such as
/// `Created SFA file: archive.sfa with 2 sections`.
pub fn created_line(path: &str, count: usize) -> (text: String)
    ensures
        text@ == "Created SFA file: "@ + path@ + " with "@ + decimal(count as nat)
            + " sections"@,
{
    let mut text = String::from_str("Created SFA file: ");
    text.append(path);
    text.append(" with ");
    push_decimal(&mut text, count as u64);
    text.append(" sections");
    text
}

/// The line that reports an extracted section, such as
/// `Extracted: file1.txt to ./file1.txt`.
pub fn extracted_line(name: &str, path: &str) -> (text: String)
    ensures
        text@ == "Extracted: "@ + name@ + " to "@ + path@,
{
    let mut text = String::from_str("Extracted: ");
    text.append(name);
    text.append(" to ");
    text.append(path);
    text
}

/// A byte that is shown as it is: an ASCII letter, digit, punctuation mark,
/// space, tab, line feed, vertical tab, form feed or carriage return.
pub open spec fn is_plain(b: u8) -> bool {
    (9 <= b <= 13) || (32 <= b <= 126)
}

/// Every byte of `name` is plain.
pub open spec fn all_plain(name: Seq<u8>) -> bool {
    forall|i: int| 0 <= i < name.len() ==> is_plain(#[trigger] name[i])
}

/// The characters that ASCII bytes stand for.
pub open spec fn ascii_text(bytes: Seq<u8>) -> Seq<char> {
    Seq::new(bytes.len(), |i: int| bytes[i] as char)
}

/// How a section name is shown: `(empty)` for the empty name; a name of plain
/// bytes in double quotes; any other name that is valid UTF-8 as it is; and
/// a name that is not as the list of its bytes.
pub open spec fn section_label(name: Seq<u8>) -> Seq<char> {
    if name.len() == 0 {
        "(empty)"@
    } else if all_plain(name) {
        "\""@ + ascii_text(name) + "\""@
    } else if valid_utf8(name) {
        decode_utf8(name)
    } else {
        byte_list(name)
    }
}

/// ASCII bytes are valid UTF-8 and decode to the characters they stand for.
pub proof fn lemma_ascii_is_utf8(bytes: Seq<u8>)
    requires
        forall|i: int| 0 <= i < bytes.len() ==> (#[trigger] bytes[i]) < 128,
    ensures
        valid_utf8(bytes),
        decode_utf8(bytes) == ascii_text(bytes),
{
    let chars = ascii_text(bytes);
    assert(is_ascii_chars(chars)) by {
        assert forall|i: int| 0 <= i < chars.len() implies '\0' <= #[trigger] chars[i]
            <= '\u{7f}' by {
            assert(bytes[i] < 128);
        }
    }
    is_ascii_chars_encode_utf8(chars);
    assert(encode_utf8(chars) =~= bytes) by {
        assert forall|i: int| 0 <= i < bytes.len() implies encode_utf8(chars)[i] == bytes[i] by {
            assert(chars[i] as u8 == encode_utf8(chars)[i]);
        }
    }
    encode_utf8_valid_utf8(chars);
    encode_utf8_decode_utf8(chars);
}

/// Whether every byte of `name` is plain.
fn check_plain(name: &[u8]) -> (b: bool)
    ensures
        b == all_plain(name@),
{
    let mut i: usize = 0;
    while i < name.len()
        invariant
            i <= name@.len(),
            forall|j: int| 0 <= j < i ==> is_plain(#[trigger] name@[j]),
        decreases name@.len() - i,
    {
        let b: u8 = name[i];
        if !((9 <= b && b <= 13) || (32 <= b && b <= 126)) {
            return false;
        }
        i = i + 1;
    }
    true
}

/// The text under which a section name is shown.
pub fn format_section_name(name: &[u8]) -> (text: String)
    ensures
        text@ == section_label(name@),
{
    if name.len() == 0 {
        return "(empty)".to_owned();
    }
    let plain = check_plain(name);
    proof {
        if plain {
            lemma_ascii_is_utf8(name@);
        }
    }
    match str_from_utf8(name) {
        Some(s) => {
            proof {
                encode_utf8_decode_utf8(s@);
            }
            if plain {
                let mut text = String::from_str("\"");
                text.append(s);
                text.append("\"");
                text
            } else {
                s.to_owned()
            }
        },
        None => {
            let mut text = String::new();
            push_byte_list(&mut text, name);
            text
        },
    }
}

/// What is said of the section `entry`, the `index`-th of the table: four
/// lines with its index, name, position and length.
pub open spec fn section_description(index: nat, entry: EntryView) -> Seq<char> {
    "Section "@ + decimal(index) + ":\n  Name: "@ + section_label(entry.name) + "\n  Position: "@
        + decimal(entry.pos as nat) + " (0x"@ + hexadecimal(entry.pos as nat) + ")\n  Length: "@
        + decimal(entry.len as nat) + " bytes (0x"@ + hexadecimal(entry.len as nat) + ")"@
}

/// Describes a section in four lines.
pub fn describe_section(index: usize, entry: &TocEntry) -> (text: String)
    ensures
        text@ == section_description(index as nat, entry@),
{
    let mut text = String::from_str("Section ");
    push_decimal(&mut text, index as u64);
    text.append(":\n  Name: ");
    let label = format_section_name(entry.name());
    text.append(label.as_str());
    text.append("\n  Position: ");
    push_decimal(&mut text, entry.pos());
    text.append(" (0x");
    push_hexadecimal(&mut text, entry.pos());
    text.append(")\n  Length: ");
    push_decimal(&mut text, entry.len());
    text.append(" bytes (0x");
    push_hexadecimal(&mut text, entry.len());
    text.append(")");
    text
}

/// The hex dump of `data`, a block that begins `offset` bytes into its
/// section, in rows of `HEX_ROW_WIDTH` bytes; or nothing where the block's
/// end is beyond what the machine can address.
pub fn hex_block(data: &[u8], offset: u64) -> (r: Option<String>)
    ensures
        offset + data@.len() <= usize::MAX ==> r is Some && r->0@ == hex_dump_text(
            data@,
            HEX_TITLE,
            HEX_ROW_WIDTH as int,
            HEX_GROUP as int,
            offset as int,
        ),
        offset + data@.len() > usize::MAX ==> r is None,
{
    if offset > (usize::MAX - data.len()) as u64 {
        return None;
    }
    Some(hex_rows(data, HEX_TITLE, HEX_ROW_WIDTH, HEX_GROUP, offset as usize))
}

/// The texts of `strings`, in order.
pub open spec fn texts(strings: Seq<String>) -> Seq<Seq<char>> {
    Seq::new(strings.len(), |i: int| strings[i]@)
}

/// The letters that stand for a command: dump, test, extract, create.
pub open spec fn is_command_letter(c: char) -> bool {
    c == 'd' || c == 't' || c == 'x' || c == 'c'
}

/// Every character of `chars` is alphabetic.
pub open spec fn all_alphabetic(chars: Seq<char>) -> bool {
    forall|i: int| 0 <= i < chars.len() ==> alphabetic(#[trigger] chars[i])
}

/// `arg` is a command in the short form that `tar` has made familiar: a
/// command letter alone, or a command letter and flag letters behind it, of
/// at most three bytes in all.
pub open spec fn is_shorthand(arg: Seq<char>) -> bool {
    &&& arg.len() > 0
    &&& is_command_letter(arg[0])
    &&& (encode_utf8(arg).len() == 1 || (encode_utf8(arg).len() <= 3 && all_alphabetic(
        arg.skip(1),
    )))
}

/// The arguments with a short-form command written out: the command letter
/// becomes an argument of its own, and the letters behind it follow as one
/// group of flags. Any other arguments stay as they are.
pub open spec fn shorthand_expanded(args: Seq<Seq<char>>) -> Seq<Seq<char>> {
    if args.len() >= 2 && is_shorthand(args[1]) {
        let arg = args[1];
        let flags = if encode_utf8(arg).len() > 1 {
            seq![seq!['-'] + arg.skip(1)]
        } else {
            Seq::empty()
        };
        seq![args[0], seq![arg[0]]] + flags + args.skip(2)
    } else {
        args
    }
}

/// Whether the argument `arg` is a command in short form.
fn check_shorthand(arg: &str) -> (b: bool)
    ensures
        b == is_shorthand(arg@),
{
    let byte_len: usize = arg.as_bytes().len();
    let char_len: usize = arg.unicode_len();
    if char_len == 0 {
        return false;
    }
    let first: char = arg.get_char(0);
    if !(first == 'd' || first == 't' || first == 'x' || first == 'c') {
        return false;
    }
    if byte_len == 1 {
        return true;
    }
    if byte_len > 3 {
        return false;
    }
    let mut i: usize = 1;
    while i < char_len
        invariant
            1 <= i <= char_len,
            char_len == arg@.len(),
            is_command_letter(arg@[0]),
            1 < encode_utf8(arg@).len() <= 3,
            forall|j: int| 1 <= j < i ==> alphabetic(#[trigger] arg@[j]),
        decreases char_len - i,
    {
        if !char_is_alphabetic(arg.get_char(i)) {
            assert(arg@.skip(1)[i - 1] == arg@[i as int]);
            return false;
        }
        i = i + 1;
    }
    assert forall|j: int| 0 <= j < arg@.skip(1).len() implies alphabetic(
        #[trigger] arg@.skip(1)[j],
    ) by {
        assert(arg@.skip(1)[j] == arg@[j + 1]);
    }
    true
}

/// Writes out a command that was given in short form, as in `sfa xf
/// archive.sfa`: the second argument `xf` becomes `x` and `-f`.
pub fn expand_shorthand(args: Vec<String>) -> (r: Vec<String>)
    ensures
        texts(r@) == shorthand_expanded(texts(args@)),
{
    let mut args = args;
    let ghost before = texts(args@);
    if args.len() < 2 {
        return args;
    }
    if !check_shorthand(args[1].as_str()) {
        return args;
    }
    let arg: String = args.remove(1);
    let byte_len: usize = arg.as_str().as_bytes().len();
    let char_len: usize = arg.as_str().unicode_len();
    let command: String = arg.as_str().substring_char(0, 1).to_owned();
    proof {
        assert(command@ =~= seq![arg@[0]]);
    }
    if byte_len > 1 {
        let mut flags = String::from_str("-");
        flags.append(arg.as_str().substring_char(1, char_len));
        proof {
            reveal_strlit("-");
            assert(flags@ =~= seq!['-'] + arg@.skip(1));
        }
        args.insert(1, flags);
        args.insert(1, command);
        proof {
            assert(texts(args@) =~= seq![before[0], seq![arg@[0]]] + seq![
                seq!['-'] + arg@.skip(1),
            ] + before.skip(2));
        }
    } else {
        args.insert(1, command);
        proof {
            assert(texts(args@) =~= seq![before[0], seq![arg@[0]]] + Seq::<Seq<char>>::empty()
                + before.skip(2));
        }
    }
    args
}

} // verus!
