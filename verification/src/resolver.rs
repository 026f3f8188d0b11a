//! Finding the DNS server that this machine uses in what `nslookup` prints.
//!
//! The text is searched for an IPv4 address with a port behind `#`, and
//! failing that for an address alone.

use crate::text::{find_char, position_of};
use vstd::prelude::*;
use vstd::string::StrSliceExecFns;

verus! {

/// An IPv4 address, `#`, and a port, as a regular expression.
pub const ADDRESS_AND_PORT: &'static str = "([0-9]{1,3}.[0-9]{1,3}.[0-9]{1,3}.[0-9]{1,3}#\\d+)";

/// An IPv4 address as a regular expression.
pub const ADDRESS_ONLY: &'static str = "([0-9]{1,3}.[0-9]{1,3}.[0-9]{1,3}.[0-9]{1,3})";

/// Why no server was found.
#[derive(Debug, Clone, Copy, PartialEq, Eq, Structural)]
pub enum DetectError {
    /// A regular expression was not accepted.
    PatternRejected,
    /// The text holds no address.
    NoAddress,
    /// What stands behind the address is no port number.
    BadPort,
}

/// Whether `regex::Regex::new` accepts `pattern`.
pub uninterp spec fn regex_compiles(pattern: Seq<char>) -> bool;

/// The text of the first match that `regex::Regex::captures` finds for
/// `pattern` in `haystack`, if it finds one.
pub uninterp spec fn regex_first_match(pattern: Seq<char>, haystack: Seq<char>) -> Option<
    Seq<char>,
>;

/// `regex::Regex::new` on `pattern`, then `Regex::captures` on `haystack`
/// and, through `Captures::get(0)` and `Match::as_str`, the text of the
/// whole match. The outer result is `None` where the pattern is not
/// accepted, the inner where it matches nowhere. Nothing is claimed of
/// which patterns are accepted or what they match, only that both depend
/// on the two texts alone.
#[verifier::external_body]
fn first_match(pattern: &str, haystack: &str) -> (r: Option<Option<String>>)
    ensures
        r is Some <==> regex_compiles(pattern@),
        r matches Some(found) ==> match found {
            Some(text) => regex_first_match(pattern@, haystack@) == Some(text@),
            None => regex_first_match(pattern@, haystack@) is None,
        },
{
    let compiled = regex::Regex::new(pattern).ok()?;
    match compiled.captures(haystack) {
        Some(captures) => match captures.get(0) {
            Some(whole) => Some(Some(whole.as_str().to_string())),
            None => Some(None),
        },
        None => Some(None),
    }
}

/// The character is one of `0` to `9`.
pub open spec fn is_digit(c: char) -> bool {
    '0' <= c <= '9'
}

/// The number that the decimal digits `digits` write.
pub open spec fn decimal(digits: Seq<char>) -> nat
    decreases digits.len(),
{
    if digits.len() == 0 {
        0
    } else {
        (10 * decimal(digits.drop_last()) + (digits.last() as u32 - '0' as u32)) as nat
    }
}

/// Every character is a decimal digit.
pub open spec fn all_digits(text: Seq<char>) -> bool {
    forall|i: int| 0 <= i < text.len() ==> is_digit(#[trigger] text[i])
}

/// `text` without the `+` in front of it, if it has one.
pub open spec fn without_sign(text: Seq<char>) -> Seq<char> {
    if text.len() > 0 && text[0] == '+' {
        text.drop_first()
    } else {
        text
    }
}

/// The port that `text` writes: decimal digits, at least one, with or
/// without a `+` in front, that write a number of at most 65535.
pub open spec fn port_of(text: Seq<char>) -> Option<u16> {
    let digits = without_sign(text);
    if digits.len() > 0 && all_digits(digits) && decimal(digits) <= u16::MAX {
        Some(decimal(digits) as u16)
    } else {
        None
    }
}

/// The server and the port in a text of the form server, `#`, port: the
/// server is what stands in front of the first `#`, the port what stands
/// behind it up to the next `#` or the end. There is none where the text
/// holds no `#` or the port is no port number.
pub open spec fn split_address(text: Seq<char>) -> Option<(Seq<char>, u16)> {
    let at = position_of(text, '#');
    if at >= text.len() {
        None
    } else {
        let rest = text.skip(at + 1);
        match port_of(rest.take(position_of(rest, '#'))) {
            Some(port) => Some((text.take(at), port)),
            None => None,
        }
    }
}

/// The server for what the two searches found: the one with a port if
/// there is one, else the address alone with the default port.
pub open spec fn chosen_server(
    with_port: Option<Seq<char>>,
    address_only: Option<Seq<char>>,
    default_port: u16,
) -> Result<(Seq<char>, u16), DetectError> {
    match with_port {
        Some(text) => match split_address(text) {
            Some(found) => Ok(found),
            None => Err(DetectError::BadPort),
        },
        None => match address_only {
            Some(text) => Ok((text, default_port)),
            None => Err(DetectError::NoAddress),
        },
    }
}

/// What a search for `pattern` in `haystack` gives.
pub open spec fn searched(pattern: Seq<char>, haystack: Seq<char>) -> Result<
    Option<Seq<char>>,
    DetectError,
> {
    if regex_compiles(pattern) {
        Ok(regex_first_match(pattern, haystack))
    } else {
        Err(DetectError::PatternRejected)
    }
}

/// The server that is found in `output`: the first match of
/// `ADDRESS_AND_PORT` if there is one, else the first match of
/// `ADDRESS_ONLY` with the default port.
pub open spec fn detected(output: Seq<char>, default_port: u16) -> Result<
    (Seq<char>, u16),
    DetectError,
> {
    if !regex_compiles(ADDRESS_AND_PORT@) {
        Err(DetectError::PatternRejected)
    } else if regex_first_match(ADDRESS_AND_PORT@, output) is Some {
        chosen_server(regex_first_match(ADDRESS_AND_PORT@, output), None, default_port)
    } else if !regex_compiles(ADDRESS_ONLY@) {
        Err(DetectError::PatternRejected)
    } else {
        chosen_server(None, regex_first_match(ADDRESS_ONLY@, output), default_port)
    }
}

/// `found` is `expected`, the text taken as its characters.
pub open spec fn same_server(
    found: Result<(String, u16), DetectError>,
    expected: Result<(Seq<char>, u16), DetectError>,
) -> bool {
    match found {
        Ok((server, port)) => expected == Ok::<(Seq<char>, u16), DetectError>((server@, port)),
        Err(e) => expected == Err::<(Seq<char>, u16), DetectError>(e),
    }
}

/// The digits written so far stay below what they write with more digits
/// behind them.
proof fn lemma_decimal_grows(digits: Seq<char>, count: int)
    requires
        0 <= count <= digits.len(),
        all_digits(digits),
    ensures
        decimal(digits.take(count)) <= decimal(digits),
    decreases digits.len() - count,
{
    if count < digits.len() {
        lemma_decimal_grows(digits, count + 1);
        assert(digits.take(count + 1).drop_last() =~= digits.take(count));
    } else {
        assert(digits.take(count) =~= digits);
    }
}

/// Reads a port number: decimal digits, at least one, with or without a
/// `+` in front, that write a number of at most 65535.
pub fn parse_port(text: &str) -> (r: Option<u16>)
    ensures
        r == port_of(text@),
{
    let len = text.unicode_len();
    let start: usize = if len > 0 && text.get_char(0) == '+' {
        1
    } else {
        0
    };
    let ghost digits = without_sign(text@);
    assert(digits =~= text@.skip(start as int));
    if start == len {
        return None;
    }
    let mut value: u32 = 0;
    let mut i: usize = start;
    while i < len
        invariant
            start <= i <= len,
            start <= 1,
            len == text@.len(),
            digits == text@.skip(start as int),
            digits == without_sign(text@),
            forall|k: int| 0 <= k < i - start ==> is_digit(#[trigger] digits[k]),
            value == decimal(digits.take(i - start)),
            value <= u16::MAX,
        decreases len - i,
    {
        let c = text.get_char(i);
        assert(c == digits[i - start]);
        if c < '0' || c > '9' {
            assert(!is_digit(digits[i - start]));
            return None;
        }
        let digit: u32 = c as u32 - '0' as u32;
        assert(digits.take(i - start + 1).drop_last() =~= digits.take(i - start));
        assert(digits.take(i - start + 1).last() == c);
        assert(decimal(digits.take(i - start + 1)) == value * 10 + digit);
        if value * 10 + digit > 65535 {
            proof {
                if all_digits(digits) {
                    lemma_decimal_grows(digits, i - start + 1);
                }
            }
            return None;
        }
        value = value * 10 + digit;
        i += 1;
    }
    assert(digits.take(len - start) =~= digits);
    Some(value as u16)
}

/// Takes a text of the form server, `#`, port apart.
pub fn split_server_and_port(text: &str) -> (r: Option<(String, u16)>)
    ensures
        match r {
            Some((server, port)) => split_address(text@) == Some((server@, port)),
            None => split_address(text@) is None,
        },
{
    let len = text.unicode_len();
    assert(text@.skip(0) =~= text@);
    let at = find_char(text, '#', 0);
    if at >= len {
        return None;
    }
    let end = find_char(text, '#', at + 1);
    let port_text = text.substring_char(at + 1, end);
    proof {
        let rest = text@.skip(at + 1);
        assert(port_text@ =~= rest.take(position_of(rest, '#')));
        assert(text@.subrange(0, at as int) =~= text@.take(at as int));
    }
    match parse_port(port_text) {
        None => None,
        Some(port) => {
            let server = text.substring_char(0, at).to_owned();
            Some((server, port))
        },
    }
}

/// Chooses the server from what the two searches found: `with_port` is a
/// match of `ADDRESS_AND_PORT`, `address_only` one of `ADDRESS_ONLY`.
///
/// A match with a port is taken apart at its `#`, and is an error where
/// its port is no port number. Without one, the address alone is taken
/// with `default_port`. With neither there is no server.
pub fn select_server(
    with_port: Option<&str>,
    address_only: Option<&str>,
    default_port: u16,
) -> (r: Result<(String, u16), DetectError>)
    ensures
        same_server(
            r,
            chosen_server(
                match with_port {
                    Some(text) => Some(text@),
                    None => None,
                },
                match address_only {
                    Some(text) => Some(text@),
                    None => None,
                },
                default_port,
            ),
        ),
{
    match with_port {
        Some(text) => match split_server_and_port(text) {
            Some(found) => Ok(found),
            None => Err(DetectError::BadPort),
        },
        None => match address_only {
            Some(text) => Ok((text.to_owned(), default_port)),
            None => Err(DetectError::NoAddress),
        },
    }
}

/// Searches `haystack` for the regular expression `pattern` and returns
/// the text of the first match, if there is one. A pattern that is no
/// regular expression is refused.
pub fn search(pattern: &str, haystack: &str) -> (r: Result<Option<String>, DetectError>)
    ensures
        match r {
            Ok(Some(text)) => searched(pattern@, haystack@) == Ok::<
                Option<Seq<char>>,
                DetectError,
            >(Some(text@)),
            Ok(None) => searched(pattern@, haystack@) == Ok::<Option<Seq<char>>, DetectError>(
                None,
            ),
            Err(e) => searched(pattern@, haystack@) == Err::<Option<Seq<char>>, DetectError>(e),
        },
{
    match first_match(pattern, haystack) {
        None => Err(DetectError::PatternRejected),
        Some(found) => Ok(found),
    }
}

/// Finds the DNS server of this machine in the output of `nslookup`.
///
/// The output is searched for `ADDRESS_AND_PORT` first, and for
/// `ADDRESS_ONLY` only where that is not found; the port is then
/// `default_port`.
pub fn detect_server(nslookup_output: &str, default_port: u16) -> (r: Result<
    (String, u16),
    DetectError,
>)
    ensures
        same_server(r, detected(nslookup_output@, default_port)),
{
    match search(ADDRESS_AND_PORT, nslookup_output) {
        Err(e) => Err(e),
        Ok(Some(text)) => select_server(Some(text.as_str()), None, default_port),
        Ok(None) => match search(ADDRESS_ONLY, nslookup_output) {
            Err(e) => Err(e),
            Ok(Some(text)) => select_server(None, Some(text.as_str()), default_port),
            Ok(None) => select_server(None, None, default_port),
        },
    }
}

} // verus!
