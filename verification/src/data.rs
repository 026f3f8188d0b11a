//! The list of domains: lines of the form rank, comma, domain.

use crate::text::{find_char, position_of, trim, trimmed};
use vstd::prelude::*;
use vstd::string::StrSliceExecFns;

verus! {

/// The second of the fields that commas divide `text` into: what stands
/// between the first comma and the next, or the end. There is none where
/// `text` holds no comma.
pub open spec fn second_field(text: Seq<char>) -> Option<Seq<char>> {
    let at = position_of(text, ',');
    if at >= text.len() {
        None
    } else {
        let rest = text.skip(at + 1);
        Some(rest.take(position_of(rest, ',')))
    }
}

/// The domain that a line of the list names: the second field of the line
/// without the white space around it.
pub open spec fn domain_in_line(line: Seq<char>) -> Option<Seq<char>> {
    second_field(trimmed(line))
}

/// `domains` are the domains of the first `count` of `lines`, or of all
/// of them where they are fewer.
pub open spec fn domains_of(domains: Seq<String>, lines: Seq<String>, count: nat) -> bool {
    &&& domains.len() == if count <= lines.len() {
        count
    } else {
        lines.len()
    }
    &&& forall|i: int|
        0 <= i < domains.len() ==> domain_in_line(lines[i]@) == Some((#[trigger] domains[i])@)
}

/// Reads the domain from one line of the list.
pub fn parse_line(line: &str) -> (r: Option<String>)
    ensures
        match r {
            Some(domain) => domain_in_line(line@) == Some(domain@),
            None => domain_in_line(line@) is None,
        },
{
    let text = trim(line);
    let len = text.unicode_len();
    assert(text@.skip(0) =~= text@);
    let at = find_char(text, ',', 0);
    if at >= len {
        return None;
    }
    let end = find_char(text, ',', at + 1);
    let field = text.substring_char(at + 1, end);
    proof {
        let rest = text@.skip(at + 1);
        assert(field@ =~= rest.take(position_of(rest, ',')));
    }
    Some(field.to_owned())
}

/// Reads the domains from the first `num_domains_to_read` lines of the
/// list, or from all lines where there are fewer. A line without a comma
/// stops the reading; its place is returned.
pub fn read_domains(lines: &Vec<String>, num_domains_to_read: usize) -> (r: Result<
    Vec<String>,
    usize,
>)
    ensures
        match r {
            Ok(domains) => domains_of(domains@, lines@, num_domains_to_read as nat),
            Err(index) => {
                &&& index < lines@.len()
                &&& index < num_domains_to_read
                &&& domain_in_line(lines@[index as int]@) is None
                &&& forall|i: int| 0 <= i < index ==> domain_in_line(#[trigger] lines@[i]@) is Some
            },
        },
{
    let n = if num_domains_to_read <= lines.len() {
        num_domains_to_read
    } else {
        lines.len()
    };
    let mut parsed_domains: Vec<String> = Vec::with_capacity(n);
    let mut i: usize = 0;
    while i < n
        invariant
            i <= n,
            n <= lines@.len(),
            n <= num_domains_to_read,
            parsed_domains@.len() == i,
            forall|k: int|
                0 <= k < i ==> domain_in_line(lines@[k]@) == Some((#[trigger] parsed_domains@[k])@),
        decreases n - i,
    {
        match parse_line(lines[i].as_str()) {
            None => {
                assert forall|k: int| 0 <= k < i implies domain_in_line(
                    #[trigger] lines@[k]@,
                ) is Some by {
                    assert(domain_in_line(lines@[k]@) == Some(parsed_domains@[k]@));
                }
                return Err(i);
            },
            Some(domain) => {
                parsed_domains.push(domain);
            },
        }
        i += 1;
    }
    Ok(parsed_domains)
}

} // verus!
