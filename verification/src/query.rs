//! The queries of a run, built once before it starts.

use crate::codec::{encode, query_bytes, query_of, QueryError};
use crate::scheduler::MAX_DOMAINS;
use vstd::prelude::*;
use vstd::string::StringSliceAdditionalSpecFns;
use vstd::utf8::encode_utf8;

verus! {

/// One query: the domain it asks for, its id, and the message to send.
#[derive(Debug, Clone, PartialEq, Eq)]
pub struct Query {
    /// The id of the query: its place in the list of domains.
    pub id: u16,
    pub domain: String,
    /// The message on the wire.
    pub wire_bytes: Vec<u8>,
}

/// Why the queries of a run cannot be built.
#[derive(Debug, Clone, Copy, PartialEq, Eq, Structural)]
pub enum BuildError {
    /// There are more domains than ids.
    TooManyDomains,
    /// The domain at `index` cannot be put into a query.
    Refused { index: usize, error: QueryError },
}

/// The domain at `index` can be put into a query under its index as id.
pub open spec fn encodable_at(domains: Seq<String>, index: int) -> bool {
    query_of(encode_utf8(domains[index]@), index as u16) is Ok
}

/// `queries` are the queries for `domains`: one for each, in the same
/// order, under its index as id.
pub open spec fn queries_for(queries: Seq<Query>, domains: Seq<String>) -> bool {
    &&& queries.len() == domains.len()
    &&& forall|i: int|
        0 <= i < queries.len() ==> {
            &&& (#[trigger] queries[i]).id == i
            &&& queries[i].domain@ == domains[i]@
            &&& queries[i].wire_bytes@ == query_bytes(encode_utf8(domains[i]@), i as u16)
        }
}

/// What building the queries for `domains` gives.
pub open spec fn build_result(r: Result<Vec<Query>, BuildError>, domains: Seq<String>) -> bool {
    match r {
        Ok(queries) => {
            &&& domains.len() <= MAX_DOMAINS
            &&& forall|i: int| 0 <= i < domains.len() ==> encodable_at(domains, i)
            &&& queries_for(queries@, domains)
        },
        Err(BuildError::TooManyDomains) => domains.len() > MAX_DOMAINS,
        Err(BuildError::Refused { index, error }) => {
            &&& domains.len() <= MAX_DOMAINS
            &&& index < domains.len()
            &&& forall|i: int| 0 <= i < index ==> encodable_at(domains, i)
            &&& query_of(encode_utf8(domains[index as int]@), index as u16) == Err::<
                Seq<u8>,
                QueryError,
            >(error)
        },
    }
}

/// Builds the queries of a run: one for each domain, with the place of the
/// domain in the list as its id.
///
/// More than `MAX_DOMAINS` domains are refused. Otherwise the first domain
/// that cannot be put into a query is reported with its place and the
/// reason.
pub fn build_queries(domains: &Vec<String>) -> (r: Result<Vec<Query>, BuildError>)
    ensures
        build_result(r, domains@),
{
    let n = domains.len();
    if n > MAX_DOMAINS {
        return Err(BuildError::TooManyDomains);
    }
    let mut queries: Vec<Query> = Vec::with_capacity(n);
    let mut i: usize = 0;
    while i < n
        invariant
            i <= n,
            n == domains@.len(),
            n <= MAX_DOMAINS,
            forall|k: int| 0 <= k < i ==> encodable_at(domains@, k),
            queries_for(queries@, domains@.take(i as int)),
        decreases n - i,
    {
        let domain = &domains[i];
        match encode(domain.as_str(), i as u16) {
            Err(error) => {
                return Err(BuildError::Refused { index: i, error });
            },
            Ok(wire_bytes) => {
                let ghost before = queries@;
                let query = Query { id: i as u16, domain: domain.clone(), wire_bytes };
                queries.push(query);
                assert(queries_for(queries@, domains@.take(i + 1))) by {
                    assert forall|k: int| 0 <= k < queries@.len() implies {
                        &&& (#[trigger] queries@[k]).id == k
                        &&& queries@[k].domain@ == domains@.take(i + 1)[k]@
                        &&& queries@[k].wire_bytes@ == query_bytes(
                            encode_utf8(domains@.take(i + 1)[k]@),
                            k as u16,
                        )
                    } by {
                        if k < i {
                            assert(queries@[k] == before[k]);
                            assert(domains@.take(i as int)[k] == domains@.take(i + 1)[k]);
                        }
                    }
                }
            },
        }
        i += 1;
    }
    assert(domains@.take(n as int) =~= domains@);
    Ok(queries)
}

} // verus!
