use faf_dns_bench::codec::{encode, QueryError};
use faf_dns_bench::query::{build_queries, BuildError};

#[test]
fn queries_carry_their_place_as_id() {
    let domains = vec!["google.com".to_string(), "youtube.com".to_string(), "a.b".to_string()];
    let queries = build_queries(&domains).unwrap();
    assert_eq!(queries.len(), 3);
    for (i, query) in queries.iter().enumerate() {
        assert_eq!(query.id as usize, i);
        assert_eq!(query.domain, domains[i]);
        assert_eq!(query.wire_bytes, encode(&domains[i], i as u16).unwrap());
        assert!(query.wire_bytes.len() <= 512);
    }
    assert_eq!(&queries[1].wire_bytes[..2], &[0, 1]);
    assert_eq!(build_queries(&Vec::new()), Ok(Vec::new()));
}

#[test]
fn the_first_domain_that_does_not_fit_is_reported() {
    let long_label = "x".repeat(64);
    let domains =
        vec!["ok.org".to_string(), format!("{}.com", long_label), "y".repeat(600), "fine".to_string()];
    assert_eq!(
        build_queries(&domains),
        Err(BuildError::Refused { index: 1, error: QueryError::LabelTooLong })
    );
    let domains = vec!["ok.org".to_string(), "y".repeat(600)];
    assert_eq!(
        build_queries(&domains),
        Err(BuildError::Refused { index: 1, error: QueryError::BufferOverflow })
    );
}

#[test]
fn more_domains_than_ids_are_refused() {
    let domains: Vec<String> = (0..65536).map(|_| "a".to_string()).collect();
    assert_eq!(build_queries(&domains), Err(BuildError::TooManyDomains));
    let domains: Vec<String> = (0..65535).map(|_| "a".to_string()).collect();
    let queries = build_queries(&domains).unwrap();
    assert_eq!(queries.len(), 65535);
    assert_eq!(queries[65534].id, 65534);
    assert_eq!(&queries[65534].wire_bytes[..2], &[255, 254]);
}
