use faf_dns_bench::args::Args;
use faf_dns_bench::scheduler::{Config, ConfigError};
use faf_dns_bench::statics::{
    COLLECTION_TIMEOUT_MS, DOMAINS_TO_INCLUDE, EPOLL_TIMEOUT_MILLIS, MAX_CONCURRENCY,
    MAX_EPOLL_EVENTS_RETURNED,
};

#[test]
fn default_options_are_empty() {
    assert_eq!(Args::default(), Args { debug: false, concurrency: 0, num_domains: 0 });
}

#[test]
fn options_give_the_configuration_of_the_run() {
    let args = Args { debug: true, concurrency: MAX_CONCURRENCY, num_domains: DOMAINS_TO_INCLUDE };
    assert_eq!(
        args.config(65535, COLLECTION_TIMEOUT_MS as u64),
        Ok(Config { total_domains: 250, concurrency_limit: 8, timeout_ns: 2_000_000_000 })
    );
    assert_eq!(args.config(249, 2000), Err(ConfigError::NotEnoughDomains));
    assert_eq!(Args::default().config(10, 2000), Err(ConfigError::ZeroConcurrency));
}

#[test]
fn settings_have_their_values() {
    assert_eq!(DOMAINS_TO_INCLUDE, 250);
    assert_eq!(MAX_EPOLL_EVENTS_RETURNED, 340);
    assert_eq!(EPOLL_TIMEOUT_MILLIS, 1000);
    assert_eq!(MAX_CONCURRENCY, 8);
    assert_eq!(COLLECTION_TIMEOUT_MS, 2000);
}
