//! Endpoint monitoring core: endpoint descriptors and placeholder expansion,
//! classification of probe observations into outcomes, the retry driver, the
//! current-status map, the historical bucket view, and the supervisor that
//! reconciles running probes against a reloaded configuration.

mod checker;
mod config;
mod db;
mod status;
mod supervisor;
mod text;

pub use checker::{
    base_result, classify_lowered, classify_transport_error, client_build_outcome, dns_outcome,
    http_failure_outcome, http_response_outcome, lemma_retry_short_circuit, tcp_outcome, CheckResult,
    CheckResultView, DnsProbe, ErrorType, RetryDriver, TcpProbe,
};
pub use config::{
    default_alert_after_failures, default_expected_status, default_interval,
    default_reload_config_interval, default_retry_delay, default_timeout, endpoints_equal,
    error_report, substitute_env_vars, unbound_placeholders, CheckType, Config, Endpoint, Env, HttpMethod, ServerConfig,
    ValidationWarning,
};
pub use db::{
    bucket_status, bucket_statuses_at, compute_bucket_statuses, endpoint_buckets, endpoint_id_from_name,
    event_record, lemma_bucket_count, lemma_range_text_round_trip, BucketStatus, EventRecord,
    TimeRange, UptimeEvent, NUM_BUCKETS,
};
pub use status::{get_sorted_results, sort_results, StatusMap};
pub use supervisor::{
    keys_are_unique, lemma_partition_exhaustive, lemma_reload_unchanged_config,
    lemma_single_runner_per_name, plan_reload,
    ReloadActions, ReloadPlan, RunnerStart, Supervisor,
};
pub use text::{lex_le, lower_of, seq_contains, str_contains, str_eq, strip_prefix_or_self};
