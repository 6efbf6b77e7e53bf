use ixgateway::external_ceiling::{
    is_dynamic_endpoint,
    classify_metric_line, decide, effective_decrease_threshold, step, MetricSample, ScrapeSample, SlugState,
};
use ixgateway::secret::ExternalEndpoint;

const DEFAULT_DECREASE_WAITING_THRESHOLD: i64 = 2;
const KV_HIGH_WATER: f64 = 0.90;

fn at_wall(kv: f64) -> bool {
    kv >= KV_HIGH_WATER
}

fn sample(waiting: i64, kv: f64) -> ScrapeSample {
    ScrapeSample { waiting, kv_at_wall: at_wall(kv) }
}

#[test]
fn step_drops_bounded_by_max_drop_per_tick_regardless_of_kv() {
    assert_eq!(step(7, 2, at_wall(0.1), None, DEFAULT_DECREASE_WAITING_THRESHOLD), 5);
    assert_eq!(step(7, 8, at_wall(0.1), None, DEFAULT_DECREASE_WAITING_THRESHOLD), 5, "drop bounded even under a large inherited backlog");
    assert_eq!(step(7, 2, at_wall(0.95), Some(7), DEFAULT_DECREASE_WAITING_THRESHOLD), 5, "decrease ignores kv/inflight once waiting >= 2");
    assert_eq!(step(1, 2, at_wall(0.0), None, DEFAULT_DECREASE_WAITING_THRESHOLD), 1, "floor at 1");
}

#[test]
fn step_holds_on_transient_waiting_1_with_healthy_kv() {
    assert_eq!(step(7, 1, at_wall(0.1), None, DEFAULT_DECREASE_WAITING_THRESHOLD), 7, "waiting=1 with healthy kv is transient, hold");
    assert_eq!(step(7, 1, at_wall(0.5), Some(7), DEFAULT_DECREASE_WAITING_THRESHOLD), 7, "waiting=1 with healthy kv holds even when saturated");
    assert_eq!(step(1, 1, at_wall(0.0), None, DEFAULT_DECREASE_WAITING_THRESHOLD), 1, "holds at floor");
}

#[test]
fn step_drops_on_waiting_1_when_kv_high() {
    assert_eq!(step(7, 1, at_wall(0.90), None, DEFAULT_DECREASE_WAITING_THRESHOLD), 6, "waiting=1 + kv at wall -> decrease");
    assert_eq!(step(7, 1, at_wall(0.95), None, DEFAULT_DECREASE_WAITING_THRESHOLD), 6, "waiting=1 + kv above wall -> decrease");
}

#[test]
fn step_drops_on_waiting_2_regardless_of_kv() {
    assert_eq!(step(7, 2, at_wall(0.1), None, DEFAULT_DECREASE_WAITING_THRESHOLD), 5, "waiting=2 decreases even with healthy kv");
    assert_eq!(step(7, 2, at_wall(0.95), Some(7), DEFAULT_DECREASE_WAITING_THRESHOLD), 5, "waiting=2 decreases even with high kv");
}

#[test]
fn step_increases_only_when_both_signals_clean() {
    assert_eq!(step(4, 0, at_wall(0.5), Some(4), DEFAULT_DECREASE_WAITING_THRESHOLD), 5);
    assert_eq!(step(16, 0, at_wall(0.1), Some(16), DEFAULT_DECREASE_WAITING_THRESHOLD), 17, "unbounded: no clamp back to the seed");
}

#[test]
fn step_does_not_increase_when_waiting_1() {
    assert_eq!(step(4, 1, at_wall(0.1), Some(4), DEFAULT_DECREASE_WAITING_THRESHOLD), 4, "waiting=1 blocks increase even if saturated and kv healthy");
}

#[test]
fn step_respects_configurable_waiting_threshold() {
    assert_eq!(step(7, 9, at_wall(0.1), None, 10), 7, "below threshold backlog holds when kv is healthy");
    assert_eq!(step(7, 10, at_wall(0.1), None, 10), 5, "reaching threshold triggers the bounded decrease");
}

#[test]
fn step_holds_at_kv_wall() {
    assert_eq!(step(8, 0, at_wall(0.90), Some(8), DEFAULT_DECREASE_WAITING_THRESHOLD), 8);
    assert_eq!(step(8, 0, at_wall(0.99), Some(8), DEFAULT_DECREASE_WAITING_THRESHOLD), 8);
}

#[test]
fn step_holds_when_local_limiter_is_not_saturated() {
    assert_eq!(step(8, 0, at_wall(0.1), Some(7), DEFAULT_DECREASE_WAITING_THRESHOLD), 8);
    assert_eq!(step(8, 0, at_wall(0.1), None, DEFAULT_DECREASE_WAITING_THRESHOLD), 8, "missing inflight sample must never increase");
}

#[test]
fn step_stays_within_one_up_and_two_down() {
    for c in 1..20i64 {
        for waiting in 0..12i64 {
            for wall in [false, true] {
                for inflight in [None, Some(c), Some(c - 1)] {
                    let n = step(c, waiting, wall, inflight, DEFAULT_DECREASE_WAITING_THRESHOLD);
                    assert!(n >= 1);
                    assert!(n <= c + 1);
                    assert!(n >= c - 2);
                }
            }
        }
    }
}

#[test]
fn decrease_threshold_is_at_least_one() {
    assert_eq!(effective_decrease_threshold(0), 1);
    assert_eq!(effective_decrease_threshold(-5), 1);
    assert_eq!(effective_decrease_threshold(3), 3);
}

#[test]
fn decide_freezes_ceiling_on_scrape_failure() {
    let state = SlugState::new();
    let pair = (16, "http://x/metrics".to_string());
    let (next, change) = decide(state, pair, Some(8), Some(8), DEFAULT_DECREASE_WAITING_THRESHOLD, Err("timeout".to_string()));
    assert!(change.is_none(), "no set_ceiling call on failure");
    assert_eq!(next.consecutive_failures, 1);
}

#[test]
fn decide_resumes_increase_after_failures_clear() {
    let mut state = SlugState::new();
    state.consecutive_failures = 3;
    state.pair = (16, "http://x/metrics".to_string());
    let (next, change) = decide(state, (16, "http://x/metrics".to_string()), Some(8), Some(8), DEFAULT_DECREASE_WAITING_THRESHOLD, Ok(sample(0, 0.1)));
    assert_eq!(next.consecutive_failures, 0);
    assert_eq!(change, Some((8, 9, sample(0, 0.1))));
}

#[test]
fn decide_resets_failure_count_when_pair_changes() {
    let mut state = SlugState::new();
    state.consecutive_failures = 5;
    state.pair = (16, "http://old/metrics".to_string());
    let (next, _) = decide(state, (16, "http://new/metrics".to_string()), Some(16), Some(16), DEFAULT_DECREASE_WAITING_THRESHOLD, Err("timeout".to_string()));
    assert_eq!(next.consecutive_failures, 1, "pair change resets, then this failure counts once");
}

#[test]
fn decide_holds_on_clean_scrape_when_inflight_is_none() {
    let state = SlugState::new();
    let pair = (16, "http://x/metrics".to_string());
    let (_, change) = decide(state, pair, Some(8), None, DEFAULT_DECREASE_WAITING_THRESHOLD, Ok(sample(0, 0.1)));
    assert!(change.is_none(), "missing inflight sample must never trigger an increase");
}

#[test]
fn decide_increases_past_max_concurrency_seed() {
    let state = SlugState::new();
    let pair = (7, "http://x/metrics".to_string());
    let (_, change) = decide(state, pair, Some(7), Some(7), DEFAULT_DECREASE_WAITING_THRESHOLD, Ok(sample(0, 0.1)));
    assert_eq!(change, Some((7, 8, sample(0, 0.1))), "no clamp back to the seed of 7");
}

#[test]
fn decide_bounds_decrease_under_large_waiting() {
    let state = SlugState::new();
    let pair = (7, "http://x/metrics".to_string());
    let (_, change) = decide(state, pair, Some(7), Some(7), DEFAULT_DECREASE_WAITING_THRESHOLD, Ok(sample(8, 0.1)));
    assert_eq!(change, Some((7, 5, sample(8, 0.1))), "bounded by MAX_DROP_PER_TICK=2");
}

#[test]
fn decide_without_ceiling_reports_no_change() {
    let (next, change) = decide(SlugState::new(), (7, "u".to_string()), None, Some(7), DEFAULT_DECREASE_WAITING_THRESHOLD, Ok(sample(5, 0.95)));
    assert!(change.is_none());
    assert_eq!(next.consecutive_failures, 0);
    assert_eq!(next.pair, (7, "u".to_string()));
}

fn waiting_text(s: MetricSample) -> Option<String> {
    match s {
        MetricSample::Waiting(v) => Some(v),
        _ => None,
    }
}

fn kv_text(s: MetricSample) -> Option<String> {
    match s {
        MetricSample::Kv(v) => Some(v),
        _ => None,
    }
}

#[test]
fn metric_lines_match_exact_names_only() {
    assert_eq!(waiting_text(classify_metric_line("vllm:num_requests_waiting{engine=\"0\",model_name=\"m\"} 12.0")), Some("12.0".to_string()));
    assert!(matches!(
        classify_metric_line("vllm:num_requests_waiting_by_reason{engine=\"0\",model_name=\"m\",reason=\"queue\"} 999.0"),
        MetricSample::Ignored
    ));
    assert_eq!(kv_text(classify_metric_line("vllm:kv_cache_usage_perc{engine=\"0\",model_name=\"m\"} 0.93")), Some("0.93".to_string()));
    assert_eq!(kv_text(classify_metric_line("vllm:gpu_cache_usage_perc{engine=\"0\"} 0.5")), Some("0.5".to_string()));
}

#[test]
fn metric_lines_skip_comments_blanks_and_unterminated_labels() {
    assert!(matches!(classify_metric_line("# HELP vllm:num_requests_waiting Number of requests waiting."), MetricSample::Ignored));
    assert!(matches!(classify_metric_line("   "), MetricSample::Ignored));
    assert!(matches!(classify_metric_line("vllm:num_requests_waiting{engine=\"0\" 3"), MetricSample::Ignored));
    assert!(matches!(classify_metric_line("not prometheus output at all"), MetricSample::Ignored));
}

#[test]
fn metric_value_is_the_first_token_not_the_timestamp() {
    assert_eq!(waiting_text(classify_metric_line("vllm:num_requests_waiting{engine=\"0\"} 4 1690000000000")), Some("4".to_string()));
    assert_eq!(waiting_text(classify_metric_line("  vllm:num_requests_waiting 7  ")), Some("7".to_string()));
}

#[test]
fn only_capped_endpoints_with_metrics_are_dynamic() {
    let mut ep = ExternalEndpoint {
        slug: "m".to_string(),
        base_url: "b".to_string(),
        upstream_model: "u".to_string(),
        provider_api_key: "k".to_string(),
        published: true,
        max_concurrency: 8,
        last_published_by: None,
        metrics_url: Some("http://x/metrics".to_string()),
    };
    assert!(is_dynamic_endpoint(&ep));
    ep.max_concurrency = -1;
    assert!(!is_dynamic_endpoint(&ep));
    ep.max_concurrency = 0;
    assert!(is_dynamic_endpoint(&ep));
    ep.metrics_url = None;
    assert!(!is_dynamic_endpoint(&ep));
}
