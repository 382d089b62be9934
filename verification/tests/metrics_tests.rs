use cognitora::metrics::{has_prometheus_metrics, metric_names, metric_values, SYNTHETIC_TOTAL_BLOCKS};

const VLLM_SAMPLE: &str = r#"
# HELP vllm:num_requests_running Number of requests currently running on GPU.
# TYPE vllm:num_requests_running gauge
vllm:num_requests_running{model_name="meta-llama/Llama-3.1-8B"} 3.0
vllm:num_requests_waiting{model_name="meta-llama/Llama-3.1-8B"} 5.0
vllm:gpu_cache_usage_perc{model_name="meta-llama/Llama-3.1-8B"} 0.25
"#;

#[test]
fn only_vllm_and_sglang_expose_metrics() {
    assert!(has_prometheus_metrics("vllm"));
    assert!(has_prometheus_metrics("sglang"));
    assert!(!has_prometheus_metrics("llama_cpp"));
    assert!(metric_names("mlx").is_none());
    let n = metric_names("sglang").unwrap();
    assert_eq!((n.waiting, n.running, n.usage), ("sglang:num_queue_reqs", "sglang:num_running_reqs", "sglang:token_usage"));
    assert_eq!(SYNTHETIC_TOTAL_BLOCKS, 10_000);
}

#[test]
fn samples_are_found_by_exact_name() {
    assert_eq!(metric_values(VLLM_SAMPLE, "vllm:num_requests_waiting"), vec!["5.0".to_string()]);
    assert_eq!(metric_values(VLLM_SAMPLE, "vllm:gpu_cache_usage_perc"), vec!["0.25".to_string()]);
    let text = "vllm:num_requests_waiting_total 99\nvllm:num_requests_waiting 2\n";
    assert_eq!(metric_values(text, "vllm:num_requests_waiting"), vec!["2".to_string()]);
    assert!(metric_values("# nothing here\n", "vllm:num_requests_waiting").is_empty());
    assert_eq!(metric_values("vllm:num_requests_waiting 4\n", "vllm:num_requests_waiting"), vec!["4".to_string()]);
}
