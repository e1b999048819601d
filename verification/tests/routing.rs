use openinfer::deepseek::{
    launch_options, probe_config_fields, probe_config_json, ExpertOutOfRange,
    ExpertParallelLayout, MoeRoutePlan, UnsupportedConfig,
};
use openinfer::float_bits::{
    above_bits, argmax_bits, at_least_bits, nan_bits, wide_above_bits, wide_in_unit_bits,
    wide_positive_bits,
};

/// Two ranks of 32 experts each, seen from rank 0.
fn two_rank_layout() -> ExpertParallelLayout {
    ExpertParallelLayout { rank: 0, owners: (0..64).map(|expert| expert / 32).collect() }
}

#[test]
fn route_plan_preserves_token_major_expert_order() {
    let layout = two_rank_layout();
    let routes: Vec<Vec<(usize, u32)>> = vec![
        vec![(7, 0.7f32.to_bits()), (33, 0.3f32.to_bits())],
        vec![(2, 0.4f32.to_bits()), (41, 0.6f32.to_bits())],
    ];

    let plan = match MoeRoutePlan::from_topk_routes(&routes, &layout) {
        Ok(plan) => plan,
        Err(_) => panic!("every expert has an owner"),
    };
    let entries: Vec<_> = plan
        .entries()
        .iter()
        .map(|entry| {
            (
                entry.token,
                entry.global_expert,
                entry.owner_rank,
                f32::from_bits(entry.weight),
            )
        })
        .collect();

    assert_eq!(
        entries,
        vec![(0, 7, 0, 0.7), (0, 33, 1, 0.3), (1, 2, 0, 0.4), (1, 41, 1, 0.6)]
    );
    assert_eq!(plan.route_count(), 4);
    assert_eq!(plan.local_routes(), 2);
    assert_eq!(plan.remote_routes(), 2);
}

#[test]
fn route_plan_rejects_out_of_range_experts() {
    let layout = two_rank_layout();
    let err = match MoeRoutePlan::from_topk_routes(&[vec![(64, 1.0f32.to_bits())]], &layout) {
        Ok(_) => panic!("expert 64 has no owner"),
        Err(err) => err,
    };

    assert!(err.message().contains("out of range"), "unexpected error: {}", err.message());
    assert_eq!(err, ExpertOutOfRange { expert: 64, experts: 64 });
}

fn config(model_type: &str, hidden: Option<u64>, experts: Option<u64>) -> serde_json::Value {
    let mut map = serde_json::Map::new();
    map.insert("model_type".to_string(), serde_json::Value::from(model_type));
    if let Some(hidden) = hidden {
        map.insert("hidden_size".to_string(), serde_json::Value::from(hidden));
    }
    if let Some(experts) = experts {
        map.insert("n_routed_experts".to_string(), serde_json::Value::from(experts));
    }
    serde_json::Value::Object(map)
}

#[test]
fn configs_are_probed_by_their_fields() {
    assert_eq!(probe_config_json(&config("qwen3", Some(2048), Some(64))), Ok(false));
    assert_eq!(probe_config_json(&config("deepseek_v2", Some(2048), Some(64))), Ok(true));
    assert_eq!(
        probe_config_json(&config("deepseek_v2", Some(4096), None)),
        Err(UnsupportedConfig { hidden_size: Some(4096), n_routed_experts: None })
    );
    assert_eq!(probe_config_json(&serde_json::Value::Null), Ok(false));
    assert_eq!(
        probe_config_fields(Some("deepseek_v2".to_string()), Some(2048), Some(64)),
        Ok(true)
    );
    assert_eq!(probe_config_fields(None, Some(2048), Some(64)), Ok(false));
    let refused = UnsupportedConfig { hidden_size: Some(4096), n_routed_experts: None }.message();
    assert!(refused.contains("4096"));
}

#[test]
fn cuda_graph_is_turned_off_with_a_warning() {
    let (options, warning) = launch_options(true);
    assert!(!options.enable_cuda_graph);
    assert!(warning.is_some());
    let (options, warning) = launch_options(false);
    assert!(!options.enable_cuda_graph);
    assert!(warning.is_none());
}

#[test]
fn bit_patterns_order_like_floats() {
    let values = [
        f32::NEG_INFINITY, -2.5, -1.0, -0.0, 0.0, 1.0e-40, 0.5, 1.0, 3.0, f32::INFINITY, f32::NAN,
    ];
    for a in values {
        for b in values {
            assert_eq!(above_bits(a.to_bits(), b.to_bits()), a > b, "{a} > {b}");
            assert_eq!(at_least_bits(a.to_bits(), b.to_bits()), a >= b, "{a} >= {b}");
        }
        assert_eq!(nan_bits(a.to_bits()), a.is_nan());
    }
    let wide = [f64::NEG_INFINITY, -2.0, -0.0, 0.0, 1.0e-310, 0.5, 1.0, 2.0, 3.1, f64::INFINITY, f64::NAN];
    for a in wide {
        assert_eq!(wide_positive_bits(a.to_bits()), a > 0.0, "{a}");
        assert_eq!(wide_in_unit_bits(a.to_bits()), (0.0..=1.0).contains(&a), "{a}");
        for b in wide {
            if !b.is_nan() {
                assert_eq!(wide_above_bits(a.to_bits(), b.to_bits()), a > b, "{a} > {b}");
            }
        }
    }
}

#[test]
fn argmax_takes_the_last_of_equals() {
    let bits: Vec<u32> = [0.5f32, 2.0, 1.0, 2.0, -3.0].iter().map(|v| v.to_bits()).collect();
    assert_eq!(argmax_bits(&bits), 3);
    assert_eq!(argmax_bits(&[1.0f32.to_bits()]), 0);
}
