use moe_infer::command::Tensor;
use moe_infer::config::{
    json_float, json_int, json_layout, load_config, parse_int, rms_norm_eps_text,
    rope_theta_text, seek_value, text_or, white_space,
};
use moe_infer::constants::qwen35_35b;
use moe_infer::constants::qwen35_35b_stripped;
use moe_infer::constants::{expert_layout, MAX_K};
use moe_infer::engine::fused::EngineStep;
use moe_infer::engine::qwen35_moe::constants::{
    describe_architecture, names_architecture, ConfigDims, FullModel, ModelConfig, StrippedModel,
};
use moe_infer::engine::{
    record_telemetry, set_record_telemetry, unknown_engine_message, DynEngine, EngineEnum,
    TelemetrySwitch,
};
use moe_infer::error::{IoError, IoErrorKind, MoEError};
use moe_infer::expert_math::{active_expert_size, config_parts, parts_of};
use moe_infer::run_config::{expert_fits, product_fits, run_dims, run_layout};
use moe_infer::text::{append_i64, append_u64, append_usize, chars_of, str_eq, str_precedes};

const FULL: &str = "Qwen3_5MoeForConditionalGeneration";
const STRIPPED: &str = "Qwen3_5MoeForConditionalGeneration_Stripped";

#[test]
fn integers_are_found_by_key() {
    let text = chars_of("{ \"a\" :  17, \"b\":-4}");
    assert_eq!(json_int(&text, "a", 0), 17);
    assert_eq!(json_int(&text, "b", 0), -4);
    assert_eq!(json_int(&text, "c", 5), 5);
    assert_eq!(seek_value(&text, "b"), Some(17));
    assert_eq!(seek_value(&text, "c"), None);
}

#[test]
fn a_string_value_is_not_a_key() {
    let text = chars_of("{\"m\":\"k\",\"x\":1,\"k\":2}");
    assert_eq!(seek_value(&text, "k"), Some(19));
    assert_eq!(json_int(&text, "k", 0), 2);
    let text = chars_of("{\"k\" \"x\": 1, \"k\"\n :\t 3}");
    assert_eq!(json_int(&text, "k", 0), 3);
    assert_eq!(seek_value(&chars_of("{\"m\":\"k\"}"), "k"), None);
    assert_eq!(seek_value(&chars_of("\"k\" "), "k"), None);
}

#[test]
fn real_numbers_take_the_default_text() {
    let c = load_config("{\"rope_theta\": 10000.0}").unwrap();
    assert_eq!(rms_norm_eps_text(&c), "1e-6");
    assert_eq!(rope_theta_text(&c), "10000.0");
    let c = load_config("{\"rms_norm_eps\": 1e-5}").unwrap();
    assert_eq!(rms_norm_eps_text(&c).parse::<f32>().unwrap(), 1e-5);
    assert_eq!(rope_theta_text(&c).parse::<f32>().unwrap(), 1e7);
    assert_eq!(text_or(&None, "x"), "x");
}

#[test]
fn unreadable_integers_take_the_default() {
    assert_eq!(json_int(&chars_of("{\"a\": x}"), "a", 3), 3);
    assert_eq!(json_int(&chars_of("{\"a\": 1.5}"), "a", 3), 3);
    assert_eq!(json_int(&chars_of("{\"a\": ,}"), "a", 3), 3);
    assert_eq!(json_int(&chars_of("{\"a\": 2147483648}"), "a", 3), 3);
    assert_eq!(json_int(&chars_of("{\"a\": 2147483647}"), "a", 3), 2147483647);
    assert_eq!(json_int(&chars_of("{\"a\": -2147483648}"), "a", 3), -2147483648);
    assert_eq!(json_int(&chars_of("{\"a\": +7}"), "a", 3), 7);
    assert_eq!(json_int(&chars_of("\"a\""), "a", 3), 3);
    assert_eq!(json_int(&chars_of("\"a\":"), "a", 3), 3);
}

#[test]
fn integers_parse_as_in_std() {
    for s in ["0", "-0", "+", "-", "", "12", "007", "99999999999", " 1", "1 ", "2147483648"] {
        let chars: Vec<char> = s.chars().collect();
        assert_eq!(parse_int(&chars), s.parse::<i32>().ok(), "{s:?}");
    }
}

#[test]
fn white_space_is_that_of_unicode() {
    for n in 0u32..0x3100 {
        if let Some(c) = char::from_u32(n) {
            assert_eq!(white_space(c), c.is_whitespace(), "{n:x}");
        }
    }
}

#[test]
fn number_texts_end_at_separators() {
    assert_eq!(json_float("{\"eps\": 1e-6, \"x\": 1}", "eps").as_deref(), Some("1e-6"));
    assert_eq!(json_float("{\"eps\": 1e-6}", "eps").as_deref(), Some("1e-6"));
    assert_eq!(json_float("{\"x\": 1}", "eps"), None);
}

#[test]
fn layouts_are_nested_objects() {
    let text = chars_of("{\"l\": {\"gate_w_off\": 3, \"inner\": {\"up_w_off\": 4}}, \"down_b_size\": 9}");
    let l = json_layout(&text, "l").unwrap();
    assert_eq!(l.gate_w_off, 3);
    assert_eq!(l.up_w_off, 4);
    assert_eq!(l.down_b_size, 0);
    assert!(json_layout(&text, "m").is_none());
    assert!(json_layout(&chars_of("{\"l\": 3}"), "l").is_none());
    assert!(json_layout(&chars_of("{\"l\": {\"x\": 1"), "l").is_none());
}

#[test]
fn an_empty_configuration_takes_all_defaults() {
    let c = load_config("{}").unwrap();
    assert_eq!(c.hidden_dim, 2048);
    assert_eq!(c.num_layers, 40);
    assert_eq!(c.vocab_size, 248320);
    assert_eq!(c.expert_size_4bit, 1769472);
    assert_eq!(c.expert_size_2bit, 983040);
    assert_eq!(c.gpu_kv_seq, 8192);
    assert_eq!(c.max_seq_len, 1048576);
    assert_eq!(c.max_k, MAX_K as i32);
    assert_eq!(c.layout_4bit.gate_w_off, 0);
    assert_eq!(c.rms_norm_eps, None);
}

#[test]
fn configurations_override_defaults() {
    let c = load_config(
        "{\"hidden_dim\": 64,\n \"rope_theta\": 10000.0,\n \"expert_layout_4bit\": {\"up_s_off\": 12}}",
    )
    .unwrap();
    assert_eq!(c.hidden_dim, 64);
    assert_eq!(c.layout_4bit.up_s_off, 12);
    assert_eq!(c.layout_2bit.up_s_off, 0);
    assert_eq!(c.rope_theta.as_deref(), Some("10000.0"));
}

#[test]
fn too_many_experts_per_token_are_refused() {
    let e = load_config("{\"max_k\": 9}").unwrap_err();
    assert_eq!(e, "ERROR: model max_k=9 exceeds compile-time MAX_K=8");
    assert!(load_config("{\"max_k\": 8}").is_ok());
}

#[test]
fn expert_sizes_follow_the_quantisation() {
    let mut c = load_config("{\"hidden_dim\": 128, \"moe_intermediate\": 64}").unwrap();
    c.layout_2bit.down_b_off = 77;
    assert_eq!(active_expert_size(&c, false), 1769472);
    assert_eq!(active_expert_size(&c, true), 983040);
    let p = config_parts(&c, true);
    assert_eq!(p.gate.words, 64 * 16);
    assert_eq!(p.gate.groups, 64 * 2);
    assert_eq!(p.down.words, 128 * 8);
    assert_eq!(p.down.groups, 128);
    assert_eq!(p.down.b_off, 77);
    assert_eq!(config_parts(&c, false).down.b_off, 0);
}

#[test]
fn sizes_are_taken_when_none_is_negative() {
    let mut c = load_config("{\"hidden_dim\": 128, \"moe_intermediate\": 64}").unwrap();
    let d = run_dims(&c).unwrap();
    assert_eq!(d.hidden_dim, 128);
    assert_eq!(d.moe_inter, 64);
    assert_eq!(d.num_experts, 256);
    assert_eq!(d.group_size, 64);
    c.rotary_dim = -1;
    assert!(run_dims(&c).is_none());
}

#[test]
fn tables_are_taken_when_nothing_is_negative() {
    let mut c = load_config("{\"expert_layout_4bit\": {\"up_s_off\": 12}}").unwrap();
    let l = run_layout(&c.layout_4bit, 100).unwrap();
    assert_eq!(l.up_s_off, 12);
    assert_eq!(l.expert_size_4bit, 100);
    assert!(run_layout(&c.layout_4bit, -1).is_none());
    c.layout_4bit.down_b_size = -1;
    assert!(run_layout(&c.layout_4bit, 100).is_none());
}

#[test]
fn products_fit_exactly_when_all_is_there() {
    assert!(product_fits(48, 6, 6, 128, 3, 128, 64));
    assert!(!product_fits(47, 6, 6, 128, 3, 128, 64));
    assert!(!product_fits(48, 5, 6, 128, 3, 128, 64));
    assert!(!product_fits(48, 6, 5, 128, 3, 128, 64));
    assert!(!product_fits(48, 6, 6, 127, 3, 128, 64));
    assert!(!product_fits(48, 6, 6, 128, 3, 128, 0));
    assert!(product_fits(0, 0, 0, 0, 0, 128, 64));
    assert!(!product_fits(48, 6, 6, 128, usize::MAX, usize::MAX, 1));
}

#[test]
fn experts_fit_in_their_bytes() {
    let l = expert_layout(128, 64, 64);
    let p = parts_of(&l);
    assert!(expert_fits(&p, l.expert_size_4bit, 128, 128, 64, 64));
    assert!(!expert_fits(&p, l.expert_size_4bit - 1, 128, 128, 64, 64));
    assert!(!expert_fits(&p, l.expert_size_4bit, 127, 128, 64, 64));
}

#[test]
fn layout_of_the_large_model() {
    let l = expert_layout(2048, 512, 64);
    assert_eq!(l.expert_size_4bit, qwen35_35b::EXPERT_SIZE_4BIT);
    assert_eq!(l.gate_s_off, qwen35_35b::GATE_S_OFF);
    assert_eq!(l.up_w_off, qwen35_35b::UP_W_OFF);
    assert_eq!(l.down_w_off, qwen35_35b::DOWN_W_OFF);
    assert_eq!(l.down_b_off + l.down_b_size, l.expert_size_4bit);
    let p = parts_of(&l);
    assert_eq!(p.gate.words * 4, l.gate_w_size);
    assert_eq!(p.up.groups * 2, l.up_s_size);
    assert_eq!(p.down.w_off, l.down_w_off);
}

#[test]
fn architectures_are_listed_by_commas() {
    assert!(names_architecture("A, B ,C", "B"));
    assert!(!names_architecture("A,BC", "B"));
    assert!(names_architecture(FULL, FULL));
    assert!(!names_architecture(STRIPPED, FULL));
}

fn config_of(m: moe_infer::engine::qwen35_moe::constants::ModelDims) -> ConfigDims {
    ConfigDims {
        hidden_dim: m.hidden_dim,
        num_layers: m.num_layers,
        num_experts: m.num_experts,
        num_experts_per_tok: m.num_experts_per_tok,
        moe_intermediate: m.moe_intermediate,
        shared_intermediate: m.shared_intermediate,
        num_attn_heads: m.num_attn_heads,
        num_kv_heads: m.num_kv_heads,
        head_dim: m.head_dim,
        vocab_size: m.vocab_size,
        linear_num_v_heads: m.linear_num_v_heads,
        linear_num_k_heads: m.linear_num_k_heads,
        linear_total_key: m.linear_total_key,
        linear_total_value: m.linear_total_value,
    }
}

#[test]
fn engines_resolve_by_name_and_architecture() {
    assert_eq!(
        EngineEnum::resolve_and_init("Qwen35MoEFused4bit", Some(FULL)).unwrap(),
        EngineEnum::Qwen35MoEFused4bit
    );
    assert_eq!(
        EngineEnum::resolve_and_init("Qwen35MoEFused4bitExp2", Some(STRIPPED)).unwrap(),
        EngineEnum::Qwen35MoEFused4bitExp2Stripped
    );
    let e = EngineEnum::resolve_and_init("no\"ne", None).unwrap_err();
    assert_eq!(
        e.message(),
        "Config error: Unknown engine: engine_type=\"no\\\"ne\", arch=\"\""
    );
}

#[test]
fn unknown_engines_are_quoted() {
    assert_eq!(unknown_engine_message("\"x\"", "\"y\""), "Unknown engine: engine_type=\"x\", arch=\"y\"");
}

#[test]
fn engines_need_their_model() {
    let c = config_of(FullModel::constants());
    let e = DynEngine::new(&c, FULL, 6, EngineEnum::Qwen35MoEFused4bitExp1).unwrap();
    assert_eq!(e.kind(), EngineEnum::Qwen35MoEFused4bitExp1);
    assert_eq!(e.engine().k, 6);
    assert_eq!(e.engine().dims, FullModel::constants());
    assert_eq!(e.upload_cache(0), None);
    assert_eq!(e.upload_cache(3), Some(EngineStep::Upload));
    assert_eq!(e.download_cache(), EngineStep::Download);
    assert!(DynEngine::new(&c, "", 6, EngineEnum::Qwen35MoEFused4bit).is_ok());
    assert!(DynEngine::new(&c, FULL, 6, EngineEnum::Qwen35MoEFused4bitStripped).is_err());
}

#[test]
fn mismatched_dimensions_are_listed() {
    let mut c = config_of(StrippedModel::constants());
    c.hidden_dim = 1;
    c.linear_total_value = 2;
    let e = match DynEngine::new(&c, "Other", 4, EngineEnum::Qwen35MoEFused4bitStripped) {
        Err(e) => e,
        Ok(_) => panic!("accepted"),
    };
    let m = e.message();
    assert!(m.starts_with("Config error: "));
    assert!(m.ends_with("hidden_dim: config=1, const=2048; linear_total_value: config=2, const=4096"));
    let quoted = describe_architecture("\"Other\"", STRIPPED);
    assert!(m.contains(&quoted));
}

#[test]
fn constants_validate_their_own_model() {
    let ok = |f: fn(
        usize, usize, usize, usize, usize, usize, usize, usize, usize, usize, usize, usize, usize, usize,
    ) -> Result<(), String>,
              c: &ConfigDims| {
        f(
            c.hidden_dim, c.num_layers, c.num_experts, c.num_experts_per_tok, c.moe_intermediate,
            c.shared_intermediate, c.num_attn_heads, c.num_kv_heads, c.head_dim, c.vocab_size,
            c.linear_num_v_heads, c.linear_num_k_heads, c.linear_total_key, c.linear_total_value,
        )
    };
    let full = config_of(FullModel::constants());
    let stripped = config_of(StrippedModel::constants());
    assert_eq!(ok(qwen35_35b::validate_config, &full), Ok(()));
    assert_eq!(ok(qwen35_35b_stripped::validate_config, &stripped), Ok(()));
    assert_eq!(
        ok(qwen35_35b::validate_config, &stripped),
        Err("num_layers: config=4, const=40; num_experts: config=4, const=256; num_experts_per_tok: config=4, const=8".to_string())
    );
}

#[test]
fn texts_are_in_order() {
    let mut words = vec!["b", "", "ab", "a", "\u{10000}", "\u{ffff}", "abc", "b"];
    words.sort();
    for i in 0..words.len() {
        for j in 0..words.len() {
            assert_eq!(str_precedes(words[i], words[j]), words[i] < words[j]);
        }
    }
}

#[test]
fn errors_say_where_they_come_from() {
    assert_eq!(MoEError::Metal("x".to_string()).message(), "Metal error: x");
    let e = IoError { kind: IoErrorKind::Other, text: "x".to_string() };
    let e = MoEError::from(e);
    assert!(matches!(&e, MoEError::Io(i) if i.kind == IoErrorKind::Other));
    assert_eq!(e.message(), "I/O error: x");
    assert_eq!(MoEError::Config("x".to_string()).message(), "Config error: x");
    assert_eq!(MoEError::Shader("x".to_string()).message(), "Shader error: x");
    assert_eq!(MoEError::from("x".to_string()).message(), "Metal error: x");
}

#[test]
fn telemetry_is_off_until_asked_for() {
    let mut s = TelemetrySwitch::default();
    assert!(!record_telemetry(&s));
    set_record_telemetry(&mut s, true);
    assert!(record_telemetry(&s));
}

#[test]
fn tensors_have_the_names_of_the_weight_file() {
    assert_eq!(Tensor::QProj(12).name(), "model.layers.12.self_attn.q_proj");
    assert_eq!(Tensor::ALog(0).name(), "model.layers.0.linear_attn.A_log");
    assert_eq!(Tensor::SharedExpertGate(3).name(), "model.layers.3.mlp.shared_expert_gate");
    assert_eq!(Tensor::LmHead.name(), "lm_head");
    assert_eq!(Tensor::FinalNorm.name(), "model.norm.weight");
}

#[test]
fn numbers_are_written_in_decimal() {
    let mut s = String::new();
    append_usize(&mut s, 0);
    append_u64(&mut s, 18446744073709551615);
    append_i64(&mut s, -9223372036854775808);
    assert_eq!(s, "018446744073709551615-9223372036854775808");
    assert!(str_eq("ab", "ab"));
    assert!(!str_eq("ab", "abc"));
}
