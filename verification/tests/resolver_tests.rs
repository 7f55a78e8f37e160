use deet::dwarf::{mask_to_size, resolve_location, DebugInfo, FunctionSym, LineRow, Variable, VarLocation};
use deet::resolver::{
    build_debug_context, config_from_json, decode_llm_response, extract_json, parse_address,
    parse_address_pattern, parse_chinese_line, parse_english_line, resolve_offline,
    break_target, nl_target, try_simple_parse, BreakpointSpec, Cache, ConfigError, LlmError,
};

fn sample_info() -> DebugInfo {
    DebugInfo {
        files: vec!["hello.c".to_string()],
        functions: vec![
            FunctionSym {
                name: "main".to_string(),
                file: "hello.c".to_string(),
                line_number: 3,
                addr: 0x4005b0,
            },
            FunctionSym {
                name: "func1".to_string(),
                file: "hello.c".to_string(),
                line_number: 9,
                addr: 0x400700,
            },
        ],
        lines: vec![
            LineRow { addr: 0x4005b0, file: "hello.c".to_string(), number: 3 },
            LineRow { addr: 0x4005c0, file: "hello.c".to_string(), number: 5 },
        ],
        variables: Vec::new(),
    }
}

#[test]
fn address_parsing() {
    assert_eq!(parse_address("0x4005b8"), Some(0x4005b8));
    assert_eq!(parse_address("0X1F"), Some(0x1f));
    assert_eq!(parse_address("1f"), Some(0x1f));
    assert_eq!(parse_address("+ff"), Some(0xff));
    assert_eq!(parse_address("zz"), None);
    assert_eq!(parse_address(""), None);
    assert_eq!(parse_address("0x"), None);
    // seventeen hexadecimal digits exceed the machine word
    assert_eq!(parse_address("0x10000000000000000"), None);
    // a minus sign is no digit for an unsigned parse
    assert_eq!(parse_address("-0"), None);
}

#[test]
fn break_argument_targets() {
    let info = sample_info();
    assert_eq!(break_target("*0x999", &info), Some(0x999));
    assert_eq!(break_target("5", &info), Some(0x4005c0));
    assert_eq!(break_target("func1", &info), Some(0x400700));
    assert_eq!(break_target("99", &info), None);
    assert_eq!(break_target("nosuch", &info), None);
}

#[test]
fn natural_request_targets() {
    let info = sample_info();
    let line = BreakpointSpec::Line { file: None, line: 3 };
    assert_eq!(nl_target(&line, &info), Some(0x4005b0));
    let func = BreakpointSpec::Function { name: "func1".to_string() };
    assert_eq!(nl_target(&func, &info), Some(0x400700));
    let addr = BreakpointSpec::Address { addr: 0x42 };
    assert_eq!(nl_target(&addr, &info), Some(0x42));
    let missing = BreakpointSpec::Function { name: "ghost".to_string() };
    assert_eq!(nl_target(&missing, &info), None);
}

#[test]
fn chinese_line_pattern() {
    let spec = parse_chinese_line("\u{7b2c}10\u{884c}").unwrap();
    assert!(matches!(spec, BreakpointSpec::Line { file: None, line: 10 }));
    let spec = parse_chinese_line("\u{7b2c} 10 \u{884c}").unwrap();
    assert!(matches!(spec, BreakpointSpec::Line { file: None, line: 10 }));
    let spec = parse_chinese_line("\u{7b2c}7").unwrap();
    assert!(matches!(spec, BreakpointSpec::Line { file: None, line: 7 }));
    // another digit after the run means the number was split: no parse
    assert!(parse_chinese_line("\u{7b2c}12 3\u{884c}").is_none());
    assert!(parse_chinese_line("\u{7b2c}\u{884c}").is_none());
    assert!(parse_chinese_line("no marker").is_none());
}

#[test]
fn english_line_pattern() {
    let spec = parse_english_line("break at line 42 now").unwrap();
    assert!(matches!(spec, BreakpointSpec::Line { file: None, line: 42 }));
    assert!(parse_english_line("line").is_none());
    assert!(parse_english_line("nothing here").is_none());
}

#[test]
fn address_pattern() {
    let spec = parse_address_pattern("stop at 0x4005b8 please").unwrap();
    assert!(matches!(spec, BreakpointSpec::Address { addr: 0x4005b8 }));
    assert!(parse_address_pattern("0x").is_none());
    assert!(parse_address_pattern("no address").is_none());
}

#[test]
fn offline_parse_without_config() {
    // the whole offline path works with no configuration file in sight
    let info = sample_info();
    let spec = try_simple_parse("\u{7b2c} 10 \u{884c}", &info).unwrap();
    assert!(matches!(spec, BreakpointSpec::Line { file: None, line: 10 }));
}

#[test]
fn offline_parse_matches_function_case_folded() {
    let info = sample_info();
    // the request names the function in upper case; matching is case-folded
    let spec = try_simple_parse("break at MAIN please", &info).unwrap();
    match spec {
        BreakpointSpec::Function { name } => assert_eq!(name, "main"),
        _ => panic!("expected a function breakpoint"),
    }
    assert!(try_simple_parse("unknown words", &info).is_none());
}

#[test]
fn cache_round_trip() {
    let mut c = Cache::new();
    assert!(c.get("x").is_none());
    c.insert("x".to_string(), BreakpointSpec::Address { addr: 7 });
    assert!(matches!(c.get("x").unwrap(), BreakpointSpec::Address { addr: 7 }));
    c.insert("x".to_string(), BreakpointSpec::Address { addr: 9 });
    assert!(matches!(c.get("x").unwrap(), BreakpointSpec::Address { addr: 9 }));
    assert!(c.get("y").is_none());
}

#[test]
fn resolve_offline_prefers_cache() {
    let info = sample_info();
    let mut cache = Cache::new();
    cache.insert("main".to_string(), BreakpointSpec::Address { addr: 0x42 });
    // the cached answer wins over what the parsers would say
    let hit = resolve_offline("main", &info, &mut cache).unwrap();
    assert!(matches!(hit, BreakpointSpec::Address { addr: 0x42 }));
    // a fresh request is answered offline and cached
    let fresh = resolve_offline("\u{7b2c}5\u{884c}", &info, &mut cache).unwrap();
    assert!(matches!(fresh, BreakpointSpec::Line { file: None, line: 5 }));
    assert!(matches!(
        cache.get("\u{7b2c}5\u{884c}").unwrap(),
        BreakpointSpec::Line { file: None, line: 5 }
    ));
    assert!(resolve_offline("gibberish", &info, &mut cache).is_none());
}

#[test]
fn extract_json_forms() {
    assert_eq!(extract_json("```json\n{\"a\": 1}\n```"), "{\"a\": 1}");
    assert_eq!(extract_json("```\n{\"b\": 2}\n```"), "{\"b\": 2}");
    assert_eq!(extract_json("noise {\"c\": 3} tail"), "{\"c\": 3}");
    assert_eq!(extract_json("  plain text  "), "plain text");
}

#[test]
fn decode_line_response() {
    let body = "{\"choices\":[{\"message\":{\"content\":\"{\\\"type\\\": \\\"line\\\", \\\"file\\\": null, \\\"line\\\": 5}\"}}]}";
    let spec = decode_llm_response(body).unwrap();
    assert!(matches!(spec, BreakpointSpec::Line { file: None, line: 5 }));
}

#[test]
fn decode_function_response_with_fence() {
    let body = "{\"choices\":[{\"message\":{\"content\":\"```json\\n{\\\"type\\\": \\\"function\\\", \\\"name\\\": \\\"main\\\"}\\n```\"}}]}";
    match decode_llm_response(body).unwrap() {
        BreakpointSpec::Function { name } => assert_eq!(name, "main"),
        _ => panic!("expected a function breakpoint"),
    }
}

#[test]
fn decode_address_response() {
    let body = "{\"choices\":[{\"message\":{\"content\":\"{\\\"type\\\": \\\"address\\\", \\\"addr\\\": \\\"0x4005b8\\\"}\"}}]}";
    match decode_llm_response(body).unwrap() {
        BreakpointSpec::Address { addr } => assert_eq!(addr, 0x4005b8),
        _ => panic!("expected an address breakpoint"),
    }
}

#[test]
fn decode_errors() {
    assert_eq!(decode_llm_response("not json").unwrap_err(), LlmError::BadResponse);
    assert_eq!(decode_llm_response("{}").unwrap_err(), LlmError::BadShape);
    let no_spec = "{\"choices\":[{\"message\":{\"content\":\"not json either\"}}]}";
    assert_eq!(decode_llm_response(no_spec).unwrap_err(), LlmError::BadSpec);
    let unknown = "{\"choices\":[{\"message\":{\"content\":\"{\\\"type\\\": \\\"watch\\\"}\"}}]}";
    assert_eq!(decode_llm_response(unknown).unwrap_err(), LlmError::UnknownType);
    let bad_line = "{\"choices\":[{\"message\":{\"content\":\"{\\\"type\\\": \\\"line\\\"}\"}}]}";
    assert_eq!(decode_llm_response(bad_line).unwrap_err(), LlmError::BadLine);
    let bad_name = "{\"choices\":[{\"message\":{\"content\":\"{\\\"type\\\": \\\"function\\\"}\"}}]}";
    assert_eq!(decode_llm_response(bad_name).unwrap_err(), LlmError::BadName);
    let bad_addr = "{\"choices\":[{\"message\":{\"content\":\"{\\\"type\\\": \\\"address\\\", \\\"addr\\\": \\\"xyz\\\"}\"}}]}";
    assert_eq!(decode_llm_response(bad_addr).unwrap_err(), LlmError::BadAddress);
}

#[test]
fn config_reading() {
    let c = config_from_json("{\"api_key\": \"sk-123\"}").unwrap();
    assert_eq!(c.api_key, "sk-123");
    assert_eq!(c.api_base, "https://api.openai.com/v1");
    assert_eq!(c.model, "gpt-4o-mini");
    let c = config_from_json(
        "{\"api_key\": \"k\", \"api_base\": \"http://localhost:1234/v1\", \"model\": \"m\"}",
    )
    .unwrap();
    assert_eq!(c.api_base, "http://localhost:1234/v1");
    assert_eq!(c.model, "m");
    assert_eq!(config_from_json("nonsense").unwrap_err(), ConfigError::Invalid);
    assert_eq!(config_from_json("{}").unwrap_err(), ConfigError::MissingKey);
    assert_eq!(
        config_from_json("{\"api_key\": \"your-api-key-here\"}").unwrap_err(),
        ConfigError::PlaceholderKey
    );
    assert_eq!(
        config_from_json("{\"api_key\": \"\"}").unwrap_err(),
        ConfigError::PlaceholderKey
    );
}

#[test]
fn context_lists_functions_and_files() {
    let info = sample_info();
    let ctx = build_debug_context(&info);
    assert!(ctx.contains("- `main` (hello.c:3)\n"));
    assert!(ctx.contains("- `func1` (hello.c:9)\n"));
    assert!(ctx.contains("- hello.c\n"));
}

#[test]
fn variable_lookup_and_masking() {
    let var = Variable {
        name: "x".to_string(),
        ty_name: "int".to_string(),
        size: 4,
        location: VarLocation::FrameBaseOffset(-12),
        scope_lo: 0x4005b0,
        scope_hi: 0x400700,
    };
    let mut info = sample_info();
    info.variables.push(var);
    let v = info.variable_in_scope(0x4005c0, "x").expect("in scope");
    assert_eq!(v.ty_name, "int");
    assert!(info.variable_in_scope(0x400800, "x").is_none());
    assert!(info.variable_in_scope(0x4005c0, "y").is_none());
    let addr = resolve_location(&v.location, 0x7fff_0000_1000);
    assert_eq!(addr, 0x7fff_0000_1000 + 16 - 12);
    assert_eq!(mask_to_size(0xffff_ffff_0000_002a, 4), 42);
    assert_eq!(mask_to_size(0xffff, 1), 0xff);
    assert_eq!(mask_to_size(0x12345, 2), 0x2345);
    assert_eq!(mask_to_size(0x1_0000_0001, 8), 0x1_0000_0001);
}
