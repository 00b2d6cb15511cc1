use std::borrow::Cow;

use ferrisbot::playground::{
    default_flags, extract_relevant_lines, flag_errors, has_main, needs_wrapping, parse_flags,
    settle_flags, strip_bom, wrap_in_main, AliasingModel, Channel, CommandFlags, Edition, Mode,
    ParsedFlags, format_play_eval_stderr, generic_help, hoise_crate_attributes,
    maybe_wrap, maybe_wrapped, playground_reply, stub_message,
    strip_fn_main_boilerplate_from_formatted, GenericHelp, PlaygroundReply, ResultHandling,
};

#[test]
fn hoisting_moves_crate_attributes_first() {
    let code = "#![feature(never_type)]\n\n  #![allow(unused)]  \nfn f() {}\nlet a = 1;";
    assert_eq!(
        hoise_crate_attributes(code, "HEAD\n", "TAIL"),
        "#![feature(never_type)]\n#![allow(unused)]\nHEAD\nfn f() {}\nlet a = 1;\nTAIL"
    );
}

#[test]
fn hoisting_without_attributes_keeps_lines() {
    assert_eq!(hoise_crate_attributes("a\r\n\nb\n", "<", ">"), "<a\n\nb\n>");
    assert_eq!(hoise_crate_attributes("", "<", ">"), "<>");
    assert_eq!(hoise_crate_attributes("\n\n", "<", ">"), "<>");
}

#[test]
fn hoisting_stops_at_first_code_line() {
    assert_eq!(
        hoise_crate_attributes("x\n#![allow(dead_code)]", "{", "}"),
        "{x\n#![allow(dead_code)]\n}"
    );
}

#[test]
fn relevant_lines_between_tokens() {
    let stderr = "   Compiling playground v0.0.1 (/playground)\nerror[E0308]: mismatched types\n --> src/main.rs:2:5\n\nerror: could not compile `playground`\n";
    assert_eq!(
        extract_relevant_lines(
            stderr,
            &["Compiling playground"],
            &["error: could not compile", "error: aborting"]
        ),
        "error[E0308]: mismatched types\n --> src/main.rs:2:5\n"
    );
}

#[test]
fn relevant_lines_without_tokens_trims_blank_edges() {
    assert_eq!(extract_relevant_lines("\n\nabc\n\n\n", &["X"], &["Y"]), "abc\n");
    assert_eq!(extract_relevant_lines("abc", &[], &[]), "abc");
    assert_eq!(extract_relevant_lines("", &["X"], &["Y"]), "");
}

#[test]
fn relevant_lines_start_token_on_last_line() {
    assert_eq!(extract_relevant_lines("foo Compiling playground", &["Compiling playground"], &[]), "");
}

#[test]
fn relevant_lines_end_token_on_first_line() {
    assert_eq!(extract_relevant_lines("error: aborting\nmore\n", &[], &["error: aborting"]), "");
}

#[test]
fn relevant_lines_are_as_compact_as_possible() {
    // The start cut goes after the last start token, the end cut before the earliest end token.
    let s = "A\n1\nB\n2\nC\n3\nD\n";
    assert_eq!(extract_relevant_lines(s, &["A", "B"], &["D", "C"]), "2\n");
}

#[test]
fn stderr_of_a_successful_run_with_warnings() {
    let stderr = "   Compiling playground v0.0.1 (/playground)\nwarning: unused variable: `x`\n\nwarning: `playground` (bin \"playground\") generated 1 warning\n    Finished dev [unoptimized + debuginfo] target(s) in 0.5s\n     Running `target/debug/playground`\nthread 'main' panicked\n";
    assert_eq!(
        format_play_eval_stderr(stderr, true),
        "warning: unused variable: `x`\n\nthread 'main' panicked\n"
    );
    assert_eq!(format_play_eval_stderr(stderr, false), "thread 'main' panicked\n");
}

#[test]
fn stderr_of_a_failed_build_is_the_compiler_output() {
    let stderr = "   Compiling playground v0.0.1 (/playground)\nerror: expected `;`\n\nerror: could not compile `playground` (bin \"playground\") due to 1 previous error\n";
    assert_eq!(format_play_eval_stderr(stderr, false), "error: expected `;`\n");
    assert_eq!(format_play_eval_stderr(stderr, true), "error: expected `;`\n");
}

#[test]
fn stderr_of_a_clean_run_is_empty() {
    let stderr = "   Compiling playground\n    Finished dev\n     Running `target/debug/playground`\n";
    assert_eq!(format_play_eval_stderr(stderr, true), "");
    assert_eq!(format_play_eval_stderr(stderr, false), "");
}

#[test]
fn stderr_with_only_warnings_or_only_program_output() {
    let only_warnings = "   Compiling playground\nwarning: x\n1 warning emitted\n    Finished dev\n     Running `target/debug/playground`\n";
    assert_eq!(format_play_eval_stderr(only_warnings, true), "warning: x\n");
    let only_program = "   Compiling playground\n    Finished dev\n     Running `target/debug/playground`\nboom\n";
    assert_eq!(format_play_eval_stderr(only_program, true), "boom\n");
}

#[test]
fn strip_boilerplate_reverts_indent() {
    let formatted = "fn main() {\n    let x = 1;\n    println!(\"{x}\");\n}\n";
    assert_eq!(
        strip_fn_main_boilerplate_from_formatted(formatted),
        "let x = 1;\nprintln!(\"{x}\");\n"
    );
}

#[test]
fn strip_boilerplate_of_other_text() {
    assert_eq!(strip_fn_main_boilerplate_from_formatted("x"), "x\n");
    assert_eq!(strip_fn_main_boilerplate_from_formatted(""), "");
    assert_eq!(strip_fn_main_boilerplate_from_formatted("  \n "), "");
    assert_eq!(strip_fn_main_boilerplate_from_formatted("} fn main() {"), "} fn main() {\n");
    assert_eq!(
        strip_fn_main_boilerplate_from_formatted("fn main() {\n    a\n        b\n  c\n}"),
        "a\n    b\n  c\n"
    );
}

#[test]
fn help_for_play_command() {
    let help = generic_help(GenericHelp {
        command: "play",
        desc: "Compile and run Rust code",
        mode_and_channel: true,
        warn: true,
        run: false,
        aliasing_model: false,
        example_code: "code",
    });
    assert_eq!(
        help,
        "Compile and run Rust code. All code is executed on https://play.rust-lang.org.\n```rust\n?play mode={} channel={} edition={} warn={} ``\u{200B}`code``\u{200B}`\n```\nOptional arguments:\n- mode: debug, release (default: debug)\n- channel: stable, beta, nightly (default: nightly)\n- edition: 2015, 2018, 2021, 2024 (default: 2024)\n- warn: true, false (default: false)\n"
    );
}

#[test]
fn help_with_every_flag_off_and_on() {
    let bare = generic_help(GenericHelp {
        command: "eval",
        desc: "Evaluate",
        mode_and_channel: false,
        warn: false,
        run: false,
        aliasing_model: false,
        example_code: "1+1",
    });
    assert_eq!(
        bare,
        "Evaluate. All code is executed on https://play.rust-lang.org.\n```rust\n?eval edition={} ``\u{200B}`1+1``\u{200B}`\n```\nOptional arguments:\n- edition: 2015, 2018, 2021, 2024 (default: 2024)\n"
    );
    let full = generic_help(GenericHelp {
        command: "miri",
        desc: "Run with Miri",
        mode_and_channel: false,
        warn: true,
        run: true,
        aliasing_model: true,
        example_code: "x",
    });
    assert_eq!(
        full,
        "Run with Miri. All code is executed on https://play.rust-lang.org.\n```rust\n?miri edition={} aliasingModel={} warn={} run={} ``\u{200B}`x``\u{200B}`\n```\nOptional arguments:\n- aliasingModel: stacked, tree (default: stacked)\n- edition: 2015, 2018, 2021, 2024 (default: 2024)\n- warn: true, false (default: false)\n- run: true, false (default: false)\n"
    );
}

#[test]
fn snippet_without_main_is_wrapped() {
    let wrapped = maybe_wrap("println!(\"hi\");", ResultHandling::Unconsumed);
    assert!(matches!(wrapped, Cow::Owned(_)));
    assert_eq!(wrapped, "fn main() {\nprintln!(\"hi\");\n}");
}

#[test]
fn snippet_with_main_is_borrowed() {
    let code = "fn main() { println!(\"hi\"); }";
    let res = maybe_wrap(code, ResultHandling::Print);
    assert!(matches!(res, Cow::Borrowed(_)));
    assert_eq!(res, code);
}

#[test]
fn main_with_parameters_does_not_count() {
    let res = maybe_wrap("fn main(x: i32) {}", ResultHandling::Unconsumed);
    assert!(matches!(res, Cow::Owned(_)));
    assert_eq!(res, "fn main() {\nfn main(x: i32) {}\n}");
}

#[test]
fn unparsable_snippet_is_borrowed() {
    let code = "let x = ;";
    let res = maybe_wrap(code, ResultHandling::Discard);
    assert!(matches!(res, Cow::Borrowed(_)));
    assert_eq!(res, code);
}

#[test]
fn wrapped_print_keeps_crate_attributes_on_top() {
    let res = maybe_wrap("#![allow(unused)]\nlet x = 5;\nx", ResultHandling::Print);
    assert_eq!(res, "#![allow(unused)]\nfn main() { println!(\"{:?}\", {\nlet x = 5;\nx\n}); }");
}

#[test]
fn wrapped_discard_and_unsafe_pretty() {
    assert_eq!(maybe_wrap("5", ResultHandling::Discard), "fn main() { let _ = {\n5\n}; }");
    assert_eq!(
        maybe_wrapped("1 + 1", ResultHandling::Print, true, true),
        "fn main() { println!(\"{:#?}\", {\nunsafe {1 + 1\n}}); }"
    );
    assert_eq!(
        maybe_wrapped("f()", ResultHandling::Unconsumed, true, false),
        "fn main() {\nunsafe {f()\n}}"
    );
}

#[test]
fn stub_shows_notice_and_earlier_response() {
    assert_eq!(stub_message(None), "_Running code on playground..._\n");
    assert_eq!(stub_message(Some("previous")), "_Running code on playground..._\nprevious");
}

#[test]
fn stub_is_cut_to_two_thousand_bytes() {
    let long = "a".repeat(3000);
    let stub = stub_message(Some(&long));
    assert_eq!(stub.len(), 2000);
    assert!(stub.starts_with("_Running code on playground..._\naaa"));
}

#[test]
fn blank_result_gets_empty_code_block() {
    match playground_reply("  \n\t", "bad flag\n") {
        PlaygroundReply::Blank(m) => assert_eq!(m, "bad flag\n``` ```"),
        other => panic!("unexpected {other:?}"),
    }
}

#[test]
fn result_is_sent_in_a_code_block() {
    match playground_reply("hello", "") {
        PlaygroundReply::Output { body, end, timeout } => {
            assert_eq!(body, "```rust\nhello");
            assert_eq!(end, "\n```");
            assert!(!timeout);
        }
        other => panic!("unexpected {other:?}"),
    }
}

#[test]
fn playground_timeout_is_detected() {
    let result = "/playground/tools/entrypoint.sh: line 11: 8 Killed timeout --signal=KILL ${timeout} \"$@\"";
    match playground_reply(result, "e\n") {
        PlaygroundReply::Output { body, end, timeout } => {
            assert_eq!(body, format!("e\n```rust\n{result}"));
            assert_eq!(end, "\n```Playground timeout detected");
            assert!(timeout);
        }
        other => panic!("unexpected {other:?}"),
    }
    match playground_reply("Killed by timeout", "") {
        PlaygroundReply::Output { timeout, .. } => assert!(!timeout),
        other => panic!("unexpected {other:?}"),
    }
}

fn pairs(items: &[(&str, &str)]) -> Vec<(String, String)> {
    items.iter().map(|(k, v)| (k.to_string(), v.to_string())).collect()
}

#[test]
fn flags_are_sorted_into_known_and_unknown() {
    let (values, unknown) = parse_flags(&pairs(&[
        ("mode", "release"),
        ("colour", "blue"),
        ("aliasingModel", "tree"),
        ("warn", "true"),
        ("Edition", "2021"),
    ]));
    assert_eq!(values.mode.as_deref(), Some("release"));
    assert_eq!(values.aliasing_model.as_deref(), Some("tree"));
    assert_eq!(values.warn.as_deref(), Some("true"));
    assert_eq!(values.channel, None);
    assert_eq!(values.edition, None);
    assert_eq!(values.run, None);
    assert_eq!(unknown, vec!["colour".to_string(), "Edition".to_string()]);
}

#[test]
fn no_flags_given() {
    let (values, unknown) = parse_flags(&vec![]);
    assert!(values.channel.is_none() && values.mode.is_none() && values.run.is_none());
    assert!(unknown.is_empty());
}

#[test]
fn flag_error_report() {
    assert_eq!(flag_errors(&vec![], &vec![]), "");
    assert_eq!(
        flag_errors(
            &vec!["invalid channel".to_string()],
            &vec!["colour".to_string(), "x".to_string()]
        ),
        "invalid channel\nunknown flag `colour`\nunknown flag `x`\n"
    );
}

#[test]
fn main_is_recognised_among_parsed_statements() {
    let sigs = vec![None, Some(("helper".to_string(), 0)), Some(("main".to_string(), 0))];
    assert!(has_main(&sigs));
    assert!(!needs_wrapping(&Some(sigs)));
    let with_args = vec![Some(("main".to_string(), 2))];
    assert!(!has_main(&with_args));
    assert!(needs_wrapping(&Some(with_args)));
    assert!(needs_wrapping(&Some(vec![])));
    assert!(!needs_wrapping(&None));
}

#[test]
fn wrapping_in_main() {
    assert_eq!(
        wrap_in_main("#![allow(x)]\nfoo()", ResultHandling::Discard, false, false),
        "#![allow(x)]\nfn main() { let _ = {\nfoo()\n}; }"
    );
    assert_eq!(
        wrap_in_main("v", ResultHandling::Print, false, false),
        "fn main() { println!(\"{:?}\", {\nv\n}); }"
    );
}

fn unread() -> ParsedFlags {
    ParsedFlags { channel: None, mode: None, edition: None, aliasing_model: None }
}

fn defaults() -> CommandFlags {
    CommandFlags {
        channel: Channel::Nightly,
        mode: Mode::Debug,
        edition: Edition::E2024,
        warn: false,
        run: false,
        aliasing_model: AliasingModel::Stacked,
    }
}

#[test]
fn no_flags_give_the_defaults() {
    assert_eq!(default_flags(), defaults());
    let (values, unknown) = parse_flags(&vec![]);
    let (flags, errors) = settle_flags(&unread(), &values, &unknown);
    assert_eq!(flags, defaults());
    assert_eq!(errors, "");
}

#[test]
fn unknown_flag_keeps_the_defaults() {
    let (values, unknown) = parse_flags(&pairs(&[("foo", "1")]));
    let (flags, errors) = settle_flags(&unread(), &values, &unknown);
    assert_eq!(flags, defaults());
    assert_eq!(errors, "unknown flag `foo`\n");
}

#[test]
fn boolean_flags_are_read() {
    let (values, unknown) = parse_flags(&pairs(&[("warn", "maybe"), ("run", "true")]));
    let (flags, errors) = settle_flags(&unread(), &values, &unknown);
    assert!(!flags.warn);
    assert!(flags.run);
    assert_eq!(errors, format!("{}\n", "maybe".parse::<bool>().unwrap_err()));
    assert_eq!(errors, "provided string was not `true` or `false`\n");
    let (values, unknown) = parse_flags(&pairs(&[("warn", "true"), ("run", "false")]));
    let (flags, errors) = settle_flags(&unread(), &values, &unknown);
    assert!(flags.warn && !flags.run);
    assert_eq!(errors, "");
}

#[test]
fn read_values_and_errors_in_flag_order() {
    let (values, unknown) = parse_flags(&pairs(&[("zzz", "1"), ("run", "no"), ("mode", "fast")]));
    let parsed = ParsedFlags {
        channel: Some(Ok(Channel::Beta)),
        mode: Some(Err("bad mode".to_string())),
        edition: Some(Ok(Edition::E2018)),
        aliasing_model: Some(Err("bad model".to_string())),
    };
    let (flags, errors) = settle_flags(&parsed, &values, &unknown);
    assert_eq!(
        flags,
        CommandFlags { channel: Channel::Beta, edition: Edition::E2018, ..defaults() }
    );
    assert_eq!(
        errors,
        "bad mode\nprovided string was not `true` or `false`\nbad model\nunknown flag `zzz`\n"
    );
}

#[test]
fn byte_order_mark_is_skipped_before_parsing() {
    assert_eq!(strip_bom("\u{feff}let x = 1;"), "let x = 1;");
    assert_eq!(strip_bom("let x = 1;"), "let x = 1;");
    let code = "\u{feff}println!(\"hi\");";
    let res = maybe_wrap(code, ResultHandling::Unconsumed);
    assert!(matches!(res, Cow::Owned(_)));
    assert_eq!(res, "fn main() {\n\u{feff}println!(\"hi\");\n}");
}
