use rust_format::{
    post_process, replace_markers, Edition, Error, PostProcess, PrettyPlease, Replaced,
};

fn run(source: &str, replace_doc_blocks: bool) -> String {
    let replaced = replace_markers(source.as_bytes(), replace_doc_blocks).unwrap();
    String::from_utf8(replaced.into_text(source.as_bytes())).unwrap()
}

#[test]
fn marker_inside_line_comment_untouched() {
    let source = "// _blank_!(2);\n";
    let actual = replace_markers(source.as_bytes(), false).unwrap();
    assert!(matches!(actual, Replaced::Unchanged));
    assert_eq!(source, run(source, false));
}

#[test]
fn marker_inside_block_comment_untouched() {
    let source = "/* _comment_!(\"x\"); /* _blank_!(2); */ */\n";
    let actual = replace_markers(source.as_bytes(), false).unwrap();
    assert!(matches!(actual, Replaced::Unchanged));
}

#[test]
fn marker_inside_string_untouched() {
    let source = "let s = \"_blank_!(2);\";\n";
    let actual = replace_markers(source.as_bytes(), false).unwrap();
    assert!(matches!(actual, Replaced::Unchanged));
}

#[test]
fn marker_inside_raw_string_untouched() {
    let source = "let s = r##\"_blank_!(2);\"##;\n";
    let actual = replace_markers(source.as_bytes(), false).unwrap();
    assert!(matches!(actual, Replaced::Unchanged));
}

#[test]
fn raw_string_fence_balance() {
    // A single fence after a quote does not close a two-fence raw string:
    // the marker behind the true close is still replaced.
    let source = "let s = r##\"inner \"# quote\"##;\n_blank_!();\n";
    let expected = "let s = r##\"inner \"# quote\"##;\n\n";
    assert_eq!(expected, run(source, false));
}

#[test]
fn blank_count_exact() {
    assert_eq!("\n\n\n", run("_blank_!(3);\n", false));
}

#[test]
fn blank_count_zero() {
    assert_eq!("", run("_blank_!(0);\n", false));
}

#[test]
fn comment_line_splitting() {
    let source = "_comment_!(\"a\\n\\nb\");\n";
    let expected = "// a\n//\n// b\n";
    assert_eq!(expected, run(source, false));
}

#[test]
fn empty_comment_marker() {
    assert_eq!("//\n", run("_comment_!();\n", false));
}

#[test]
fn comment_indent_reproduced() {
    let source = "    _comment_!(\"a\\nb\");\n";
    let expected = "    // a\n    // b\n";
    assert_eq!(expected, run(source, false));
}

#[test]
fn string_even_trailing_backslashes() {
    // The payload ends in two backslashes before the closing quote, so the
    // quote terminates the literal.
    let source = r#"_comment_!("x\\");"#.to_owned() + "\n";
    let expected = "// x\\\n";
    assert_eq!(expected, run(&source, false));
}

#[test]
fn string_odd_trailing_backslashes() {
    // The payload ends in an escaped quote after an escaped backslash: the
    // literal runs on to the final quote.
    let source = r#"_comment_!("x\\\"");"#.to_owned() + "\n";
    let expected = "// x\\\"\n";
    assert_eq!(expected, run(&source, false));
}

#[test]
fn doc_block_gated_off() {
    let source = "#[doc = \" x\"]\n";
    let actual = replace_markers(source.as_bytes(), false).unwrap();
    assert!(matches!(actual, Replaced::Unchanged));
    assert_eq!(source, run(source, false));
}

#[test]
fn doc_block_gated_on() {
    assert_eq!("/// x\n", run("#[doc = \" x\"]\n", true));
}

#[test]
fn bad_integer_payload_is_error() {
    assert!(matches!(
        replace_markers("_blank_!(xyz);\n".as_bytes(), false),
        Err(Error::BadSourceCode(_))
    ));
}

#[test]
fn missing_line_ending_is_error() {
    assert!(matches!(
        replace_markers("_blank_!(1); trailing".as_bytes(), false),
        Err(Error::BadSourceCode(_))
    ));
}

#[test]
fn error_message_describes_failure() {
    let err = replace_markers("_blank_!(".as_bytes(), false).unwrap_err();
    let message = err.message();
    assert!(!message.is_empty());
}

#[test]
fn post_process_options() {
    assert!(!PostProcess::Disabled.replace_markers());
    assert!(!PostProcess::Disabled.replace_doc_blocks());
    assert!(PostProcess::ReplaceMarkers.replace_markers());
    assert!(!PostProcess::ReplaceMarkers.replace_doc_blocks());
    assert!(PostProcess::ReplaceMarkersAndDocBlocks.replace_markers());
    assert!(PostProcess::ReplaceMarkersAndDocBlocks.replace_doc_blocks());
    assert!(matches!(PostProcess::default(), PostProcess::Disabled));
}

#[test]
fn edition_digits() {
    assert_eq!("2015", Edition::Rust2015.as_str());
    assert_eq!("2018", Edition::Rust2018.as_str());
    assert_eq!("2021", Edition::Rust2021.as_str());
    assert!(matches!(Edition::default(), Edition::Rust2021));
}

#[test]
fn post_process_disabled_passes_through() {
    let source = "_blank_!(2);\n".as_bytes().to_vec();
    let result = post_process(PostProcess::Disabled, source.clone()).unwrap();
    assert_eq!(source, result);
}

#[test]
fn post_process_replaces_markers() {
    let source = "_blank_!(2);\n".as_bytes().to_vec();
    let result = post_process(PostProcess::ReplaceMarkers, source).unwrap();
    assert_eq!("\n\n".as_bytes(), result.as_slice());
}

#[test]
fn pretty_please_formats_and_replaces() {
    let source = r#"fn main() { _comment_!("This prints hello world"); println!("Hello World!"); _blank_!(); }"#;
    let formatter = PrettyPlease::with_post_process(PostProcess::ReplaceMarkers);
    let actual = formatter.format_str(source.as_bytes()).unwrap();
    let expected = r#"fn main() {
    // This prints hello world
    println!("Hello World!");

}
"#;
    assert_eq!(expected, String::from_utf8(actual).unwrap());
}

#[test]
fn pretty_please_replaces_doc_blocks() {
    let source = "#[doc = \" This is main\"] fn main() {}";
    let formatter = PrettyPlease::with_post_process(PostProcess::ReplaceMarkersAndDocBlocks);
    let actual = formatter.format_str(source.as_bytes()).unwrap();
    let text = String::from_utf8(actual).unwrap();
    assert!(text.starts_with("/// This is main\n"));
}

#[test]
fn pretty_please_bad_source() {
    let formatter = PrettyPlease::new();
    assert!(matches!(
        formatter.format_str("use".as_bytes()),
        Err(Error::BadSourceCode(_))
    ));
}

#[test]
fn pretty_please_plain_format() {
    let source = r#"fn main() { println!("Hello World!"); }"#;
    let actual = PrettyPlease::new().format_str(source.as_bytes()).unwrap();
    let expected = r#"fn main() {
    println!("Hello World!");
}
"#;
    assert_eq!(expected, String::from_utf8(actual).unwrap());
}

#[test]
fn comment_crlf_preserved() {
    assert_eq!("// a\r\n", run("_comment_!(\"a\");\r\n", false));
}

#[test]
fn blank_default_is_one() {
    assert_eq!("\n", run("_blank_!();\n", false));
}

#[test]
fn raw_comment_payload() {
    let source = "_comment_!(r#\"a\"b\"#);\n";
    let expected = "// a\"b\n";
    assert_eq!(expected, run(source, false));
}

#[test]
fn bad_raw_string_payload_is_error() {
    assert!(matches!(
        replace_markers("_comment_!(rx);\n".as_bytes(), false),
        Err(Error::BadSourceCode(_))
    ));
}

#[test]
fn pretty_please_prints_verbatim_items() {
    // A bodiless function parses as a verbatim item; printing it must
    // return text, not abort.
    let actual = PrettyPlease::new().format_str("fn f();".as_bytes()).unwrap();
    assert_eq!("fn f();\n", String::from_utf8(actual).unwrap());
}

#[test]
fn pretty_please_macro_rules_refused() {
    // prettyplease's macro_rules printer aborts on ill-shaped bodies, so
    // the library refuses such sources outright, with an error.
    let formatter = PrettyPlease::new();
    assert!(matches!(
        formatter.format_str("macro_rules! m { foo }".as_bytes()),
        Err(Error::BadSourceCode(_))
    ));
    assert!(matches!(
        formatter.format_str("macro_rules! m { () => {}; }".as_bytes()),
        Err(Error::BadSourceCode(_))
    ));
}

#[test]
fn second_pass_changes_nothing() {
    // Replacing markers in an output of the replacement finds nothing more
    // to replace: rendered lines are comments or blank, and the rest is
    // the untouched input.
    let sources = [
        "_blank_!(3);\n",
        "_comment_!(\"a\\n\\nb\");\n",
        "    _comment_!(\"a\");\r\n",
        "_comment_!();\n",
        "#[doc = \" x\"]\n",
        "fn f() {\n    _blank_!(2);\n    let s = \"_blank_!(1);\";\n}\n",
    ];
    for source in sources {
        for post_proc in [PostProcess::ReplaceMarkers, PostProcess::ReplaceMarkersAndDocBlocks] {
            let first = post_process(post_proc, source.as_bytes().to_vec()).unwrap();
            let second = post_process(post_proc, first.clone()).unwrap();
            assert_eq!(first, second);
        }
    }
}
