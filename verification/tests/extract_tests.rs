use zq::extract::{Extractor, RunConfig};
use zq::format::FormatType;
use zq::json::{extract_fields, new_parser, parse_doc};

fn pointers(list: &[&str]) -> Vec<String> {
    list.iter().map(|p| p.to_string()).collect()
}

fn config(raw: bool, quiet: bool, verbose: u32, format: FormatType) -> RunConfig {
    RunConfig { raw, quiet, verbose, format }
}

#[test]
fn space_format_with_raw() {
    let mut parser = new_parser();
    let mut ex = Extractor::new(pointers(&["/a", "/b"]), config(true, false, 0, FormatType::Space));
    let out = ex.process_line(&mut parser, "{\"a\":1,\"b\":\"x\"}");
    assert_eq!(out, Some("1 x".to_string()));
    assert_eq!(ex.errors, 0);
}

#[test]
fn tab_format_with_raw() {
    let mut parser = new_parser();
    let mut ex = Extractor::new(pointers(&["/a", "/b"]), config(true, false, 0, FormatType::Tab));
    let out = ex.process_line(&mut parser, "{\"a\":1,\"b\":\"x\"}");
    assert_eq!(out, Some("1\tx".to_string()));
}

#[test]
fn json_format_keeps_quotes_despite_raw() {
    let mut parser = new_parser();
    let mut ex = Extractor::new(pointers(&["/a", "/b"]), config(true, false, 0, FormatType::Json));
    let out = ex.process_line(&mut parser, "{\"a\":1,\"b\":\"x\"}");
    assert_eq!(out, Some("[1,\"x\"]".to_string()));
}

#[test]
fn string_stays_quoted_without_raw() {
    let mut parser = new_parser();
    let mut ex = Extractor::new(pointers(&["/b"]), config(false, false, 0, FormatType::Space));
    let out = ex.process_line(&mut parser, "{\"a\":1,\"b\":\"x\"}");
    assert_eq!(out, Some("\"x\"".to_string()));
}

#[test]
fn raw_leaves_non_strings_alone() {
    let mut parser = new_parser();
    let mut ex = Extractor::new(
        pointers(&["/a", "/c", "/d"]),
        config(true, false, 0, FormatType::Space),
    );
    let out = ex.process_line(&mut parser, "{\"a\":1,\"c\":true,\"d\":null}");
    assert_eq!(out, Some("1 true null".to_string()));
}

#[test]
fn missing_pointer_drops_line_and_counts_once() {
    let mut parser = new_parser();
    let mut ex = Extractor::new(pointers(&["/a", "/c"]), config(false, false, 0, FormatType::Space));
    let out = ex.process_line(&mut parser, "{\"a\":1,\"b\":\"x\"}");
    assert_eq!(out, None);
    assert_eq!(ex.errors, 1);
}

#[test]
fn several_missing_pointers_count_once() {
    let mut parser = new_parser();
    let mut ex = Extractor::new(
        pointers(&["/c", "/d", "/e"]),
        config(false, false, 0, FormatType::Space),
    );
    let out = ex.process_line(&mut parser, "{\"a\":1}");
    assert_eq!(out, None);
    assert_eq!(ex.errors, 1);
}

#[test]
fn parse_failure_counts_once() {
    let mut parser = new_parser();
    let mut ex = Extractor::new(pointers(&["/a"]), config(false, false, 0, FormatType::Space));
    let out = ex.process_line(&mut parser, "this is not json");
    assert_eq!(out, None);
    assert_eq!(ex.errors, 1);
}

#[test]
fn empty_line_skipped_without_error() {
    let mut parser = new_parser();
    let mut ex = Extractor::new(pointers(&["/a"]), config(false, false, 0, FormatType::Space));
    let out = ex.process_line(&mut parser, "");
    assert_eq!(out, None);
    assert_eq!(ex.errors, 0);
}

#[test]
fn field_count_and_order_match_pointers() {
    let mut parser = new_parser();
    let ptrs = pointers(&["/b", "/a", "/b"]);
    let doc = parse_doc(&mut parser, "{\"a\":1,\"b\":\"x\"}").unwrap();
    let fields = extract_fields(&doc, &ptrs, false).unwrap();
    assert_eq!(fields.len(), 3);
    assert_eq!(fields[0], "\"x\"");
    assert_eq!(fields[1], "1");
    assert_eq!(fields[2], "\"x\"");
}

#[test]
fn minify_strips_whitespace() {
    let mut parser = new_parser();
    let mut ex = Extractor::new(pointers(&[""]), config(false, false, 0, FormatType::Space));
    let out = ex.process_line(&mut parser, "{ \"a\" : [ 1 , 2 ] }");
    assert_eq!(out, Some("{\"a\":[1,2]}".to_string()));
}

#[test]
fn nested_pointers_resolve() {
    let mut parser = new_parser();
    let mut ex = Extractor::new(
        pointers(&["/a/1", "/b/k"]),
        config(false, false, 0, FormatType::Space),
    );
    let out = ex.process_line(&mut parser, "{\"a\":[10,20],\"b\":{\"k\":false}}");
    assert_eq!(out, Some("20 false".to_string()));
}

#[test]
fn quiet_forces_success_despite_errors() {
    let mut parser = new_parser();
    let mut ex = Extractor::new(pointers(&["/a"]), config(false, true, 0, FormatType::Space));
    let out = ex.process_line(&mut parser, "not json");
    assert_eq!(out, None);
    assert_eq!(ex.errors, 1);
    assert!(ex.run_ok());
    assert!(!ex.reports_errors());
}

#[test]
fn errors_fail_run_without_quiet() {
    let mut parser = new_parser();
    let mut ex = Extractor::new(pointers(&["/a"]), config(false, false, 0, FormatType::Space));
    ex.process_line(&mut parser, "not json");
    assert!(!ex.run_ok());
    assert!(ex.reports_errors());
}

#[test]
fn clean_run_succeeds() {
    let mut parser = new_parser();
    let mut ex = Extractor::new(pointers(&["/a"]), config(false, false, 0, FormatType::Space));
    let out = ex.process_line(&mut parser, "{\"a\":7}");
    assert_eq!(out, Some("7".to_string()));
    assert!(ex.run_ok());
    assert!(!ex.reports_errors());
}

#[test]
fn quiet_silences_diagnostics() {
    let ex = Extractor::new(pointers(&["/a"]), config(false, true, 3, FormatType::Space));
    assert!(!ex.logs_diagnostics());
    let ex2 = Extractor::new(pointers(&["/a"]), config(false, false, 1, FormatType::Space));
    assert!(ex2.logs_diagnostics());
    let ex3 = Extractor::new(pointers(&["/a"]), config(false, false, 0, FormatType::Space));
    assert!(!ex3.logs_diagnostics());
}

#[test]
fn format_names_parse() {
    assert_eq!(FormatType::from(&"json".to_string()), Ok(FormatType::Json));
    assert_eq!(FormatType::from(&"tab".to_string()), Ok(FormatType::Tab));
    assert_eq!(FormatType::from(&"space".to_string()), Ok(FormatType::Space));
    assert!(FormatType::from(&"csv".to_string()).is_err());
    assert!(FormatType::from(&"".to_string()).is_err());
}

#[test]
fn whole_run_emits_in_order_and_counts_failures() {
    let mut parser = new_parser();
    let mut ex = Extractor::new(pointers(&["/a"]), config(false, false, 0, FormatType::Space));
    let input = vec![
        "{\"a\":1}".to_string(),
        "".to_string(),
        "not json".to_string(),
        "{\"b\":2}".to_string(),
        "{\"a\":3}".to_string(),
    ];
    let out = ex.process_lines(&mut parser, &input);
    assert_eq!(out, vec!["1".to_string(), "3".to_string()]);
    assert_eq!(ex.errors, 2);
    assert!(!ex.run_ok());
}

#[test]
fn json_output_parses_back_as_json() {
    let mut parser = new_parser();
    for raw in [false, true] {
        let mut ex = Extractor::new(
            pointers(&["/a", "/b", "/c"]),
            config(raw, false, 0, FormatType::Json),
        );
        let out = ex
            .process_line(&mut parser, "{\"a\":\"x,y\",\"b\":2,\"c\":[true]}")
            .unwrap();
        assert_eq!(out, "[\"x,y\",2,[true]]");
        assert!(parse_doc(&mut parser, &out).is_some());
    }
}

#[test]
fn unquote_strips_only_strings() {
    assert_eq!(zq::format::unquote_str(true, "\"ab\""), "ab");
    assert_eq!(zq::format::unquote_str(false, "17"), "17");
    assert_eq!(zq::format::unquote_str(true, "\"\""), "");
}
