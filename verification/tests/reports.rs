//! JUnit reports.

use flux::junit::{convert, event_package, Elapsed, GoEvent};
use serde_json::Value;

fn text(value: &Value, key: &str) -> Option<String> {
    value.get(key).and_then(Value::as_str).map(str::to_string)
}

fn events(fixture: &str) -> Vec<GoEvent> {
    fixture
        .lines()
        .filter(|line| !line.trim().is_empty())
        .map(|line| {
            let value: Value = serde_json::from_str(line).unwrap();
            let elapsed = value.get("Elapsed").and_then(Value::as_f64).map(|seconds| {
                let time = std::time::Duration::from_secs_f64(seconds);
                Elapsed { secs: time.as_secs(), nanos: time.subsec_nanos() }
            });
            GoEvent {
                action: text(&value, "Action").unwrap(),
                package: text(&value, "Package").unwrap_or_default(),
                import_path: text(&value, "ImportPath"),
                test: text(&value, "Test"),
                elapsed,
                output: text(&value, "Output"),
            }
        })
        .collect()
}

#[test]
fn converts_pass_failure_and_skip_events() {
    let fixture = r#"{"Action":"run","Package":"example/pkg","Test":"TestPass"}
{"Action":"output","Package":"example/pkg","Test":"TestPass","Output":"pass output\n"}
{"Action":"pass","Package":"example/pkg","Test":"TestPass","Elapsed":0.01}
{"Action":"run","Package":"example/pkg","Test":"TestFail"}
{"Action":"output","Package":"example/pkg","Test":"TestFail","Output":"failure output\n"}
{"Action":"fail","Package":"example/pkg","Test":"TestFail","Elapsed":0.02}
{"Action":"run","Package":"example/pkg","Test":"TestSkip"}
{"Action":"skip","Package":"example/pkg","Test":"TestSkip","Elapsed":0}
"#;
    let (report, failed) = convert(events(fixture));
    assert!(failed);
    assert_eq!(report.tests, 3);
    assert_eq!(report.failures, 1);
    assert_eq!(report.skipped, 1);
    let xml = report.to_string().unwrap();
    assert!(xml.contains("TestPass"));
    assert!(xml.contains("failure output"));
}

#[test]
fn package_build_failure_is_not_an_empty_green_report() {
    let fixture = r#"{"Action":"fail","Package":"example/pkg","Output":"compile error\n"}
"#;
    let (report, failed) = convert(events(fixture));
    assert!(failed);
    assert_eq!(report.tests, 1);
    assert_eq!(report.failures, 1);
    assert!(report.to_string().unwrap().contains("package build"));
}

#[test]
fn package_build_failure_includes_build_diagnostics() {
    let fixture = r#"{"ImportPath":"example/gt/emptypkg [example/gt/emptypkg.test]","Action":"build-output","Output":"emptypkg/broken_test.go:5:33: undefined: undefinedSymbol\n"}
{"ImportPath":"example/gt/emptypkg [example/gt/emptypkg.test]","Action":"build-fail"}
"#;
    let (report, failed) = convert(events(fixture));
    assert!(failed);
    assert_eq!(report.tests, 1);
    assert_eq!(report.failures, 1);
    let xml = report.to_string().unwrap();
    assert!(xml.contains("undefined: undefinedSymbol"));
}

#[test]
fn package_without_test_files_is_not_a_failure() {
    let fixture = r#"{"Action":"output","Package":"example/gt/emptypkg","Output":"?   \texample/gt/emptypkg\t[no test files]\n"}
{"Action":"skip","Package":"example/gt/emptypkg","Elapsed":0}
"#;
    let (report, failed) = convert(events(fixture));
    assert!(!failed);
    assert_eq!(report.tests, 0);
    assert_eq!(report.failures, 0);
    assert!(!report.to_string().unwrap().contains("package build"));
}

#[test]
fn suites_and_cases_are_in_order() {
    let fixture = r#"{"Action":"pass","Package":"b","Test":"T2"}
{"Action":"pass","Package":"a","Test":"Z"}
{"Action":"pass","Package":"b","Test":"T1","Elapsed":1.5,"Output":"\u001b[31mred\u0007"}
{"Action":"pass","Package":"b","Test":"T10"}
{"Action":"output","Package":"b","Test":"T1","Output":" more"}
{"Action":"fail","Package":"b"}
"#;
    let (report, failed) = convert(events(fixture));
    assert!(!failed);
    assert_eq!(report.name.as_ref().unwrap().as_str(), "go test");
    let suites: Vec<&str> = report.test_suites.iter().map(|s| s.name.as_str()).collect();
    assert_eq!(suites, vec!["a", "b"]);
    let cases: Vec<&str> =
        report.test_suites[1].test_cases.iter().map(|c| c.name.as_str()).collect();
    assert_eq!(cases, vec!["T1", "T10", "T2"]);
    let first = &report.test_suites[1].test_cases[0];
    assert_eq!(first.time, Some(std::time::Duration::from_millis(1_500)));
    assert_eq!(first.system_out.as_ref().unwrap().as_str(), "red more");
    assert!(report.test_suites[0].test_cases[0].system_out.is_none());
}

#[test]
fn packages_are_told_by_their_path() {
    let event = |package: &str, path: Option<&str>| GoEvent {
        action: "output".to_string(),
        package: package.to_string(),
        import_path: path.map(str::to_string),
        test: None,
        elapsed: None,
        output: None,
    };
    assert_eq!(event_package(&event("a", Some("b [c]"))), "a");
    assert_eq!(event_package(&event("", Some("b [c [d]"))), "b");
    assert_eq!(event_package(&event("", Some("b[c]"))), "b[c]");
    assert_eq!(event_package(&event("", Some("b "))), "b ");
    assert_eq!(event_package(&event("", None)), "");
}
