use k8s_metrics::expo::{
    parse_line, parse_lines, parse_text, split_lines, ParseError, ParseErrorKind, ParsedLine,
    SampleValue, value_to_integer,
};

fn lines_of(text: &str) -> Vec<String> {
    split_lines(text)
}

fn sample_tuples(
    sc: &k8s_metrics::expo::Scrape,
) -> Vec<(String, Vec<(String, String)>, SampleValue, Option<i64>)> {
    sc.samples
        .iter()
        .map(|s| {
            (
                s.metric.clone(),
                s.labels
                    .iter()
                    .map(|l| (l.name.clone(), l.value.clone()))
                    .collect(),
                s.value,
                s.timestamp,
            )
        })
        .collect()
}

#[test]
fn parses_a_bare_sample() {
    let sc = parse_text("metric_total 42").unwrap();
    assert_eq!(sc.samples.len(), 1);
    assert_eq!(sc.samples[0].metric, "metric_total");
    assert!(sc.samples[0].labels.is_empty());
    assert_eq!(
        sc.samples[0].value,
        SampleValue { neg: false, mantissa: 42, scale: 0 }
    );
    assert_eq!(sc.samples[0].timestamp, None);
}

#[test]
fn parses_labels_value_and_timestamp() {
    let sc = parse_text("http_requests_total{method=\"post\",code=\"200\"} 1027 1395066363000")
        .unwrap();
    assert_eq!(sc.samples.len(), 1);
    let s = &sc.samples[0];
    assert_eq!(s.metric, "http_requests_total");
    assert_eq!(s.labels.len(), 2);
    assert_eq!(s.labels[0].name, "method");
    assert_eq!(s.labels[0].value, "post");
    assert_eq!(s.labels[1].name, "code");
    assert_eq!(s.labels[1].value, "200");
    assert_eq!(s.timestamp, Some(1395066363000));
}

#[test]
fn parses_escapes_in_label_values() {
    let sc = parse_text("m{path=\"C:\\\\DIR\",note=\"a\\\"b\",nl=\"x\\ny\"} 1").unwrap();
    let s = &sc.samples[0];
    assert_eq!(s.labels[0].value, "C:\\DIR");
    assert_eq!(s.labels[1].value, "a\"b");
    assert_eq!(s.labels[2].value, "x\ny");
}

#[test]
fn records_help_and_type_directives() {
    let text = "# HELP http_requests_total The total number of HTTP requests.\n\
                # TYPE http_requests_total counter\n\
                http_requests_total 5\n\
                # just a comment\n";
    let sc = parse_text(text).unwrap();
    assert_eq!(sc.docs.len(), 1);
    assert_eq!(sc.docs[0].metric, "http_requests_total");
    assert_eq!(sc.docs[0].text, "The total number of HTTP requests.");
    assert_eq!(sc.types.len(), 1);
    assert_eq!(sc.types[0].metric, "http_requests_total");
    assert_eq!(sc.types[0].text, "counter");
    assert_eq!(sc.samples.len(), 1);
}

#[test]
fn negative_and_fractional_values() {
    let sc = parse_text("a 12.5\nb -3\nc +7\nd -0.25").unwrap();
    let v: Vec<SampleValue> = sc.samples.iter().map(|s| s.value).collect();
    assert_eq!(v[0], SampleValue { neg: false, mantissa: 125, scale: 1 });
    assert_eq!(v[1], SampleValue { neg: true, mantissa: 3, scale: 0 });
    assert_eq!(v[2], SampleValue { neg: false, mantissa: 7, scale: 0 });
    assert_eq!(v[3], SampleValue { neg: true, mantissa: 25, scale: 2 });
}

#[test]
fn value_conversion_to_whole_numbers() {
    assert_eq!(
        value_to_integer(&SampleValue { neg: false, mantissa: 2048, scale: 0 }),
        Some(2048)
    );
    assert_eq!(
        value_to_integer(&SampleValue { neg: false, mantissa: 12500, scale: 3 }),
        None
    );
    assert_eq!(
        value_to_integer(&SampleValue { neg: true, mantissa: 300, scale: 2 }),
        Some(-3)
    );
    assert_eq!(
        value_to_integer(&SampleValue { neg: false, mantissa: 0, scale: 40 }),
        Some(0)
    );
}

#[test]
fn a_malformed_line_fails_the_whole_parse() {
    let err = parse_text("good 1\nbad value\ngood 2").unwrap_err();
    assert_eq!(
        err,
        ParseError { line: 1, kind: ParseErrorKind::BadValue }
    );
}

#[test]
fn error_kinds_name_what_went_wrong() {
    let kind = |text: &str| parse_text(text).unwrap_err().kind;
    assert_eq!(kind("{a=\"1\"} 1"), ParseErrorKind::BadName);
    assert_eq!(kind("m{a=1} 1"), ParseErrorKind::BadLabels);
    assert_eq!(kind("m{a=\"1\"  1"), ParseErrorKind::BadLabels);
    assert_eq!(kind("m{a=\"unterminated} 1"), ParseErrorKind::BadLabels);
    assert_eq!(kind("m{a=\"1\",a=\"2\"} 1"), ParseErrorKind::DuplicateLabel);
    assert_eq!(kind("m"), ParseErrorKind::BadValue);
    assert_eq!(kind("m nan"), ParseErrorKind::BadValue);
    assert_eq!(kind("m 1 2.5"), ParseErrorKind::BadTimestamp);
    assert_eq!(kind("m 1 2 3"), ParseErrorKind::TrailingTokens);
}

#[test]
fn blank_lines_and_plain_comments_are_skipped() {
    let sc = parse_text("\n   \n# nothing here\n#\nm 1\n").unwrap();
    assert_eq!(sc.samples.len(), 1);
    assert!(sc.docs.is_empty());
    assert!(sc.types.is_empty());
}

#[test]
fn parse_is_deterministic() {
    let text = "# HELP a alpha\na{x=\"1\"} 2 3\nb 4.5\n";
    let once = parse_text(text).unwrap();
    let twice = parse_text(text).unwrap();
    assert_eq!(sample_tuples(&once), sample_tuples(&twice));
    assert_eq!(once.docs.len(), twice.docs.len());
    assert_eq!(once.types.len(), twice.types.len());
}

#[test]
fn reordering_whole_families_keeps_each_familys_samples() {
    let family_a = "# HELP a alpha\na{x=\"1\"} 1\na{x=\"2\"} 2\n";
    let family_b = "# HELP b beta\nb 3\n";
    let ab = parse_text(&format!("{family_a}{family_b}")).unwrap();
    let ba = parse_text(&format!("{family_b}{family_a}")).unwrap();
    let of = |sc: &k8s_metrics::expo::Scrape, name: &str| {
        sample_tuples(sc)
            .into_iter()
            .filter(|t| t.0 == name)
            .collect::<Vec<_>>()
    };
    assert_eq!(of(&ab, "a"), of(&ba, "a"));
    assert_eq!(of(&ab, "b"), of(&ba, "b"));
}

#[test]
fn parse_lines_matches_split_then_parse() {
    let lines = lines_of("a 1\nb 2");
    assert_eq!(lines, vec!["a 1".to_string(), "b 2".to_string()]);
    let sc = parse_lines(&lines).unwrap();
    assert_eq!(sc.samples.len(), 2);
}

#[test]
fn classifies_single_lines() {
    assert!(matches!(parse_line(""), ParsedLine::Blank));
    assert!(matches!(parse_line("   "), ParsedLine::Blank));
    assert!(matches!(parse_line("# note"), ParsedLine::Comment));
    assert!(matches!(parse_line("# HELP m text"), ParsedLine::Doc(_)));
    assert!(matches!(parse_line("# TYPE m gauge"), ParsedLine::TypeNote(_)));
    assert!(matches!(parse_line("m 1"), ParsedLine::Sample(_)));
    assert!(matches!(parse_line("m"), ParsedLine::Bad(_)));
}
