use benchkit::aggregate::{parse_artifact, parse_line, AggregateSummary};
use benchkit::text::{parse_u64, split_str, trim_str, u64_to_string};

#[test]
fn parse_u64_accepts_plain_decimals() {
    assert_eq!(parse_u64("123"), Some(123));
    assert_eq!(parse_u64("0"), Some(0));
    assert_eq!(parse_u64("018"), Some(18));
    assert_eq!(parse_u64("18446744073709551615"), Some(u64::MAX));
}

#[test]
fn parse_u64_rejects_everything_else() {
    assert_eq!(parse_u64(""), None);
    assert_eq!(parse_u64("12x"), None);
    assert_eq!(parse_u64("-5"), None);
    assert_eq!(parse_u64("1.5"), None);
    assert_eq!(parse_u64(" 7"), None);
    assert_eq!(parse_u64("18446744073709551616"), None);
}

#[test]
fn numbers_render_canonically() {
    assert_eq!(u64_to_string(0), "0");
    assert_eq!(u64_to_string(7), "7");
    assert_eq!(u64_to_string(12345), "12345");
    assert_eq!(u64_to_string(u64::MAX), "18446744073709551615");
}

#[test]
fn trim_strips_surrounding_whitespace_only() {
    assert_eq!(trim_str("  Git Operation \t"), "Git Operation");
    assert_eq!(trim_str("120\r"), "120");
    assert_eq!(trim_str("   "), "");
    assert_eq!(trim_str(""), "");
}

#[test]
fn split_keeps_empty_segments() {
    let segs = split_str("a,b,,c", ',');
    assert_eq!(segs, vec!["a", "b", "", "c"]);
    assert_eq!(split_str("", ','), vec![""]);
}

#[test]
fn rows_parse_with_trimming() {
    assert_eq!(parse_line("Git Operation, 120"), Some(("Git Operation".to_string(), 120)));
    assert_eq!(parse_line("BadRow"), None);
    assert_eq!(parse_line("a,b,c"), None);
    assert_eq!(parse_line("a,12.5"), None);
}

#[test]
fn artifact_rows_skip_header_and_malformed_lines() {
    let rows = parse_artifact("Operation,Time (ms)\nGit Operation,120\nBadRow\n");
    assert_eq!(rows, vec![("Git Operation".to_string(), 120)]);
}

#[test]
fn aggregation_skips_malformed_rows_without_raising() {
    let artifacts = vec!["Operation,Time (ms)\nGit Operation,120\nBadRow\n".to_string()];
    let summary = AggregateSummary::aggregate_contents(&artifacts);
    assert_eq!(summary.mean_of("Git Operation"), Some(120));
    assert_eq!(summary.mean_of("BadRow"), None);
}

#[test]
fn two_artifacts_average_to_the_mean_and_total() {
    let artifacts = vec![
        "Operation,Time (ms)\nGit Operation,100\n".to_string(),
        "Operation,Time (ms)\nGit Operation,200\n".to_string(),
    ];
    let summary = AggregateSummary::aggregate_contents(&artifacts);
    assert_eq!(summary.mean_of("Git Operation"), Some(150));
    assert_eq!(summary.render(), "Operation,Average Time (ms)\nGit Operation,150\nTOTAL,150\n");
}

#[test]
fn aggregation_is_idempotent_byte_for_byte() {
    let artifacts = vec![
        "Operation,Time (ms)\nGit Operation,100\nDocker Operation,40\n".to_string(),
        "Operation,Time (ms)\nGit Operation,7\n".to_string(),
    ];
    let once = AggregateSummary::aggregate_contents(&artifacts).render();
    let twice = AggregateSummary::aggregate_contents(&artifacts).render();
    assert_eq!(once, twice);
}

#[test]
fn total_equals_sum_of_reported_means_when_reparsed() {
    let artifacts = vec![
        "Operation,Time (ms)\nGit Operation,101\nDocker Operation,40\n".to_string(),
        "Operation,Time (ms)\nGit Operation,100\nDownload Operation,9\n".to_string(),
    ];
    let rendered = AggregateSummary::aggregate_contents(&artifacts).render();
    let rows = parse_artifact(&rendered);
    let (total_label, total) = rows.last().unwrap().clone();
    assert_eq!(total_label, "TOTAL");
    let sum: u64 = rows[..rows.len() - 1].iter().map(|r| r.1).sum();
    assert_eq!(total, sum);
    // floor(201 / 2) + 40 + 9
    assert_eq!(total, 149);
}

#[test]
fn average_rows_are_ordinary_samples() {
    let artifacts = vec!["Operation,Time (ms)\nGit Operation,10\nAverage,10\n".to_string()];
    let summary = AggregateSummary::aggregate_contents(&artifacts);
    assert_eq!(summary.mean_of("Average"), Some(10));
}

#[test]
fn absent_labels_average_over_containing_artifacts_only() {
    let artifacts = vec![
        "Operation,Time (ms)\nGit Operation,10\nDocker Operation,30\n".to_string(),
        "Operation,Time (ms)\nGit Operation,20\n".to_string(),
    ];
    let summary = AggregateSummary::aggregate_contents(&artifacts);
    // no implicit zero-fill: the docker mean comes from one sample
    assert_eq!(summary.mean_of("Docker Operation"), Some(30));
    assert_eq!(summary.mean_of("Git Operation"), Some(15));
}

#[test]
fn empty_archive_aggregates_to_an_empty_summary() {
    let artifacts: Vec<String> = vec![];
    let summary = AggregateSummary::aggregate_contents(&artifacts);
    assert_eq!(summary.render(), "Operation,Average Time (ms)\nTOTAL,0\n");
}

#[test]
fn labels_render_in_first_seen_order() {
    let artifacts = vec![
        "Operation,Time (ms)\nB Operation,1\nA Operation,2\n".to_string(),
        "Operation,Time (ms)\nC Operation,3\nA Operation,4\n".to_string(),
    ];
    let rendered = AggregateSummary::aggregate_contents(&artifacts).render();
    assert_eq!(
        rendered,
        "Operation,Average Time (ms)\nB Operation,1\nA Operation,3\nC Operation,3\nTOTAL,7\n"
    );
}
