use benchkit::archive::{archive_name, list_artifacts, now_timestamp, timestamp_string, Timestamp};
use benchkit::build_run_operations::BuildRunOperations;
use benchkit::compare::build_comparison;
use benchkit::config::{require_run_names, select_run_type, Config};
use benchkit::docker_operations::DockerOperations;
use benchkit::download_operations::DownloadOperations;
use benchkit::file_operations::{random_chunk, to_hex, FileOperations};
use benchkit::git_operations::{
    file_name_for, random_content, select_files_to_remove, txt_files, GitConfig, GitOperations,
};
use benchkit::record::RunError;
use benchkit::vscode::VsCodeOperations;

fn ts() -> Timestamp {
    Timestamp { year: 2024, month: 1, day: 2, hour: 3, minute: 4, second: 5 }
}

#[test]
fn timestamps_are_fixed_width_and_sortable() {
    assert_eq!(timestamp_string(&ts()), "20240102_030405");
    let late = Timestamp { year: 999, month: 12, day: 31, hour: 23, minute: 59, second: 59 };
    assert_eq!(timestamp_string(&late), "09991231_235959");
}

#[test]
fn archive_then_list_returns_exactly_the_new_name() {
    let name = archive_name("security_on", &ts());
    assert_eq!(name, "20240102_030405_security_on.csv");
    let listing = vec![
        "notes.txt".to_string(),
        "20240101_000000_baseline.csv".to_string(),
        name.clone(),
    ];
    let matches = list_artifacts(&listing, "security_on");
    assert_eq!(matches.len(), 1);
    assert!(matches[0].contains("20240102_030405"));
    assert!(matches[0].contains("security_on"));
}

#[test]
fn listing_matches_the_run_type_as_a_substring() {
    // the documented over-match: "on" occurs inside "security_on"
    let listing = vec!["20240102_030405_security_on.csv".to_string()];
    assert_eq!(list_artifacts(&listing, "on").len(), 1);
    assert_eq!(list_artifacts(&listing, "security_off").len(), 0);
}

#[test]
fn the_clock_yields_a_well_formed_timestamp() {
    let t = now_timestamp().unwrap();
    assert!(t.year <= 9999);
    assert!((1..=12).contains(&t.month));
    assert!((1..=31).contains(&t.day));
    assert!(t.hour <= 23 && t.minute <= 59 && t.second <= 59);
}

#[test]
fn comparison_excludes_labels_missing_from_either_summary() {
    let a = "Operation,Average Time (ms)\nGit Operation,100\nDownload Operation,50\nTOTAL,150\n"
        .to_string();
    let b = "Operation,Average Time (ms)\nGit Operation,200\nTOTAL,200\n".to_string();
    let dataset = build_comparison(&Some(a), &Some(b)).unwrap();
    assert_eq!(dataset.rows.len(), 1);
    assert_eq!(dataset.rows[0].label, "Git Operation");
    assert_eq!(dataset.rows[0].first, 100);
    assert_eq!(dataset.rows[0].second, 200);
    assert_eq!(dataset.max_mean(), 200);
}

#[test]
fn comparison_skips_the_total_rows() {
    let a = "Operation,Average Time (ms)\nGit Operation,10\nTOTAL,10\n".to_string();
    let b = "Operation,Average Time (ms)\nGit Operation,20\nTOTAL,20\n".to_string();
    let dataset = build_comparison(&Some(a), &Some(b)).unwrap();
    assert_eq!(dataset.rows.len(), 1);
    assert!(dataset.rows.iter().all(|r| r.label != "TOTAL"));
}

#[test]
fn a_missing_summary_aborts_the_comparison() {
    let a = "Operation,Average Time (ms)\nTOTAL,0\n".to_string();
    match build_comparison(&Some(a), &None) {
        Err(RunError::IoError(_)) => {}
        _ => panic!("expected the comparison to be aborted"),
    }
}

#[test]
fn run_type_selection_follows_the_prompt_rules() {
    let options = vec!["security_off".to_string(), "security_on".to_string()];
    assert_eq!(select_run_type(&options, "2\n").unwrap(), "security_on");
    assert_eq!(select_run_type(&options, " 1 ").unwrap(), "security_off");
    assert!(matches!(select_run_type(&options, "0"), Err(RunError::SelectionInvalid)));
    assert!(matches!(select_run_type(&options, "3"), Err(RunError::SelectionInvalid)));
    assert!(matches!(select_run_type(&options, "abc"), Err(RunError::SelectionInvalid)));
    assert!(matches!(select_run_type(&options, ""), Err(RunError::SelectionInvalid)));
}

#[test]
fn an_absent_run_type_list_is_fatal_at_startup() {
    assert!(matches!(require_run_names(vec![]), Err(RunError::ConfigMissing)));
    let names = vec!["security_off".to_string()];
    assert_eq!(require_run_names(names.clone()).unwrap(), names);
}

#[test]
fn default_configuration_values() {
    let c = Config::default();
    assert_eq!(c.file_size_mb, 500);
    assert_eq!(c.num_git_files, 50);
    assert_eq!(c.c_project_url, "https://github.com/example/c-project.git");
    let d = DownloadOperations::default();
    assert_eq!(d.output, "downloaded_file.zip");
    assert!(d.url.ends_with("compressed-txt-100M.zip"));
}

#[test]
fn docker_command_lines_are_fixed() {
    let ops = DockerOperations::new(
        "python:3.9-slim".to_string(),
        vec!["python".to_string(), "--version".to_string()],
    );
    assert_eq!(ops.pull_args(), vec!["pull", "python:3.9-slim"]);
    assert_eq!(ops.run_args(), vec!["run", "--rm", "python:3.9-slim", "python", "--version"]);
}

#[test]
fn build_and_run_command_lines_are_fixed() {
    let ops = BuildRunOperations::new();
    assert_eq!(ops.compile_args(), vec!["main.c", "-o", "program"]);
    assert_eq!(ops.program_path(), "./program");
    assert_eq!(ops.server_args(), vec!["manage.py", "runserver"]);
}

fn git_ops(branches: &[&str]) -> GitOperations {
    GitOperations::new(GitConfig {
        files_count: 5,
        files_to_remove: 2,
        files_to_add: 1,
        branches: branches.iter().map(|b| b.to_string()).collect(),
    })
}

#[test]
fn the_first_feature_branch_is_used() {
    assert_eq!(
        git_ops(&["main", "feature/x", "feature/y"]).find_feature_branch(),
        Some("feature/x".to_string())
    );
    assert_eq!(git_ops(&["main", "develop"]).find_feature_branch(), None);
}

#[test]
fn generated_files_are_named_and_filled_deterministically_in_shape() {
    assert_eq!(file_name_for(0), "random_file_0.txt");
    assert_eq!(file_name_for(49), "random_file_49.txt");
    let content = random_content(100);
    assert_eq!(content.chars().count(), 100);
    assert!(content.chars().all(|c| c.is_ascii_alphanumeric()));
}

#[test]
fn removal_picks_the_requested_number_of_existing_files() {
    let files: Vec<String> = (0..5).map(file_name_for).collect();
    let picked = select_files_to_remove(&files, 3);
    assert_eq!(picked.len(), 3);
    assert!(picked.iter().all(|p| files.contains(p)));
    let all = select_files_to_remove(&files, 10);
    assert_eq!(all.len(), 5);
}

#[test]
fn the_editor_opens_the_first_three_generated_files() {
    let names = vec![
        "a.txt".to_string(),
        "build.rs".to_string(),
        "b.txt".to_string(),
        "c.txt".to_string(),
        "d.txt".to_string(),
    ];
    assert_eq!(txt_files(&names).len(), 4);
    let opened = VsCodeOperations::new().files_to_open(&names);
    assert_eq!(opened, vec!["a.txt", "b.txt", "c.txt"]);
}

#[test]
fn chunk_plan_covers_the_file_exactly() {
    let ops = FileOperations::new();
    assert_eq!(ops.chunk_plan(10000, 8192), (1, 1808));
    assert_eq!(ops.chunk_plan(8192, 8192), (1, 0));
    assert_eq!(ops.chunk_plan(100, 8192), (0, 100));
}

#[test]
fn content_hash_matches_published_sha256_vectors() {
    let ops = FileOperations::new();
    assert_eq!(
        ops.calculate_ram_hash(&b"abc".to_vec()),
        "ba7816bf8f01cfea414140de5dae2223b00361a396177a9cb410ff61f20015ad"
    );
    assert_eq!(
        ops.calculate_ram_hash(&Vec::new()),
        "e3b0c44298fc1c149afbf4c8996fb92427ae41e4649b934ca495991b7852b855"
    );
}

#[test]
fn hex_rendering_is_lower_case_two_digits_per_byte() {
    assert_eq!(to_hex(&vec![0xbe, 0xef]), "beef");
    assert_eq!(to_hex(&vec![0x00, 0x0a]), "000a");
    assert_eq!(to_hex(&Vec::new()), "");
}

#[test]
fn random_chunks_have_the_requested_length() {
    assert_eq!(random_chunk(16).len(), 16);
    assert_eq!(random_chunk(0).len(), 0);
}
