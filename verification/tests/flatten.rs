use flatten_folders::errors::FlattenError;
use flatten_folders::names::{make_candidate, resolve_unique_name, split_base_name, usize_to_dec};
use flatten_folders::plan::{check_entry_names, flatten_preflight, plan_destinations, staging_dir_name};
use flatten_folders::shell::{menu_command, menu_key_path, menu_label, parse_cli, CliAction};

fn strings(items: &[&str]) -> Vec<String> {
    items.iter().map(|s| s.to_string()).collect()
}

#[test]
fn decimal_rendering() {
    assert_eq!(usize_to_dec(0), "0");
    assert_eq!(usize_to_dec(7), "7");
    assert_eq!(usize_to_dec(10), "10");
    assert_eq!(usize_to_dec(123), "123");
    assert_eq!(usize_to_dec(90210), "90210");
}

#[test]
fn split_plain_name() {
    let (stem, ext) = split_base_name("notes");
    assert_eq!(stem, "notes");
    assert_eq!(ext, None);
}

#[test]
fn split_simple_extension() {
    let (stem, ext) = split_base_name("a.txt");
    assert_eq!(stem, "a");
    assert_eq!(ext.as_deref(), Some("txt"));
}

#[test]
fn split_double_extension() {
    let (stem, ext) = split_base_name("archive.tar.gz");
    assert_eq!(stem, "archive.tar");
    assert_eq!(ext.as_deref(), Some("gz"));
}

#[test]
fn split_hidden_file() {
    let (stem, ext) = split_base_name(".hidden");
    assert_eq!(stem, ".hidden");
    assert_eq!(ext, None);
}

#[test]
fn split_trailing_dot() {
    let (stem, ext) = split_base_name("a.");
    assert_eq!(stem, "a");
    assert_eq!(ext.as_deref(), Some(""));
}

#[test]
fn candidate_zero_is_unchanged() {
    assert_eq!(make_candidate("report.txt", 0), "report.txt");
}

#[test]
fn candidate_counter_sits_before_extension() {
    assert_eq!(make_candidate("report.txt", 12), "report(12).txt");
    assert_eq!(make_candidate("notes", 3), "notes(3)");
    assert_eq!(make_candidate(".hidden", 1), ".hidden(1)");
}

#[test]
fn resolver_keeps_free_name() {
    let occupied = strings(&[]);
    assert_eq!(resolve_unique_name("name", &occupied), "name");
}

#[test]
fn resolver_probes_past_three_occupied() {
    let occupied = strings(&["name", "name(1)", "name(2)"]);
    assert_eq!(resolve_unique_name("name", &occupied), "name(3)");
}

#[test]
fn resolver_respects_extension() {
    let occupied = strings(&["a.txt"]);
    assert_eq!(resolve_unique_name("a.txt", &occupied), "a(1).txt");
}

#[test]
fn resolver_reaches_two_digit_counters() {
    let occupied = strings(&[
        "n.log", "n(1).log", "n(2).log", "n(3).log", "n(4).log", "n(5).log", "n(6).log",
        "n(7).log", "n(8).log", "n(9).log",
    ]);
    assert_eq!(resolve_unique_name("n.log", &occupied), "n(10).log");
}

#[test]
fn resolver_ignores_unrelated_names() {
    let occupied = strings(&["b.txt", "name(1)"]);
    assert_eq!(resolve_unique_name("name", &occupied), "name");
}

#[test]
fn plan_collision_with_existing_file() {
    // The parent already holds `a.txt` (and the staging directory); the
    // pre-existing file keeps its name and the moved one is renamed.
    let children = strings(&["a.txt", "b.txt"]);
    let occupied = strings(&["a.txt", staging_dir_name()]);
    let dests = plan_destinations(&children, &occupied);
    assert_eq!(dests, strings(&["a(1).txt", "b.txt"]));
}

#[test]
fn plan_empty_directory() {
    let children = strings(&[]);
    let occupied = strings(&["whatever", staging_dir_name()]);
    let dests = plan_destinations(&children, &occupied);
    assert!(dests.is_empty());
}

#[test]
fn plan_later_entries_see_earlier_choices() {
    let children = strings(&["x.txt", "x.txt"]);
    let occupied = strings(&[]);
    let dests = plan_destinations(&children, &occupied);
    assert_eq!(dests, strings(&["x.txt", "x(1).txt"]));
}

#[test]
fn plan_subdirectory_is_one_unit() {
    // A subdirectory of the target is a single entry: it gets a single
    // destination and is never descended into.
    let children = strings(&["sub"]);
    let occupied = strings(&["sub", staging_dir_name()]);
    let dests = plan_destinations(&children, &occupied);
    assert_eq!(dests, strings(&["sub(1)"]));
}

#[test]
fn plan_avoids_staging_name() {
    let children = strings(&[staging_dir_name()]);
    let occupied = strings(&[staging_dir_name()]);
    let dests = plan_destinations(&children, &occupied);
    assert_eq!(dests, strings(&["__temp_flatten_folder(1)"]));
}

#[test]
fn preflight_without_parent_fails() {
    assert_eq!(flatten_preflight(false, false), Err(FlattenError::NoParentDirectory));
    assert_eq!(flatten_preflight(false, true), Err(FlattenError::NoParentDirectory));
}

#[test]
fn preflight_with_stale_staging_fails() {
    assert_eq!(flatten_preflight(true, true), Err(FlattenError::StagingAlreadyExists));
}

#[test]
fn preflight_accepts_clean_state() {
    assert_eq!(flatten_preflight(true, false), Ok(()));
}

#[test]
fn entry_names_accepted_in_order() {
    let raw = vec![Some("a.txt".to_string()), Some("sub".to_string())];
    assert_eq!(check_entry_names(&raw), Ok(strings(&["a.txt", "sub"])));
}

#[test]
fn entry_without_name_is_rejected() {
    let raw = vec![Some("a.txt".to_string()), None];
    assert_eq!(check_entry_names(&raw), Err(FlattenError::InvalidEntryName));
}

#[test]
fn error_messages() {
    assert_eq!(FlattenError::NoParentDirectory.message(), "Parent directory not found");
    assert_eq!(FlattenError::StagingAlreadyExists.message(), "Temporary folder already exists");
    assert_eq!(FlattenError::InvalidEntryName.message(), "Invalid file name");
    assert_eq!(FlattenError::FilesystemError.message(), "Filesystem operation failed");
}

#[test]
fn staging_directory_name_is_reserved() {
    assert_eq!(staging_dir_name(), "__temp_flatten_folder");
}

#[test]
fn shell_registration_contract() {
    assert_eq!(menu_key_path(), "Software\\Classes\\Directory\\shell\\FlattenFolders");
    assert_eq!(menu_label(), "Flatten Folders");
    assert_eq!(menu_command("C:\\tools\\flatten.exe"), "\"C:\\tools\\flatten.exe\" \"%1\"");
}

#[test]
fn cli_dispatch() {
    assert!(matches!(parse_cli(&strings(&["prog"])), CliAction::Usage));
    assert!(matches!(parse_cli(&strings(&["prog", "--install"])), CliAction::Install));
    assert!(matches!(parse_cli(&strings(&["prog", "--uninstall"])), CliAction::Uninstall));
    match parse_cli(&strings(&["prog", "some/dir"])) {
        CliAction::Flatten(d) => assert_eq!(d, "some/dir"),
        _ => panic!("expected a flatten action"),
    }
}
