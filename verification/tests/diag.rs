use pf::diag::{config_dir_path, log_file_path, log_report};

#[test]
fn config_dir_under_the_resolved_root() {
    assert_eq!(config_dir_path(Some("/home/u/.config")), "/home/u/.config/pf");
}

#[test]
fn config_dir_degrades_to_an_empty_path() {
    assert_eq!(config_dir_path(None), "");
}

#[test]
fn log_file_inside_the_config_dir() {
    assert_eq!(log_file_path("/home/u/.config/pf"), "/home/u/.config/pf/pf.log");
}

#[test]
fn dump_without_a_log_file_names_the_missing_file() {
    let dir = config_dir_path(Some("/home/u/.config"));
    let path = log_file_path(&dir);
    assert_eq!(
        log_report(&path, None),
        "No log file found: /home/u/.config/pf/pf.log"
    );
}

#[test]
fn dump_prefixes_the_location() {
    assert_eq!(
        log_report("/home/u/.config/pf/pf.log", Some("w1\nw2")),
        "Log location: /home/u/.config/pf/pf.log\nw1\nw2"
    );
}

#[test]
fn dump_of_an_empty_log_is_just_the_location() {
    assert_eq!(log_report("p/pf.log", Some("")), "Log location: p/pf.log\n");
}
