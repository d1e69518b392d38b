//! The diagnostics store's paths and its report.
//!
//! The store keeps one append-only log file, `pf.log`, in a directory named
//! `pf` under the per-user configuration root. When that root cannot be
//! resolved the directory degrades to an empty, unusable path rather than
//! failing the run. Dumping the log yields its location and full contents,
//! or a notice when no log file exists yet.

use vstd::prelude::*;

verus! {

/// Where this tool's files live: the configuration root with `pf` appended,
/// or an empty path when there is no root to resolve.
pub fn config_dir_path(config_root: Option<&str>) -> (dir: String)
    ensures
        config_root matches Some(root) ==> dir@ == root@ + "/pf"@,
        config_root is None ==> dir@ == Seq::<char>::empty(),
{
    match config_root {
        Some(root) => {
            let mut dir = String::from_str(root);
            dir.append("/pf");
            dir
        },
        None => String::new(),
    }
}

/// Where the log file lives inside the configuration directory.
pub fn log_file_path(config_dir: &str) -> (path: String)
    ensures
        path@ == config_dir@ + "/pf.log"@,
{
    let mut path = String::from_str(config_dir);
    path.append("/pf.log");
    path
}

/// The text that dumping the log prints: its location and contents when
/// the file exists, a notice naming the missing file otherwise.
pub fn log_report(log_path: &str, contents: Option<&str>) -> (report: String)
    ensures
        contents matches Some(text) ==> report@ == "Log location: "@ + log_path@ + "\n"@ + text@,
        contents is None ==> report@ == "No log file found: "@ + log_path@,
{
    match contents {
        Some(text) => {
            let mut report = String::from_str("Log location: ");
            report.append(log_path);
            report.append("\n");
            report.append(text);
            report
        },
        None => {
            let mut report = String::from_str("No log file found: ");
            report.append(log_path);
            report
        },
    }
}

} // verus!
