use udix::conf::{fix_home_dir, get_local_conf_file, WorkspaceConf};
use udix::error::{Error, ErrorKind};
use udix::text::{parse_usize, split_underscores, str_contains, str_le, usize_to_string};
use udix::usage::{known_cmds_are, missing_cmd_error, unknown_cmd_error};

#[test]
fn report_names_message_and_kind() {
    let e = Error::new(ErrorKind::Io, "write failed".to_string(), None);
    assert_eq!(e.report(), "write failed (Io)");
}

#[test]
fn report_chains_the_cause() {
    let cause = Error::new(ErrorKind::ParseInt, "bad digit".to_string(), None);
    let e = Error::new(ErrorKind::Udix, "cannot stage".to_string(), Some(Box::new(cause)));
    assert_eq!(e.report(), "cannot stage (Udix): bad digit (ParseInt)");
}

#[test]
fn every_kind_has_its_name() {
    let kinds = [
        (ErrorKind::Udix, "Udix"),
        (ErrorKind::VarError, "VarError"),
        (ErrorKind::Io, "Io"),
        (ErrorKind::Toml, "Toml"),
        (ErrorKind::Utf8, "Utf8"),
        (ErrorKind::ParseInt, "ParseInt"),
        (ErrorKind::SystemTime, "SystemTime"),
    ];
    for (kind, name) in kinds {
        let e = Error::new(kind, "m".to_string(), None);
        assert_eq!(e.report(), format!("m ({})", name));
    }
}

#[test]
fn error_from_message() {
    let e = Error::from("plain".to_string());
    assert_eq!(e.report(), "plain (Udix)");
    let e2 = Error::from("other");
    assert_eq!(e2.report(), "other (Udix)");
}

#[test]
fn renders_and_parses_decimals() {
    assert_eq!(usize_to_string(0), "0");
    assert_eq!(usize_to_string(7), "7");
    assert_eq!(usize_to_string(100), "100");
    assert_eq!(usize_to_string(65536), "65536");
    assert_eq!(parse_usize("0"), Some(0));
    assert_eq!(parse_usize("100"), Some(100));
    assert_eq!(parse_usize("007"), Some(7));
    assert_eq!(parse_usize(""), None);
    assert_eq!(parse_usize("12a"), None);
    assert_eq!(parse_usize("-3"), None);
    assert_eq!(parse_usize("99999999999999999999999999"), None);
}

#[test]
fn splits_on_underscores() {
    let parts = split_underscores("a_bb_c");
    assert_eq!(parts, vec!["a".to_string(), "bb".to_string(), "c".to_string()]);
    assert_eq!(split_underscores(""), vec!["".to_string()]);
    assert_eq!(split_underscores("_x_"), vec!["".to_string(), "x".to_string(), "".to_string()]);
    assert_eq!(split_underscores("plain"), vec!["plain".to_string()]);
}

#[test]
fn compares_and_searches_text() {
    assert!(str_le("abc", "abd"));
    assert!(!str_le("abd", "abc"));
    assert!(str_le("ab", "abc"));
    assert!(str_le("abc", "abc"));
    assert!(str_contains("vcfs2bed_c1_b0", "_c1_"));
    assert!(!str_contains("vcfs2bed_c1_b0", "_c2_"));
    assert!(str_contains("anything", ""));
}

#[test]
fn fixes_home_relative_paths() {
    assert_eq!(fix_home_dir("~/work", "/home/op"), "/home/op/work");
    assert_eq!(fix_home_dir("/abs/work", "/home/op"), "/abs/work");
    let ws = WorkspaceConf { work_dir: "~/udix".to_string() };
    assert_eq!(ws.work_dir_fixed("/home/op"), "/home/op/udix");
    assert_eq!(get_local_conf_file("/home/op"), "/home/op/.config/udix/udix.toml");
}

#[test]
fn usage_messages_name_the_commands() {
    let cmds: Vec<String> = vec!["vcfs".to_string(), "beds".to_string()];
    assert_eq!(known_cmds_are(&cmds), "Known commands are vcfs, beds");
    let one: Vec<String> = vec!["download".to_string()];
    assert_eq!(known_cmds_are(&one), "Known command is download");
    assert_eq!(
        unknown_cmd_error("frobnicate", &cmds).report(),
        "Unknown command frobnicate. Known commands are vcfs, beds (Udix)"
    );
    assert_eq!(
        missing_cmd_error(&cmds).report(),
        "Missing command. Known commands are vcfs, beds (Udix)"
    );
}
