use displayctl::cli::{error_line, parse_command, usage_lines, Command};
use displayctl::discovery::{
    display_id_from_lookup, name_scan_step, online_displays_from, product_name, uuid_matches,
    NameScan,
};

#[test]
fn online_list_is_truncated_to_the_reported_count() {
    assert_eq!(online_displays_from(0, vec![1, 2, 3], 2), vec![1, 2]);
    assert_eq!(online_displays_from(0, vec![1, 2, 3], 3), vec![1, 2, 3]);
    assert_eq!(online_displays_from(0, vec![1, 2], 5), vec![1, 2]);
    assert_eq!(online_displays_from(1001, vec![1, 2, 3], 3), Vec::<u32>::new());
}

#[test]
fn zero_display_id_means_not_found() {
    assert_eq!(display_id_from_lookup(0), None);
    assert_eq!(display_id_from_lookup(69734406), Some(69734406));
}

#[test]
fn uuid_comparison() {
    assert!(uuid_matches(&Some(String::from("ABC")), "ABC"));
    assert!(!uuid_matches(&Some(String::from("ABC")), "ABD"));
    assert!(!uuid_matches(&None, "ABC"));
}

#[test]
fn product_name_is_first_filled_slot() {
    let slots = vec![None, Some(Some(String::from("LG UltraFine"))), Some(Some(String::from("x"))), None];
    assert_eq!(product_name(4, &slots), Some(String::from("LG UltraFine")));
    assert_eq!(product_name(1, &slots), None);
    assert_eq!(product_name(0, &slots), None);
    assert_eq!(product_name(9, &slots), Some(String::from("LG UltraFine")));
    let unreadable = vec![Some(None), Some(Some(String::from("later")))];
    assert_eq!(product_name(2, &unreadable), None);
}

#[test]
fn name_scan_stops_at_first_name() {
    assert!(matches!(name_scan_step(0, None), NameScan::Done(None)));
    assert!(matches!(name_scan_step(12, None), NameScan::Next));
    match name_scan_step(12, Some(String::from("Studio Display"))) {
        NameScan::Done(Some(n)) => assert_eq!(n, "Studio Display"),
        _ => panic!("expected a name"),
    }
}

fn args(words: &[&str]) -> Vec<String> {
    words.iter().map(|w| w.to_string()).collect()
}

fn usage_code(c: Command) -> Option<i32> {
    match c {
        Command::Usage { exit_code } => Some(exit_code),
        _ => None,
    }
}

#[test]
fn commands_are_parsed() {
    assert_eq!(usage_code(parse_command(&args(&["displayctl"]))), Some(1));
    assert_eq!(usage_code(parse_command(&args(&[]))), Some(1));
    for h in ["help", "--help", "-h"] {
        assert_eq!(usage_code(parse_command(&args(&["displayctl", h]))), Some(0));
    }
    assert!(matches!(parse_command(&args(&["displayctl", "--version"])), Command::Version));
    assert!(matches!(parse_command(&args(&["displayctl", "-V"])), Command::Version));
    assert!(matches!(parse_command(&args(&["displayctl", "list"])), Command::List));
    assert!(matches!(parse_command(&args(&["displayctl", "list", "extra"])), Command::List));
    match parse_command(&args(&["displayctl", "disable", "E4DB"])) {
        Command::Toggle { uuid, enabled } => {
            assert_eq!(uuid, "E4DB");
            assert!(!enabled);
        }
        _ => panic!("expected disable"),
    }
    match parse_command(&args(&["displayctl", "enable", "37D8"])) {
        Command::Toggle { uuid, enabled } => {
            assert_eq!(uuid, "37D8");
            assert!(enabled);
        }
        _ => panic!("expected enable"),
    }
    assert_eq!(usage_code(parse_command(&args(&["displayctl", "enable"]))), Some(1));
    assert_eq!(usage_code(parse_command(&args(&["displayctl", "enable", "a", "b"]))), Some(1));
    assert_eq!(usage_code(parse_command(&args(&["displayctl", "frobnicate"]))), Some(1));
    assert_eq!(usage_code(parse_command(&args(&["displayctl", "LIST"]))), Some(1));
}

#[test]
fn usage_text() {
    let lines = usage_lines("List and toggle macOS displays from the command-line.", "displayctl");
    assert_eq!(
        lines,
        vec![
            "List and toggle macOS displays from the command-line.",
            "",
            "Usage: displayctl <COMMAND>",
            "",
            "Commands:",
            "  list            List online displays",
            "  disable <UUID>  Disable a display by UUID",
            "  enable <UUID>   Enable a display by UUID",
            "",
            "Options:",
            "  -h, --help     Print help",
            "  -V, --version  Print version",
        ]
    );
}

#[test]
fn error_lines() {
    assert_eq!(error_line(&String::from("Display X is not online")), "Error: Display X is not online");
}
