use web_crawler::robots::is_path_disallowed;
use web_crawler::robots::parse_robots;
use web_crawler::robots::split_lines_str;
use web_crawler::store::check_blocked_list;
use web_crawler::store::BlockedList;
use web_crawler::text::starts_with_ci_str;
use web_crawler::text::str_eq;
use web_crawler::text::str_starts_with;
use web_crawler::text::trim;

#[test]
fn splits_lines_on_newlines() {
    let lines = split_lines_str("a\nbb\n\nc");
    assert_eq!(lines, vec!["a", "bb", "", "c"]);
    assert_eq!(split_lines_str(""), vec![""]);
    assert_eq!(split_lines_str("x\n"), vec!["x", ""]);
}

#[test]
fn trims_surrounding_whitespace() {
    assert_eq!(trim("  a b\t"), "a b");
    assert_eq!(trim("\r\t "), "");
    assert_eq!(trim("plain"), "plain");
}

#[test]
fn string_helpers_compare_exactly() {
    assert!(str_eq("abc", "abc"));
    assert!(!str_eq("abc", "abd"));
    assert!(!str_eq("abc", "ab"));
    assert!(str_starts_with("/private/x", "/private"));
    assert!(!str_starts_with("/pub", "/private"));
    assert!(starts_with_ci_str("DisAllow: /x", "disallow:"));
    assert!(!starts_with_ci_str("Allow: /x", "disallow:"));
}

#[test]
fn collects_patterns_for_wildcard_section() {
    let text = "User-agent: *\nDisallow: /a\nDisallow:\nUser-agent: other\nDisallow: /b";
    assert_eq!(parse_robots(text, "me"), vec!["/a"]);
}

#[test]
fn matches_directives_case_insensitively() {
    let text = "USER-AGENT: *\ndisallow: /x";
    assert_eq!(parse_robots(text, "me"), vec!["/x"]);
}

#[test]
fn matches_own_agent_case_sensitively() {
    let text = "User-agent: me\nDisallow: /m";
    assert_eq!(parse_robots(text, "me"), vec!["/m"]);
    assert_eq!(parse_robots(text, "ME"), Vec::<String>::new());
}

#[test]
fn handles_carriage_returns() {
    let text = "User-agent: *\r\nDisallow: /w\r\n";
    assert_eq!(parse_robots(text, "me"), vec!["/w"]);
}

#[test]
fn ignores_directives_before_first_section() {
    let text = "Disallow: /early\nUser-agent: *\nDisallow: /late";
    assert_eq!(parse_robots(text, "me"), vec!["/late"]);
}

#[test]
fn later_sections_reset_the_match() {
    let text = "User-agent: me\nDisallow: /a\nUser-agent: nobody\nDisallow: /b\nUser-agent: *\nDisallow: /c";
    assert_eq!(parse_robots(text, "me"), vec!["/a", "/c"]);
}

#[test]
fn path_prefix_and_wildcard_block() {
    let pats = vec!["/private".to_string()];
    assert!(is_path_disallowed("/private/x", &pats));
    assert!(is_path_disallowed("/private", &pats));
    assert!(!is_path_disallowed("/pub", &pats));
    let all = vec!["*".to_string()];
    assert!(is_path_disallowed("/anything", &all));
    let none: Vec<String> = Vec::new();
    assert!(!is_path_disallowed("/anything", &none));
}

#[test]
fn blocked_list_checks_paths() {
    let list = BlockedList { root_id: 1, sub_url: vec!["/skip".to_string()] };
    assert!(check_blocked_list("/skip/deeper", &list));
    assert!(!check_blocked_list("/ok", &list));
}
