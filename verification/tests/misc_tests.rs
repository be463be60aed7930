use checker::args::parse_args;
use checker::gir_files::check_indent_text;
use checker::license::{check_license_text, LicenseCheck};
use checker::text::{eq_str, split_lines, split_on_char, trim};

const NOTICE: &str =
    "// Take a look at the license at the top of the repository in the LICENSE file.";

#[test]
fn license_valid_header_passes() {
    let text = format!("{}\n\nuse std::fmt;\n", NOTICE);
    assert_eq!(check_license_text(&text), LicenseCheck::Valid);
}

#[test]
fn license_wrong_first_line_fails() {
    let text = "// Some other comment\n\nfn main() {}\n";
    assert_eq!(check_license_text(text), LicenseCheck::MissingHeader);
}

#[test]
fn license_single_line_file_fails() {
    assert_eq!(check_license_text(NOTICE), LicenseCheck::MissingHeader);
    assert_eq!(check_license_text(""), LicenseCheck::MissingHeader);
}

#[test]
fn license_missing_empty_line_fails() {
    let text = format!("{}\nuse std::fmt;\n", NOTICE);
    assert_eq!(check_license_text(&text), LicenseCheck::MissingEmptyLine);
}

#[test]
fn license_accepts_carriage_returns() {
    let text = format!("{}\r\n\r\nrest\r\n", NOTICE);
    assert_eq!(check_license_text(&text), LicenseCheck::Valid);
}

#[test]
fn indent_multiples_of_four_pass() {
    let text = "[options]\n    key = 1\n        deeper = 2\nplain\n";
    assert_eq!(check_indent_text(text), None);
}

#[test]
fn indent_reports_first_bad_line() {
    let text = "ok\n   three = 1\n     five = 2\n";
    assert_eq!(check_indent_text(text), Some(2));
}

#[test]
fn indent_counts_tabs_as_single_characters() {
    assert_eq!(check_indent_text("\tkey = 1\n"), Some(1));
    assert_eq!(check_indent_text("\t\t\t\tkey = 1\n"), None);
}

#[test]
fn indent_empty_text_passes() {
    assert_eq!(check_indent_text(""), None);
}

#[test]
fn args_default_plan() {
    let args = vec![String::from("some/folder")];
    let plan = parse_args(&args);
    assert!(!plan.help);
    assert_eq!(plan.targets.len(), 1);
    assert_eq!(plan.targets[0].folder, "some/folder");
    assert_eq!(plan.targets[0].gir_file, "Gir.toml");
    assert!(plan.targets[0].check_manual_traits);
    assert!(plan.targets[0].check_license);
}

#[test]
fn args_gir_file_is_sticky() {
    let args = vec![
        String::from("a"),
        String::from("--gir-file"),
        String::from("Other.toml"),
        String::from("b"),
        String::from("c"),
    ];
    let plan = parse_args(&args);
    assert!(!plan.help);
    assert_eq!(plan.targets.len(), 3);
    assert_eq!(plan.targets[0].gir_file, "Gir.toml");
    assert_eq!(plan.targets[1].gir_file, "Other.toml");
    assert_eq!(plan.targets[2].gir_file, "Other.toml");
}

#[test]
fn args_help_stops_the_walk() {
    let args = vec![
        String::from("a"),
        String::from("--help"),
        String::from("b"),
    ];
    let plan = parse_args(&args);
    assert!(plan.help);
    assert_eq!(plan.targets.len(), 1);
    assert_eq!(plan.targets[0].folder, "a");

    let short = vec![String::from("-h")];
    let plan = parse_args(&short);
    assert!(plan.help);
    assert!(plan.targets.is_empty());
}

#[test]
fn args_toggles_disable_checks() {
    let args = vec![
        String::from("a"),
        String::from("--no-manual-traits"),
        String::from("b"),
        String::from("--no-license"),
        String::from("c"),
    ];
    let plan = parse_args(&args);
    assert_eq!(plan.targets.len(), 3);
    assert!(plan.targets[0].check_manual_traits && plan.targets[0].check_license);
    assert!(!plan.targets[1].check_manual_traits && plan.targets[1].check_license);
    assert!(!plan.targets[2].check_manual_traits && !plan.targets[2].check_license);
}

#[test]
fn args_gir_file_without_value_ends_walk() {
    let args = vec![String::from("a"), String::from("--gir-file")];
    let plan = parse_args(&args);
    assert!(!plan.help);
    assert_eq!(plan.targets.len(), 1);
}

#[test]
fn args_empty_list_plans_nothing() {
    let args: Vec<String> = Vec::new();
    let plan = parse_args(&args);
    assert!(!plan.help);
    assert!(plan.targets.is_empty());
}

#[test]
fn trim_removes_both_ends() {
    assert!(eq_str(trim("  \tpub trait X {  \r"), "pub trait X {"));
    assert!(eq_str(trim("   "), ""));
    assert!(eq_str(trim("plain"), "plain"));
}

#[test]
fn split_on_char_keeps_empty_pieces() {
    assert_eq!(
        split_on_char("a.b..c", '.'),
        vec![
            String::from("a"),
            String::from("b"),
            String::from(""),
            String::from("c")
        ]
    );
    assert_eq!(split_on_char("nodot", '.'), vec![String::from("nodot")]);
}

#[test]
fn split_lines_matches_line_conventions() {
    assert_eq!(
        split_lines("a\r\nb\nc"),
        vec![String::from("a"), String::from("b"), String::from("c")]
    );
    assert_eq!(split_lines("a\n"), vec![String::from("a")]);
    assert_eq!(split_lines("\n"), vec![String::from("")]);
    assert_eq!(split_lines(""), Vec::<String>::new());
    assert_eq!(
        split_lines("a\n\n"),
        vec![String::from("a"), String::from("")]
    );
}
