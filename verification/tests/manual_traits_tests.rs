use checker::manual_traits::{
    check_folder_content, extract_trait_names, reconcile, undeclared_traits_in, verdict,
    CheckError,
};
use checker::registry::{build_registry, Registry};
use checker::config::parse_document;

fn registry_of(gir: &str) -> Registry {
    let doc = parse_document(gir).expect("well-formed document");
    build_registry(&doc).expect("valid registry")
}

#[test]
fn scenario_generate_only_flags_undeclared_trait() {
    let gir = "[options]\nlibrary = \"foo\"\ngenerate = [\"foo.Bar\"]\n";
    let sources = vec![String::from("pub trait BarExtManual {\n}\n")];
    let doc = parse_document(gir).expect("well-formed document");
    let registry = build_registry(&doc).expect("valid registry");
    assert_eq!(registry.listed_objects, vec![String::from("Bar")]);
    assert!(registry.correctly_declared_traits.is_empty());
    let violations = check_folder_content(gir, &sources).expect("no fatal error");
    assert_eq!(violations, vec![String::from("BarExtManual")]);
    assert!(!verdict(&violations));
}

#[test]
fn scenario_declared_trait_passes() {
    let gir = "[options]\nlibrary = \"foo\"\ngenerate = [\"foo.Bar\"]\n\n[[object]]\nname = \"foo.Bar\"\nmanual_traits = [\"BarExtManual\"]\n";
    let sources = vec![String::from("pub trait BarExtManual {\n}\n")];
    let violations = check_folder_content(gir, &sources).expect("no fatal error");
    assert!(violations.is_empty());
    assert!(verdict(&violations));
}

#[test]
fn scenario_unlisted_object_is_ignored() {
    let gir = "[options]\nlibrary = \"foo\"\ngenerate = [\"foo.Bar\"]\n";
    let sources = vec![String::from("pub trait BazExtManual<T>: Clone {\n}\n")];
    let violations = check_folder_content(gir, &sources).expect("no fatal error");
    assert!(violations.is_empty());
    assert!(verdict(&violations));
}

#[test]
fn scenario_foreign_manual_entry_is_ignored() {
    let gir = "[options]\nlibrary = \"foo\"\nmanual = [\"other.Qux\"]\n";
    let registry = registry_of(gir);
    assert!(registry.listed_objects.is_empty());
    let sources = vec![String::from("pub trait QuxExtManual {\n}\n")];
    let violations = check_folder_content(gir, &sources).expect("no fatal error");
    assert!(violations.is_empty());
}

#[test]
fn brace_without_space_still_extracts() {
    let names = extract_trait_names("pub trait XExtManual{\n");
    assert_eq!(names, vec![String::from("XExtManual")]);
    let gir = "[options]\nlibrary = \"foo\"\ngenerate = [\"foo.X\"]\n";
    let sources = vec![String::from("pub trait XExtManual{\n}\n")];
    let violations = check_folder_content(gir, &sources).expect("no fatal error");
    assert_eq!(violations, vec![String::from("XExtManual")]);
}

#[test]
fn extraction_handles_generics_and_supertraits() {
    let text = "pub trait FooExtManual<T> {\n    pub trait inner\n}\npub trait BarExtManual: Sized {\n";
    let names = extract_trait_names(text);
    assert_eq!(
        names,
        vec![String::from("FooExtManual"), String::from("BarExtManual")]
    );
}

#[test]
fn extraction_trims_leading_whitespace() {
    let names = extract_trait_names("   \tpub trait TrimmedExtManual {\n");
    assert_eq!(names, vec![String::from("TrimmedExtManual")]);
}

#[test]
fn extraction_skips_other_lines() {
    let text = "trait NotPub {\nfn pub trait X {\npub  trait SpacedOut {\npub trait NoSuffix {\n";
    let names = extract_trait_names(text);
    assert!(names.is_empty());
}

#[test]
fn extraction_without_terminator_uses_line_end() {
    let names = extract_trait_names("pub trait EndExtManual");
    assert_eq!(names, vec![String::from("EndExtManual")]);
}

#[test]
fn extraction_earliest_terminator_wins() {
    // The colon comes before the angle bracket and the brace.
    let names = extract_trait_names("pub trait AExtManual: B<C> {\n");
    assert_eq!(names, vec![String::from("AExtManual")]);
}

#[test]
fn reconcile_is_deterministic() {
    let gir = "[options]\nlibrary = \"foo\"\ngenerate = [\"foo.Bar\", \"foo.Baz\"]\n\n[[object]]\nname = \"foo.Baz\"\nmanual_traits = [\"BazExtManual\"]\n";
    let registry = registry_of(gir);
    let candidates = vec![
        String::from("BarExtManual"),
        String::from("BazExtManual"),
        String::from("QuxExtManual"),
        String::from("BarExtManual"),
    ];
    let first = reconcile(&registry, &candidates);
    let second = reconcile(&registry, &candidates);
    assert_eq!(first, second);
    assert_eq!(first, vec![String::from("BarExtManual"), String::from("BarExtManual")]);
}

#[test]
fn duplicate_violations_are_kept_across_files() {
    let gir = "[options]\nlibrary = \"foo\"\ngenerate = [\"foo.Bar\"]\n";
    let sources = vec![
        String::from("pub trait BarExtManual {\n"),
        String::from("// comment\npub trait BarExtManual {\n"),
    ];
    let violations = check_folder_content(gir, &sources).expect("no fatal error");
    assert_eq!(
        violations,
        vec![String::from("BarExtManual"), String::from("BarExtManual")]
    );
}

#[test]
fn violations_keep_scan_order() {
    let gir = "[options]\nlibrary = \"foo\"\ngenerate = [\"foo.A\", \"foo.B\"]\n";
    let registry = registry_of(gir);
    let text = "pub trait BExtManual {\npub trait AExtManual {\n";
    let found = undeclared_traits_in(&registry, text);
    assert_eq!(found, vec![String::from("BExtManual"), String::from("AExtManual")]);
}

#[test]
fn invalid_document_is_fatal() {
    let sources: Vec<String> = Vec::new();
    let r = check_folder_content("not = [ valid", &sources);
    assert_eq!(r, Err(CheckError::InvalidDocument));
}

#[test]
fn missing_library_is_fatal() {
    let sources: Vec<String> = Vec::new();
    let r = check_folder_content("[options]\ngenerate = [\"foo.Bar\"]\n", &sources);
    assert_eq!(r, Err(CheckError::MissingLibrary));
}

#[test]
fn dotless_generate_entry_is_fatal() {
    let sources: Vec<String> = Vec::new();
    let r = check_folder_content(
        "[options]\nlibrary = \"foo\"\ngenerate = [\"NoDot\"]\n",
        &sources,
    );
    assert_eq!(r, Err(CheckError::MalformedName));
}

#[test]
fn dotless_builders_entry_is_fatal() {
    let sources: Vec<String> = Vec::new();
    let r = check_folder_content(
        "[options]\nlibrary = \"foo\"\nbuilders = [\"NoDot\"]\n",
        &sources,
    );
    assert_eq!(r, Err(CheckError::MalformedName));
}

#[test]
fn dotless_manual_entry_of_current_library_is_fatal() {
    let sources: Vec<String> = Vec::new();
    let r = check_folder_content(
        "[options]\nlibrary = \"foo\"\nmanual = [\"foo\"]\n",
        &sources,
    );
    assert_eq!(r, Err(CheckError::MalformedName));
}

#[test]
fn dotless_manual_entry_of_other_library_is_skipped() {
    let sources: Vec<String> = Vec::new();
    let r = check_folder_content(
        "[options]\nlibrary = \"foo\"\nmanual = [\"bar\"]\n",
        &sources,
    );
    assert_eq!(r, Ok(Vec::new()));
}

#[test]
fn empty_suffix_owner_matches_empty_object() {
    // A candidate that is exactly the suffix owns the empty name.
    let gir = "[options]\nlibrary = \"foo\"\ngenerate = [\"foo.\"]\n";
    let registry = registry_of(gir);
    assert_eq!(registry.listed_objects, vec![String::from("")]);
    let found = undeclared_traits_in(&registry, "pub trait ExtManual {\n");
    assert_eq!(found, vec![String::from("ExtManual")]);
}
