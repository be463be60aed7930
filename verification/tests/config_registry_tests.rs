use checker::config::{parse_document, ConfigValue, TomlHelper};
use checker::registry::{build_registry, second_segment, split_first_dot, RegistryError};

#[test]
fn parse_and_lookup_string() {
    let doc = parse_document("[options]\nlibrary = \"gtk\"\n").expect("well-formed document");
    assert_eq!(doc.lookup_str("options.library"), Some("gtk"));
}

#[test]
fn parse_rejects_malformed_text() {
    assert!(parse_document("= nonsense =").is_none());
}

#[test]
fn lookup_missing_key_is_none() {
    let doc = parse_document("[options]\nlibrary = \"gtk\"\n").expect("well-formed document");
    assert!(doc.lookup("options.missing").is_none());
    assert!(doc.lookup("nothing").is_none());
}

#[test]
fn lookup_through_non_table_is_none() {
    let doc = parse_document("[options]\nlibrary = \"gtk\"\n").expect("well-formed document");
    assert!(doc.lookup("options.library.deeper").is_none());
}

#[test]
fn lookup_str_rejects_non_string() {
    let doc = parse_document("[options]\ngenerate = [\"a.b\"]\n").expect("well-formed document");
    assert!(doc.lookup_str("options.generate").is_none());
    assert!(doc.lookup("options.generate").is_some());
}

#[test]
fn lookup_vec_finds_arrays_only() {
    let doc = parse_document("[options]\ngenerate = [\"a.b\"]\nlibrary = \"a\"\n")
        .expect("well-formed document");
    let items = doc.lookup_vec("options.generate").expect("an array");
    assert_eq!(items.len(), 1);
    assert!(matches!(&items[0], ConfigValue::Str(s) if s == "a.b"));
    assert!(doc.lookup_vec("options.library").is_none());
}

#[test]
fn non_tree_values_are_opaque() {
    let doc = parse_document("count = 3\nflag = true\n").expect("well-formed document");
    assert!(matches!(doc.lookup("count"), Some(ConfigValue::Other)));
    assert!(matches!(doc.lookup("flag"), Some(ConfigValue::Other)));
}

#[test]
fn split_first_dot_takes_whole_remainder() {
    assert_eq!(
        split_first_dot("foo.Bar.Baz"),
        Some((String::from("foo"), String::from("Bar.Baz")))
    );
    assert_eq!(split_first_dot("nodot"), None);
    assert_eq!(
        split_first_dot("foo."),
        Some((String::from("foo"), String::from("")))
    );
}

#[test]
fn second_segment_skips_exactly_one() {
    assert_eq!(second_segment("foo.Bar"), Some(String::from("Bar")));
    assert_eq!(second_segment("foo.Bar.Baz"), Some(String::from("Bar")));
    assert_eq!(second_segment("nodot"), None);
}

#[test]
fn registry_merges_all_four_sources() {
    let gir = "[options]\nlibrary = \"foo\"\ngenerate = [\"foo.A\"]\nbuilders = [\"foo.B\"]\nmanual = [\"foo.C\", \"other.D\"]\n\n[[object]]\nname = \"foo.E\"\nmanual_traits = [\"EExtManual\"]\n\n[[object]]\nname = \"other.F\"\nmanual_traits = [\"FExtManual\"]\n";
    let doc = parse_document(gir).expect("well-formed document");
    let registry = build_registry(&doc).expect("valid registry");
    let listed: Vec<&str> = registry.listed_objects.iter().map(|s| s.as_str()).collect();
    assert_eq!(listed, vec!["A", "B", "C", "E"]);
    let declared: Vec<&str> = registry
        .correctly_declared_traits
        .iter()
        .map(|s| s.as_str())
        .collect();
    assert_eq!(declared, vec!["EExtManual"]);
}

#[test]
fn registry_generate_uses_second_segment_manual_keeps_remainder() {
    let gir = "[options]\nlibrary = \"foo\"\ngenerate = [\"foo.Bar.Baz\"]\nmanual = [\"foo.Qux.Quux\"]\n";
    let doc = parse_document(gir).expect("well-formed document");
    let registry = build_registry(&doc).expect("valid registry");
    let listed: Vec<&str> = registry.listed_objects.iter().map(|s| s.as_str()).collect();
    assert_eq!(listed, vec!["Bar", "Qux.Quux"]);
}

#[test]
fn registry_deduplicates_names() {
    let gir = "[options]\nlibrary = \"foo\"\ngenerate = [\"foo.A\", \"foo.A\"]\nmanual = [\"foo.A\"]\n";
    let doc = parse_document(gir).expect("well-formed document");
    let registry = build_registry(&doc).expect("valid registry");
    assert_eq!(registry.listed_objects, vec![String::from("A")]);
}

#[test]
fn registry_skips_objects_without_usable_name() {
    let gir = "[options]\nlibrary = \"foo\"\n\n[[object]]\nstatus = \"generate\"\n\n[[object]]\nname = \"foo\"\nmanual_traits = [\"LostExtManual\"]\n";
    let doc = parse_document(gir).expect("well-formed document");
    let registry = build_registry(&doc).expect("valid registry");
    assert!(registry.listed_objects.is_empty());
    assert!(registry.correctly_declared_traits.is_empty());
}

#[test]
fn registry_empty_lists_register_nothing() {
    let gir = "object = []\n\n[options]\nlibrary = \"foo\"\ngenerate = []\nbuilders = []\nmanual = []\n";
    let doc = parse_document(gir).expect("well-formed document");
    let registry = build_registry(&doc).expect("valid registry");
    assert!(registry.listed_objects.is_empty());
    assert!(registry.correctly_declared_traits.is_empty());
}

#[test]
fn registry_non_array_object_key_is_empty() {
    let gir = "object = 3\n\n[options]\nlibrary = \"foo\"\n";
    let doc = parse_document(gir).expect("well-formed document");
    let registry = build_registry(&doc).expect("valid registry");
    assert!(registry.listed_objects.is_empty());
    assert!(registry.correctly_declared_traits.is_empty());
}

#[test]
fn registry_missing_library_errors() {
    let doc = parse_document("[options]\ngenerate = [\"a.b\"]\n").expect("well-formed document");
    assert!(matches!(build_registry(&doc), Err(RegistryError::MissingLibrary)));
}

#[test]
fn registry_malformed_name_errors() {
    let doc = parse_document("[options]\nlibrary = \"foo\"\nbuilders = [\"plain\"]\n")
        .expect("well-formed document");
    assert!(matches!(build_registry(&doc), Err(RegistryError::MalformedName)));
}

#[test]
fn registry_ignores_non_string_list_entries() {
    let gir = "[options]\nlibrary = \"foo\"\ngenerate = [1, \"foo.A\", true]\n";
    let doc = parse_document(gir).expect("well-formed document");
    let registry = build_registry(&doc).expect("valid registry");
    assert_eq!(registry.listed_objects, vec![String::from("A")]);
}
