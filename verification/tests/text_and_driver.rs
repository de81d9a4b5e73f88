use std::path::PathBuf;

use surfacide::compose::ObligationKind;
use surfacide::diagnostic::Diagnostic;
use surfacide::codes::{Code, ErrorKind, WarningKind};
use surfacide::driver::{copy_diagnostic, select_passes, summary_line};
use surfacide::ident::{Ident, QualifiedName};
use surfacide::slot::{AvailabilityValue, RetentionValue, SlotKind, SlotValue};
use surfacide::span::{FileId, FileRegistry, Span};
use surfacide::surface::RetentionClass;
use surfacide::syntax::{doc_string_text, qualified_from_text, retention_class_from_slot_value, trim};
use surfacide::text::{cat, contains_name, decimal, trims_to_empty};

#[test]
fn trim_strips_white_space_at_both_ends() {
    assert_eq!(trim("  abc \n\t"), "abc");
    assert_eq!(trim("a b"), "a b");
    assert_eq!(trim("   "), "");
    assert_eq!(trim(""), "");
}

#[test]
fn doc_string_text_drops_triple_quotes_and_trims() {
    assert_eq!(doc_string_text("  \"\"\"  hello world \"\"\"  "), "hello world");
    assert_eq!(doc_string_text("\"\"\"\"\"\""), "");
    // Too short to carry both delimiters: only trimmed.
    assert_eq!(doc_string_text(" \"\"\"\"\" "), "\"\"\"\"\"");
    assert_eq!(doc_string_text("plain"), "plain");
}

#[test]
fn qualified_from_text_splits_on_dots_and_reuses_identifiers() {
    let span = Span::new(FileId(0), 10, 20);
    let known = vec![Ident::new("b", Span::new(FileId(0), 3, 4))];
    let q = qualified_from_text(" a . b.c ", &known, span);
    let names: Vec<&str> = q.segments.iter().map(|s| s.as_str()).collect();
    assert_eq!(names, vec!["a", "b", "c"]);
    assert_eq!(q.segments[0].span, span);
    assert_eq!(q.segments[1].span, Span::new(FileId(0), 3, 4));
    assert_eq!(q.segments[2].span, span);
}

#[test]
fn qualified_from_text_without_segments_keeps_whole_text() {
    let span = Span::new(FileId(0), 1, 2);
    let q = qualified_from_text(" . ", &[], span);
    assert_eq!(q.segments.len(), 1);
    assert_eq!(q.segments[0].as_str(), " . ");
    assert_eq!(q.segments[0].span, span);
}

#[test]
fn retention_class_from_tokens_and_values() {
    let secret = SlotValue::Unknown(Ident::new("secret", Span::synthetic()));
    assert!(matches!(retention_class_from_slot_value(&secret), Some(RetentionClass::Secret)));
    let eph = SlotValue::Retention(RetentionValue::Ephemeral);
    assert!(matches!(retention_class_from_slot_value(&eph), Some(RetentionClass::Ephemeral)));
    let other = SlotValue::Unknown(Ident::new("forever", Span::synthetic()));
    assert!(retention_class_from_slot_value(&other).is_none());
    let avail = SlotValue::Availability(AvailabilityValue::BestEffort);
    assert!(retention_class_from_slot_value(&avail).is_none());
}

#[test]
fn decimal_renders_counts() {
    assert_eq!(decimal(0), "0");
    assert_eq!(decimal(7), "7");
    assert_eq!(decimal(10), "10");
    assert_eq!(decimal(4096), "4096");
}

#[test]
fn string_helpers() {
    assert_eq!(cat("ab", "cd"), "abcd");
    assert!(trims_to_empty(" \t\n"));
    assert!(!trims_to_empty(" x "));
    let names = vec!["User".to_string(), "Admin".to_string()];
    assert!(contains_name(&names, "Admin"));
    assert!(!contains_name(&names, "admin"));
}

#[test]
fn select_passes_runs_everything_when_nothing_is_asked() {
    let all = select_passes(false, false, false);
    assert!(all.resolve && all.slots && all.obligations);
    let only_slots = select_passes(true, false, false);
    assert!(only_slots.slots && !only_slots.resolve && !only_slots.obligations);
    let two = select_passes(false, true, true);
    assert!(!two.slots && two.resolve && two.obligations);
}

#[test]
fn summary_line_reports_errors_warnings_or_files() {
    let (failed, line) = summary_line(2, 3, 5);
    assert!(failed);
    assert_eq!(line, "surfacide: 2 error(s), 3 warning(s)");
    let (failed, line) = summary_line(0, 12, 5);
    assert!(!failed);
    assert_eq!(line, "surfacide: 12 warning(s)");
    let (failed, line) = summary_line(0, 0, 5);
    assert!(!failed);
    assert_eq!(line, "surfacide: 5 file(s) checked, no diagnostics");
}

#[test]
fn copy_diagnostic_keeps_every_field() {
    let d = Diagnostic::error(ErrorKind::SecretFlow, "leak", Span::new(FileId(1), 2, 3))
        .with_label(Span::new(FileId(1), 0, 1), "here")
        .with_help("fix it");
    let c = copy_diagnostic(&d);
    assert_eq!(c.code, Code::Error(ErrorKind::SecretFlow));
    assert_eq!(c.message, "leak");
    assert_eq!(c.primary_span, Span::new(FileId(1), 2, 3));
    assert_eq!(c.labels.len(), 1);
    assert_eq!(c.labels[0].message, "here");
    assert_eq!(c.help.as_deref(), Some("fix it"));
    let w = Diagnostic::warning(WarningKind::WriteConflict, "w", Span::synthetic());
    assert!(!copy_diagnostic(&w).is_error());
}

#[test]
fn registry_slice_respects_character_boundaries() {
    let mut reg = FileRegistry::new();
    let f = reg.add(PathBuf::from("m.surf"), "héllo world");
    // "h" is one byte, "é" two.
    assert_eq!(reg.slice(Span::new(f, 0, 1)), Some("h"));
    assert_eq!(reg.slice(Span::new(f, 0, 3)), Some("hé"));
    assert_eq!(reg.slice(Span::new(f, 0, 2)), None);
    assert_eq!(reg.slice(Span::new(f, 7, 12)), Some("world"));
    assert_eq!(reg.slice(Span::new(f, 7, 40)), None);
    assert_eq!(reg.slice(Span::synthetic()), None);
}

#[test]
fn names_round_trip_through_from_name() {
    for k in SlotKind::canonical_order() {
        assert_eq!(SlotKind::from_name(k.name()), Some(k));
    }
    assert_eq!(SlotKind::from_name("colour"), None);
    assert_eq!(ObligationKind::from_name("write_conflict"), Some(ObligationKind::WriteConflict));
    assert_eq!(ObligationKind::from_name("writeconflict"), None);
}

#[test]
fn qualified_name_dotted_joins_segments() {
    let q = QualifiedName::new(vec![
        Ident::new("a", Span::new(FileId(0), 0, 1)),
        Ident::new("b", Span::new(FileId(0), 2, 3)),
    ]);
    assert_eq!(q.dotted(), "a.b");
    assert_eq!(q.span, Span::new(FileId(0), 0, 3));
}
