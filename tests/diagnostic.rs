use std::rc::Rc;

use kona_diagnostic::diagnostic::{Diagnostic, Level};
use kona_diagnostic::diagnostic_builder::{DiagnosticBuilder, EmissionGuaranted};
use kona_diagnostic::diagnostic_engine::{DiagnosticEngine, Emitter, SilentEmitter};
use kona_diagnostic::pos::Pos;
use kona_diagnostic::render::{render_diagnostic, underline_row};
use kona_diagnostic::source_map::SourceMap;
use kona_diagnostic::span::Span;

struct Collect {
    seen: Vec<Diagnostic>,
}

impl Emitter for Collect {
    fn emit_diagnostic(&mut self, diag: &Diagnostic) {
        self.seen.push(diag.clone());
    }

    fn source_map(&self) -> Option<Rc<SourceMap>> {
        None
    }
}

fn span(a: u32, b: u32) -> Span {
    Span::new(Pos::from_u32(a), Pos::from_u32(b))
}

#[test]
fn basic_snippet() {
    let mut map = SourceMap::new();
    map.load_test_file(Some("ex.sml".to_string()), "val x = 1\nval y = 2\n".to_string());
    let engine = DiagnosticEngine::with_emitter(SilentEmitter {});
    let builder = engine
        .create_err("unexpected token".to_string())
        .set_primary_label(span(11, 12), "expected semicolon".to_string());
    let diag = builder.get_diagnostic().clone();
    builder.cancel();
    let r = render_diagnostic(&diag, Some(&map), None);
    assert_eq!(r.level_name, "error");
    assert_eq!(r.message, "unexpected token");
    let snippet = r.snippet.expect("a snippet");
    assert_eq!(snippet.file_name, "ex.sml");
    assert_eq!((snippet.line, snippet.col), (2, 1));
    assert_eq!(snippet.indent, 1);
    assert_eq!(snippet.lines.len(), 1);
    assert_eq!(snippet.lines[0].line_number, 2);
    assert_eq!(snippet.lines[0].source, "val y = 2\n");
    assert_eq!(snippet.lines[0].marks, "^ expected semicolon");
}

#[test]
fn note_uses_dashes_and_columns() {
    let mut map = SourceMap::new();
    map.load_test_file(None, "let x = 10 in x end".to_string());
    let engine = DiagnosticEngine::with_emitter(SilentEmitter {});
    let builder = engine.create_note("here".to_string()).set_primary_label(span(9, 11), "ten".to_string());
    let diag = builder.get_diagnostic().clone();
    builder.cancel();
    let r = render_diagnostic(&diag, Some(&map), None);
    assert_eq!(r.level_name, "note");
    let snippet = r.snippet.unwrap();
    assert_eq!(snippet.lines[0].marks, "        -- ten");
}

#[test]
fn multi_line_snippet() {
    let mut map = SourceMap::new();
    map.load_test_file(None, "ab\ncd\nef\n".to_string());
    let engine = DiagnosticEngine::with_emitter(SilentEmitter {});
    let builder = engine.create_warn("w".to_string()).set_primary_label(span(2, 8), "m".to_string());
    let diag = builder.get_diagnostic().clone();
    builder.cancel();
    let r = render_diagnostic(&diag, Some(&map), None);
    assert_eq!(r.level_name, "warning");
    let snippet = r.snippet.unwrap();
    assert_eq!(snippet.lines.len(), 3);
    assert_eq!(snippet.lines[0].marks, " ^ m");
    assert_eq!(snippet.lines[1].marks, "^^ m");
    assert_eq!(snippet.lines[2].marks, "^ m");
}

#[test]
fn no_snippet_without_source_map_or_for_dummy_span() {
    let engine = DiagnosticEngine::with_emitter(SilentEmitter {});
    let builder = engine.create_err("e".to_string());
    let diag = builder.get_diagnostic().clone();
    builder.cancel();
    assert!(render_diagnostic(&diag, None, None).snippet.is_none());
    let map = SourceMap::from_string("abc".to_string());
    assert!(render_diagnostic(&diag, Some(&map), None).snippet.is_none());
}

#[test]
fn underline_row_shape() {
    assert_eq!(underline_row(2, 5, "^", "msg"), "  ^^^ msg");
    assert_eq!(underline_row(3, 1, "-", ""), "    ");
}

#[test]
fn emit_hands_over_once() {
    let mut engine = DiagnosticEngine::with_emitter(Collect { seen: Vec::new() });
    let builder = engine
        .create_err("first".to_string())
        .set_primary_span(span(1, 2))
        .add_sublabel(span(3, 4), "also".to_string())
        .add_subspan(span(5, 6));
    builder.emit(&mut engine);
    let seen = &engine.emitter().seen;
    assert_eq!(seen.len(), 1);
    assert_eq!(seen[0].level, Level::Error);
    assert_eq!(seen[0].message, "first");
    assert_eq!(seen[0].span(), span(1, 2));
    assert_eq!(seen[0].labels.sublabels.len(), 2);
    assert_eq!(seen[0].labels.sublabels[0].message, "also");
    assert_eq!(seen[0].labels.sublabels[1].message, "");
}

#[test]
fn cancel_hands_over_nothing() {
    let engine = DiagnosticEngine::with_emitter(Collect { seen: Vec::new() });
    engine.create_warn("dropped".to_string()).cancel();
    assert_eq!(engine.emitter().seen.len(), 0);
}

#[test]
fn guaranteed_emission() {
    let mut engine = DiagnosticEngine::with_emitter(Collect { seen: Vec::new() });
    let diag = engine.create_note("n".to_string()).get_diagnostic().clone();
    let builder: DiagnosticBuilder<EmissionGuaranted> = DiagnosticBuilder::new(diag);
    let _proof: EmissionGuaranted = builder.emit(&mut engine);
    assert_eq!(engine.emitter().seen.len(), 1);
    assert_eq!(engine.emitter().seen[0].level, Level::Note);
}

#[test]
fn span_ending_at_file_end_gets_snippet() {
    let mut map = SourceMap::new();
    map.load_test_file(None, "abc".to_string());
    let engine = DiagnosticEngine::with_emitter(SilentEmitter {});
    let builder = engine.create_err("e".to_string()).set_primary_label(span(2, 4), "m".to_string());
    let diag = builder.get_diagnostic().clone();
    builder.cancel();
    let snippet = render_diagnostic(&diag, Some(&map), None).snippet.unwrap();
    assert_eq!(snippet.lines.len(), 1);
    assert_eq!(snippet.lines[0].marks, " ^^ m");
}
