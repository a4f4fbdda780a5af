use highlight_diff::align::compute_diff;
use highlight_diff::config::{Color, ColorAssignment, RenderConfig};
use highlight_diff::ops::{DiffOp, LineCounters};
use highlight_diff::render::{
    build_text_row, color_for, render_html_document, render_records, render_text, Paginator,
    RowClass,
};

fn lines(items: &[&str]) -> Vec<String> {
    items.iter().map(|s| s.to_string()).collect()
}

fn cfg(width: usize, show_unchanged: bool) -> RenderConfig {
    RenderConfig {
        width,
        colors: ColorAssignment { left: Color::Red, both: Color::White, right: Color::Green },
        show_unchanged,
        batch: usize::MAX,
    }
}

#[test]
fn scenario_one_line_changed() {
    let left = lines(&["a", "b", "c"]);
    let right = lines(&["a", "x", "c"]);
    let ops = compute_diff(&left, &right);
    let run = render_records(&ops, &cfg(2, true));
    let texts: Vec<&str> = run.records.iter().map(|r| r.text.as_str()).collect();
    assert_eq!(
        texts,
        vec!["1   1   | a", "2 -     | b", "    2 + | x", "3   3   | c"]
    );
    let classes: Vec<RowClass> = run.records.iter().map(|r| r.class).collect();
    assert_eq!(
        classes,
        vec![
            RowClass::BothRow,
            RowClass::LeftRow,
            RowClass::RightRow,
            RowClass::BothRow
        ]
    );
    assert_eq!(run.counters.left, 3);
    assert_eq!(run.counters.right, 3);
}

#[test]
fn identical_inputs_suppressed_emit_nothing() {
    let left = lines(&["l1", "l2", "l3", "l4", "l5"]);
    let right = left.clone();
    let ops = compute_diff(&left, &right);
    let run = render_records(&ops, &cfg(5, false));
    assert_eq!(run.records.len(), 0);
    assert_eq!(run.counters.left, 5);
    assert_eq!(run.counters.right, 5);
    let rows = render_text(&ops, &cfg(5, false));
    assert!(rows.is_empty());
}

#[test]
fn empty_left_all_rows_right_only() {
    let left: Vec<String> = Vec::new();
    let right = lines(&["r1", "r2", "r3"]);
    let ops = compute_diff(&left, &right);
    assert_eq!(ops.len(), 3);
    for op in &ops {
        assert!(matches!(op, DiffOp::RightOnly(_)));
    }
    let run = render_records(&ops, &cfg(2, false));
    assert_eq!(run.records.len(), 3);
    assert_eq!(run.counters.left, 0);
    assert_eq!(run.counters.right, 3);
    assert_eq!(run.records[0].text, "    1 + | r1");
    assert_eq!(run.records[2].text, "    3 + | r3");
}

#[test]
fn projections_reconstruct_both_inputs() {
    let left = lines(&["alpha", "beta", "gamma", "delta"]);
    let right = lines(&["alpha", "gamma", "epsilon", "delta"]);
    let ops = compute_diff(&left, &right);
    let mut left_back: Vec<String> = Vec::new();
    let mut right_back: Vec<String> = Vec::new();
    for op in &ops {
        match op {
            DiffOp::LeftOnly(l) => left_back.push(l.clone()),
            DiffOp::RightOnly(r) => right_back.push(r.clone()),
            DiffOp::Both(l, r) => {
                assert_eq!(l, r);
                left_back.push(l.clone());
                right_back.push(r.clone());
            }
        }
    }
    assert_eq!(left_back, left);
    assert_eq!(right_back, right);
}

#[test]
fn suppressed_rendering_is_shown_rendering_minus_both_rows() {
    let left = lines(&["same", "old", "same", "tail"]);
    let right = lines(&["same", "new", "same", "tail"]);
    let ops = compute_diff(&left, &right);
    let hidden = render_records(&ops, &cfg(3, false));
    let shown = render_records(&ops, &cfg(3, true));
    let filtered: Vec<&str> = shown
        .records
        .iter()
        .filter(|r| r.class != RowClass::BothRow)
        .map(|r| r.text.as_str())
        .collect();
    let hidden_texts: Vec<&str> = hidden.records.iter().map(|r| r.text.as_str()).collect();
    assert_eq!(hidden_texts, filtered);
    assert_eq!(hidden.counters.left, shown.counters.left);
    assert_eq!(hidden.counters.right, shown.counters.right);
}

#[test]
fn prefix_width_is_twice_width_plus_four() {
    let left = lines(&["a", "b", "c"]);
    let right = lines(&["a", "x", "c"]);
    let ops = compute_diff(&left, &right);
    for width in [1usize, 2, 5, 9] {
        let run = render_records(&ops, &cfg(width, true));
        for rec in &run.records {
            let bar = rec.text.find('|').expect("row must hold a separator");
            assert_eq!(bar, 2 * width + 4);
        }
    }
}

#[test]
fn numbers_wider_than_the_field_are_kept_whole() {
    let items: Vec<String> = (1..=10).map(|i| format!("line{}", i)).collect();
    let ops = compute_diff(&items, &items);
    let run = render_records(&ops, &cfg(1, true));
    assert_eq!(run.records[9].text, "10  10  | line10");
    assert_eq!(run.records[0].text, "1  1  | line1");
}

#[test]
fn text_rows_match_record_texts() {
    let left = lines(&["a", "b"]);
    let right = lines(&["b", "c"]);
    let ops = compute_diff(&left, &right);
    let run = render_records(&ops, &cfg(5, true));
    let rows = render_text(&ops, &cfg(5, true));
    let texts: Vec<String> = run.records.iter().map(|r| r.text.clone()).collect();
    assert_eq!(rows, texts);
}

#[test]
fn build_text_row_formats_each_kind() {
    let left_op = DiffOp::LeftOnly("gone".to_string());
    let both_op = DiffOp::Both("kept".to_string(), "kept".to_string());
    let right_op = DiffOp::RightOnly("added".to_string());
    assert_eq!(build_text_row(&left_op, 18, 0, 5), "18   -        | gone");
    assert_eq!(build_text_row(&both_op, 18, 19, 5), "18     19     | kept");
    assert_eq!(build_text_row(&right_op, 0, 19, 5), "       19   + | added");
}

#[test]
fn html_document_escapes_angle_brackets() {
    let left = lines(&["a<b>c"]);
    let right = lines(&["a<b>c"]);
    let ops = compute_diff(&left, &right);
    let doc = render_html_document(&ops, &cfg(1, true));
    assert!(doc.starts_with("<!DOCTYPE html>"));
    assert!(doc.ends_with("</body>\n</html>\n"));
    assert!(doc.contains("<pre class='both'>1  1  | a&#60;b&#62;c</pre>\n"));
    assert!(!doc.contains("a<b>c"));
}

#[test]
fn html_document_tags_rows_by_kind() {
    let left = lines(&["only<left"]);
    let right = lines(&["only>right"]);
    let ops = compute_diff(&left, &right);
    let doc = render_html_document(&ops, &cfg(2, true));
    assert!(doc.contains("<pre class='left'>1 -     | only&#60;left</pre>\n"));
    assert!(doc.contains("<pre class='right'>    1 + | only&#62;right</pre>\n"));
}

#[test]
fn html_document_without_rows_is_just_the_shell() {
    let left = lines(&["same"]);
    let right = lines(&["same"]);
    let ops = compute_diff(&left, &right);
    let doc = render_html_document(&ops, &cfg(5, false));
    assert!(!doc.contains("<pre class="));
    assert!(doc.starts_with("<!DOCTYPE html>"));
    assert!(doc.ends_with("</html>\n"));
}

#[test]
fn empty_inputs_emit_nothing() {
    let left: Vec<String> = Vec::new();
    let right: Vec<String> = Vec::new();
    let ops = compute_diff(&left, &right);
    assert!(ops.is_empty());
    let run = render_records(&ops, &cfg(5, true));
    assert!(run.records.is_empty());
    assert_eq!(run.counters.left, 0);
    assert_eq!(run.counters.right, 0);
}

#[test]
fn counters_advance_per_side() {
    let mut c = LineCounters::new();
    let (l1, r1) = c.advance(&DiffOp::LeftOnly("a".to_string()));
    assert_eq!((l1, r1), (1, 0));
    let (l2, r2) = c.advance(&DiffOp::Both("b".to_string(), "b".to_string()));
    assert_eq!((l2, r2), (2, 1));
    let (l3, r3) = c.advance(&DiffOp::RightOnly("c".to_string()));
    assert_eq!((l3, r3), (2, 2));
}

#[test]
fn paginator_pauses_after_each_full_batch() {
    let mut p = Paginator::new(3);
    assert!(!p.note_row());
    assert!(!p.note_row());
    assert!(p.note_row());
    assert!(!p.note_row());
    assert!(!p.note_row());
    assert!(p.note_row());
}

#[test]
fn color_slots_follow_row_class() {
    let assign = ColorAssignment { left: Color::Red, both: Color::White, right: Color::Green };
    assert_eq!(color_for(&assign, RowClass::LeftRow), Color::Red);
    assert_eq!(color_for(&assign, RowClass::BothRow), Color::White);
    assert_eq!(color_for(&assign, RowClass::RightRow), Color::Green);
}
