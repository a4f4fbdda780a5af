//! The render strategies: one shared row layout for terminal and text
//! output, an HTML variant with escaped content and a fixed document
//! shell, and the terminal paginator.

use vstd::prelude::*;
use vstd::string::StringExecFns;
use crate::config::{Color, ColorAssignment, RenderConfig};
use crate::ops::{
    DiffOp, LineCounters, left_count, right_count, shown_content, touches_left, touches_right,
};
use crate::textfmt::{
    chars_of, dec_digits, digits_of, lemma_dec_digits_are_digits, pad_right,
    push_chars, push_escaped, push_field, push_spaces, spaces, spec_digit, spec_escape, string_of,
};

verus! {

/// The class of a rendered row, used for terminal colors and HTML
/// classes: one per operation kind.
#[derive(Clone, Copy, Debug, PartialEq, Eq, Structural)]
pub enum RowClass {
    LeftRow,
    BothRow,
    RightRow,
}

/// The row class an operation renders as.
pub open spec fn class_of(op: DiffOp) -> RowClass {
    match op {
        DiffOp::LeftOnly(_) => RowClass::LeftRow,
        DiffOp::Both(_, _) => RowClass::BothRow,
        DiffOp::RightOnly(_) => RowClass::RightRow,
    }
}

/// The color the configured assignment gives a row class.
pub fn color_for(colors: &ColorAssignment, class: RowClass) -> (c: Color)
    ensures
        class is LeftRow ==> c == colors.left,
        class is BothRow ==> c == colors.both,
        class is RightRow ==> c == colors.right,
{
    match class {
        RowClass::LeftRow => colors.left,
        RowClass::BothRow => colors.both,
        RowClass::RightRow => colors.right,
    }
}

/// Everything of a row before its content: two width-`w` numeric
/// fields (blank for the side the operation does not touch), the state
/// glyph, and the `|` separator.
pub open spec fn spec_row_prefix(op: DiffOp, l: nat, r: nat, w: nat) -> Seq<char> {
    match op {
        DiffOp::LeftOnly(_) => pad_right(dec_digits(l), w) + seq!['-', ' '] + spaces(w) + seq![
            ' ',
            ' ',
            '|',
            ' ',
        ],
        DiffOp::Both(_, _) => pad_right(dec_digits(l), w) + seq![' ', ' '] + pad_right(
            dec_digits(r),
            w,
        ) + seq![' ', ' ', '|', ' '],
        DiffOp::RightOnly(_) => spaces(w) + seq![' ', ' '] + pad_right(dec_digits(r), w) + seq![
            '+',
            ' ',
            '|',
            ' ',
        ],
    }
}

/// A full terminal/text row: the prefix followed by the line content.
pub open spec fn spec_text_row(op: DiffOp, l: nat, r: nat, w: nat) -> Seq<char> {
    spec_row_prefix(op, l, r, w) + shown_content(op)
}

/// Build the row prefix for an operation, with the post-increment
/// counter values `lno` and `rno`.
pub fn build_row_prefix(op: &DiffOp, lno: usize, rno: usize, width: usize) -> (v: Vec<char>)
    ensures
        v@ == spec_row_prefix(*op, lno as nat, rno as nat, width as nat),
{
    let mut v: Vec<char> = Vec::new();
    match op {
        DiffOp::LeftOnly(_) => {
            let d = digits_of(lno);
            push_field(&mut v, &d, width);
            v.push('-');
            v.push(' ');
            push_spaces(&mut v, width);
            v.push(' ');
            v.push(' ');
            v.push('|');
            v.push(' ');
        },
        DiffOp::Both(_, _) => {
            let d = digits_of(lno);
            push_field(&mut v, &d, width);
            v.push(' ');
            v.push(' ');
            let d2 = digits_of(rno);
            push_field(&mut v, &d2, width);
            v.push(' ');
            v.push(' ');
            v.push('|');
            v.push(' ');
        },
        DiffOp::RightOnly(_) => {
            push_spaces(&mut v, width);
            v.push(' ');
            v.push(' ');
            let d = digits_of(rno);
            push_field(&mut v, &d, width);
            v.push('+');
            v.push(' ');
            v.push('|');
            v.push(' ');
        },
    }
    proof {
        assert(v@ =~= spec_row_prefix(*op, lno as nat, rno as nat, width as nat));
    }
    v
}

/// Build one terminal/text row as a string.
pub fn build_text_row(op: &DiffOp, lno: usize, rno: usize, width: usize) -> (s: String)
    ensures
        s@ == spec_text_row(*op, lno as nat, rno as nat, width as nat),
{
    let mut v = build_row_prefix(op, lno, rno, width);
    let content = match op {
        DiffOp::LeftOnly(c) => c,
        DiffOp::Both(c, _) => c,
        DiffOp::RightOnly(c) => c,
    };
    let cs = chars_of(content.as_str());
    push_chars(&mut v, &cs);
    string_of(&v)
}

/// No terminal/text row prefix contains the separator `|` before its
/// place, and when the line numbers fit the configured width the
/// prefix before the first `|` is exactly `2 * w + 4` characters.
pub proof fn lemma_row_width(op: DiffOp, l: nat, r: nat, w: nat)
    requires
        touches_left(op) ==> dec_digits(l).len() <= w,
        touches_right(op) ==> dec_digits(r).len() <= w,
    ensures
        spec_row_prefix(op, l, r, w).len() == 2 * w + 6,
        spec_text_row(op, l, r, w)[2 * (w as int) + 4] == '|',
        forall|i: int| 0 <= i < 2 * w + 4 ==> spec_text_row(op, l, r, w)[i] != '|',
{
    lemma_dec_digits_are_digits(l);
    lemma_dec_digits_are_digits(r);
    assert(forall|d: nat| d < 10 ==> spec_digit(d) != '|');
    let lf = pad_right(dec_digits(l), w);
    let rf = pad_right(dec_digits(r), w);
    assert(touches_left(op) ==> lf.len() == w);
    assert(touches_right(op) ==> rf.len() == w);
    assert(forall|i: int| 0 <= i < lf.len() ==> lf[i] != '|');
    assert(forall|i: int| 0 <= i < rf.len() ==> rf[i] != '|');
    assert(forall|i: int| 0 <= i < w ==> spaces(w)[i] != '|');
    let prefix = spec_row_prefix(op, l, r, w);
    assert(prefix.len() == 2 * w + 6);
    assert(prefix[2 * w + 4int] == '|');
    assert forall|i: int| 0 <= i < 2 * w + 4 implies prefix[i] != '|' by {
        match op {
            DiffOp::LeftOnly(_) => {
                if i < w {
                    assert(prefix[i] == lf[i]);
                } else if i < w + 2 {
                    assert(prefix[i] == seq!['-', ' '][i - w]);
                } else if i < 2 * w + 2 {
                    assert(prefix[i] == spaces(w)[i - w - 2]);
                } else {
                    assert(prefix[i] == seq![' ', ' ', '|', ' '][i - 2 * w - 2]);
                }
            },
            DiffOp::Both(_, _) => {
                if i < w {
                    assert(prefix[i] == lf[i]);
                } else if i < w + 2 {
                    assert(prefix[i] == seq![' ', ' '][i - w]);
                } else if i < 2 * w + 2 {
                    assert(prefix[i] == rf[i - w - 2]);
                } else {
                    assert(prefix[i] == seq![' ', ' ', '|', ' '][i - 2 * w - 2]);
                }
            },
            DiffOp::RightOnly(_) => {
                if i < w {
                    assert(prefix[i] == spaces(w)[i]);
                } else if i < w + 2 {
                    assert(prefix[i] == seq![' ', ' '][i - w]);
                } else if i < 2 * w + 2 {
                    assert(prefix[i] == rf[i - w - 2]);
                } else {
                    assert(prefix[i] == seq!['+', ' ', '|', ' '][i - 2 * w - 2]);
                }
            },
        }
    }
    assert(forall|i: int|
        0 <= i < prefix.len() ==> spec_text_row(op, l, r, w)[i] == prefix[i]);
}

/// A row that keeps the shared layout: its first `|` stands exactly
/// after the `2 * w + 4` characters of the numeric fields and glyph.
pub open spec fn row_prefix_ok(row: Seq<char>, w: nat) -> bool {
    &&& row.len() >= 2 * w + 6
    &&& row[2 * (w as int) + 4] == '|'
    &&& forall|i: int| 0 <= i < 2 * w + 4 ==> row[i] != '|'
}

/// A number never loses digits as it grows.
proof fn lemma_dec_len_monotone(a: nat, b: nat)
    requires
        a <= b,
    ensures
        dec_digits(a).len() <= dec_digits(b).len(),
    decreases b,
{
    if b < 10 {
    } else if a < 10 {
        assert(dec_digits(a).len() == 1);
        assert(dec_digits(b).len() == dec_digits(b / 10).len() + 1);
    } else {
        lemma_dec_len_monotone(a / 10, b / 10);
    }
}

/// One emitted row: its class (for color or CSS) and its text.
pub struct Record {
    pub class: RowClass,
    pub text: String,
}

/// The ghost shape of a record: class and text view.
pub open spec fn record_views(recs: Seq<Record>) -> Seq<(RowClass, Seq<char>)> {
    recs.map_values(|rec: Record| (rec.class, rec.text@))
}

/// What one pass over the stream emits, starting from counter values
/// `l` and `r`: every row when `show` holds, all but the `Both` rows
/// otherwise; the counters advance either way.
pub open spec fn spec_records(ops: Seq<DiffOp>, l: nat, r: nat, w: nat, show: bool) -> Seq<
    (RowClass, Seq<char>),
>
    decreases ops.len(),
{
    if ops.len() == 0 {
        Seq::empty()
    } else {
        let op = ops[0];
        let l2 = l + (if touches_left(op) {
            1nat
        } else {
            0nat
        });
        let r2 = r + (if touches_right(op) {
            1nat
        } else {
            0nat
        });
        let rest = spec_records(ops.drop_first(), l2, r2, w, show);
        if show || !(op is Both) {
            seq![(class_of(op), spec_text_row(op, l2, r2, w))] + rest
        } else {
            rest
        }
    }
}

/// The result of one rendering pass: the emitted records and the final
/// counter values.
pub struct RenderRun {
    pub records: Vec<Record>,
    pub counters: LineCounters,
}

/// Consume the operation stream once: advance the counters for every
/// operation, emit a row for each operation that the `show_unchanged`
/// flag keeps, and return the records with the final counters.
pub fn render_records(ops: &Vec<DiffOp>, cfg: &RenderConfig) -> (run: RenderRun)
    ensures
        record_views(run.records@) == spec_records(
            ops@,
            0,
            0,
            cfg.width as nat,
            cfg.show_unchanged,
        ),
        run.counters.left as nat == left_count(ops@),
        run.counters.right as nat == right_count(ops@),
{
    let w = cfg.width;
    let show = cfg.show_unchanged;
    let ghost all = spec_records(ops@, 0, 0, w as nat, show);
    let mut records: Vec<Record> = Vec::new();
    let mut counters = LineCounters::new();
    let mut i: usize = 0;
    proof {
        assert(ops@.skip(0) =~= ops@);
    }
    while i < ops.len()
        invariant
            i <= ops.len(),
            counters.left <= i,
            counters.right <= i,
            left_count(ops@) == counters.left + left_count(ops@.skip(i as int)),
            right_count(ops@) == counters.right + right_count(ops@.skip(i as int)),
            record_views(records@) + spec_records(
                ops@.skip(i as int),
                counters.left as nat,
                counters.right as nat,
                w as nat,
                show,
            ) == all,
            all == spec_records(ops@, 0, 0, w as nat, show),
        decreases ops.len() - i,
    {
        let ghost suffix = ops@.skip(i as int);
        let ghost l_old = counters.left as nat;
        let ghost r_old = counters.right as nat;
        proof {
            assert(suffix[0] == ops@[i as int]);
            assert(suffix.drop_first() =~= ops@.skip(i as int + 1));
        }
        let op = &ops[i];
        let nums = counters.advance(op);
        proof {
            let l2 = l_old + (if touches_left(suffix[0]) {
                1nat
            } else {
                0nat
            });
            let r2 = r_old + (if touches_right(suffix[0]) {
                1nat
            } else {
                0nat
            });
            assert(counters.left as nat == l2);
            assert(counters.right as nat == r2);
            assert(left_count(suffix) == (if touches_left(suffix[0]) {
                1nat
            } else {
                0nat
            }) + left_count(ops@.skip(i as int + 1)));
            assert(right_count(suffix) == (if touches_right(suffix[0]) {
                1nat
            } else {
                0nat
            }) + right_count(ops@.skip(i as int + 1)));
            let rest = spec_records(ops@.skip(i as int + 1), l2, r2, w as nat, show);
            assert(spec_records(suffix, l_old, r_old, w as nat, show) == (if show || !(suffix[0]
                is Both) {
                seq![(class_of(suffix[0]), spec_text_row(suffix[0], l2, r2, w as nat))] + rest
            } else {
                rest
            }));
        }
        if show || !(matches!(op, DiffOp::Both(_, _))) {
            let text = build_text_row(op, nums.0, nums.1, w);
            let class = match op {
                DiffOp::LeftOnly(_) => RowClass::LeftRow,
                DiffOp::Both(_, _) => RowClass::BothRow,
                DiffOp::RightOnly(_) => RowClass::RightRow,
            };
            let rec = Record { class, text };
            proof {
                let rv = record_views(records@);
                let row = (class_of(suffix[0]), spec_text_row(
                    suffix[0],
                    counters.left as nat,
                    counters.right as nat,
                    w as nat,
                ));
                let rest = spec_records(
                    ops@.skip(i as int + 1),
                    counters.left as nat,
                    counters.right as nat,
                    w as nat,
                    show,
                );
                assert(record_views(records@.push(rec)) =~= rv.push(row));
                assert(rv.push(row) + rest =~= rv + (seq![row] + rest));
            }
            records.push(rec);
        }
        i = i + 1;
    }
    proof {
        assert(ops@.skip(ops@.len() as int) =~= Seq::<DiffOp>::empty());
        assert(record_views(records@) + Seq::<(RowClass, Seq<char>)>::empty() =~= record_views(
            records@,
        ));
    }
    RenderRun { records, counters }
}

/// The rows the text strategy writes to its file: the text of each
/// emitted record, in order.
pub fn render_text(ops: &Vec<DiffOp>, cfg: &RenderConfig) -> (rows: Vec<String>)
    ensures
        rows@.map_values(|s: String| s@) == spec_records(
            ops@,
            0,
            0,
            cfg.width as nat,
            cfg.show_unchanged,
        ).map_values(|rec: (RowClass, Seq<char>)| rec.1),
{
    let run = render_records(ops, cfg);
    let ghost all = spec_records(ops@, 0, 0, cfg.width as nat, cfg.show_unchanged);
    let mut rows: Vec<String> = Vec::new();
    let mut i: usize = 0;
    while i < run.records.len()
        invariant
            i <= run.records.len(),
            record_views(run.records@) == all,
            rows@.map_values(|s: String| s@) == all.map_values(
                |rec: (RowClass, Seq<char>)| rec.1,
            ).take(i as int),
        decreases run.records.len() - i,
    {
        let text = run.records[i].text.clone();
        proof {
            assert(record_views(run.records@)[i as int] == (
                run.records@[i as int].class,
                run.records@[i as int].text@,
            ));
            assert(rows@.push(text).map_values(|s: String| s@) =~= rows@.map_values(
                |s: String| s@,
            ).push(text@));
            assert(rows@.map_values(|s: String| s@).push(text@) =~= all.map_values(
                |rec: (RowClass, Seq<char>)| rec.1,
            ).take(i + 1));
        }
        rows.push(text);
        i = i + 1;
    }
    proof {
        let m = all.map_values(|rec: (RowClass, Seq<char>)| rec.1);
        assert(m.take(m.len() as int) =~= m);
    }
    rows
}

/// Rendering with unchanged rows suppressed emits exactly the rows that
/// rendering with them shown emits, minus the `Both` rows: suppression
/// only hides rows, it never renumbers or reorders the rest.
pub proof fn lemma_suppression(ops: Seq<DiffOp>, l: nat, r: nat, w: nat)
    ensures
        spec_records(ops, l, r, w, false) == spec_records(ops, l, r, w, true).filter(
            |rec: (RowClass, Seq<char>)| !(rec.0 is BothRow),
        ),
    decreases ops.len(),
{
    reveal(Seq::filter);
    let p = |rec: (RowClass, Seq<char>)| !(rec.0 is BothRow);
    if ops.len() == 0 {
        assert(Seq::<(RowClass, Seq<char>)>::empty().filter(p) =~= Seq::<
            (RowClass, Seq<char>),
        >::empty());
    } else {
        let op = ops[0];
        let l2 = l + (if touches_left(op) {
            1nat
        } else {
            0nat
        });
        let r2 = r + (if touches_right(op) {
            1nat
        } else {
            0nat
        });
        lemma_suppression(ops.drop_first(), l2, r2, w);
        let rest_t = spec_records(ops.drop_first(), l2, r2, w, true);
        let rest_f = spec_records(ops.drop_first(), l2, r2, w, false);
        let row = (class_of(op), spec_text_row(op, l2, r2, w));
        rest_t.lemma_filter_prepend(row, p);
        assert(spec_records(ops, l, r, w, true) == seq![row] + rest_t);
        if op is Both {
            assert(!p(row));
            assert((seq![row] + rest_t).filter(p) =~= rest_t.filter(p));
            assert(spec_records(ops, l, r, w, false) == rest_f);
        } else {
            assert(p(row));
            assert((seq![row] + rest_t).filter(p) =~= seq![row] + rest_t.filter(p));
            assert(spec_records(ops, l, r, w, false) == seq![row] + rest_f);
        }
    }
}

/// Every row one pass emits keeps the shared layout, as long as the
/// final counter values still print within the configured field width:
/// each emitted row's first `|` stands after exactly `2 * w + 4`
/// characters.
pub proof fn lemma_records_width(ops: Seq<DiffOp>, l: nat, r: nat, w: nat, show: bool)
    requires
        dec_digits(l + left_count(ops)).len() <= w,
        dec_digits(r + right_count(ops)).len() <= w,
    ensures
        forall|k: int|
            0 <= k < spec_records(ops, l, r, w, show).len() ==> #[trigger] row_prefix_ok(
                spec_records(ops, l, r, w, show)[k].1,
                w,
            ),
    decreases ops.len(),
{
    if ops.len() > 0 {
        let op = ops[0];
        let l2 = l + (if touches_left(op) {
            1nat
        } else {
            0nat
        });
        let r2 = r + (if touches_right(op) {
            1nat
        } else {
            0nat
        });
        assert(left_count(ops) == (if touches_left(op) {
            1nat
        } else {
            0nat
        }) + left_count(ops.drop_first()));
        assert(right_count(ops) == (if touches_right(op) {
            1nat
        } else {
            0nat
        }) + right_count(ops.drop_first()));
        lemma_records_width(ops.drop_first(), l2, r2, w, show);
        lemma_dec_len_monotone(l2, l + left_count(ops));
        lemma_dec_len_monotone(r2, r + right_count(ops));
        lemma_row_width(op, l2, r2, w);
        let row = spec_text_row(op, l2, r2, w);
        assert(row_prefix_ok(row, w));
        let rest = spec_records(ops.drop_first(), l2, r2, w, show);
        let whole = spec_records(ops, l, r, w, show);
        assert forall|k: int| 0 <= k < whole.len() implies #[trigger] row_prefix_ok(
            whole[k].1,
            w,
        ) by {
            if show || !(op is Both) {
                if k == 0 {
                    assert(whole[k].1 == row);
                } else {
                    assert(whole[k] == rest[k - 1]);
                    assert(row_prefix_ok(rest[k - 1].1, w));
                }
            } else {
                assert(whole[k] == rest[k]);
                assert(row_prefix_ok(rest[k].1, w));
            }
        }
    }
}

/// A stream of `Both` operations alone — identical inputs, as aligned —
/// emits nothing when unchanged rows are suppressed, while both
/// counters still advance once per operation.
pub proof fn lemma_all_both_suppressed(ops: Seq<DiffOp>, l: nat, r: nat, w: nat)
    requires
        forall|i: int| 0 <= i < ops.len() ==> ops[i] is Both,
    ensures
        spec_records(ops, l, r, w, false).len() == 0,
        left_count(ops) == ops.len(),
        right_count(ops) == ops.len(),
    decreases ops.len(),
{
    if ops.len() > 0 {
        assert(forall|i: int|
            0 <= i < ops.drop_first().len() ==> #[trigger] ops.drop_first()[i] == ops[i + 1]);
        lemma_all_both_suppressed(ops.drop_first(), l + 1nat, r + 1nat, w);
    }
}

/// A stream of `RightOnly` operations alone emits one row per
/// operation, whatever the `show` flag says.
pub proof fn lemma_all_right_emitted(ops: Seq<DiffOp>, l: nat, r: nat, w: nat, show: bool)
    requires
        forall|i: int| 0 <= i < ops.len() ==> ops[i] is RightOnly,
    ensures
        spec_records(ops, l, r, w, show).len() == ops.len(),
    decreases ops.len(),
{
    if ops.len() > 0 {
        assert(forall|i: int|
            0 <= i < ops.drop_first().len() ==> #[trigger] ops.drop_first()[i] == ops[i + 1]);
        let r2 = r + 1nat;
        lemma_all_right_emitted(ops.drop_first(), l, r2, w, show);
    }
}

/// The opening of an HTML row: indentation and a `pre` element tagged
/// with the CSS class of the row's kind.
pub open spec fn html_row_open(class: RowClass) -> Seq<char> {
    match class {
        RowClass::LeftRow => "            <pre class='left'>"@,
        RowClass::BothRow => "            <pre class='both'>"@,
        RowClass::RightRow => "            <pre class='right'>"@,
    }
}

/// The closing of an HTML row.
pub open spec fn html_row_close() -> Seq<char> {
    "</pre>\n"@
}

/// One HTML row: the class-tagged element around the shared layout,
/// with the content HTML-escaped.
pub open spec fn spec_html_row(op: DiffOp, l: nat, r: nat, w: nat) -> Seq<char> {
    html_row_open(class_of(op)) + spec_row_prefix(op, l, r, w) + spec_escape(shown_content(op))
        + html_row_close()
}

/// The concatenated HTML rows of the stream, under the same counter
/// and suppression rules as the other variants.
pub open spec fn spec_html_body(ops: Seq<DiffOp>, l: nat, r: nat, w: nat, show: bool) -> Seq<char>
    decreases ops.len(),
{
    if ops.len() == 0 {
        Seq::empty()
    } else {
        let op = ops[0];
        let l2 = l + (if touches_left(op) {
            1nat
        } else {
            0nat
        });
        let r2 = r + (if touches_right(op) {
            1nat
        } else {
            0nat
        });
        let rest = spec_html_body(ops.drop_first(), l2, r2, w, show);
        if show || !(op is Both) {
            spec_html_row(op, l2, r2, w) + rest
        } else {
            rest
        }
    }
}

/// The fixed document head: metadata and the embedded stylesheet that
/// gives `left`, `both` and `right` rows their fixed colors.
pub open spec fn html_header() -> Seq<char> {
    "<!DOCTYPE html>\n<html lang='en'>\n<head>\n    <meta charset='UTF-8'>\n    <meta http-equiv='X-UA-Compatible' content='IE=edge'>\n    <meta name='viewport' content='width=device-width, initial-scale=1.0'>\n    <title>highlight diff</title>\n    <style>\nbody {\n  width: 100%;\n  height: auto;\n  margin: 0px;\n}\n.heading {\n  background-color: #fcd143;\n  margin: 0;\n  padding: 1rem;\n  max-width: 100%;\n  text-align: center;\n  border-bottom-left-radius: 2rem;\n  border-top-right-radius: 2rem;\n  font-family: 'Heebo', sans-serif;\n  margin-block-start: 0rem;\n  margin-block-end: 0rem;\n}\ncode {\n  display: block;\n  text-align: left;\n  white-space: pre-line;\n  position: relative;\n  word-break: normal;\n  word-wrap: normal;\n  line-height: 0.5;\n  background-color: #696969;\n  padding: 15px;\n  margin: 10px;\n  border-radius: 5px;\n  color: #FFFFFF;\n  font-size: 18px;\n}\npre {\n  margin: 0;\n  padding: 0;\n  line-height: 1.2;\n  border: 1px solid rgba(0,0,0,0);\n  border-radius: 5px;\n}\npre:hover {\n  border: 1px solid white;\n}\n.left {\n  background-color: #FF6347;\n}\n.both {\n  background-color: #696969;\n}\n.right {\n  background-color: #3CB371;\n}\n    </style>\n</head>\n<body>\n    <div>\n        <h1 class='heading'>highlight diff</h1>\n    </div>\n    <div>\n        <code>\n"@
}

/// The fixed document tail.
pub open spec fn html_footer() -> Seq<char> {
    "        </code>\n    </div>\n</body>\n</html>\n"@
}

/// The whole HTML report: head, rendered rows, tail.
pub open spec fn spec_html_document(ops: Seq<DiffOp>, w: nat, show: bool) -> Seq<char> {
    html_header() + spec_html_body(ops, 0, 0, w, show) + html_footer()
}

/// Build one HTML row as a string.
pub fn build_html_row(op: &DiffOp, lno: usize, rno: usize, width: usize) -> (s: String)
    ensures
        s@ == spec_html_row(*op, lno as nat, rno as nat, width as nat),
{
    let mut v: Vec<char> = Vec::new();
    let open_chars = match op {
        DiffOp::LeftOnly(_) => chars_of("            <pre class='left'>"),
        DiffOp::Both(_, _) => chars_of("            <pre class='both'>"),
        DiffOp::RightOnly(_) => chars_of("            <pre class='right'>"),
    };
    push_chars(&mut v, &open_chars);
    let pre = build_row_prefix(op, lno, rno, width);
    push_chars(&mut v, &pre);
    let content = match op {
        DiffOp::LeftOnly(c) => c,
        DiffOp::Both(c, _) => c,
        DiffOp::RightOnly(c) => c,
    };
    let cs = chars_of(content.as_str());
    push_escaped(&mut v, &cs);
    let close_chars = chars_of("</pre>\n");
    push_chars(&mut v, &close_chars);
    proof {
        assert(v@ =~= spec_html_row(*op, lno as nat, rno as nat, width as nat));
    }
    string_of(&v)
}

/// Render the whole HTML report: the fixed shell around one pass over
/// the stream, with escaped content and suppression as configured.
pub fn render_html_document(ops: &Vec<DiffOp>, cfg: &RenderConfig) -> (doc: String)
    ensures
        doc@ == spec_html_document(ops@, cfg.width as nat, cfg.show_unchanged),
{
    let w = cfg.width;
    let show = cfg.show_unchanged;
    let ghost whole = html_header() + spec_html_body(ops@, 0, 0, w as nat, show);
    let mut doc = String::new();
    doc.append(
        "<!DOCTYPE html>\n<html lang='en'>\n<head>\n    <meta charset='UTF-8'>\n    <meta http-equiv='X-UA-Compatible' content='IE=edge'>\n    <meta name='viewport' content='width=device-width, initial-scale=1.0'>\n    <title>highlight diff</title>\n    <style>\nbody {\n  width: 100%;\n  height: auto;\n  margin: 0px;\n}\n.heading {\n  background-color: #fcd143;\n  margin: 0;\n  padding: 1rem;\n  max-width: 100%;\n  text-align: center;\n  border-bottom-left-radius: 2rem;\n  border-top-right-radius: 2rem;\n  font-family: 'Heebo', sans-serif;\n  margin-block-start: 0rem;\n  margin-block-end: 0rem;\n}\ncode {\n  display: block;\n  text-align: left;\n  white-space: pre-line;\n  position: relative;\n  word-break: normal;\n  word-wrap: normal;\n  line-height: 0.5;\n  background-color: #696969;\n  padding: 15px;\n  margin: 10px;\n  border-radius: 5px;\n  color: #FFFFFF;\n  font-size: 18px;\n}\npre {\n  margin: 0;\n  padding: 0;\n  line-height: 1.2;\n  border: 1px solid rgba(0,0,0,0);\n  border-radius: 5px;\n}\npre:hover {\n  border: 1px solid white;\n}\n.left {\n  background-color: #FF6347;\n}\n.both {\n  background-color: #696969;\n}\n.right {\n  background-color: #3CB371;\n}\n    </style>\n</head>\n<body>\n    <div>\n        <h1 class='heading'>highlight diff</h1>\n    </div>\n    <div>\n        <code>\n",
    );
    let mut counters = LineCounters::new();
    let mut i: usize = 0;
    proof {
        assert(ops@.skip(0) =~= ops@);
    }
    while i < ops.len()
        invariant
            i <= ops.len(),
            counters.left <= i,
            counters.right <= i,
            doc@ + spec_html_body(
                ops@.skip(i as int),
                counters.left as nat,
                counters.right as nat,
                w as nat,
                show,
            ) == whole,
            whole == html_header() + spec_html_body(ops@, 0, 0, w as nat, show),
        decreases ops.len() - i,
    {
        let ghost suffix = ops@.skip(i as int);
        let ghost l_old = counters.left as nat;
        let ghost r_old = counters.right as nat;
        proof {
            assert(suffix[0] == ops@[i as int]);
            assert(suffix.drop_first() =~= ops@.skip(i as int + 1));
        }
        let op = &ops[i];
        let nums = counters.advance(op);
        proof {
            let l2 = l_old + (if touches_left(suffix[0]) {
                1nat
            } else {
                0nat
            });
            let r2 = r_old + (if touches_right(suffix[0]) {
                1nat
            } else {
                0nat
            });
            let rest = spec_html_body(ops@.skip(i as int + 1), l2, r2, w as nat, show);
            assert(spec_html_body(suffix, l_old, r_old, w as nat, show) == (if show || !(suffix[0]
                is Both) {
                spec_html_row(suffix[0], l2, r2, w as nat) + rest
            } else {
                rest
            }));
        }
        if show || !(matches!(op, DiffOp::Both(_, _))) {
            let row = build_html_row(op, nums.0, nums.1, w);
            proof {
                assert((doc@ + row@) + spec_html_body(
                    ops@.skip(i as int + 1),
                    counters.left as nat,
                    counters.right as nat,
                    w as nat,
                    show,
                ) =~= doc@ + (row@ + spec_html_body(
                    ops@.skip(i as int + 1),
                    counters.left as nat,
                    counters.right as nat,
                    w as nat,
                    show,
                )));
            }
            doc.append(row.as_str());
        }
        i = i + 1;
    }
    proof {
        assert(ops@.skip(ops@.len() as int) =~= Seq::<DiffOp>::empty());
        assert(doc@ + Seq::<char>::empty() =~= doc@);
    }
    doc.append("        </code>\n    </div>\n</body>\n</html>\n");
    doc
}

/// The terminal paginator: counts emitted rows and asks for a pause
/// after each full batch. Only rows actually written count toward a
/// batch: rows suppressed by the unchanged-row flag never reach it.
pub struct Paginator {
    pub batch: usize,
    pub count: usize,
}

impl Paginator {
    /// The rows counted since the last pause stay below the batch size.
    pub open spec fn wf(self) -> bool {
        self.count < self.batch
    }

    /// A paginator that pauses after every `batch` rows.
    pub fn new(batch: usize) -> (p: Paginator)
        requires
            batch >= 1,
        ensures
            p.batch == batch,
            p.count == 0,
            p.wf(),
    {
        Paginator { batch, count: 0 }
    }

    /// Note one emitted row: pause exactly when it completes a batch,
    /// and start the next batch after a pause.
    pub fn note_row(&mut self) -> (pause: bool)
        requires
            old(self).wf(),
        ensures
            final(self).batch == old(self).batch,
            pause == (old(self).count + 1 == old(self).batch),
            final(self).count == (if pause {
                0int
            } else {
                old(self).count + 1
            }),
            final(self).wf(),
    {
        self.count = self.count + 1;
        if self.count == self.batch {
            self.count = 0;
            true
        } else {
            false
        }
    }
}

} // verus!
