//! The alignment adapter: wraps the external longest-common-subsequence
//! alignment into the classified operation stream.

use vstd::prelude::*;
use crate::ops::{DiffOp, left_project, right_project};

verus! {

/// Relies on `diff::slice`: a longest-common-subsequence alignment of
/// two slices whose `Left`/`Both` elements carry exactly the left
/// input's items in order, whose `Right`/`Both` elements carry exactly
/// the right input's items in order, and whose `Both` pairs compared
/// equal; its leading-equals scan consumes identical inputs whole, so
/// equal inputs align as `Both` pairs alone.
#[verifier::external_body]
fn align(left: &Vec<String>, right: &Vec<String>) -> (ops: Vec<DiffOp>)
    ensures
        left_project(ops@) == left.deep_view(),
        right_project(ops@) == right.deep_view(),
        forall|i: int|
            0 <= i < ops@.len() ==> (#[trigger] ops@[i] matches DiffOp::Both(l, r) ==> l@ == r@),
        left.deep_view() == right.deep_view() ==> forall|i: int|
            0 <= i < ops@.len() ==> #[trigger] ops@[i] is Both,
{
    diff::slice(left, right).into_iter().map(
        |d| match d {
            diff::Result::Left(l) => DiffOp::LeftOnly(l.clone()),
            diff::Result::Both(l, r) => DiffOp::Both(l.clone(), r.clone()),
            diff::Result::Right(r) => DiffOp::RightOnly(r.clone()),
        },
    ).collect()
}

/// Align two line sequences into the ordered operation stream: reading
/// only the left content of `LeftOnly`/`Both` operations reconstructs
/// the left input exactly, and the right content of `RightOnly`/`Both`
/// the right input; a `Both` operation carries one line present in
/// both. Identical inputs align as `Both` operations alone.
pub fn compute_diff(left: &Vec<String>, right: &Vec<String>) -> (ops: Vec<DiffOp>)
    ensures
        left_project(ops@) == left.deep_view(),
        right_project(ops@) == right.deep_view(),
        forall|i: int|
            0 <= i < ops@.len() ==> (#[trigger] ops@[i] matches DiffOp::Both(l, r) ==> l@ == r@),
        left.deep_view() == right.deep_view() ==> forall|i: int|
            0 <= i < ops@.len() ==> #[trigger] ops@[i] is Both,
{
    align(left, right)
}

} // verus!
