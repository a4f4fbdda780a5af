//! Classified alignment operations and the dual line counter.

use vstd::prelude::*;

verus! {

/// One element of the aligned stream: a line present only on the left,
/// only on the right, or on both sides.
pub enum DiffOp {
    LeftOnly(String),
    RightOnly(String),
    Both(String, String),
}

/// Whether the operation references the left input (and so advances the
/// left line counter).
pub open spec fn touches_left(op: DiffOp) -> bool {
    op is LeftOnly || op is Both
}

/// Whether the operation references the right input (and so advances the
/// right line counter).
pub open spec fn touches_right(op: DiffOp) -> bool {
    op is RightOnly || op is Both
}

/// The line content a rendered row shows: the left content for
/// `LeftOnly` and `Both`, the right content for `RightOnly`.
pub open spec fn shown_content(op: DiffOp) -> Seq<char> {
    match op {
        DiffOp::LeftOnly(l) => l@,
        DiffOp::Both(l, _) => l@,
        DiffOp::RightOnly(r) => r@,
    }
}

/// The left-side contents of the stream, in order: what `LeftOnly` and
/// `Both` operations carry for the left input.
pub open spec fn left_project(ops: Seq<DiffOp>) -> Seq<Seq<char>>
    decreases ops.len(),
{
    if ops.len() == 0 {
        Seq::empty()
    } else {
        match ops[0] {
            DiffOp::LeftOnly(l) => seq![l@] + left_project(ops.drop_first()),
            DiffOp::Both(l, _) => seq![l@] + left_project(ops.drop_first()),
            DiffOp::RightOnly(_) => left_project(ops.drop_first()),
        }
    }
}

/// The right-side contents of the stream, in order: what `RightOnly` and
/// `Both` operations carry for the right input.
pub open spec fn right_project(ops: Seq<DiffOp>) -> Seq<Seq<char>>
    decreases ops.len(),
{
    if ops.len() == 0 {
        Seq::empty()
    } else {
        match ops[0] {
            DiffOp::RightOnly(r) => seq![r@] + right_project(ops.drop_first()),
            DiffOp::Both(_, r) => seq![r@] + right_project(ops.drop_first()),
            DiffOp::LeftOnly(_) => right_project(ops.drop_first()),
        }
    }
}

/// How many operations of the stream touch the left side.
pub open spec fn left_count(ops: Seq<DiffOp>) -> nat
    decreases ops.len(),
{
    if ops.len() == 0 {
        0
    } else {
        (if touches_left(ops[0]) {
            1nat
        } else {
            0nat
        }) + left_count(ops.drop_first())
    }
}

/// How many operations of the stream touch the right side.
pub open spec fn right_count(ops: Seq<DiffOp>) -> nat
    decreases ops.len(),
{
    if ops.len() == 0 {
        0
    } else {
        (if touches_right(ops[0]) {
            1nat
        } else {
            0nat
        }) + right_count(ops.drop_first())
    }
}

/// The pair of 1-based line counters, advanced once per operation.
pub struct LineCounters {
    pub left: usize,
    pub right: usize,
}

impl LineCounters {
    /// Both counters start at zero.
    pub fn new() -> (c: LineCounters)
        ensures
            c.left == 0,
            c.right == 0,
    {
        LineCounters { left: 0, right: 0 }
    }

    /// Advance for one operation: the left counter moves exactly on
    /// `LeftOnly` and `Both`, the right counter exactly on `RightOnly`
    /// and `Both`; the post-increment values come back for rendering.
    pub fn advance(&mut self, op: &DiffOp) -> (nums: (usize, usize))
        requires
            touches_left(*op) ==> old(self).left < usize::MAX,
            touches_right(*op) ==> old(self).right < usize::MAX,
        ensures
            final(self).left == old(self).left + (if touches_left(*op) {
                1int
            } else {
                0int
            }),
            final(self).right == old(self).right + (if touches_right(*op) {
                1int
            } else {
                0int
            }),
            nums.0 == final(self).left,
            nums.1 == final(self).right,
    {
        match op {
            DiffOp::LeftOnly(_) => {
                self.left = self.left + 1;
            },
            DiffOp::RightOnly(_) => {
                self.right = self.right + 1;
            },
            DiffOp::Both(_, _) => {
                self.left = self.left + 1;
                self.right = self.right + 1;
            },
        }
        (self.left, self.right)
    }
}

/// The counts split over a concatenation of streams.
pub proof fn lemma_count_add(a: Seq<DiffOp>, b: Seq<DiffOp>)
    ensures
        left_count(a + b) == left_count(a) + left_count(b),
        right_count(a + b) == right_count(a) + right_count(b),
    decreases a.len(),
{
    if a.len() == 0 {
        assert(a + b =~= b);
    } else {
        assert((a + b).drop_first() =~= a.drop_first() + b);
        lemma_count_add(a.drop_first(), b);
    }
}

/// Each operation moves each counter by exactly 0 or 1: by 1 exactly when
/// the operation touches that side.
pub proof fn lemma_counter_step(ops: Seq<DiffOp>, i: int)
    requires
        0 <= i < ops.len(),
    ensures
        left_count(ops.take(i + 1)) == left_count(ops.take(i)) + (if touches_left(ops[i]) {
            1nat
        } else {
            0nat
        }),
        right_count(ops.take(i + 1)) == right_count(ops.take(i)) + (if touches_right(ops[i]) {
            1nat
        } else {
            0nat
        }),
{
    let single = seq![ops[i]];
    assert(ops.take(i + 1) =~= ops.take(i) + single);
    lemma_count_add(ops.take(i), single);
    assert(single.drop_first() =~= Seq::<DiffOp>::empty());
    assert(left_count(Seq::<DiffOp>::empty()) == 0);
    assert(right_count(Seq::<DiffOp>::empty()) == 0);
    assert(left_count(single) == (if touches_left(ops[i]) {
        1nat
    } else {
        0nat
    }));
    assert(right_count(single) == (if touches_right(ops[i]) {
        1nat
    } else {
        0nat
    }));
}

/// Along any operation stream both counters are non-decreasing: an earlier
/// prefix never counts more than a later one.
pub proof fn lemma_counters_monotonic(ops: Seq<DiffOp>, i: int, j: int)
    requires
        0 <= i <= j <= ops.len(),
    ensures
        left_count(ops.take(i)) <= left_count(ops.take(j)),
        right_count(ops.take(i)) <= right_count(ops.take(j)),
{
    assert(ops.take(j) =~= ops.take(i) + ops.subrange(i, j));
    lemma_count_add(ops.take(i), ops.subrange(i, j));
}

/// A stream whose left projection is empty is made of `RightOnly`
/// operations alone: the left counter stays at zero and the right counter
/// ends at the stream's length, which is the length of the right input.
pub proof fn lemma_left_empty_all_right(ops: Seq<DiffOp>)
    requires
        left_project(ops).len() == 0,
    ensures
        forall|i: int| 0 <= i < ops.len() ==> ops[i] is RightOnly,
        left_count(ops) == 0,
        right_count(ops) == ops.len(),
        right_project(ops).len() == ops.len(),
    decreases ops.len(),
{
    if ops.len() > 0 {
        lemma_left_empty_all_right(ops.drop_first());
        assert forall|i: int| 0 <= i < ops.len() implies ops[i] is RightOnly by {
            if i >= 1 {
                assert(ops[i] == ops.drop_first()[i - 1]);
            }
        }
    }
}

} // verus!
