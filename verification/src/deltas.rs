//! The history of a text as deltas: the operations by which one text is
//! told from another.

use difference::Changeset;
use vstd::prelude::*;
use vstd::std_specs::cmp::PartialEqSpecImpl;
use vstd::string::StrSliceExecFns;
use vstd::utf8::encode_utf8;

use crate::sequences::views;
use crate::text::text_eq;

verus! {

/// One change to a text. Places and lengths count the bytes of the UTF-8
/// form of the text.
#[derive(Debug)]
pub enum Operation {
    /// Puts the text in at this place.
    Insert((u32, String)),
    /// Takes out, from this place on, this many bytes.
    Delete((u32, u32)),
}

/// What an [`Operation`] stands for.
pub enum OperationView {
    Insert(nat, Seq<char>),
    Delete(nat, nat),
}

impl View for Operation {
    type V = OperationView;

    open spec fn view(&self) -> OperationView {
        match self {
            Operation::Insert(p) => OperationView::Insert(p.0 as nat, p.1@),
            Operation::Delete(p) => OperationView::Delete(p.0 as nat, p.1 as nat),
        }
    }
}

impl Clone for Operation {
    fn clone(&self) -> (r: Self)
        ensures
            r == *self,
    {
        match self {
            Operation::Insert(p) => Operation::Insert((p.0, p.1.clone())),
            Operation::Delete(p) => Operation::Delete((p.0, p.1)),
        }
    }
}

impl PartialEq for Operation {
    fn eq(&self, other: &Self) -> (r: bool) {
        match (self, other) {
            (Operation::Insert(a), Operation::Insert(b)) => a.0 == b.0 && a.1 == b.1,
            (Operation::Delete(a), Operation::Delete(b)) => a.0 == b.0 && a.1 == b.1,
            _ => false,
        }
    }
}

impl PartialEqSpecImpl for Operation {
    open spec fn obeys_eq_spec() -> bool {
        true
    }

    open spec fn eq_spec(&self, other: &Self) -> bool {
        self@ == other@
    }
}

/// The operations that were made on a text at one time.
#[derive(Debug)]
pub struct Delta {
    pub operations: Vec<Operation>,
    /// When the operations were made, in milliseconds.
    pub timestamp_ms: u64,
}

/// What a [`Delta`] stands for.
pub struct DeltaView {
    pub operations: Seq<OperationView>,
    pub timestamp_ms: u64,
}

impl Clone for Delta {
    fn clone(&self) -> (r: Self)
        ensures
            r@ == self@,
    {
        let mut operations: Vec<Operation> = Vec::new();
        let mut i: usize = 0;
        while i < self.operations.len()
            invariant
                i <= self.operations.len(),
                operations@.len() == i,
                forall|k: int| 0 <= k < i ==> operations@[k]@ == self.operations@[k]@,
            decreases self.operations.len() - i,
        {
            operations.push(self.operations[i].clone());
            i = i + 1;
        }
        assert(views(operations@) =~= views(self.operations@));
        Delta { operations, timestamp_ms: self.timestamp_ms }
    }
}

impl View for Delta {
    type V = DeltaView;

    open spec fn view(&self) -> DeltaView {
        DeltaView { operations: views(self.operations@), timestamp_ms: self.timestamp_ms }
    }
}

/// A piece of a comparison of two texts.
#[derive(Debug)]
pub enum Difference {
    /// Text that both hold.
    Same(String),
    /// Text that only the second holds.
    Add(String),
    /// Text that only the first holds.
    Rem(String),
}

/// What a [`Difference`] stands for.
pub enum DifferenceView {
    Same(Seq<char>),
    Add(Seq<char>),
    Rem(Seq<char>),
}

impl View for Difference {
    type V = DifferenceView;

    open spec fn view(&self) -> DifferenceView {
        match self {
            Difference::Same(t) => DifferenceView::Same(t@),
            Difference::Add(t) => DifferenceView::Add(t@),
            Difference::Rem(t) => DifferenceView::Rem(t@),
        }
    }
}

/// The pieces that `difference::Changeset::new` gives for two texts and the
/// text at which they are split.
pub uninterp spec fn changeset_diffs(orig: Seq<char>, edit: Seq<char>, split: Seq<char>) -> Seq<
    DifferenceView,
>;

/// Whether the table that a comparison of two texts character by character
/// fills can be allocated: it holds a number of 8 bytes for each pair of
/// characters.
pub open spec fn table_fits(orig: Seq<char>, edit: Seq<char>) -> bool {
    orig.len() * edit.len() * 8 <= isize::MAX
}

/// `difference::Changeset::new`, of which the pieces are taken: the texts are
/// compared character by character, where `split` is empty, and what comes
/// back is a function of the three texts alone. The table that the comparison
/// allocates must fit; with a text to split at, this says nothing.
#[verifier::external_body]
fn changeset(orig: &str, edit: &str, split: &str) -> (r: Vec<Difference>)
    requires
        split@.len() == 0,
        table_fits(orig@, edit@),
    ensures
        views(r@) == changeset_diffs(orig@, edit@, split@),
{
    Changeset::new(orig, edit, split).diffs.into_iter().map(
        |d| match d {
            difference::Difference::Same(t) => Difference::Same(t),
            difference::Difference::Add(t) => Difference::Add(t),
            difference::Difference::Rem(t) => Difference::Rem(t),
        },
    ).collect()
}

/// The number of bytes of the UTF-8 form of a text.
pub open spec fn byte_len(text: Seq<char>) -> nat {
    encode_utf8(text).len()
}

/// The operations that the pieces of a comparison stand for, when `offset`
/// bytes of shared text lie before them: what only the first text holds is
/// deleted at the offset, what only the second holds is inserted there, and
/// shared text moves the offset on.
pub open spec fn operations_from(diffs: Seq<DifferenceView>, offset: nat) -> Seq<OperationView>
    decreases diffs.len(),
{
    if diffs.len() == 0 {
        Seq::empty()
    } else {
        let rest = diffs.drop_first();
        match diffs[0] {
            DifferenceView::Rem(t) => seq![OperationView::Delete(offset, byte_len(t))]
                + operations_from(rest, offset),
            DifferenceView::Add(t) => seq![OperationView::Insert(offset, t)] + operations_from(
                rest,
                offset,
            ),
            DifferenceView::Same(t) => operations_from(rest, offset + byte_len(t)),
        }
    }
}

/// Whether every offset that the pieces lead to, and the length of every
/// piece that is deleted, fits 32 bits.
pub open spec fn offsets_fit(diffs: Seq<DifferenceView>, offset: nat) -> bool
    decreases diffs.len(),
{
    if diffs.len() == 0 {
        true
    } else {
        let rest = diffs.drop_first();
        match diffs[0] {
            DifferenceView::Rem(t) => byte_len(t) <= u32::MAX && offsets_fit(rest, offset),
            DifferenceView::Add(_) => offsets_fit(rest, offset),
            DifferenceView::Same(t) => offset + byte_len(t) <= u32::MAX && offsets_fit(
                rest,
                offset + byte_len(t),
            ),
        }
    }
}

/// The optional list of operations as views.
pub open spec fn opt_operations(ops: Option<Vec<Operation>>) -> Option<Seq<OperationView>> {
    match ops {
        Some(o) => Some(views(o@)),
        None => None,
    }
}

/// The operations that the pieces of a comparison stand for; none where an
/// offset or a length does not fit 32 bits.
pub fn delta_operations(diffs: &Vec<Difference>) -> (r: Option<Vec<Operation>>)
    ensures
        opt_operations(r) == if offsets_fit(views(diffs@), 0) {
            Some(operations_from(views(diffs@), 0))
        } else {
            None
        },
{
    let ghost all = views(diffs@);
    let mut deltas: Vec<Operation> = Vec::new();
    let mut offset: u32 = 0;
    let mut i: usize = 0;
    assert(all.skip(0) == all);
    while i < diffs.len()
        invariant
            i <= diffs.len(),
            all == views(diffs@),
            operations_from(all, 0) == views(deltas@) + operations_from(
                all.skip(i as int),
                offset as nat,
            ),
            offsets_fit(all, 0) == offsets_fit(all.skip(i as int), offset as nat),
        decreases diffs.len() - i,
    {
        proof {
            assert(all.skip(i as int).drop_first() == all.skip(i + 1));
            assert(all.skip(i as int)[0] == diffs@[i as int]@);
        }
        let ghost before = deltas@;
        match &diffs[i] {
            Difference::Rem(text) => {
                let len = text.as_str().as_bytes().len();
                if len > u32::MAX as usize {
                    return None;
                }
                deltas.push(Operation::Delete((offset, len as u32)));
                assert(views(deltas@) =~= views(before) + seq![
                    OperationView::Delete(offset as nat, byte_len(text@)),
                ]);
            },
            Difference::Add(text) => {
                deltas.push(Operation::Insert((offset, text.clone())));
                assert(views(deltas@) =~= views(before) + seq![
                    OperationView::Insert(offset as nat, text@),
                ]);
            },
            Difference::Same(text) => {
                let len = text.as_str().as_bytes().len();
                if len > u32::MAX as usize {
                    return None;
                }
                match offset.checked_add(len as u32) {
                    Some(next) => {
                        offset = next;
                    },
                    None => {
                        return None;
                    },
                }
            },
        }
        proof {
            let rest = operations_from(all.skip(i + 1), offset as nat);
            assert(operations_from(all, 0) =~= views(deltas@) + rest);
        }
        i = i + 1;
    }
    assert(operations_from(all, 0) =~= views(deltas@));
    Some(deltas)
}

/// The operations by which one text differs from another: none for two equal
/// texts, else those that the pieces of their comparison, character by
/// character, stand for. There are none to be had where the texts are too long: where
/// the table of the comparison cannot be allocated, or an offset or a length
/// does not fit 32 bits.
pub open spec fn text_operations(initial_text: Seq<char>, final_text: Seq<char>) -> Option<
    Seq<OperationView>,
> {
    if initial_text == final_text {
        Some(Seq::empty())
    } else if table_fits(initial_text, final_text) && offsets_fit(
        changeset_diffs(initial_text, final_text, Seq::empty()),
        0,
    ) {
        Some(operations_from(changeset_diffs(initial_text, final_text, Seq::empty()), 0))
    } else {
        None
    }
}

/// The operations by which one text differs from another, or `None` where
/// the texts are too long for them to be had.
pub fn get_delta_operations(initial_text: &str, final_text: &str) -> (r: Option<Vec<Operation>>)
    ensures
        opt_operations(r) == text_operations(initial_text@, final_text@),
{
    if text_eq(initial_text, final_text) {
        return Some(Vec::new());
    }
    let n = initial_text.unicode_len();
    let m = final_text.unicode_len();
    let limit: usize = isize::MAX as usize / 8;
    if n != 0 && m > limit / n {
        assert(!table_fits(initial_text@, final_text@)) by (nonlinear_arith)
            requires
                n == initial_text@.len(),
                m == final_text@.len(),
                n != 0,
                m > limit / n,
                limit == isize::MAX as usize / 8,
        ;
        return None;
    }
    assert(table_fits(initial_text@, final_text@)) by (nonlinear_arith)
        requires
            n == initial_text@.len(),
            m == final_text@.len(),
            n == 0 || m <= limit / n,
            limit == isize::MAX as usize / 8,
    ;
    proof {
        reveal_strlit("");
        assert(""@ =~= Seq::<char>::empty());
    }
    let diffs = changeset(initial_text, final_text, "");
    delta_operations(&diffs)
}

} // verus!
