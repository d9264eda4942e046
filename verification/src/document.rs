//! A text that is built from deltas and keeps those that were made on it.

use std::time::{Duration, SystemTime, SystemTimeError};
use vstd::prelude::*;
use vstd::utf8::{
    decode_utf8, encode_utf8, encode_utf8_decode_utf8, encode_utf8_valid_utf8, is_char_boundary,
};
use yrs::{Doc, GetString, Text, Transact};

use crate::deltas::{
    byte_len, get_delta_operations, text_operations, Delta, DeltaView, Operation, OperationView,
};
use crate::sequences::views;

verus! {

/// `yrs::Doc`, taken as it is: nothing of a document is seen but what the
/// functions below say of its text and its clock.
#[verifier::external_type_specification]
#[verifier::external_body]
pub struct ExDoc(Doc);

/// `std::time::SystemTime`, taken as it is.
#[verifier::external_type_specification]
#[verifier::external_body]
pub struct ExSystemTime(SystemTime);

/// `std::time::SystemTimeError`, taken as it is.
#[verifier::external_type_specification]
#[verifier::external_body]
pub struct ExSystemTimeError(SystemTimeError);

/// The bytes of the text that a document holds under a name: the UTF-8 form
/// of what `GetString::get_string` gives for it.
pub uninterp spec fn text_bytes(doc: Doc, name: Seq<char>) -> Seq<u8>;

/// The clock of a document: the number that it gives to the next piece put
/// into it. The document keeps it in 32 bits, and counts a piece by its
/// length in units of UTF-16, which is never more than its length in bytes.
pub uninterp spec fn text_clock(doc: Doc) -> nat;

/// The bytes with those of `chunk` put in at `index`.
pub open spec fn with_inserted(bytes: Seq<u8>, index: nat, chunk: Seq<u8>) -> Seq<u8> {
    bytes.subrange(0, index as int) + chunk + bytes.subrange(index as int, bytes.len() as int)
}

/// The bytes without the `len` of them that begin at `index`.
pub open spec fn with_removed(bytes: Seq<u8>, index: nat, len: nat) -> Seq<u8> {
    bytes.subrange(0, index as int) + bytes.subrange((index + len) as int, bytes.len() as int)
}

/// `Doc::new`: a document whose texts are all empty and whose clock stands
/// at 0.
#[verifier::external_body]
fn new_doc() -> (r: Doc)
    ensures
        forall|name: Seq<char>| (#[trigger] text_bytes(r, name)).len() == 0,
        text_clock(r) == 0,
{
    Doc::new()
}

/// `GetString::get_string` on the text of this name: the text as a string.
#[verifier::external_body]
fn text_string(doc: &Doc, name: &str) -> (r: String)
    ensures
        encode_utf8(r@) == text_bytes(*doc, name@),
{
    let text = doc.get_or_insert_text(name);
    let txn = doc.transact();
    text.get_string(&txn)
}

/// `Text::insert` on the text of this name: the chunk is put in at the byte
/// offset `index`, which must lie within the text and between two characters.
/// The document counts lengths and its clock in 32 bits, so the text with
/// the chunk, and the clock moved on by the chunk, must fit 32 bits. The
/// clock moves on by no more than the bytes of the chunk.
#[verifier::external_body]
fn text_insert(doc: &mut Doc, name: &str, index: u32, chunk: &str)
    requires
        is_char_boundary(text_bytes(*old(doc), name@), index as int),
        text_bytes(*old(doc), name@).len() + encode_utf8(chunk@).len() <= u32::MAX,
        text_clock(*old(doc)) + encode_utf8(chunk@).len() <= u32::MAX,
    ensures
        text_bytes(*final(doc), name@) == with_inserted(
            text_bytes(*old(doc), name@),
            index as nat,
            encode_utf8(chunk@),
        ),
        text_clock(*final(doc)) <= text_clock(*old(doc)) + encode_utf8(chunk@).len(),
{
    let text = doc.get_or_insert_text(name);
    let mut txn = doc.transact_mut();
    text.insert(&mut txn, index, chunk);
}

/// `Text::remove_range` on the text of this name: `len` bytes are taken out
/// from the byte offset `index` on. Both ends of the range must lie within
/// the text and between two characters, and the text and the clock must fit
/// the 32 bits in which the document counts. The clock stays as it is.
#[verifier::external_body]
fn text_remove(doc: &mut Doc, name: &str, index: u32, len: u32)
    requires
        is_char_boundary(text_bytes(*old(doc), name@), index as int),
        is_char_boundary(text_bytes(*old(doc), name@), index + len),
        text_bytes(*old(doc), name@).len() <= u32::MAX,
        text_clock(*old(doc)) <= u32::MAX,
    ensures
        text_bytes(*final(doc), name@) == with_removed(
            text_bytes(*old(doc), name@),
            index as nat,
            len as nat,
        ),
        text_clock(*final(doc)) == text_clock(*old(doc)),
{
    let text = doc.get_or_insert_text(name);
    let mut txn = doc.transact_mut();
    text.remove_range(&mut txn, index, len);
}

/// `SystemTime::now`: the time of the clock. It differs from call to call.
#[verifier::external_body]
fn clock_now() -> (r: SystemTime) {
    SystemTime::now()
}

/// `SystemTime::duration_since`, from the epoch: how long after the epoch a
/// time lies, or an error where it lies before.
#[verifier::external_body]
fn since_epoch(time: &SystemTime) -> (r: Result<Duration, SystemTimeError>) {
    time.duration_since(SystemTime::UNIX_EPOCH)
}

/// `Duration::as_millis`: the whole milliseconds of a duration.
#[verifier::external_body]
fn millis_of(duration: &Duration) -> (r: u128) {
    duration.as_millis()
}

/// What a text holds, and how much was put into it over its life.
pub struct TextState {
    /// The bytes of the text: its UTF-8 form.
    pub bytes: Seq<u8>,
    /// The number of bytes that were ever put into the text, those that were
    /// taken out again among them. It never exceeds 32 bits.
    pub spent: nat,
}

impl TextState {
    /// The empty text into which nothing was put yet.
    pub open spec fn empty() -> TextState {
        TextState { bytes: Seq::empty(), spent: 0 }
    }
}

/// Whether an operation can be made on a text: its place, and for a deletion
/// its end too, lies within the text and between two characters, and what an
/// insertion puts in leaves the bytes ever put into the text within 32 bits.
pub open spec fn applies(state: TextState, op: OperationView) -> bool {
    match op {
        OperationView::Insert(index, chunk) => is_char_boundary(state.bytes, index as int)
            && state.spent + byte_len(chunk) <= u32::MAX,
        OperationView::Delete(index, len) => is_char_boundary(state.bytes, index as int)
            && is_char_boundary(state.bytes, (index + len) as int),
    }
}

/// What an operation makes of a text.
pub open spec fn after(state: TextState, op: OperationView) -> TextState {
    match op {
        OperationView::Insert(index, chunk) => TextState {
            bytes: with_inserted(state.bytes, index, encode_utf8(chunk)),
            spent: state.spent + byte_len(chunk),
        },
        OperationView::Delete(index, len) => TextState {
            bytes: with_removed(state.bytes, index, len),
            spent: state.spent,
        },
    }
}

/// What the operations, made one after the other, make of a text; none where
/// one of them cannot be made when its turn comes.
pub open spec fn applied(state: TextState, ops: Seq<OperationView>) -> Option<TextState>
    decreases ops.len(),
{
    if ops.len() == 0 {
        Some(state)
    } else if applies(state, ops[0]) {
        applied(after(state, ops[0]), ops.drop_first())
    } else {
        None
    }
}

/// What a text holds once the operations are made on it, one after the
/// other, up to the first that cannot be made.
pub open spec fn carried(state: TextState, ops: Seq<OperationView>) -> TextState
    decreases ops.len(),
{
    if ops.len() > 0 && applies(state, ops[0]) {
        carried(after(state, ops[0]), ops.drop_first())
    } else {
        state
    }
}

/// What the deltas, made one after the other, make of a text.
pub open spec fn replayed(state: TextState, deltas: Seq<DeltaView>) -> Option<TextState>
    decreases deltas.len(),
{
    if deltas.len() == 0 {
        Some(state)
    } else {
        match applied(state, deltas[0].operations) {
            Some(next) => replayed(next, deltas.drop_first()),
            None => None,
        }
    }
}

/// What a text that is seeded with `value` holds once the deltas are made on
/// it.
pub open spec fn seeded(value: Seq<char>, deltas: Seq<DeltaView>) -> Option<TextState> {
    match text_operations(Seq::empty(), value) {
        Some(seed) => match applied(TextState::empty(), seed) {
            Some(state) => replayed(state, deltas),
            None => None,
        },
        None => None,
    }
}

/// A text with the deltas that were made on it. It counts the bytes that
/// were ever put into it, and takes no more than fit 32 bits.
pub struct TextDocument {
    doc: Doc,
    deltas: Vec<Delta>,
    spent: u32,
}

/// The name under which a document holds its text.
pub open spec fn text_name() -> Seq<char> {
    "document"@
}

/// What a document holds, with the count that is kept beside it.
pub open spec fn state_of(doc: Doc, spent: u32) -> TextState {
    TextState { bytes: text_bytes(doc, text_name()), spent: spent as nat }
}

/// Whether the count that is kept beside a document bounds its text and its
/// clock.
pub open spec fn is_metered(doc: Doc, spent: u32) -> bool {
    text_bytes(doc, text_name()).len() <= spent && text_clock(doc) <= spent
}

/// A place between two characters lies within the text.
proof fn lemma_boundary_within(text: Seq<char>, index: int)
    requires
        is_char_boundary(encode_utf8(text), index),
    ensures
        0 <= index <= encode_utf8(text).len(),
{
    encode_utf8_valid_utf8(text);
}

/// Makes one operation on the text, where it can be made, and gives the
/// count as it then stands.
fn apply_operation(doc: &mut Doc, spent: u32, op: &Operation) -> (r: Option<u32>)
    requires
        is_metered(*old(doc), spent),
    ensures
        r is Some == applies(state_of(*old(doc), spent), op@),
        r is Some ==> state_of(*final(doc), r->0) == after(state_of(*old(doc), spent), op@)
            && is_metered(*final(doc), r->0),
        r is None ==> *final(doc) == *old(doc),
{
    let current = text_string(doc, "document");
    let held = current.as_str().as_bytes().len();
    match op {
        Operation::Insert(p) => {
            let more = p.1.as_str().as_bytes().len();
            if more as u64 > u32::MAX as u64 - spent as u64 {
                None
            } else if current.as_str().is_char_boundary(p.0 as usize) {
                proof {
                    lemma_boundary_within(current@, p.0 as int);
                }
                text_insert(doc, "document", p.0, p.1.as_str());
                Some(spent + more as u32)
            } else {
                None
            }
        },
        Operation::Delete(p) => {
            let end: u64 = p.0 as u64 + p.1 as u64;
            if end > held as u64 {
                proof {
                    if is_char_boundary(encode_utf8(current@), end as int) {
                        lemma_boundary_within(current@, end as int);
                    }
                }
                None
            } else if current.as_str().is_char_boundary(p.0 as usize)
                && current.as_str().is_char_boundary(end as usize) {
                text_remove(doc, "document", p.0, p.1);
                Some(spent)
            } else {
                None
            }
        },
    }
}

/// Makes the operations on the text, one after the other, as long as they
/// can be made. Gives whether all were made, and the count as it then stands.
fn apply_operations(doc: &mut Doc, spent: u32, ops: &Vec<Operation>) -> (r: (bool, u32))
    requires
        is_metered(*old(doc), spent),
    ensures
        r.0 == (applied(state_of(*old(doc), spent), views(ops@)) is Some),
        r.0 ==> Some(state_of(*final(doc), r.1)) == applied(
            state_of(*old(doc), spent),
            views(ops@),
        ),
        state_of(*final(doc), r.1) == carried(state_of(*old(doc), spent), views(ops@)),
        is_metered(*final(doc), r.1),
{
    let ghost all = views(ops@);
    let ghost start = state_of(*doc, spent);
    let mut now = spent;
    let mut i: usize = 0;
    assert(all.skip(0) == all);
    while i < ops.len()
        invariant
            i <= ops.len(),
            all == views(ops@),
            start == state_of(*old(doc), spent),
            is_metered(*doc, now),
            applied(start, all) == applied(state_of(*doc, now), all.skip(i as int)),
            carried(start, all) == carried(state_of(*doc, now), all.skip(i as int)),
        decreases ops.len() - i,
    {
        proof {
            assert(all.skip(i as int).drop_first() == all.skip(i + 1));
            assert(all.skip(i as int)[0] == ops@[i as int]@);
        }
        match apply_operation(doc, now, &ops[i]) {
            Some(next) => {
                now = next;
            },
            None => {
                return (false, now);
            },
        }
        i = i + 1;
    }
    (true, now)
}

/// Makes the deltas on the text, one after the other, as long as their
/// operations can be made. Gives the count as it then stands where all were
/// made.
fn apply_deltas(doc: &mut Doc, spent: u32, deltas: &Vec<Delta>) -> (r: Option<u32>)
    requires
        is_metered(*old(doc), spent),
    ensures
        r is Some == (replayed(state_of(*old(doc), spent), views(deltas@)) is Some),
        r is Some ==> Some(state_of(*final(doc), r->0)) == replayed(
            state_of(*old(doc), spent),
            views(deltas@),
        ) && is_metered(*final(doc), r->0),
{
    let ghost all = views(deltas@);
    let ghost start = state_of(*doc, spent);
    let mut now = spent;
    let mut i: usize = 0;
    assert(all.skip(0) == all);
    while i < deltas.len()
        invariant
            i <= deltas.len(),
            all == views(deltas@),
            start == state_of(*old(doc), spent),
            is_metered(*doc, now),
            replayed(start, all) == replayed(state_of(*doc, now), all.skip(i as int)),
        decreases deltas.len() - i,
    {
        proof {
            assert(all.skip(i as int).drop_first() == all.skip(i + 1));
            assert(all.skip(i as int)[0] == deltas@[i as int]@);
        }
        let (ok, next) = apply_operations(doc, now, &deltas[i].operations);
        if !ok {
            return None;
        }
        now = next;
        i = i + 1;
    }
    Some(now)
}

/// What `update` makes of a text: `before` and `after` are the text and its
/// deltas before and after, `ops` the operations by which the text differs
/// from the value, if they are to be had, and `r` what is returned.
pub open spec fn is_update(
    before: TextState,
    kept: Seq<DeltaView>,
    ops: Option<Seq<OperationView>>,
    after: TextState,
    keeps: Seq<DeltaView>,
    r: Option<bool>,
) -> bool {
    match r {
        Some(true) => {
            &&& ops is Some
            &&& ops->0.len() > 0
            &&& applied(before, ops->0) == Some(after)
            &&& keeps.len() == kept.len() + 1
            &&& keeps.drop_last() == kept
            &&& keeps.last().operations == ops->0
        },
        Some(false) => {
            &&& ops == Some(Seq::<OperationView>::empty())
            &&& after == before
            &&& keeps == kept
        },
        None => {
            &&& keeps == kept
            &&& match ops {
                Some(o) => applied(before, o) is None && after == carried(before, o),
                None => after == before,
            }
        },
    }
}

impl TextDocument {
    /// The count bounds the text and the clock of the document.
    #[verifier::type_invariant]
    spec fn metered(self) -> bool {
        is_metered(self.doc, self.spent)
    }

    /// The bytes of the text: its UTF-8 form.
    pub closed spec fn bytes(&self) -> Seq<u8> {
        text_bytes(self.doc, text_name())
    }

    /// The number of bytes that were ever put into the text.
    pub closed spec fn spent(&self) -> nat {
        self.spent as nat
    }

    /// What the text holds, and how much was put into it.
    pub open spec fn state(&self) -> TextState {
        TextState { bytes: self.bytes(), spent: self.spent() }
    }

    /// The characters of the text.
    pub open spec fn text(&self) -> Seq<char> {
        decode_utf8(self.bytes())
    }

    /// The deltas that are kept with the text.
    pub closed spec fn deltas(&self) -> Seq<DeltaView> {
        views(self.deltas@)
    }

    /// Creates a text from deltas: they are made on an empty text, one after
    /// the other, and kept. There is no such text where an operation cannot
    /// be made when its turn comes.
    pub fn from_deltas(deltas: Vec<Delta>) -> (r: Option<TextDocument>)
        ensures
            match r {
                Some(d) => replayed(TextState::empty(), views(deltas@)) == Some(d.state())
                    && d.deltas() == views(deltas@),
                None => replayed(TextState::empty(), views(deltas@)) is None,
            },
    {
        let mut doc = new_doc();
        assert(state_of(doc, 0) == TextState::empty()) by {
            assert(text_bytes(doc, text_name()) =~= Seq::<u8>::empty());
        }
        match apply_deltas(&mut doc, 0, &deltas) {
            Some(spent) => Some(TextDocument { doc, deltas, spent }),
            None => None,
        }
    }

    /// The deltas that are kept with the text.
    pub fn get_deltas(&self) -> (r: Vec<Delta>)
        ensures
            views(r@) == self.deltas(),
    {
        let mut out: Vec<Delta> = Vec::new();
        let mut i: usize = 0;
        while i < self.deltas.len()
            invariant
                i <= self.deltas.len(),
                out@.len() == i,
                forall|k: int| 0 <= k < i ==> out@[k]@ == self.deltas@[k]@,
            decreases self.deltas.len() - i,
        {
            out.push(self.deltas[i].clone());
            i = i + 1;
        }
        assert(views(out@) =~= views(self.deltas@));
        out
    }

    /// Creates a text that is seeded with `value`, on which the deltas are
    /// then made. The deltas are kept; the operations that seed the text are
    /// not among them. There is no such text where the operations that seed it
    /// are not to be had, or an operation cannot be made when its turn comes.
    pub fn new(value: &str, deltas: Vec<Delta>) -> (r: Option<TextDocument>)
        ensures
            match r {
                Some(d) => d.deltas() == views(deltas@) && seeded(value@, views(deltas@)) == Some(
                    d.state(),
                ),
                None => seeded(value@, views(deltas@)) is None,
            },
    {
        proof {
            reveal_strlit("");
            assert(""@ =~= Seq::<char>::empty());
        }
        let seed = match get_delta_operations("", value) {
            Some(ops) => ops,
            None => {
                return None;
            },
        };
        let mut doc = new_doc();
        assert(state_of(doc, 0) == TextState::empty()) by {
            assert(text_bytes(doc, text_name()) =~= Seq::<u8>::empty());
        }
        let (ok, spent) = apply_operations(&mut doc, 0, &seed);
        if !ok {
            return None;
        }
        match apply_deltas(&mut doc, spent, &deltas) {
            Some(spent) => Some(TextDocument { doc, deltas, spent }),
            None => None,
        }
    }

    /// Updates the text towards `value` at the time `now`, in milliseconds:
    /// the operations by which the text differs from `value` are made on it
    /// and kept as one more delta, which bears that time. The places of the
    /// operations count shared text alone, so where text is put in before
    /// other changes the text need not end as `value`.
    ///
    /// Returns `Some(false)`, and changes nothing, where there are no such
    /// operations to make, and `None` where they are not to be had or one of
    /// them cannot be made: then no delta is kept, and the text holds what the
    /// operations before that one made of it.
    pub fn update_at(&mut self, value: &str, now: u64) -> (r: Option<bool>)
        ensures
            is_update(
                old(self).state(),
                old(self).deltas(),
                text_operations(old(self).text(), value@),
                final(self).state(),
                final(self).deltas(),
                r,
            ),
            r == Some(true) ==> final(self).deltas().last().timestamp_ms == now,
    {
        proof {
            use_type_invariant(&*self);
        }
        let current = self.to_string();
        proof {
            encode_utf8_decode_utf8(current@);
        }
        let diffs = match get_delta_operations(current.as_str(), value) {
            Some(ops) => ops,
            None => {
                return None;
            },
        };
        if diffs.len() == 0 {
            assert(views(diffs@) =~= Seq::<OperationView>::empty());
            return Some(false);
        }
        // The document is taken out while the operations are made on it, and an
        // empty one stands in for it: the count is set before it comes back.
        let mut doc = new_doc();
        assert(text_bytes(doc, text_name()) =~= Seq::<u8>::empty());
        core::mem::swap(&mut self.doc, &mut doc);
        let (ok, spent) = apply_operations(&mut doc, self.spent, &diffs);
        self.spent = spent;
        core::mem::swap(&mut self.doc, &mut doc);
        if !ok {
            return None;
        }
        let mut deltas: Vec<Delta> = Vec::new();
        core::mem::swap(&mut self.deltas, &mut deltas);
        let ghost kept = deltas@;
        deltas.push(Delta { operations: diffs, timestamp_ms: now });
        assert(views(deltas@).drop_last() =~= views(kept));
        core::mem::swap(&mut self.deltas, &mut deltas);
        Some(true)
    }

    /// Updates the text towards `value`, as `update_at` does, at the time of
    /// the clock: its whole milliseconds since the epoch, as far as they fit
    /// 64 bits, or 0 where the clock stands before the epoch.
    pub fn update(&mut self, value: &str) -> (r: Option<bool>)
        ensures
            is_update(
                old(self).state(),
                old(self).deltas(),
                text_operations(old(self).text(), value@),
                final(self).state(),
                final(self).deltas(),
                r,
            ),
    {
        let time = clock_now();
        let now: u64 = match since_epoch(&time) {
            Ok(duration) => (millis_of(&duration) % 0x1_0000_0000_0000_0000) as u64,
            Err(_) => 0,
        };
        self.update_at(value, now)
    }

    /// The text as a string.
    pub fn to_string(&self) -> (r: String)
        ensures
            encode_utf8(r@) == self.bytes(),
    {
        text_string(&self.doc, "document")
    }
}

} // verus!
