//! The round: records of one kind in ascending id order, one for each
//! address, and how it goes on the wire.

use vstd::prelude::*;
use crate::bytes::{lemma_words_len, words_bytes, ByteOrder};
use crate::data::on_disk::{AveragedDataOnDisk, DiscreteDataOnDisk};
use crate::data::{payload_size, record_size, DataElement, ToWire, ToWireError};

verus! {

/// Whether the ids of `s` grow strictly from each record to the next.
pub open spec fn ascending<T: DataElement>(s: Seq<T>) -> bool {
    forall|i: int, j: int| 0 <= i < j < s.len() ==> s[i].index() < s[j].index()
}

/// Whether `s` holds a record for address `id`.
pub open spec fn has_index<T: DataElement>(s: Seq<T>, id: u32) -> bool {
    exists|i: int| 0 <= i < s.len() && #[trigger] s[i].index() == id
}

/// One past the place of the last record of `s` whose id is below `id`;
/// in an ascending `s`, the number of records with a smaller id.
pub open spec fn rank<T: DataElement>(s: Seq<T>, id: u32) -> int
    decreases s.len(),
{
    if s.len() == 0 {
        0
    } else if s.last().index() < id {
        s.len() as int
    } else {
        rank(s.drop_last(), id)
    }
}

/// The round `s` after an attempt to add `x`: unchanged where `s` already
/// has a record for that address, else with `x` at its place in id order.
pub open spec fn inserted<T: DataElement>(s: Seq<T>, x: T) -> Seq<T> {
    if has_index(s, x.index()) {
        s
    } else {
        s.insert(rank(s, x.index()), x)
    }
}

/// Whether all records of `s` carry one timestamp.
pub open spec fn same_time<T: DataElement>(s: Seq<T>) -> bool {
    forall|i: int, j: int|
        0 <= i < s.len() && 0 <= j < s.len() ==> #[trigger] s[i].time() == #[trigger] s[j].time()
}

/// Whether `s[k]` is the first record whose timestamp is not that of `s[0]`.
pub open spec fn first_mismatch<T: DataElement>(s: Seq<T>, k: int) -> bool {
    &&& 0 < k < s.len()
    &&& s[k].time() != s[0].time()
    &&& forall|j: int| 0 <= j < k ==> #[trigger] s[j].time() == s[0].time()
}

/// The payload bytes of each record of `s` in turn, words laid out in
/// `order`. Timestamps and ids are not part of it.
pub open spec fn payloads<T: DataElement>(s: Seq<T>, order: ByteOrder) -> Seq<u8>
    decreases s.len(),
{
    if s.len() == 0 {
        Seq::empty()
    } else {
        payloads(s.drop_last(), order) + words_bytes(s.last().vals(), order)
    }
}

/// Records of one kind, at most one for each address id, kept in
/// ascending id order.
pub struct RecordSet<T: DataElement> {
    elements: Vec<T>,
}

/// The raw records of one probing round.
pub type TimePackage = RecordSet<DiscreteDataOnDisk>;

impl<T: DataElement> View for RecordSet<T> {
    type V = Seq<T>;

    /// The records in ascending id order.
    closed spec fn view(&self) -> Seq<T> {
        self.elements@
    }
}

impl<T: DataElement> RecordSet<T> {
    #[verifier::type_invariant]
    spec fn well_formed(&self) -> bool {
        ascending(self.elements@)
    }

    /// A round with no record.
    pub fn new() -> (s: Self)
        ensures
            s@ == Seq::<T>::empty(),
    {
        RecordSet { elements: Vec::new() }
    }

    /// Number of records. Their ids are all different, and ascending.
    pub fn len(&self) -> (n: usize)
        ensures
            n == self@.len(),
            ascending(self@),
    {
        proof {
            use_type_invariant(self);
        }
        self.elements.len()
    }

    /// The `i`-th record in id order, where there is one.
    pub fn get(&self, i: usize) -> (r: Option<&T>)
        ensures
            match r {
                Some(x) => i < self@.len() && *x == self@[i as int],
                None => i >= self@.len(),
            },
    {
        if i < self.elements.len() {
            Some(&self.elements[i])
        } else {
            None
        }
    }

    /// The record for address `id`, where there is one.
    pub fn find(&self, id: u32) -> (r: Option<&T>)
        ensures
            match r {
                Some(x) => self@.contains(*x) && x.index() == id,
                None => !has_index(self@, id),
            },
    {
        let n = self.elements.len();
        let mut i: usize = 0;
        while i < n
            invariant
                i <= n,
                n == self.elements@.len(),
                forall|j: int| 0 <= j < i ==> self.elements@[j].index() != id,
            decreases n - i,
        {
            if self.elements[i].get_index() == id {
                assert(self@[i as int] == self.elements@[i as int]);
                return Some(&self.elements[i]);
            }
            i += 1;
        }
        None
    }

    /// Adds `x` unless the round already has a record for its address, in
    /// which case the round stays as it is. Says whether `x` went in.
    pub fn insert(&mut self, x: T) -> (fresh: bool)
        ensures
            fresh == !has_index(old(self)@, x.index()),
            final(self)@ == inserted(old(self)@, x),
    {
        proof {
            use_type_invariant(&*self);
        }
        let id = x.get_index();
        let n = self.elements.len();
        let mut pos: usize = 0;
        while pos < n && self.elements[pos].get_index() < id
            invariant
                pos <= n,
                n == self.elements@.len(),
                forall|j: int| 0 <= j < pos ==> self.elements@[j].index() < id,
            decreases n - pos,
        {
            pos += 1;
        }
        if pos < n && self.elements[pos].get_index() == id {
            return false;
        }
        let ghost before = self.elements@;
        proof {
            assert(!has_index(before, id)) by {
                assert forall|i: int| 0 <= i < before.len() implies before[i].index() != id by {
                    if i > pos {
                        assert(before[pos as int].index() < before[i].index());
                    }
                }
            }
            let split = lemma_rank_splits(before, id);
            if split < pos {
                assert(before[split].index() < id);
            } else if split > pos {
                assert(before[pos as int].index() < id);
            }
            lemma_insert_keeps_order(before, x, pos as int);
        }
        // The vector is taken out while it changes, so that the set never
        // holds a half-made one.
        let mut elements: Vec<T> = Vec::new();
        core::mem::swap(&mut self.elements, &mut elements);
        elements.insert(pos, x);
        self.elements = elements;
        true
    }
}

impl<T: DataElement> RecordSet<T> {
    /// What `space_necessary` returns, or `None` where that number of
    /// bytes is beyond what the machine can count.
    pub fn checked_space_necessary(&self) -> (r: Option<usize>)
        ensures
            match r {
                Some(n) => n == self.space(),
                None => self.space() > usize::MAX,
            },
    {
        let count = self.elements.len();
        if count == 0 {
            assert(self@.len() * record_size::<T>() == 0) by (nonlinear_arith)
                requires
                    self@.len() == 0,
            ;
            return Some(0);
        }
        let payload = self.elements[0].size_of_data_vals();
        assert(record_size::<T>() <= self@.len() * record_size::<T>()) by (nonlinear_arith)
            requires
                self@.len() >= 1,
        ;
        match payload.checked_add(8) {
            Some(size) => count.checked_mul(size),
            None => None,
        }
    }
}

/// Putting a record between the smaller ids and the larger ones keeps
/// the round ascending.
proof fn lemma_insert_keeps_order<T: DataElement>(s: Seq<T>, x: T, pos: int)
    requires
        ascending(s),
        0 <= pos <= s.len(),
        forall|j: int| 0 <= j < pos ==> s[j].index() < x.index(),
        pos < s.len() ==> s[pos].index() > x.index(),
    ensures
        ascending(s.insert(pos, x)),
{
    let t = s.insert(pos, x);
    assert forall|i: int, j: int| 0 <= i < j < t.len() implies t[i].index() < t[j].index() by {
        if j < pos {
            assert(t[i] == s[i] && t[j] == s[j]);
        } else if j == pos {
            assert(t[i] == s[i]);
        } else if i < pos {
            assert(t[i] == s[i] && t[j] == s[j - 1]);
            if pos < j - 1 {
                assert(s[pos].index() < s[j - 1].index());
            }
        } else if i == pos {
            assert(t[j] == s[j - 1]);
            if pos < j - 1 {
                assert(s[pos].index() < s[j - 1].index());
            }
        } else {
            assert(t[i] == s[i - 1] && t[j] == s[j - 1]);
        }
    }
}

impl<T: DataElement> ToWire for RecordSet<T> {
    /// A round can be sent when its records agree on the timestamp.
    open spec fn sendable(&self) -> bool {
        same_time(self@)
    }

    /// On the wire a round is its payloads in ascending id order.
    open spec fn wire_form(&self, order: ByteOrder) -> Seq<u8> {
        payloads(self@, order)
    }

    /// A refused round has left behind the payloads of the records that
    /// come before the first one with another timestamp.
    open spec fn partial_form(&self, order: ByteOrder, written: Seq<u8>) -> bool {
        exists|k: int| first_mismatch(self@, k) && written == payloads(self@.take(k), order)
    }

    /// Room for every record of the round in full, timestamp and id included.
    open spec fn space(&self) -> nat {
        self@.len() * record_size::<T>()
    }

    fn to_wire_in(&self, order: ByteOrder, wire: &mut Vec<u8>) -> (r: Result<(), ToWireError>) {
        let n = self.elements.len();
        let mut time: Option<u32> = None;
        let mut i: usize = 0;
        assert(self.elements@.take(0) =~= Seq::<T>::empty());
        while i < n
            invariant
                i <= n,
                n == self.elements@.len(),
                wire@ == old(wire)@ + payloads(self.elements@.take(i as int), order),
                time is None <==> i == 0,
                i > 0 ==> time == Some(self.elements@[0].time()),
                forall|j: int|
                    0 <= j < i ==> #[trigger] self.elements@[j].time() == self.elements@[0].time(),
            decreases n - i,
        {
            let d = &self.elements[i];
            let t = d.get_time();
            match time {
                None => {
                    time = Some(t);
                },
                Some(e) => {
                    if e != t {
                        assert(first_mismatch(self@, i as int));
                        assert(self.partial_form(order, payloads(self@.take(i as int), order)));
                        return Err(ToWireError::IncompatibleTimes);
                    }
                },
            }
            let mut bytes = d.data_vals_as_bytes(order);
            wire.append(&mut bytes);
            proof {
                let next = self.elements@.take(i + 1);
                assert(next.drop_last() =~= self.elements@.take(i as int));
                assert(next.last() == self.elements@[i as int]);
            }
            i += 1;
        }
        assert(self.elements@.take(n as int) =~= self.elements@);
        Ok(())
    }

    fn to_wire(&self, wire: &mut Vec<u8>) -> (r: Result<(), ToWireError>) {
        let order = ByteOrder::native();
        let r = self.to_wire_in(order, wire);
        assert(self.sent(order, old(wire)@, wire@, r));
        r
    }

    fn space_necessary(&self) -> (n: usize) {
        let count = self.elements.len();
        if count == 0 {
            assert(self@.len() * record_size::<T>() == 0) by (nonlinear_arith)
                requires
                    self@.len() == 0,
            ;
            return 0;
        }
        let payload = self.elements[0].size_of_data_vals();
        assert(8 + payload <= count * (8 + payload)) by (nonlinear_arith)
            requires
                count >= 1,
        ;
        count * (8 + payload)
    }
}

/// The wire form of a round has one payload for each record.
pub proof fn lemma_payloads_len<T: DataElement>(s: Seq<T>, order: ByteOrder)
    ensures
        payloads(s, order).len() == s.len() * payload_size::<T>(),
    decreases s.len(),
{
    let unit = payload_size::<T>() as int;
    if s.len() == 0 {
        assert(0 * unit == 0) by (nonlinear_arith);
    } else {
        lemma_payloads_len(s.drop_last(), order);
        s.last().vals_fixed();
        lemma_words_len(s.last().vals(), order);
        assert((s.len() - 1) * unit + unit == s.len() * unit) by (nonlinear_arith);
    }
}

/// The room for a round is the number of its records times the size of
/// one whole record, whatever the round holds: twelve bytes for each raw
/// record and sixteen for each averaged one.
pub proof fn lemma_space_is_count_times_size<T: DataElement>(
    round: RecordSet<T>,
    raw: RecordSet<DiscreteDataOnDisk>,
    averaged: RecordSet<AveragedDataOnDisk>,
)
    ensures
        round.space() == round@.len() * record_size::<T>(),
        raw.space() == raw@.len() * 12,
        averaged.space() == averaged@.len() * 16,
{
}

/// The room that `space_necessary` sets aside for a round is enough for
/// its wire form.
pub proof fn lemma_space_covers_wire<T: DataElement>(s: Seq<T>, order: ByteOrder)
    ensures
        payloads(s, order).len() <= s.len() * record_size::<T>(),
{
    lemma_payloads_len(s, order);
    assert(s.len() * payload_size::<T>() <= s.len() * record_size::<T>()) by (nonlinear_arith)
        requires
            payload_size::<T>() <= record_size::<T>(),
    ;
}

/// In the wire form of a round, the bytes at the place of the `i`-th
/// record are that record's payload.
proof fn lemma_payload_at<T: DataElement>(s: Seq<T>, order: ByteOrder, i: int)
    requires
        0 <= i < s.len(),
    ensures
        (i + 1) * payload_size::<T>() <= payloads(s, order).len(),
        payloads(s, order).subrange(i * payload_size::<T>(), (i + 1) * payload_size::<T>())
            == words_bytes(s[i].vals(), order),
    decreases s.len(),
{
    let unit = payload_size::<T>() as int;
    let rest = s.drop_last();
    lemma_payloads_len(s, order);
    lemma_payloads_len(rest, order);
    s.last().vals_fixed();
    lemma_words_len(s.last().vals(), order);
    assert(i * unit + unit == (i + 1) * unit) by (nonlinear_arith);
    assert((s.len() - 1) * unit + unit == s.len() * unit) by (nonlinear_arith);
    if i == s.len() - 1 {
        assert(payloads(s, order).subrange(i * unit, (i + 1) * unit) =~= words_bytes(
            s.last().vals(),
            order,
        ));
    } else {
        lemma_payload_at(rest, order, i);
        assert(rest[i] == s[i]);
        assert(payloads(s, order).subrange(i * unit, (i + 1) * unit) =~= payloads(
            rest,
            order,
        ).subrange(i * unit, (i + 1) * unit));
    }
}

/// Reading a sent round back. Once the round `s` has been appended to a
/// buffer that held `before`, the bytes at the place of the `i`-th record,
/// counted in ascending id order, are that record's payload, byte for byte.
pub proof fn lemma_wire_round_trip<T: DataElement>(
    s: Seq<T>,
    order: ByteOrder,
    before: Seq<u8>,
    i: int,
)
    requires
        0 <= i < s.len(),
    ensures
        before.len() + (i + 1) * payload_size::<T>() <= (before + payloads(s, order)).len(),
        (before + payloads(s, order)).subrange(
            before.len() + i * payload_size::<T>(),
            before.len() + (i + 1) * payload_size::<T>(),
        ) == words_bytes(s[i].vals(), order),
{
    let unit = payload_size::<T>() as int;
    lemma_payload_at(s, order, i);
    assert(0 <= i * unit <= (i + 1) * unit) by (nonlinear_arith)
        requires
            0 <= i,
            0 <= unit,
    ;
    assert((before + payloads(s, order)).subrange(
        before.len() + i * unit,
        before.len() + (i + 1) * unit,
    ) =~= payloads(s, order).subrange(i * unit, (i + 1) * unit));
}

/// A round that holds two different timestamps cannot be sent: there is
/// a first record at which `to_wire` stops.
pub proof fn lemma_mixed_times_rejected<T: DataElement>(s: Seq<T>, a: int, b: int)
    requires
        0 <= a < s.len(),
        0 <= b < s.len(),
        s[a].time() != s[b].time(),
    ensures
        !same_time(s),
        exists|k: int| first_mismatch(s, k),
{
    let c = if s[a].time() != s[0].time() { a } else { b };
    lemma_first_mismatch_before(s, c);
}

/// Some record up to `c` is the first with another timestamp than `s[0]`.
proof fn lemma_first_mismatch_before<T: DataElement>(s: Seq<T>, c: int)
    requires
        0 <= c < s.len(),
        s[c].time() != s[0].time(),
    ensures
        exists|k: int| 0 < k <= c && first_mismatch(s, k),
    decreases c,
{
    if forall|j: int| 0 <= j < c ==> #[trigger] s[j].time() == s[0].time() {
        assert(first_mismatch(s, c));
    } else {
        let j = choose|j: int| 0 <= j < c && #[trigger] s[j].time() != s[0].time();
        lemma_first_mismatch_before(s, j);
    }
}

/// Adding a record keeps a round ascending, and so free of repeated ids.
pub proof fn lemma_inserted_ascending<T: DataElement>(s: Seq<T>, x: T)
    requires
        ascending(s),
    ensures
        ascending(inserted(s, x)),
{
    if !has_index(s, x.index()) {
        let pos = lemma_rank_splits(s, x.index());
        lemma_insert_keeps_order(s, x, pos);
    }
}

/// After adding `x`, a round has a record for the address of `x` and for
/// those it had before, and for no other.
pub proof fn lemma_inserted_ids<T: DataElement>(s: Seq<T>, x: T, id: u32)
    requires
        ascending(s),
    ensures
        has_index(inserted(s, x), id) <==> has_index(s, id) || id == x.index(),
{
    let t = inserted(s, x);
    if !has_index(s, x.index()) {
        let pos = lemma_rank_splits(s, x.index());
        assert(t[pos] == x);
        if has_index(s, id) {
            let i = choose|i: int| 0 <= i < s.len() && #[trigger] s[i].index() == id;
            if i < pos {
                assert(t[i] == s[i]);
            } else {
                assert(t[i + 1] == s[i]);
            }
        }
        if has_index(t, id) && id != x.index() {
            let i = choose|i: int| 0 <= i < t.len() && #[trigger] t[i].index() == id;
            if i < pos {
                assert(s[i] == t[i]);
            } else {
                assert(s[i - 1] == t[i]);
            }
        }
    }
}

/// The records of a round after adding `x` are those it had, and `x`
/// itself where its address was new.
pub proof fn lemma_inserted_members<T: DataElement>(s: Seq<T>, x: T, r: T)
    requires
        ascending(s),
    ensures
        inserted(s, x).contains(r) <==> s.contains(r) || (r == x && !has_index(s, x.index())),
        inserted(s, x).len() == s.len() + if has_index(s, x.index()) { 0int } else { 1int },
{
    let t = inserted(s, x);
    if !has_index(s, x.index()) {
        let pos = lemma_rank_splits(s, x.index());
        assert(t[pos] == x);
        if s.contains(r) {
            let i = choose|i: int| 0 <= i < s.len() && s[i] == r;
            if i < pos {
                assert(t[i] == r);
            } else {
                assert(t[i + 1] == r);
            }
        }
        if t.contains(r) && r != x {
            let i = choose|i: int| 0 <= i < t.len() && t[i] == r;
            if i < pos {
                assert(s[i] == r);
            } else {
                assert(s[i - 1] == r);
            }
        }
    }
}

/// Of two records for one address, the one inserted first stays and the
/// second changes nothing, whatever their timestamps. Into an empty round
/// that leaves exactly the first record.
pub proof fn lemma_first_insert_wins<T: DataElement>(s: Seq<T>, a: T, b: T)
    requires
        ascending(s),
        a.index() == b.index(),
    ensures
        inserted(inserted(s, a), b) == inserted(s, a),
        inserted(inserted(Seq::<T>::empty(), a), b) == seq![a],
{
    lemma_inserted_ids(s, a, a.index());
    let none = Seq::<T>::empty();
    lemma_inserted_ids(none, a, a.index());
    assert(!has_index(none, a.index()));
    assert(inserted(none, a) =~= seq![a]);
}

/// In an ascending round without a record for `id`, `rank` is the place
/// where the smaller ids end and the larger ones begin.
proof fn lemma_rank_splits<T: DataElement>(s: Seq<T>, id: u32) -> (pos: int)
    requires
        ascending(s),
        !has_index(s, id),
    ensures
        pos == rank(s, id),
        0 <= pos <= s.len(),
        forall|j: int| 0 <= j < pos ==> s[j].index() < id,
        forall|j: int| pos <= j < s.len() ==> s[j].index() > id,
    decreases s.len(),
{
    if s.len() == 0 {
        0
    } else if s.last().index() < id {
        assert forall|j: int| 0 <= j < s.len() implies s[j].index() < id by {
            if j < s.len() - 1 {
                assert(s[j].index() < s[s.len() - 1].index());
            }
        }
        s.len() as int
    } else {
        let rest = s.drop_last();
        assert(ascending(rest));
        assert(!has_index(rest, id)) by {
            assert forall|i: int| 0 <= i < rest.len() implies rest[i].index() != id by {
                assert(rest[i] == s[i]);
            }
        }
        let pos = lemma_rank_splits(rest, id);
        assert(s[s.len() - 1].index() != id);
        assert forall|j: int| pos <= j < s.len() implies s[j].index() > id by {
            if j < s.len() - 1 {
                assert(rest[j] == s[j]);
            }
        }
        assert forall|j: int| 0 <= j < pos implies s[j].index() < id by {
            assert(rest[j] == s[j]);
        }
        pos
    }
}

} // verus!
