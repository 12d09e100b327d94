//! The two kinds of record, as they are compared and as they lie on disk.

use vstd::prelude::*;
use vstd::std_specs::cmp::{PartialEqSpecImpl, PartialOrdSpecImpl};
use std::cmp::Ordering;
use crate::bytes::{ordered_bytes, push_word, words_bytes, ByteOrder};
use crate::data::{record_size, AsBytes, DataElement};

verus! {

/// Record of the raw feed: one measured value.
#[derive(Clone, Copy, Debug)]
pub struct DiscreteDataOnDisk {
    pub time: u32,
    pub index: u32,
    /// The raw value.
    pub val: u32,
}

/// Record of the averaged feed: a mean and its standard deviation.
#[derive(Clone, Copy, Debug)]
pub struct AveragedDataOnDisk {
    pub time: u32,
    pub index: u32,
    /// Averaged value, then standard deviation.
    pub val_sd: [u32; 2],
}

impl DiscreteDataOnDisk {
    /// The raw record of the value with bit pattern `val`, measured for
    /// address `index` at `time`.
    pub fn new(time: u32, index: u32, val: u32) -> (r: Self)
        ensures
            r == (DiscreteDataOnDisk { time, index, val }),
    {
        DiscreteDataOnDisk { time, index, val }
    }
}

impl AveragedDataOnDisk {
    /// The averaged record of the mean and deviation with bit patterns
    /// `val` and `sd`, for address `index` at `time`.
    pub fn new(time: u32, index: u32, val: u32, sd: u32) -> (r: Self)
        ensures
            r.time == time,
            r.index == index,
            r.val_sd@ == seq![val, sd],
    {
        AveragedDataOnDisk { time, index, val_sd: [val, sd] }
    }
}

impl DataElement for DiscreteDataOnDisk {
    open spec fn vals_count() -> nat {
        1
    }

    open spec fn time(&self) -> u32 {
        self.time
    }

    open spec fn index(&self) -> u32 {
        self.index
    }

    open spec fn vals(&self) -> Seq<u32> {
        seq![self.val]
    }

    proof fn vals_fixed(&self) {
    }

    fn get_time(&self) -> (t: u32) {
        self.time
    }

    fn get_index(&self) -> (i: u32) {
        self.index
    }

    fn size_of_data_vals(&self) -> (n: usize) {
        4
    }

    fn data_vals_as_bytes(&self, order: ByteOrder) -> (b: Vec<u8>) {
        proof {
            lemma_words_one(self.val, order);
        }
        self.val.as_bytes(order)
    }
}

impl DataElement for AveragedDataOnDisk {
    open spec fn vals_count() -> nat {
        2
    }

    open spec fn time(&self) -> u32 {
        self.time
    }

    open spec fn index(&self) -> u32 {
        self.index
    }

    open spec fn vals(&self) -> Seq<u32> {
        self.val_sd@
    }

    proof fn vals_fixed(&self) {
    }

    fn get_time(&self) -> (t: u32) {
        self.time
    }

    fn get_index(&self) -> (i: u32) {
        self.index
    }

    fn size_of_data_vals(&self) -> (n: usize) {
        8
    }

    fn data_vals_as_bytes(&self, order: ByteOrder) -> (b: Vec<u8>) {
        proof {
            lemma_words_two(self.val_sd@, order);
        }
        self.val_sd.as_bytes(order)
    }
}

/// The bytes of a one-word payload are the bytes of that word.
proof fn lemma_words_one(x: u32, order: ByteOrder)
    ensures
        words_bytes(seq![x], order) == ordered_bytes(x, order),
{
    let s = seq![x];
    assert(s.drop_last() =~= Seq::<u32>::empty());
    assert(words_bytes(s.drop_last(), order) =~= Seq::<u8>::empty());
    assert(words_bytes(s, order) =~= ordered_bytes(x, order));
}

/// The bytes of a two-word payload are those of the first word, then
/// those of the second.
proof fn lemma_words_two(s: Seq<u32>, order: ByteOrder)
    requires
        s.len() == 2,
    ensures
        words_bytes(s, order) == ordered_bytes(s[0], order) + ordered_bytes(s[1], order),
{
    let head = s.drop_last();
    assert(head =~= seq![s[0]]);
    lemma_words_one(s[0], order);
    assert(words_bytes(s, order) == words_bytes(head, order) + ordered_bytes(s[1], order));
}

/// How two address ids compare.
pub open spec fn index_order(a: u32, b: u32) -> Ordering {
    if a < b {
        Ordering::Less
    } else if a == b {
        Ordering::Equal
    } else {
        Ordering::Greater
    }
}

fn compare_index(a: u32, b: u32) -> (o: Ordering)
    ensures
        o == index_order(a, b),
{
    if a < b {
        Ordering::Less
    } else if a == b {
        Ordering::Equal
    } else {
        Ordering::Greater
    }
}

// Records are equal, and ordered, by address id alone: two measurements of
// one address are the same member of a round whatever their timestamps.

impl PartialEq for DiscreteDataOnDisk {
    fn eq(&self, other: &DiscreteDataOnDisk) -> (r: bool) {
        self.index == other.index
    }
}

impl PartialEqSpecImpl for DiscreteDataOnDisk {
    open spec fn obeys_eq_spec() -> bool {
        true
    }

    open spec fn eq_spec(&self, other: &DiscreteDataOnDisk) -> bool {
        self.index == other.index
    }
}

impl Eq for DiscreteDataOnDisk {}

impl PartialOrd for DiscreteDataOnDisk {
    fn partial_cmp(&self, other: &DiscreteDataOnDisk) -> (r: Option<Ordering>) {
        Some(compare_index(self.index, other.index))
    }
}

impl PartialOrdSpecImpl for DiscreteDataOnDisk {
    open spec fn obeys_partial_cmp_spec() -> bool {
        true
    }

    open spec fn partial_cmp_spec(&self, other: &DiscreteDataOnDisk) -> Option<Ordering> {
        Some(index_order(self.index, other.index))
    }
}

impl DiscreteDataOnDisk {
    /// Total order of raw records: that of their address ids.
    pub fn cmp(&self, other: &DiscreteDataOnDisk) -> (o: Ordering)
        ensures
            o == index_order(self.index, other.index),
    {
        compare_index(self.index, other.index)
    }
}

impl PartialEq for AveragedDataOnDisk {
    fn eq(&self, other: &AveragedDataOnDisk) -> (r: bool) {
        self.index == other.index
    }
}

impl PartialEqSpecImpl for AveragedDataOnDisk {
    open spec fn obeys_eq_spec() -> bool {
        true
    }

    open spec fn eq_spec(&self, other: &AveragedDataOnDisk) -> bool {
        self.index == other.index
    }
}

impl Eq for AveragedDataOnDisk {}

impl PartialOrd for AveragedDataOnDisk {
    fn partial_cmp(&self, other: &AveragedDataOnDisk) -> (r: Option<Ordering>) {
        Some(compare_index(self.index, other.index))
    }
}

impl PartialOrdSpecImpl for AveragedDataOnDisk {
    open spec fn obeys_partial_cmp_spec() -> bool {
        true
    }

    open spec fn partial_cmp_spec(&self, other: &AveragedDataOnDisk) -> Option<Ordering> {
        Some(index_order(self.index, other.index))
    }
}

impl AveragedDataOnDisk {
    /// Total order of averaged records: that of their address ids.
    pub fn cmp(&self, other: &AveragedDataOnDisk) -> (o: Ordering)
        ensures
            o == index_order(self.index, other.index),
    {
        compare_index(self.index, other.index)
    }
}

// On disk a record is its three fields back to back, with no padding.

impl AsBytes for DiscreteDataOnDisk {
    open spec fn bytes(&self, order: ByteOrder) -> Seq<u8> {
        ordered_bytes(self.time, order) + ordered_bytes(self.index, order) + ordered_bytes(
            self.val,
            order,
        )
    }

    fn as_bytes(&self, order: ByteOrder) -> (b: Vec<u8>) {
        let mut b: Vec<u8> = Vec::new();
        push_word(&mut b, self.time, order);
        push_word(&mut b, self.index, order);
        push_word(&mut b, self.val, order);
        assert(b@ =~= self.bytes(order));
        b
    }
}

impl AsBytes for AveragedDataOnDisk {
    open spec fn bytes(&self, order: ByteOrder) -> Seq<u8> {
        ordered_bytes(self.time, order) + ordered_bytes(self.index, order) + ordered_bytes(
            self.val_sd@[0],
            order,
        ) + ordered_bytes(self.val_sd@[1], order)
    }

    fn as_bytes(&self, order: ByteOrder) -> (b: Vec<u8>) {
        let mut b: Vec<u8> = Vec::new();
        push_word(&mut b, self.time, order);
        push_word(&mut b, self.index, order);
        push_word(&mut b, self.val_sd[0], order);
        push_word(&mut b, self.val_sd[1], order);
        assert(b@ =~= self.bytes(order));
        b
    }
}

/// A raw record takes twelve bytes on disk, which is what `record_size`
/// counts for it, and the last four are its payload.
pub proof fn lemma_raw_layout(raw: DiscreteDataOnDisk, order: ByteOrder)
    ensures
        raw.bytes(order).len() == 12 == record_size::<DiscreteDataOnDisk>(),
        raw.bytes(order).subrange(8, 12) == words_bytes(raw.vals(), order),
{
    lemma_words_one(raw.val, order);
    assert(raw.bytes(order).subrange(8, 12) =~= ordered_bytes(raw.val, order));
}

/// An averaged record takes sixteen bytes on disk, which is what
/// `record_size` counts for it, and the last eight are its payload.
pub proof fn lemma_averaged_layout(averaged: AveragedDataOnDisk, order: ByteOrder)
    ensures
        averaged.bytes(order).len() == 16 == record_size::<AveragedDataOnDisk>(),
        averaged.bytes(order).subrange(8, 16) == words_bytes(averaged.vals(), order),
{
    lemma_words_two(averaged.val_sd@, order);
    assert(averaged.bytes(order).subrange(8, 16) =~= ordered_bytes(averaged.val_sd@[0], order)
        + ordered_bytes(averaged.val_sd@[1], order));
}

} // verus!
