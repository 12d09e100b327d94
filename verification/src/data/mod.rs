//! Measurement records, their byte layouts, and the round that collects them.
//!
//! A record holds a timestamp, an address id and a payload of one or two
//! 32-bit values. Each value is kept as the bit pattern of an IEEE 754
//! single, so that a record can be laid out byte for byte without ever
//! interpreting the number.
//!
//! Two layouts are kept apart. On disk a record is written in full:
//! timestamp, id, payload. On the wire a round is the payloads alone, in
//! ascending id order, since the timestamp is shared and the order says
//! which address a payload belongs to.

use vstd::prelude::*;
use crate::bytes::{ordered_bytes, push_word, words_bytes, ByteOrder};

pub mod on_disk;
pub mod round;

pub use self::on_disk::{
    index_order, lemma_averaged_layout, lemma_raw_layout, AveragedDataOnDisk, DiscreteDataOnDisk,
};
pub use self::round::{
    ascending, first_mismatch, has_index, inserted, lemma_first_insert_wins,
    lemma_inserted_ascending, lemma_inserted_ids, lemma_inserted_members,
    lemma_mixed_times_rejected, lemma_payloads_len, lemma_space_covers_wire,
    lemma_space_is_count_times_size,
    lemma_wire_round_trip, payloads, rank,
    same_time, RecordSet, TimePackage,
};

verus! {

/// Bit pattern of the quiet NaN that stands for "no measurement".
pub const NAN_BITS: u32 = 0x7fc0_0000;

/// Whether `bits` is the pattern of some NaN: exponent all ones and a
/// mantissa that is not zero.
pub open spec fn is_nan_bits(bits: u32) -> bool {
    bits / 0x80_0000 % 0x100 == 0xff && bits % 0x80_0000 != 0
}

/// The sentinel for a missing measurement is a NaN.
pub proof fn lemma_sentinel_is_nan()
    ensures
        is_nan_bits(NAN_BITS),
{
}

/// The exact bytes of a value, as stored and sent.
pub trait AsBytes {
    /// The byte image of the value where words are laid out in `order`.
    spec fn bytes(&self, order: ByteOrder) -> Seq<u8>;

    /// The bytes of the value, words laid out in `order`.
    fn as_bytes(&self, order: ByteOrder) -> (b: Vec<u8>)
        ensures
            b@ == self.bytes(order),
    ;
}

impl AsBytes for u32 {
    open spec fn bytes(&self, order: ByteOrder) -> Seq<u8> {
        ordered_bytes(*self, order)
    }

    fn as_bytes(&self, order: ByteOrder) -> (b: Vec<u8>) {
        let mut b: Vec<u8> = Vec::new();
        push_word(&mut b, *self, order);
        assert(b@ =~= ordered_bytes(*self, order));
        assert(self.bytes(order) == ordered_bytes(*self, order));
        b
    }
}

impl AsBytes for [u32; 2] {
    open spec fn bytes(&self, order: ByteOrder) -> Seq<u8> {
        ordered_bytes(self@[0], order) + ordered_bytes(self@[1], order)
    }

    fn as_bytes(&self, order: ByteOrder) -> (b: Vec<u8>) {
        let mut b: Vec<u8> = Vec::new();
        push_word(&mut b, self[0], order);
        push_word(&mut b, self[1], order);
        assert(b@ =~= ordered_bytes(self@[0], order) + ordered_bytes(self@[1], order));
        b
    }
}

/// What every on-disk record offers, whatever its payload.
pub trait DataElement: Sized {
    /// Number of 32-bit values in the payload of this kind of record.
    spec fn vals_count() -> nat;

    /// Seconds timestamp of the measurement.
    spec fn time(&self) -> u32;

    /// Id of the measured address.
    spec fn index(&self) -> u32;

    /// The payload values, in declared order.
    spec fn vals(&self) -> Seq<u32>;

    /// Every record of one kind has a payload of the same size.
    proof fn vals_fixed(&self)
        ensures
            self.vals().len() == Self::vals_count(),
    ;

    /// The timestamp.
    fn get_time(&self) -> (t: u32)
        ensures
            t == self.time(),
    ;

    /// The address id.
    fn get_index(&self) -> (i: u32)
        ensures
            i == self.index(),
    ;

    /// Number of bytes that the payload takes.
    fn size_of_data_vals(&self) -> (n: usize)
        ensures
            n == 4 * Self::vals_count(),
    ;

    /// The bytes of the payload alone, words laid out in `order`.
    fn data_vals_as_bytes(&self, order: ByteOrder) -> (b: Vec<u8>)
        ensures
            b@ == words_bytes(self.vals(), order),
    ;
}

/// Bytes that one record of kind `T` takes on disk: timestamp, id, payload.
pub open spec fn record_size<T: DataElement>() -> nat {
    8 + 4 * T::vals_count()
}

/// Bytes that the payload of one record of kind `T` takes.
pub open spec fn payload_size<T: DataElement>() -> nat {
    4 * T::vals_count()
}

/// Why a round could not be put on the wire.
#[derive(Clone, Copy, Debug, PartialEq, Eq, Structural)]
pub enum ToWireError {
    /// The records of the round do not all carry one timestamp.
    IncompatibleTimes,
}

/// A collection of records that can be sent as one round.
pub trait ToWire {
    /// Whether the round is fit to be sent.
    spec fn sendable(&self) -> bool;

    /// The bytes that sending the round appends, words laid out in `order`.
    spec fn wire_form(&self, order: ByteOrder) -> Seq<u8>;

    /// Whether `written` is what a refused round has appended by the time
    /// it is given up.
    spec fn partial_form(&self, order: ByteOrder, written: Seq<u8>) -> bool;

    /// Bytes to set aside for the round.
    spec fn space(&self) -> nat;

    /// Whether a call that returned `r` and turned the buffer `before`
    /// into `after` has sent the round in `order`, or given it up part way.
    open spec fn sent(
        &self,
        order: ByteOrder,
        before: Seq<u8>,
        after: Seq<u8>,
        r: Result<(), ToWireError>,
    ) -> bool {
        match r {
            Ok(()) => self.sendable() && after == before + self.wire_form(order),
            Err(ToWireError::IncompatibleTimes) => !self.sendable() && exists|written: Seq<u8>|
                #[trigger] self.partial_form(order, written) && after == before + written,
        }
    }

    /// Appends the round to `wire`, payloads only, words laid out in
    /// `order`. A round whose records disagree on the timestamp is refused
    /// at the first record that differs from the first one; what was
    /// appended before stays in `wire`.
    fn to_wire_in(&self, order: ByteOrder, wire: &mut Vec<u8>) -> (r: Result<(), ToWireError>)
        ensures
            self.sent(order, old(wire)@, final(wire)@, r),
    ;

    /// Appends the round to `wire` as `to_wire_in` does, in the byte order
    /// of the running machine.
    fn to_wire(&self, wire: &mut Vec<u8>) -> (r: Result<(), ToWireError>)
        ensures
            r is Ok <==> self.sendable(),
            exists|order: ByteOrder| #[trigger] self.sent(order, old(wire)@, final(wire)@, r),
    ;

    /// Number of bytes to set aside for the round, where that number
    /// fits the machine.
    fn space_necessary(&self) -> (n: usize)
        requires
            self.space() <= usize::MAX,
        ensures
            n == self.space(),
    ;
}

} // verus!
