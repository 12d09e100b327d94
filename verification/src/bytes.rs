//! Byte encoding of 32-bit words.
//!
//! Records are stored and sent in the byte order of the machine that runs
//! the program. Which order that is cannot be known before the program
//! runs, so everything here takes the order as a value and holds for both.
//! `ByteOrder::native` finds out the order of the running machine.

use vstd::prelude::*;

verus! {

/// Order of the bytes of a word in memory.
#[derive(Clone, Copy, Debug, PartialEq, Eq, Structural)]
pub enum ByteOrder {
    /// Least significant byte first.
    LittleEndian,
    /// Most significant byte first.
    BigEndian,
}

/// The four bytes of `x`, least significant byte first.
pub open spec fn le_bytes(x: u32) -> Seq<u8> {
    seq![
        (x % 256) as u8,
        (x / 256 % 256) as u8,
        (x / 65536 % 256) as u8,
        (x / 16777216) as u8,
    ]
}

/// The four bytes of `x`, most significant byte first.
pub open spec fn be_bytes(x: u32) -> Seq<u8> {
    seq![
        (x / 16777216) as u8,
        (x / 65536 % 256) as u8,
        (x / 256 % 256) as u8,
        (x % 256) as u8,
    ]
}

/// The four bytes of `x` in the given order.
pub open spec fn ordered_bytes(x: u32, order: ByteOrder) -> Seq<u8> {
    match order {
        ByteOrder::LittleEndian => le_bytes(x),
        ByteOrder::BigEndian => be_bytes(x),
    }
}

/// The bytes of each word of `words` in turn, in the given order.
pub open spec fn words_bytes(words: Seq<u32>, order: ByteOrder) -> Seq<u8>
    decreases words.len(),
{
    if words.len() == 0 {
        Seq::empty()
    } else {
        words_bytes(words.drop_last(), order) + ordered_bytes(words.last(), order)
    }
}

/// The order in which `probe` holds the word 1: big-endian unless the
/// first byte is the 1.
pub open spec fn order_of(probe: Seq<u8>) -> ByteOrder {
    if probe[0] == 1 {
        ByteOrder::LittleEndian
    } else {
        ByteOrder::BigEndian
    }
}

/// Calls `u32::to_ne_bytes`. Trusted: the result is the memory
/// representation of `x`, which is its four bytes in one of the two
/// orders. Which one depends on the machine and is not claimed.
#[verifier::external_body]
fn to_native(x: u32) -> (b: [u8; 4])
    ensures
        b@ == le_bytes(x) || b@ == be_bytes(x),
{
    x.to_ne_bytes()
}

impl ByteOrder {
    /// Tells the byte order from the memory representation of the word 1.
    pub fn detect(probe: &[u8; 4]) -> (order: ByteOrder)
        ensures
            order == order_of(probe@),
    {
        if probe[0] == 1 {
            ByteOrder::LittleEndian
        } else {
            ByteOrder::BigEndian
        }
    }

    /// The byte order of the running machine.
    pub fn native() -> (order: ByteOrder) {
        let probe = to_native(1);
        ByteOrder::detect(&probe)
    }
}

/// The bytes of `x` in the given order.
pub fn word_bytes(x: u32, order: ByteOrder) -> (b: [u8; 4])
    ensures
        b@ == ordered_bytes(x, order),
{
    let b0 = (x % 256) as u8;
    let b1 = (x / 256 % 256) as u8;
    let b2 = (x / 65536 % 256) as u8;
    let b3 = (x / 16777216) as u8;
    let b = match order {
        ByteOrder::LittleEndian => [b0, b1, b2, b3],
        ByteOrder::BigEndian => [b3, b2, b1, b0],
    };
    assert(b@ =~= ordered_bytes(x, order));
    b
}

/// Appends the bytes of `x` in the given order to `buf`.
pub fn push_word(buf: &mut Vec<u8>, x: u32, order: ByteOrder)
    ensures
        final(buf)@ == old(buf)@ + ordered_bytes(x, order),
{
    let b = word_bytes(x, order);
    buf.push(b[0]);
    buf.push(b[1]);
    buf.push(b[2]);
    buf.push(b[3]);
    assert(buf@ =~= old(buf)@ + ordered_bytes(x, order));
}

/// The two layouts of the word 1 are told apart.
pub proof fn lemma_order_of_one()
    ensures
        order_of(le_bytes(1)) == ByteOrder::LittleEndian,
        order_of(be_bytes(1)) == ByteOrder::BigEndian,
{
}

/// A word has four bytes whatever the order.
pub proof fn lemma_word_len(x: u32, order: ByteOrder)
    ensures
        ordered_bytes(x, order).len() == 4,
{
}

/// Two words with the same bytes in one order are the same word, so
/// reading four bytes back recovers what was written.
pub proof fn lemma_word_injective(x: u32, y: u32, order: ByteOrder)
    requires
        ordered_bytes(x, order) == ordered_bytes(y, order),
    ensures
        x == y,
{
    let bx = ordered_bytes(x, order);
    let by = ordered_bytes(y, order);
    match order {
        ByteOrder::LittleEndian => {
            assert(bx[0] == by[0] && bx[1] == by[1] && bx[2] == by[2] && bx[3] == by[3]);
        },
        ByteOrder::BigEndian => {
            assert(bx[3] == by[3] && bx[2] == by[2] && bx[1] == by[1] && bx[0] == by[0]);
        },
    }
    assert(x % 256 == y % 256);
    assert(x / 256 % 256 == y / 256 % 256);
    assert(x / 65536 % 256 == y / 65536 % 256);
    assert(x / 16777216 == y / 16777216);
    assert(x == y) by (bit_vector)
        requires
            x % 256 == y % 256,
            x / 256 % 256 == y / 256 % 256,
            x / 65536 % 256 == y / 65536 % 256,
            x / 16777216 == y / 16777216,
    ;
}

/// Each word of a payload takes four bytes.
pub proof fn lemma_words_len(words: Seq<u32>, order: ByteOrder)
    ensures
        words_bytes(words, order).len() == 4 * words.len(),
    decreases words.len(),
{
    if words.len() > 0 {
        lemma_words_len(words.drop_last(), order);
    }
}

/// Two payloads of one length with the same bytes hold the same words.
pub proof fn lemma_words_injective(a: Seq<u32>, b: Seq<u32>, order: ByteOrder)
    requires
        a.len() == b.len(),
        words_bytes(a, order) == words_bytes(b, order),
    ensures
        a == b,
    decreases a.len(),
{
    if a.len() > 0 {
        let (ha, hb) = (a.drop_last(), b.drop_last());
        lemma_words_len(ha, order);
        lemma_words_len(hb, order);
        let cut = (4 * ha.len()) as int;
        assert(words_bytes(ha, order) =~= words_bytes(a, order).subrange(0, cut));
        assert(words_bytes(hb, order) =~= words_bytes(b, order).subrange(0, cut));
        assert(ordered_bytes(a.last(), order) =~= words_bytes(a, order).subrange(cut, cut + 4));
        assert(ordered_bytes(b.last(), order) =~= words_bytes(b, order).subrange(cut, cut + 4));
        lemma_words_injective(ha, hb, order);
        lemma_word_injective(a.last(), b.last(), order);
        assert(a =~= ha.push(a.last()));
        assert(b =~= hb.push(b.last()));
    } else {
        assert(a =~= b);
    }
}

} // verus!
