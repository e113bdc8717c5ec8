//! The RC4 keystream generator, with skipping, rewinding and alignment to a
//! known-plaintext window.

use crate::byte_buffer::be_value;
use vstd::prelude::*;
use vstd::utf8::encode_utf8;

verus! {

/// The number of keystream bytes that [`Rc4::align_to_tick`] searches.
pub const DEFAULT_ALIGN_BOUND: usize = 100_000_000;

/// The length of the window that alignment inspects.
pub const ALIGN_WINDOW: usize = 7;

/// The number of keystream positions that [`Rc4::align_to`] searches.
pub const PAIR_ALIGN_BOUND: usize = 10_000_000;

/// The number of keystream positions that [`Rc4::align_to_real_tick`]
/// searches.
pub const KNOWN_TICK_ALIGN_BOUND: usize = 100_000;

/// Why an operation on the cipher failed.
#[derive(Clone, Copy, Debug, PartialEq, Eq, Structural)]
pub enum CipherError {
    /// The cipher was asked to go back further than it has advanced.
    ReverseUnderflow,
    /// No keystream window within the search bound matches.
    NotFound,
}

/// The generator's state: the permutation table and its two indices.
pub ghost struct Rc4State {
    pub perm: Seq<u8>,
    pub i: int,
    pub j: int,
}

/// The table that maps every byte value to itself.
pub open spec fn identity_table() -> Seq<u8> {
    Seq::new(256, |k: int| k as u8)
}

/// `table` with the entries at `a` and `b` exchanged.
pub open spec fn swapped(table: Seq<u8>, a: int, b: int) -> Seq<u8> {
    table.update(a, table[b]).update(b, table[a])
}

/// The table and the running index after the first `n` rounds of key
/// scheduling.
pub open spec fn schedule_rounds(key: Seq<u8>, n: int) -> (Seq<u8>, int)
    decreases n,
{
    if n <= 0 {
        (identity_table(), 0)
    } else {
        let (table, j) = schedule_rounds(key, n - 1);
        let i = n - 1;
        let next = (j + table[i] + key[i % key.len() as int]) % 256;
        (swapped(table, i, next), next)
    }
}

/// The permutation that key scheduling leaves.
pub open spec fn key_schedule(key: Seq<u8>) -> Seq<u8> {
    schedule_rounds(key, 256).0
}

/// The state right after key scheduling.
pub open spec fn initial_state(key: Seq<u8>) -> Rc4State {
    Rc4State { perm: key_schedule(key), i: 0, j: 0 }
}

/// One round of the generator.
pub open spec fn step(st: Rc4State) -> Rc4State {
    let i = (st.i + 1) % 256;
    let j = (st.j + st.perm[i]) % 256;
    Rc4State { perm: swapped(st.perm, i, j), i, j }
}

/// `n` rounds of the generator.
pub open spec fn advance(st: Rc4State, n: int) -> Rc4State
    decreases n,
{
    if n <= 0 {
        st
    } else {
        step(advance(st, n - 1))
    }
}

/// The keystream byte that a state has just produced.
pub open spec fn output(st: Rc4State) -> u8 {
    st.perm[(st.perm[st.i] + st.perm[st.j]) % 256]
}

/// The state after `offset` keystream bytes under `key`.
pub open spec fn state_at(key: Seq<u8>, offset: int) -> Rc4State {
    advance(initial_state(key), offset)
}

/// The keystream byte at position `pos`, counted from zero, under `key`.
pub open spec fn keystream_byte(key: Seq<u8>, pos: int) -> u8 {
    output(state_at(key, pos + 1))
}

/// The `n` keystream bytes from position `from` on.
pub open spec fn keystream(key: Seq<u8>, from: int, n: int) -> Seq<u8> {
    Seq::new(
        if n < 0 {
            0
        } else {
            n as nat
        },
        |k: int| keystream_byte(key, from + k),
    )
}

/// `bytes` with every byte from index `start` on combined by exclusive or
/// with the keystream from position `pos` on; the bytes before `start` stay.
pub open spec fn xor_from(bytes: Seq<u8>, start: int, key: Seq<u8>, pos: int) -> Seq<u8> {
    Seq::new(
        bytes.len(),
        |k: int|
            if k < start {
                bytes[k]
            } else {
                bytes[k] ^ keystream_byte(key, pos + k - start)
            },
    )
}

/// The number of keystream bytes that applying from index `start` uses up.
pub open spec fn consumed(len: int, start: int) -> int {
    if 0 <= start < len {
        len - start
    } else {
        0
    }
}

/// Whether the keystream at position `pos` agrees with `window` in the five
/// places where the plaintext of a tick is expected to be zero: the first
/// two, and the fifth to seventh.
pub open spec fn window_matches(key: Seq<u8>, pos: int, window: Seq<u8>) -> bool {
    &&& keystream_byte(key, pos) == window[0]
    &&& keystream_byte(key, pos + 1) == window[1]
    &&& keystream_byte(key, pos + 4) == window[4]
    &&& keystream_byte(key, pos + 5) == window[5]
    &&& keystream_byte(key, pos + 6) == window[6]
}

/// The first position in `from .. from + bound` at which the keystream
/// matches `window`.
pub open spec fn first_match(key: Seq<u8>, from: int, bound: int, window: Seq<u8>) -> Option<int>
    decreases bound,
{
    if bound <= 0 {
        None
    } else if window_matches(key, from, window) {
        Some(from)
    } else {
        first_match(key, from + 1, bound - 1, window)
    }
}

/// The number that the first four bytes of `chunk` spell, most significant
/// byte first, once they are decrypted by the keystream from `pos` on.
pub open spec fn word_at(key: Seq<u8>, pos: int, chunk: Seq<u8>) -> nat {
    be_value(xor_from(chunk.take(4), 0, key, pos))
}

/// The first position in `from .. from + bound` at which `encrypted`
/// decrypts to the number `value`.
pub open spec fn first_word_match(
    key: Seq<u8>,
    from: int,
    bound: int,
    encrypted: Seq<u8>,
    value: u32,
) -> Option<int>
    decreases bound,
{
    if bound <= 0 {
        None
    } else if word_at(key, from, encrypted) == value {
        Some(from)
    } else {
        first_word_match(key, from + 1, bound - 1, encrypted, value)
    }
}

/// Whether `chunk1`, decrypted from `pos` on, starts with a number that is
/// one less than the number that `chunk2` starts with when it lies `gap`
/// bytes behind `chunk1` in the stream.
pub open spec fn words_adjacent(
    key: Seq<u8>,
    pos: int,
    chunk1: Seq<u8>,
    chunk2: Seq<u8>,
    gap: int,
) -> bool {
    word_at(key, pos, chunk1) + 1 == word_at(key, pos + chunk1.len() + gap, chunk2)
}

/// The first position in `from .. from + bound` at which the two chunks
/// decrypt to adjacent numbers.
pub open spec fn first_pair_match(
    key: Seq<u8>,
    from: int,
    bound: int,
    chunk1: Seq<u8>,
    chunk2: Seq<u8>,
    gap: int,
) -> Option<int>
    decreases bound,
{
    if bound <= 0 {
        None
    } else if words_adjacent(key, from, chunk1, chunk2, gap) {
        Some(from)
    } else {
        first_pair_match(key, from + 1, bound - 1, chunk1, chunk2, gap)
    }
}

/// The value of a hexadecimal digit given as a byte of text.
pub open spec fn hex_digit(c: u8) -> Option<u8> {
    if 0x30 <= c <= 0x39 {
        Some((c - 0x30) as u8)
    } else if 0x61 <= c <= 0x66 {
        Some((c - 0x61 + 10) as u8)
    } else if 0x41 <= c <= 0x46 {
        Some((c - 0x41 + 10) as u8)
    } else {
        None
    }
}

/// The bytes that `text` spells in pairs of hexadecimal digits, if it is
/// made of such pairs.
pub open spec fn hex_bytes(text: Seq<u8>) -> Option<Seq<u8>>
    decreases text.len(),
{
    if text.len() == 0 {
        Some(Seq::empty())
    } else if text.len() == 1 {
        None
    } else {
        match (
            hex_bytes(text.drop_last().drop_last()),
            hex_digit(text[text.len() - 2]),
            hex_digit(text[text.len() - 1]),
        ) {
            (Some(bytes), Some(high), Some(low)) => Some(bytes.push((high * 16 + low) as u8)),
            _ => None,
        }
    }
}

/// Text that spells bytes has an even length, and so does every even
/// stretch at its start.
pub proof fn lemma_hex_bytes_prefix(text: Seq<u8>, n: int)
    requires
        hex_bytes(text) is Some,
        0 <= n <= text.len(),
        n % 2 == 0,
    ensures
        text.len() % 2 == 0,
        hex_bytes(text.take(n)) is Some,
        hex_bytes(text)->0.len() * 2 == text.len(),
    decreases text.len(),
{
    if text.len() >= 2 {
        let front = text.drop_last().drop_last();
        if n == text.len() {
            assert(text.take(n) =~= text);
            lemma_hex_bytes_prefix(front, 0);
        } else {
            lemma_hex_bytes_prefix(front, 0);
            lemma_hex_bytes_prefix(front, n);
            assert(front.take(n) =~= text.take(n));
        }
    } else {
        assert(text.take(n) =~= text);
    }
}

/// Whether no value occurs twice in a table of 256 entries, so that every
/// byte value occurs once.
pub open spec fn is_permutation(table: Seq<u8>) -> bool {
    &&& table.len() == 256
    &&& forall|a: int, b: int| 0 <= a < b < 256 ==> table[a] != table[b]
}

/// Exchanging two entries of a permutation leaves a permutation.
pub proof fn lemma_swapped_permutation(table: Seq<u8>, a: int, b: int)
    requires
        is_permutation(table),
        0 <= a < 256,
        0 <= b < 256,
    ensures
        is_permutation(swapped(table, a, b)),
{
    let after = swapped(table, a, b);
    assert forall|x: int, y: int| 0 <= x < y < 256 implies after[x] != after[y] by {
        let from_x = if x == a { b } else if x == b { a } else { x };
        let from_y = if y == a { b } else if y == b { a } else { y };
        assert(after[x] == table[from_x]);
        assert(after[y] == table[from_y]);
        assert(from_x != from_y);
        if from_x < from_y {
            assert(table[from_x] != table[from_y]);
        } else {
            assert(table[from_y] != table[from_x]);
        }
    }
}

/// Every round of key scheduling leaves a permutation.
pub proof fn lemma_schedule_is_permutation(key: Seq<u8>, n: int)
    requires
        n <= 256,
    ensures
        is_permutation(schedule_rounds(key, n).0),
        0 <= schedule_rounds(key, n).1 < 256,
    decreases n,
{
    if n > 0 {
        lemma_schedule_is_permutation(key, n - 1);
        let (table, j) = schedule_rounds(key, n - 1);
        let next = (j + table[n - 1] + key[(n - 1) % key.len() as int]) % 256;
        lemma_swapped_permutation(table, n - 1, next);
    } else {
        assert(is_permutation(identity_table()));
    }
}

/// At every position of the keystream the table is a permutation and both
/// indices lie within it.
pub proof fn lemma_state_is_permutation(key: Seq<u8>, offset: int)
    ensures
        is_permutation(state_at(key, offset).perm),
        0 <= state_at(key, offset).i < 256,
        0 <= state_at(key, offset).j < 256,
    decreases offset,
{
    if offset <= 0 {
        lemma_schedule_is_permutation(key, 256);
    } else {
        lemma_state_is_permutation(key, offset - 1);
        let st = state_at(key, offset - 1);
        let i = (st.i + 1) % 256;
        let j = (st.j + st.perm[i]) % 256;
        lemma_swapped_permutation(st.perm, i, j);
    }
}

#[derive(Clone, Copy, Debug)]
struct Generator {
    table: [u8; 256],
    i: usize,
    j: usize,
    offset: usize,
}

impl Generator {
    /// The table and the indices as a value.
    spec fn state(self) -> Rc4State {
        Rc4State { perm: self.table@, i: self.i as int, j: self.j as int }
    }

    /// Both indices point into the table.
    spec fn indices_in_range(self) -> bool {
        self.i < 256 && self.j < 256
    }

    /// One round: the state moves on; the offset is left to the caller.
    fn round(&mut self)
        requires
            old(self).indices_in_range(),
        ensures
            final(self).indices_in_range(),
            final(self).state() == step(old(self).state()),
            final(self).offset == old(self).offset,
    {
        let i: usize = (self.i + 1) % 256;
        let j: usize = (self.j + self.table[i] as usize) % 256;
        let a: u8 = self.table[i];
        let b: u8 = self.table[j];
        self.table[i] = b;
        self.table[j] = a;
        self.i = i;
        self.j = j;
        assert(self.table@ =~= swapped(old(self).table@, i as int, j as int));
    }

    /// One round under `key` from keystream position `pos`, which yields
    /// the keystream byte at `pos`.
    fn produce(&mut self, Ghost(key): Ghost<Seq<u8>>, Ghost(pos): Ghost<int>) -> (b: u8)
        requires
            old(self).indices_in_range(),
            0 <= pos,
            old(self).state() == state_at(key, pos),
        ensures
            final(self).indices_in_range(),
            final(self).offset == old(self).offset,
            final(self).state() == state_at(key, pos + 1),
            final(self).state() == step(old(self).state()),
            b == keystream_byte(key, pos),
    {
        self.round();
        self.emitted()
    }

    /// `amount` rounds under `key` from keystream position `pos`.
    fn advance(&mut self, amount: usize, Ghost(key): Ghost<Seq<u8>>, Ghost(pos): Ghost<int>)
        requires
            old(self).indices_in_range(),
            0 <= pos,
            old(self).state() == state_at(key, pos),
        ensures
            final(self).indices_in_range(),
            final(self).offset == old(self).offset,
            final(self).state() == state_at(key, pos + amount),
            final(self).state() == advance(old(self).state(), amount as int),
    {
        let mut k: usize = 0;
        while k < amount
            invariant
                k <= amount,
                0 <= pos,
                self.indices_in_range(),
                self.offset == old(self).offset,
                self.state() == state_at(key, pos + k),
                self.state() == advance(old(self).state(), k as int),
            decreases amount - k,
        {
            self.round();
            k = k + 1;
        }
    }

    /// The number that the first four bytes of `chunk` spell once they are
    /// decrypted by the keystream of `key` from `pos` on. The generator is
    /// left four rounds on.
    fn word(&mut self, chunk: &[u8], Ghost(key): Ghost<Seq<u8>>, Ghost(pos): Ghost<int>) -> (r:
        u32)
        requires
            chunk@.len() >= 4,
            old(self).indices_in_range(),
            0 <= pos,
            old(self).state() == state_at(key, pos),
        ensures
            final(self).indices_in_range(),
            final(self).offset == old(self).offset,
            final(self).state() == state_at(key, pos + 4),
            r == word_at(key, pos, chunk@),
    {
        let b0: u8 = chunk[0] ^ self.produce(Ghost(key), Ghost(pos));
        let b1: u8 = chunk[1] ^ self.produce(Ghost(key), Ghost(pos + 1));
        let b2: u8 = chunk[2] ^ self.produce(Ghost(key), Ghost(pos + 2));
        let b3: u8 = chunk[3] ^ self.produce(Ghost(key), Ghost(pos + 3));
        proof {
            let plain = xor_from(chunk@.take(4), 0, key, pos);
            reveal_with_fuel(be_value, 5);
            assert(plain =~= seq![b0, b1, b2, b3]);
            assert(plain.drop_last() =~= seq![b0, b1, b2]);
            assert(plain.drop_last().drop_last() =~= seq![b0, b1]);
            assert(plain.drop_last().drop_last().drop_last() =~= seq![b0]);
            assert(plain.drop_last().drop_last().drop_last().drop_last() =~= Seq::<u8>::empty());
        }
        ((b0 as u32 * 256 + b1 as u32) * 256 + b2 as u32) * 256 + b3 as u32
    }

    /// The byte that the generator has just produced.
    fn emitted(&self) -> (b: u8)
        requires
            self.indices_in_range(),
        ensures
            b == output(self.state()),
    {
        self.table[(self.table[self.i] as usize + self.table[self.j] as usize) % 256]
    }
}

/// Advancing by `a` and then by `b` is advancing by `a + b`.
pub proof fn lemma_advance_add(st: Rc4State, a: int, b: int)
    requires
        0 <= a,
        0 <= b,
    ensures
        advance(advance(st, a), b) == advance(st, a + b),
    decreases b,
{
    if b > 0 {
        lemma_advance_add(st, a, b - 1);
    }
}

/// Where a search finds a match, the keystream matches there and at no
/// earlier position of the range; where it finds none, no position of the
/// range matches.
pub proof fn lemma_first_match(key: Seq<u8>, from: int, bound: int, window: Seq<u8>)
    ensures
        match first_match(key, from, bound, window) {
            Some(p) => from <= p < from + bound && window_matches(key, p, window) && forall|q: int|
                from <= q < p ==> !window_matches(key, q, window),
            None => forall|q: int| from <= q < from + bound ==> !window_matches(key, q, window),
        },
    decreases bound,
{
    if bound > 0 && !window_matches(key, from, window) {
        lemma_first_match(key, from + 1, bound - 1, window);
    }
}

/// Applying the keystream to zeros yields the keystream itself.
pub proof fn lemma_apply_to_zeros(key: Seq<u8>, pos: int, n: nat)
    ensures
        xor_from(Seq::new(n, |k: int| 0u8), 0, key, pos) == keystream(key, pos, n as int),
{
    assert forall|x: u8| 0u8 ^ x == x by {
        assert(0u8 ^ x == x) by (bit_vector);
    }
    assert(xor_from(Seq::new(n, |k: int| 0u8), 0, key, pos) =~= keystream(key, pos, n as int));
}

/// A fresh cipher that has applied its keystream to `n` bytes stands at
/// position `n`, and going back by `n` from there is the state right after
/// key scheduling. In general, going back by `n` and advancing by `n` again
/// restores the state.
pub proof fn lemma_apply_then_reverse(key: Seq<u8>, offset: int, n: int)
    requires
        0 <= n <= offset,
    ensures
        consumed(n, 0) == n,
        state_at(key, consumed(n, 0) - n) == initial_state(key),
        advance(state_at(key, offset - n), n) == state_at(key, offset),
{
    lemma_advance_add(initial_state(key), offset - n, n);
}

/// Skipping discards exactly the bytes skipped. After `n` bytes have been
/// skipped from `from`, a look ahead of one byte sees the last of the
/// `n + 1` bytes that a look ahead from `from` saw, applying the keystream
/// to one zero byte yields that same byte, and the state is the one that `n`
/// rounds lead to.
pub proof fn lemma_skip_then_next(key: Seq<u8>, from: int, n: int)
    requires
        0 <= from,
        0 <= n,
    ensures
        keystream(key, from + n, 1) == keystream(key, from, n + 1).skip(n),
        keystream(key, from + n, 1)[0] == keystream(key, from, n + 1)[n],
        xor_from(seq![0u8], 0, key, from + n) == keystream(key, from + n, 1),
        advance(state_at(key, from), n) == state_at(key, from + n),
        output(step(advance(state_at(key, from), n))) == keystream_byte(key, from + n),
{
    lemma_advance_add(initial_state(key), from, n);
    assert(keystream(key, from + n, 1) =~= keystream(key, from, n + 1).skip(n));
    assert forall|x: u8| 0u8 ^ x == x by {
        assert(0u8 ^ x == x) by (bit_vector);
    }
    assert(xor_from(seq![0u8], 0, key, from + n) =~= keystream(key, from + n, 1));
}

/// Applying the keystream from the same position twice gives the bytes
/// back: what decrypts also encrypts.
pub proof fn lemma_xor_from_twice(bytes: Seq<u8>, start: int, key: Seq<u8>, pos: int)
    ensures
        xor_from(xor_from(bytes, start, key, pos), start, key, pos) == bytes,
{
    assert forall|x: u8, k: u8| (x ^ k) ^ k == x by {
        assert((x ^ k) ^ k == x) by (bit_vector);
    }
    assert(xor_from(xor_from(bytes, start, key, pos), start, key, pos) =~= bytes);
}

/// An RC4 cipher that remembers its key and how far it has advanced.
#[derive(Debug)]
pub struct Rc4 {
    key: Vec<u8>,
    init_table: [u8; 256],
    generator: Generator,
}

impl View for Rc4 {
    type V = Rc4State;

    /// The permutation table and the two indices.
    closed spec fn view(&self) -> Rc4State {
        self.generator.state()
    }
}

impl Rc4 {
    /// The key is not empty, the table kept for resets is the one that key
    /// scheduling leaves, and the generator is in the state that belongs to
    /// its offset.
    #[verifier::type_invariant]
    spec fn consistent(self) -> bool {
        &&& self.key@.len() > 0
        &&& self.init_table@ == key_schedule(self.key@)
        &&& self.generator.indices_in_range()
        &&& self.generator.state() == state_at(self.key@, self.generator.offset as int)
    }

    /// The key that the cipher was made with.
    pub closed spec fn spec_key(&self) -> Seq<u8> {
        self.key@
    }

    /// The number of keystream bytes produced or skipped since key
    /// scheduling or the last reset.
    pub closed spec fn spec_offset(&self) -> int {
        self.generator.offset as int
    }

    /// Whether the cipher has key `key` and stands at position `offset` of
    /// its keystream, with the state that belongs there.
    pub open spec fn positioned(&self, key: Seq<u8>, offset: int) -> bool {
        &&& self.spec_key() == key
        &&& self.spec_offset() == offset
        &&& self@ == state_at(key, self.spec_offset())
    }

    /// Schedule `key`, which must not be empty.
    pub fn new(key: Vec<u8>) -> (cipher: Self)
        requires
            key@.len() > 0,
        ensures
            cipher.positioned(key@, 0),
            cipher@ == initial_state(key@),
    {
        let mut table: [u8; 256] = [0u8; 256];
        let mut n: usize = 0;
        while n < 256
            invariant
                n <= 256,
                forall|k: int| 0 <= k < n ==> table@[k] == k as u8,
            decreases 256 - n,
        {
            table[n] = n as u8;
            n = n + 1;
        }
        assert(table@ =~= identity_table());
        let mut j: usize = 0;
        let mut i: usize = 0;
        while i < 256
            invariant
                i <= 256,
                j < 256,
                key@.len() > 0,
                (table@, j as int) == schedule_rounds(key@, i as int),
            decreases 256 - i,
        {
            j = (j + table[i] as usize + key[i % key.len()] as usize) % 256;
            let a: u8 = table[i];
            let b: u8 = table[j];
            let ghost before = table@;
            table[i] = b;
            table[j] = a;
            assert(table@ =~= swapped(before, i as int, j as int));
            i = i + 1;
        }
        Rc4 { key, init_table: table, generator: Generator { table, i: 0, j: 0, offset: 0 } }
    }

    /// Schedule the key that `key` spells in pairs of hexadecimal digits.
    /// Yields nothing where `key` is not made of such pairs or is empty.
    pub fn from_string_key(key: String) -> (r: Option<Self>)
        ensures
            match hex_bytes(encode_utf8(key@)) {
                Some(bytes) => if bytes.len() > 0 {
                    r is Some && r->0.positioned(bytes, 0) && r->0@ == initial_state(bytes)
                } else {
                    r is None
                },
                None => r is None,
            },
    {
        let text: &[u8] = key.as_str().as_bytes();
        if text.len() % 2 != 0 {
            proof {
                if hex_bytes(text@) is Some {
                    lemma_hex_bytes_prefix(text@, 0);
                }
            }
            return None;
        }
        let mut bytes: Vec<u8> = Vec::new();
        let mut i: usize = 0;
        while i < text.len()
            invariant
                i <= text@.len(),
                i % 2 == 0,
                text@.len() % 2 == 0,
                text@ == encode_utf8(key@),
                hex_bytes(text@.take(i as int)) == Some(bytes@),
            decreases text@.len() - i,
        {
            let ghost upto = text@.take(i + 2);
            proof {
                assert(upto.drop_last().drop_last() =~= text@.take(i as int));
            }
            let high: u8 = match Self::hex_value(text[i]) {
                Some(v) => v,
                None => {
                    proof {
                        if hex_bytes(text@) is Some {
                            lemma_hex_bytes_prefix(text@, i + 2);
                        }
                    }
                    return None;
                },
            };
            let low: u8 = match Self::hex_value(text[i + 1]) {
                Some(v) => v,
                None => {
                    proof {
                        if hex_bytes(text@) is Some {
                            lemma_hex_bytes_prefix(text@, i + 2);
                        }
                    }
                    return None;
                },
            };
            bytes.push(high * 16 + low);
            i = i + 2;
        }
        proof {
            assert(text@.take(i as int) =~= text@);
        }
        if bytes.len() == 0 {
            return None;
        }
        Some(Rc4::new(bytes))
    }

    /// The value of a hexadecimal digit given as a byte of text.
    fn hex_value(c: u8) -> (r: Option<u8>)
        ensures
            r == hex_digit(c),
            r is Some ==> r->0 < 16,
    {
        if 0x30 <= c && c <= 0x39 {
            Some(c - 0x30)
        } else if 0x61 <= c && c <= 0x66 {
            Some(c - 0x61 + 10)
        } else if 0x41 <= c && c <= 0x46 {
            Some(c - 0x41 + 10)
        } else {
            None
        }
    }

    /// The number of keystream bytes produced or skipped since key
    /// scheduling or the last reset.
    pub fn offset(&self) -> (n: usize)
        ensures
            n == self.spec_offset(),
            self.positioned(self.spec_key(), n as int),
    {
        proof {
            use_type_invariant(self);
        }
        self.generator.offset
    }

    /// Advance by `amount` keystream bytes without producing them.
    pub fn skip(&mut self, amount: usize)
        requires
            old(self).spec_offset() + amount <= usize::MAX,
        ensures
            final(self).positioned(old(self).spec_key(), old(self).spec_offset() + amount),
            final(self)@ == advance(old(self)@, amount as int),
    {
        proof {
            use_type_invariant(&*self);
        }
        let mut g: Generator = self.generator;
        g.advance(amount, Ghost(self.key@), Ghost(self.generator.offset as int));
        g.offset = g.offset + amount;
        self.generator = g;
    }

    /// Return `bytes` with every byte from index `offset` on combined by
    /// exclusive or with successive keystream bytes, and advance past the
    /// keystream used.
    pub fn apply_keystream(&mut self, offset: usize, bytes: &Vec<u8>) -> (out: Vec<u8>)
        requires
            old(self).spec_offset() + consumed(bytes@.len() as int, offset as int) <= usize::MAX,
        ensures
            out@ == xor_from(
                bytes@,
                offset as int,
                old(self).spec_key(),
                old(self).spec_offset(),
            ),
            final(self).positioned(
                old(self).spec_key(),
                old(self).spec_offset() + consumed(bytes@.len() as int, offset as int),
            ),
            final(self)@ == advance(old(self)@, consumed(bytes@.len() as int, offset as int)),
    {
        proof {
            use_type_invariant(&*self);
        }
        let ghost key = self.key@;
        let ghost from = self.generator.offset as int;
        let mut g: Generator = self.generator;
        let mut out: Vec<u8> = Vec::new();
        let mut k: usize = 0;
        while k < bytes.len()
            invariant
                k <= bytes.len(),
                g.indices_in_range(),
                g.offset == from,
                key == self.key@,
                out@.len() == k,
                0 <= from,
                forall|m: int|
                    0 <= m < k ==> out@[m] == xor_from(bytes@, offset as int, key, from)[m],
                g.state() == state_at(key, from + consumed(k as int, offset as int)),
                g.state() == advance(self.generator.state(), consumed(k as int, offset as int)),
            decreases bytes.len() - k,
        {
            if k < offset {
                out.push(bytes[k]);
            } else {
                let b: u8 = g.produce(Ghost(key), Ghost(from + (k - offset)));
                out.push(bytes[k] ^ b);
            }
            k = k + 1;
        }
        assert(out@ =~= xor_from(bytes@, offset as int, key, from));
        g.offset = g.offset + (if offset < bytes.len() {
            bytes.len() - offset
        } else {
            0
        });
        self.generator = g;
        out
    }

    /// What [`Rc4::apply_keystream`] would return, without advancing.
    pub fn apply_keystream_static(&self, offset: usize, bytes: &Vec<u8>) -> (out: Vec<u8>)
        ensures
            out@ == xor_from(bytes@, offset as int, self.spec_key(), self.spec_offset()),
    {
        proof {
            use_type_invariant(self);
        }
        let ghost key = self.key@;
        let ghost from = self.generator.offset as int;
        let mut g: Generator = self.generator;
        let mut out: Vec<u8> = Vec::new();
        let mut k: usize = 0;
        while k < bytes.len()
            invariant
                k <= bytes.len(),
                g.indices_in_range(),
                out@.len() == k,
                0 <= from,
                forall|m: int|
                    0 <= m < k ==> out@[m] == xor_from(bytes@, offset as int, key, from)[m],
                g.state() == state_at(key, from + consumed(k as int, offset as int)),
            decreases bytes.len() - k,
        {
            if k < offset {
                out.push(bytes[k]);
            } else {
                let b: u8 = g.produce(Ghost(key), Ghost(from + (k - offset)));
                out.push(bytes[k] ^ b);
            }
            k = k + 1;
        }
        assert(out@ =~= xor_from(bytes@, offset as int, key, from));
        out
    }

    /// The next `amount` keystream bytes, without advancing.
    pub fn peek_keystream(&self, amount: usize) -> (out: Vec<u8>)
        ensures
            out@ == keystream(self.spec_key(), self.spec_offset(), amount as int),
    {
        proof {
            use_type_invariant(self);
        }
        let ghost key = self.key@;
        let ghost from = self.generator.offset as int;
        let mut g: Generator = self.generator;
        let mut out: Vec<u8> = Vec::new();
        let mut k: usize = 0;
        while k < amount
            invariant
                k <= amount,
                g.indices_in_range(),
                out@.len() == k,
                0 <= from,
                forall|m: int| 0 <= m < k ==> out@[m] == keystream_byte(key, from + m),
                g.state() == state_at(key, from + k),
            decreases amount - k,
        {
            let b: u8 = g.produce(Ghost(key), Ghost(from + k));
            out.push(b);
            k = k + 1;
        }
        assert(out@ =~= keystream(key, from, amount as int));
        out
    }

    /// Go back to the state right after key scheduling.
    pub fn reset(&mut self)
        ensures
            final(self).positioned(old(self).spec_key(), 0),
            final(self)@ == initial_state(old(self).spec_key()),
    {
        proof {
            use_type_invariant(&*self);
        }
        self.generator = Generator { table: self.init_table, i: 0, j: 0, offset: 0 };
    }

    /// Go back by `amount` keystream bytes: reset, then skip to the earlier
    /// position. Fails, leaving the cipher as it was, when the cipher has not
    /// advanced that far.
    pub fn reverse(&mut self, amount: usize) -> (r: Result<(), CipherError>)
        ensures
            match r {
                Ok(_) => amount <= old(self).spec_offset() && final(self).positioned(
                    old(self).spec_key(),
                    old(self).spec_offset() - amount,
                ) && advance(final(self)@, amount as int) == old(self)@,
                Err(e) => e == CipherError::ReverseUnderflow && amount > old(self).spec_offset()
                    && *final(self) == *old(self),
            },
    {
        proof {
            use_type_invariant(&*self);
        }
        if amount > self.generator.offset {
            return Err(CipherError::ReverseUnderflow);
        }
        let target: usize = self.generator.offset - amount;
        proof {
            lemma_advance_add(initial_state(self.key@), target as int, amount as int);
        }
        self.reset();
        self.skip(target);
        Ok(())
    }

    /// Whether the keystream behind `pos` matches `window` in the places
    /// that alignment compares behind the first, given a generator one round
    /// past `pos` to look ahead with.
    fn rest_matches(
        look: &mut Generator,
        window: &[u8],
        Ghost(key): Ghost<Seq<u8>>,
        Ghost(pos): Ghost<int>,
    ) -> (found: bool)
        requires
            window@.len() >= ALIGN_WINDOW,
            old(look).indices_in_range(),
            0 <= pos,
            old(look).state() == state_at(key, pos + 1),
        ensures
            found == (keystream_byte(key, pos + 1) == window@[1] && keystream_byte(key, pos + 4)
                == window@[4] && keystream_byte(key, pos + 5) == window@[5] && keystream_byte(
                key,
                pos + 6,
            ) == window@[6]),
    {
        if look.produce(Ghost(key), Ghost(pos + 1)) != window[1] {
            return false;
        }
        let _ = look.produce(Ghost(key), Ghost(pos + 2));
        let _ = look.produce(Ghost(key), Ghost(pos + 3));
        if look.produce(Ghost(key), Ghost(pos + 4)) != window[4] {
            return false;
        }
        if look.produce(Ghost(key), Ghost(pos + 5)) != window[5] {
            return false;
        }
        look.produce(Ghost(key), Ghost(pos + 6)) == window[6]
    }

    /// Search the next `max_bytes` keystream positions for the first at
    /// which the keystream matches `tick_data`, the start of an encrypted
    /// tick, wherever the plaintext is expected to be zero. On success the
    /// cipher stands right before the matching window; otherwise it has
    /// advanced by `max_bytes`.
    pub fn align_to_tick_within(&mut self, tick_data: &[u8], max_bytes: usize) -> (r: Result<
        (),
        CipherError,
    >)
        requires
            tick_data@.len() >= ALIGN_WINDOW,
            old(self).spec_offset() + max_bytes <= usize::MAX,
        ensures
            match first_match(
                old(self).spec_key(),
                old(self).spec_offset(),
                max_bytes as int,
                tick_data@,
            ) {
                Some(p) => r is Ok && final(self).positioned(old(self).spec_key(), p),
                None => r == Err::<(), CipherError>(CipherError::NotFound)
                    && final(self).positioned(
                    old(self).spec_key(),
                    old(self).spec_offset() + max_bytes,
                ),
            },
    {
        proof {
            use_type_invariant(&*self);
        }
        let ghost key = self.key@;
        let ghost from = self.generator.offset as int;
        let mut g: Generator = self.generator;
        let mut k: usize = 0;
        while k < max_bytes
            invariant
                k <= max_bytes,
                tick_data@.len() >= ALIGN_WINDOW,
                g.indices_in_range(),
                g.offset == from,
                0 <= from,
                from + max_bytes <= usize::MAX,
                key == self.key@,
                self.key@ == old(self).spec_key(),
                from == old(self).spec_offset(),
                self.key@.len() > 0,
                self.init_table@ == key_schedule(self.key@),
                g.state() == state_at(key, from + k),
                self.generator.indices_in_range(),
                self.generator.offset == from,
                self.generator.state() == state_at(key, from),
                first_match(key, from, max_bytes as int, tick_data@) == first_match(
                    key,
                    from + k,
                    max_bytes - k,
                    tick_data@,
                ),
            decreases max_bytes - k,
        {
            let first: u8 = g.produce(Ghost(key), Ghost(from + k));
            if first == tick_data[0] {
                let mut look: Generator = g;
                if Self::rest_matches(&mut look, tick_data, Ghost(key), Ghost(from + k)) {
                    let mut found: Generator = self.generator;
                    found.advance(k, Ghost(key), Ghost(from));
                    found.offset = found.offset + k;
                    self.generator = found;
                    return Ok(());
                }
            }
            k = k + 1;
        }
        g.offset = g.offset + max_bytes;
        self.generator = g;
        Err(CipherError::NotFound)
    }

    /// Search the next hundred thousand keystream positions for the first
    /// at which the four bytes of `encrypted_tick` decrypt to `real_tick`,
    /// and stand there. The cipher stays where it is when there is none.
    pub fn align_to_real_tick(&mut self, real_tick: u32, encrypted_tick: &[u8]) -> (found: bool)
        requires
            encrypted_tick@.len() >= 4,
            old(self).spec_offset() + KNOWN_TICK_ALIGN_BOUND <= usize::MAX,
        ensures
            match first_word_match(
                old(self).spec_key(),
                old(self).spec_offset(),
                KNOWN_TICK_ALIGN_BOUND as int,
                encrypted_tick@,
                real_tick,
            ) {
                Some(p) => found && final(self).positioned(old(self).spec_key(), p),
                None => !found && *final(self) == *old(self),
            },
    {
        proof {
            use_type_invariant(&*self);
        }
        let ghost key = self.key@;
        let ghost from = self.generator.offset as int;
        let mut g: Generator = self.generator;
        let mut k: usize = 0;
        while k < KNOWN_TICK_ALIGN_BOUND
            invariant
                k <= KNOWN_TICK_ALIGN_BOUND,
                encrypted_tick@.len() >= 4,
                g.indices_in_range(),
                g.offset == from,
                0 <= from,
                from + KNOWN_TICK_ALIGN_BOUND <= usize::MAX,
                key == self.key@,
                *self == *old(self),
                self.key@ == old(self).spec_key(),
                from == old(self).spec_offset(),
                self.key@.len() > 0,
                self.init_table@ == key_schedule(self.key@),
                g.state() == state_at(key, from + k),
                first_word_match(
                    key,
                    from,
                    KNOWN_TICK_ALIGN_BOUND as int,
                    encrypted_tick@,
                    real_tick,
                ) == first_word_match(
                    key,
                    from + k,
                    KNOWN_TICK_ALIGN_BOUND - k,
                    encrypted_tick@,
                    real_tick,
                ),
            decreases KNOWN_TICK_ALIGN_BOUND - k,
        {
            let mut look: Generator = g;
            if look.word(encrypted_tick, Ghost(key), Ghost(from + k)) == real_tick {
                g.offset = g.offset + k;
                self.generator = g;
                return true;
            }
            g.round();
            k = k + 1;
        }
        false
    }

    /// Search the next ten million keystream positions for the first at
    /// which `chunk1` decrypts to a number one less than the number that
    /// `chunk2` decrypts to, `chunk2` lying `bytes_between` bytes behind
    /// `chunk1` in the stream. On success the cipher stands right before
    /// `chunk1` and the number of `chunk2` is returned. Otherwise the cipher
    /// stays where it is and the largest `u32` is returned.
    pub fn align_to(&mut self, chunk1: &[u8], chunk2: &[u8], bytes_between: usize) -> (r: u32)
        requires
            chunk1@.len() >= 4,
            chunk2@.len() >= 4,
            old(self).spec_offset() + PAIR_ALIGN_BOUND <= usize::MAX,
        ensures
            match first_pair_match(
                old(self).spec_key(),
                old(self).spec_offset(),
                PAIR_ALIGN_BOUND as int,
                chunk1@,
                chunk2@,
                bytes_between as int,
            ) {
                Some(p) => final(self).positioned(old(self).spec_key(), p) && r == word_at(
                    old(self).spec_key(),
                    p + chunk1@.len() + bytes_between,
                    chunk2@,
                ),
                None => r == u32::MAX && *final(self) == *old(self),
            },
    {
        proof {
            use_type_invariant(&*self);
        }
        let ghost key = self.key@;
        let ghost from = self.generator.offset as int;
        let mut g: Generator = self.generator;
        let mut k: usize = 0;
        while k < PAIR_ALIGN_BOUND
            invariant
                k <= PAIR_ALIGN_BOUND,
                chunk1@.len() >= 4,
                chunk2@.len() >= 4,
                g.indices_in_range(),
                g.offset == from,
                0 <= from,
                from + PAIR_ALIGN_BOUND <= usize::MAX,
                key == self.key@,
                *self == *old(self),
                self.key@ == old(self).spec_key(),
                from == old(self).spec_offset(),
                self.key@.len() > 0,
                self.init_table@ == key_schedule(self.key@),
                g.state() == state_at(key, from + k),
                first_pair_match(
                    key,
                    from,
                    PAIR_ALIGN_BOUND as int,
                    chunk1@,
                    chunk2@,
                    bytes_between as int,
                ) == first_pair_match(
                    key,
                    from + k,
                    PAIR_ALIGN_BOUND - k,
                    chunk1@,
                    chunk2@,
                    bytes_between as int,
                ),
            decreases PAIR_ALIGN_BOUND - k,
        {
            let mut look: Generator = g;
            let first: u32 = look.word(chunk1, Ghost(key), Ghost(from + k));
            look.advance(chunk1.len() - 4, Ghost(key), Ghost(from + k + 4));
            look.advance(bytes_between, Ghost(key), Ghost(from + k + chunk1@.len()));
            let second: u32 = look.word(
                chunk2,
                Ghost(key),
                Ghost(from + k + chunk1@.len() + bytes_between),
            );
            if first as u64 + 1 == second as u64 {
                g.offset = g.offset + k;
                self.generator = g;
                return second;
            }
            g.round();
            k = k + 1;
        }
        u32::MAX
    }

    /// [`Rc4::align_to_tick_within`] with the default bound of a hundred
    /// million keystream bytes.
    pub fn align_to_tick(&mut self, tick_data: &[u8]) -> (r: Result<(), CipherError>)
        requires
            tick_data@.len() >= ALIGN_WINDOW,
            old(self).spec_offset() + DEFAULT_ALIGN_BOUND <= usize::MAX,
        ensures
            match first_match(
                old(self).spec_key(),
                old(self).spec_offset(),
                DEFAULT_ALIGN_BOUND as int,
                tick_data@,
            ) {
                Some(p) => r is Ok && final(self).positioned(old(self).spec_key(), p),
                None => r == Err::<(), CipherError>(CipherError::NotFound)
                    && final(self).positioned(
                    old(self).spec_key(),
                    old(self).spec_offset() + DEFAULT_ALIGN_BOUND,
                ),
            },
    {
        self.align_to_tick_within(tick_data, DEFAULT_ALIGN_BOUND)
    }
}

impl Clone for Rc4 {
    fn clone(&self) -> (copy: Self)
        ensures
            copy.spec_key() == self.spec_key(),
            copy.spec_offset() == self.spec_offset(),
            copy@ == self@,
    {
        proof {
            use_type_invariant(self);
        }
        Rc4 {
            key: vstd::slice::slice_to_vec(self.key.as_slice()),
            init_table: self.init_table,
            generator: self.generator,
        }
    }
}

} // verus!
