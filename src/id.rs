use rand::rngs::SmallRng;
use rand::{Rng, SeedableRng};
use vstd::prelude::*;

verus! {

/// Number of bytes in an identifier.
pub const ID_BYTES: usize = 4;

/// A small opaque identifier: four bytes, compared byte-wise.
#[derive(Clone, Copy, PartialEq, Eq, PartialOrd, Ord, Hash)]
pub struct Id {
    inner: [u8; 4],
}

#[verifier::external_type_specification]
#[verifier::external_body]
pub struct ExSmallRng(SmallRng);

/// What four draws of `u8` from a `SmallRng` freshly seeded with `seed` give.
pub uninterp spec fn seeded_draw(seed: Seq<u8>) -> Seq<u8>;

/// Relies on `SeedableRng::from_entropy` for `SmallRng`: a generator seeded
/// from the operating system's entropy source (it panics only where the
/// system offers no entropy). Nothing is known of its state.
#[verifier::external_body]
fn entropy_rng() -> SmallRng {
    SmallRng::from_entropy()
}

/// Relies on `Rng::gen::<[u8; 4]>`: four bytes drawn one after another.
#[verifier::external_body]
fn draw_bytes(rng: &mut SmallRng) -> [u8; 4] {
    rng.gen()
}

/// Relies on `SeedableRng::from_seed` for `SmallRng` followed by
/// `Rng::gen::<[u8; 4]>`: the generator is a function of the seed alone, and
/// so are the bytes drawn from it.
#[verifier::external_body]
fn draw_bytes_from_seed(seed: [u8; 32]) -> (r: [u8; 4])
    ensures
        r@ == seeded_draw(seed@),
{
    SmallRng::from_seed(seed).gen()
}

/// Relies on `String::push`: the character is appended at the end.
#[verifier::external_body]
fn push_char(s: &mut String, c: char)
    ensures
        final(s)@ == old(s)@.push(c),
{
    s.push(c)
}

/// The sixteen lowercase hexadecimal digits, in order.
pub open spec fn hex_digits() -> Seq<char> {
    seq!['0', '1', '2', '3', '4', '5', '6', '7', '8', '9', 'a', 'b', 'c', 'd', 'e', 'f']
}

/// The lowercase hexadecimal digit of `d`, for `d < 16`.
pub open spec fn hex_digit(d: int) -> char {
    hex_digits()[d]
}

/// The two lowercase hexadecimal digits of a byte, high nibble first.
pub open spec fn byte_hex(b: u8) -> Seq<char> {
    seq![hex_digit(b as int / 16), hex_digit(b as int % 16)]
}

/// Two hexadecimal digits for each byte, with no separator.
pub open spec fn hex_of(bytes: Seq<u8>) -> Seq<char>
    decreases bytes.len(),
{
    if bytes.len() == 0 {
        Seq::empty()
    } else {
        hex_of(bytes.drop_last()) + byte_hex(bytes.last())
    }
}

/// The bracketed form: each byte as two hexadecimal digits, separated by `", "`.
pub open spec fn debug_of(bytes: Seq<u8>) -> Seq<char> {
    seq!['['] + debug_groups(bytes) + seq![']']
}

/// The byte groups of the bracketed form, without the brackets.
pub open spec fn debug_groups(bytes: Seq<u8>) -> Seq<char>
    decreases bytes.len(),
{
    if bytes.len() == 0 {
        Seq::empty()
    } else if bytes.len() == 1 {
        byte_hex(bytes[0])
    } else {
        debug_groups(bytes.drop_last()) + seq![',', ' '] + byte_hex(bytes.last())
    }
}

/// Whether every character is a lowercase hexadecimal digit.
pub open spec fn is_lower_hex(s: Seq<char>) -> bool {
    forall|i: int| 0 <= i < s.len() ==> hex_digits().contains(#[trigger] s[i])
}

fn hex_char(d: u8) -> (c: char)
    requires
        d < 16,
    ensures
        c == hex_digit(d as int),
{
    match d {
        0 => '0',
        1 => '1',
        2 => '2',
        3 => '3',
        4 => '4',
        5 => '5',
        6 => '6',
        7 => '7',
        8 => '8',
        9 => '9',
        10 => 'a',
        11 => 'b',
        12 => 'c',
        13 => 'd',
        14 => 'e',
        _ => 'f',
    }
}

/// The two lowercase hexadecimal digits of `n`, high nibble first.
pub fn byte_to_hex(n: u8) -> (r: [char; 2])
    ensures
        r@ == byte_hex(n),
{
    let upper = n / 16;
    let lower = n % 16;
    let r = [hex_char(upper), hex_char(lower)];
    assert(r@ =~= byte_hex(n));
    r
}

/// Two lowercase hexadecimal digits for each byte, with no separator.
pub fn bytes_to_hex(bytes: &[u8]) -> (s: String)
    ensures
        s@ == hex_of(bytes@),
{
    let mut s = String::new();
    let mut i: usize = 0;
    while i < bytes.len()
        invariant
            i <= bytes@.len(),
            s@ == hex_of(bytes@.subrange(0, i as int)),
        decreases bytes@.len() - i,
    {
        let pair = byte_to_hex(bytes[i]);
        push_char(&mut s, pair[0]);
        push_char(&mut s, pair[1]);
        proof {
            let next = bytes@.subrange(0, i + 1);
            assert(next.drop_last() =~= bytes@.subrange(0, i as int));
            assert(s@ =~= hex_of(next));
        }
        i = i + 1;
    }
    assert(bytes@.subrange(0, i as int) =~= bytes@);
    s
}

impl View for Id {
    type V = Seq<u8>;

    closed spec fn view(&self) -> Seq<u8> {
        self.inner@
    }
}

impl Id {
    /// A fresh identifier from four bytes drawn from a generator seeded by
    /// the operating system's entropy.
    pub fn new() -> (r: Id)
        ensures
            r@.len() == ID_BYTES,
    {
        let mut rng = entropy_rng();
        Id::from_rng(&mut rng)
    }

    /// The identifier made of exactly these bytes.
    pub fn from(inner: [u8; 4]) -> (r: Id)
        ensures
            r@ == inner@,
    {
        Id { inner }
    }

    /// The identifier drawn from a generator seeded with `seed`: the same
    /// seed always gives the same identifier.
    pub fn from_seed(seed: [u8; 32]) -> (r: Id)
        ensures
            r@ == seeded_draw(seed@),
    {
        Id { inner: draw_bytes_from_seed(seed) }
    }

    /// An identifier made of the next four bytes drawn from `rng`.
    pub fn from_rng(rng: &mut SmallRng) -> (r: Id)
        ensures
            r@.len() == ID_BYTES,
    {
        Id { inner: draw_bytes(rng) }
    }

    /// The raw bytes.
    pub fn as_bytes(&self) -> (r: [u8; 4])
        ensures
            r@ == self@,
    {
        self.inner
    }

    /// The bytes read as one big-endian number; distinct identifiers have
    /// distinct keys.
    pub fn key(&self) -> (k: u32)
        ensures
            k == key_of(self@),
    {
        ((self.inner[0] as u32) << 24u32) | ((self.inner[1] as u32) << 16u32) | ((
        self.inner[2] as u32) << 8u32) | (self.inner[3] as u32)
    }

    /// The display form, as a sequence of characters.
    pub open spec fn to_hex_spec(&self) -> Seq<char> {
        hex_of(self@)
    }

    /// The display form: eight lowercase hexadecimal digits.
    pub fn to_hex(&self) -> (s: String)
        ensures
            s@ == self.to_hex_spec(),
    {
        bytes_to_hex(&self.inner)
    }

    /// The debug form: `[xx, xx, xx, xx]`.
    pub fn to_debug(&self) -> (s: String)
        ensures
            s@ == debug_of(self@),
    {
        let mut s = String::new();
        push_char(&mut s, '[');
        let mut i: usize = 0;
        while i < ID_BYTES
            invariant
                i <= ID_BYTES,
                self.inner@.len() == ID_BYTES,
                s@ == seq!['['] + debug_groups(self.inner@.subrange(0, i as int)),
            decreases ID_BYTES - i,
        {
            if i > 0 {
                push_char(&mut s, ',');
                push_char(&mut s, ' ');
            }
            let pair = byte_to_hex(self.inner[i]);
            push_char(&mut s, pair[0]);
            push_char(&mut s, pair[1]);
            proof {
                let prev = self.inner@.subrange(0, i as int);
                let next = self.inner@.subrange(0, i + 1);
                assert(next.drop_last() =~= prev);
                if i == 0 {
                    assert(s@ =~= seq!['['] + debug_groups(next));
                } else {
                    assert(s@ =~= seq!['['] + debug_groups(next));
                }
            }
            i = i + 1;
        }
        push_char(&mut s, ']');
        assert(self.inner@.subrange(0, ID_BYTES as int) =~= self.inner@);
        assert(s@ =~= debug_of(self@));
        s
    }
}

/// The four bytes read as a big-endian number.
pub open spec fn key_of(b: Seq<u8>) -> u32 {
    ((b[0] as u32) << 24u32) | ((b[1] as u32) << 16u32) | ((b[2] as u32) << 8u32) | (b[3] as u32)
}

proof fn lemma_key_bytes(a0: u8, a1: u8, a2: u8, a3: u8, b0: u8, b1: u8, b2: u8, b3: u8)
    requires
        ((a0 as u32) << 24u32) | ((a1 as u32) << 16u32) | ((a2 as u32) << 8u32) | (a3 as u32)
            == ((b0 as u32) << 24u32) | ((b1 as u32) << 16u32) | ((b2 as u32) << 8u32) | (
        b3 as u32),
    ensures
        a0 == b0 && a1 == b1 && a2 == b2 && a3 == b3,
{
    assert(a0 == b0 && a1 == b1 && a2 == b2 && a3 == b3) by (bit_vector)
        requires
            ((a0 as u32) << 24u32) | ((a1 as u32) << 16u32) | ((a2 as u32) << 8u32) | (
            a3 as u32) == ((b0 as u32) << 24u32) | ((b1 as u32) << 16u32) | ((b2 as u32)
                << 8u32) | (b3 as u32),
    ;
}

/// Two identifiers with the same key are the same identifier.
pub proof fn lemma_key_injective(a: Id, b: Id)
    ensures
        key_of(a@) == key_of(b@) <==> a@ == b@,
{
    lemma_id_len(a);
    lemma_id_len(b);
    if key_of(a@) == key_of(b@) {
        lemma_key_bytes(a@[0], a@[1], a@[2], a@[3], b@[0], b@[1], b@[2], b@[3]);
        assert(a@ =~= b@);
    }
}

/// Every identifier has four bytes.
pub proof fn lemma_id_len(a: Id)
    ensures
        a@.len() == ID_BYTES,
{
}

proof fn lemma_byte_hex_lower(b: u8)
    ensures
        is_lower_hex(byte_hex(b)),
{
    let h = byte_hex(b);
    assert(hex_digits()[b as int / 16] == h[0]);
    assert(hex_digits()[b as int % 16] == h[1]);
}

proof fn lemma_concat_lower(a: Seq<char>, b: Seq<char>)
    requires
        is_lower_hex(a),
        is_lower_hex(b),
    ensures
        is_lower_hex(a + b),
{
    assert forall|i: int| 0 <= i < (a + b).len() implies hex_digits().contains(
        #[trigger] (a + b)[i],
    ) by {
        if i >= a.len() {
            assert((a + b)[i] == b[i - a.len()]);
        }
    }
}

/// The display form of any identifier is eight lowercase hexadecimal digits,
/// two for each byte in order, and its debug form is `[b0, b1, b2, b3]` with
/// each byte written as the same two digits.
pub proof fn lemma_text_forms(i: Id)
    ensures
        hex_of(i@).len() == 2 * ID_BYTES,
        is_lower_hex(hex_of(i@)),
        hex_of(i@) == byte_hex(i@[0]) + byte_hex(i@[1]) + byte_hex(i@[2]) + byte_hex(i@[3]),
        debug_of(i@) == seq!['['] + byte_hex(i@[0]) + seq![',', ' '] + byte_hex(i@[1]) + seq![
            ',',
            ' ',
        ] + byte_hex(i@[2]) + seq![',', ' '] + byte_hex(i@[3]) + seq![']'],
{
    let b = i@;
    lemma_id_len(i);
    assert(b.drop_last() =~= b.subrange(0, 3));
    assert(b.subrange(0, 3).drop_last() =~= b.subrange(0, 2));
    assert(b.subrange(0, 2).drop_last() =~= b.subrange(0, 1));
    assert(b.subrange(0, 1).drop_last() =~= Seq::<u8>::empty());
    reveal_with_fuel(hex_of, 5);
    reveal_with_fuel(debug_groups, 5);
    assert(hex_of(b) =~= byte_hex(b[0]) + byte_hex(b[1]) + byte_hex(b[2]) + byte_hex(b[3]));
    assert(debug_of(b) =~= seq!['['] + byte_hex(b[0]) + seq![',', ' '] + byte_hex(b[1]) + seq![
        ',',
        ' ',
    ] + byte_hex(b[2]) + seq![',', ' '] + byte_hex(b[3]) + seq![']']);
    lemma_byte_hex_lower(b[0]);
    lemma_byte_hex_lower(b[1]);
    lemma_byte_hex_lower(b[2]);
    lemma_byte_hex_lower(b[3]);
    lemma_concat_lower(byte_hex(b[0]), byte_hex(b[1]));
    lemma_concat_lower(byte_hex(b[0]) + byte_hex(b[1]), byte_hex(b[2]));
    lemma_concat_lower(byte_hex(b[0]) + byte_hex(b[1]) + byte_hex(b[2]), byte_hex(b[3]));
}

/// Two identifiers drawn from the same seed are the same identifier.
pub proof fn lemma_from_seed_deterministic(seed: [u8; 32], a: Id, b: Id)
    requires
        a@ == seeded_draw(seed@),
        b@ == seeded_draw(seed@),
    ensures
        a@ == b@,
        a.to_hex_spec() == b.to_hex_spec(),
{
}

} // verus!
