//! Account addresses: 32-byte public keys.
use vstd::prelude::*;

verus! {

/// A 32-byte public key (an account address). The bytes are held as four
/// big-endian 64-bit words, so that comparing the words in order compares
/// the bytes in order.
#[derive(Clone, Copy, Debug, Default, PartialEq, Eq, Structural, Hash)]
pub struct Pubkey {
    w0: u64,
    w1: u64,
    w2: u64,
    w3: u64,
}

/// The eight bytes of a word, most significant first.
pub open spec fn word_bytes(w: u64) -> Seq<u8> {
    seq![
        (w >> 56u64) as u8,
        (w >> 48u64) as u8,
        (w >> 40u64) as u8,
        (w >> 32u64) as u8,
        (w >> 24u64) as u8,
        (w >> 16u64) as u8,
        (w >> 8u64) as u8,
        w as u8,
    ]
}

impl Pubkey {
    /// The key's 32 bytes.
    pub closed spec fn bytes(self) -> Seq<u8> {
        word_bytes(self.w0) + word_bytes(self.w1) + word_bytes(self.w2) + word_bytes(self.w3)
    }

    /// The key's words, most significant first.
    pub closed spec fn words(self) -> (u64, u64, u64, u64) {
        (self.w0, self.w1, self.w2, self.w3)
    }

    /// `self` orders before `other`, comparing the bytes in order.
    pub open spec fn lt(self, other: Pubkey) -> bool {
        let (a0, a1, a2, a3) = self.words();
        let (b0, b1, b2, b3) = other.words();
        ||| a0 < b0
        ||| a0 == b0 && a1 < b1
        ||| a0 == b0 && a1 == b1 && a2 < b2
        ||| a0 == b0 && a1 == b1 && a2 == b2 && a3 < b3
    }

    /// Of two different keys, one orders before the other, and never both.
    pub proof fn lemma_lt_total(a: Pubkey, b: Pubkey)
        ensures
            a != b ==> (a.lt(b) || b.lt(a)),
            !(a.lt(b) && b.lt(a)),
            !a.lt(a),
    {
    }

    /// Two keys are equal exactly when their bytes are.
    pub proof fn lemma_bytes_injective(a: Pubkey, b: Pubkey)
        ensures
            a.bytes() == b.bytes() <==> a == b,
    {
        if a.bytes() == b.bytes() {
            assert(a.bytes().subrange(0, 8) == word_bytes(a.w0));
            assert(b.bytes().subrange(0, 8) == word_bytes(b.w0));
            assert(a.bytes().subrange(8, 16) == word_bytes(a.w1));
            assert(b.bytes().subrange(8, 16) == word_bytes(b.w1));
            assert(a.bytes().subrange(16, 24) == word_bytes(a.w2));
            assert(b.bytes().subrange(16, 24) == word_bytes(b.w2));
            assert(a.bytes().subrange(24, 32) == word_bytes(a.w3));
            assert(b.bytes().subrange(24, 32) == word_bytes(b.w3));
            lemma_word_bytes_injective(a.w0, b.w0);
            lemma_word_bytes_injective(a.w1, b.w1);
            lemma_word_bytes_injective(a.w2, b.w2);
            lemma_word_bytes_injective(a.w3, b.w3);
        }
    }

    /// The key with the given bytes.
    pub fn new_from_array(bytes: [u8; 32]) -> (r: Pubkey)
        ensures
            r.bytes() == bytes@,
    {
        let r = Pubkey {
            w0: pack_word(bytes[0], bytes[1], bytes[2], bytes[3], bytes[4], bytes[5], bytes[6], bytes[7]),
            w1: pack_word(bytes[8], bytes[9], bytes[10], bytes[11], bytes[12], bytes[13], bytes[14], bytes[15]),
            w2: pack_word(bytes[16], bytes[17], bytes[18], bytes[19], bytes[20], bytes[21], bytes[22], bytes[23]),
            w3: pack_word(bytes[24], bytes[25], bytes[26], bytes[27], bytes[28], bytes[29], bytes[30], bytes[31]),
        };
        assert(r.bytes() =~= bytes@);
        r
    }

    /// The all-zero key.
    pub closed spec fn zeroed_spec() -> Pubkey {
        Pubkey { w0: 0, w1: 0, w2: 0, w3: 0 }
    }

    /// The all-zero key, which marks an account that was never initialized.
    pub fn zeroed() -> (r: Pubkey)
        ensures
            r == Pubkey::zeroed_spec(),
            r.bytes() == Seq::new(32, |i: int| 0u8),
            r.words() == (0u64, 0u64, 0u64, 0u64),
    {
        let r = Pubkey { w0: 0, w1: 0, w2: 0, w3: 0 };
        assert((0u64 >> 56u64) as u8 == 0 && (0u64 >> 48u64) as u8 == 0 && (0u64 >> 40u64) as u8
            == 0 && (0u64 >> 32u64) as u8 == 0 && (0u64 >> 24u64) as u8 == 0 && (0u64 >> 16u64) as u8
            == 0 && (0u64 >> 8u64) as u8 == 0 && 0u64 as u8 == 0) by (bit_vector);
        assert(r.bytes() =~= Seq::new(32, |i: int| 0u8));
        r
    }

    /// The key's bytes.
    pub fn to_bytes(&self) -> (r: [u8; 32])
        ensures
            r@ == self.bytes(),
    {
        let a = unpack_word(self.w0);
        let b = unpack_word(self.w1);
        let c = unpack_word(self.w2);
        let d = unpack_word(self.w3);
        let r = [
            a[0], a[1], a[2], a[3], a[4], a[5], a[6], a[7],
            b[0], b[1], b[2], b[3], b[4], b[5], b[6], b[7],
            c[0], c[1], c[2], c[3], c[4], c[5], c[6], c[7],
            d[0], d[1], d[2], d[3], d[4], d[5], d[6], d[7],
        ];
        assert(r@ =~= self.bytes());
        r
    }

    /// Whether `self` orders before `other` (byte by byte).
    pub fn less_than(&self, other: &Pubkey) -> (r: bool)
        ensures
            r == self.lt(*other),
    {
        if self.w0 != other.w0 {
            self.w0 < other.w0
        } else if self.w1 != other.w1 {
            self.w1 < other.w1
        } else if self.w2 != other.w2 {
            self.w2 < other.w2
        } else {
            self.w3 < other.w3
        }
    }
}

proof fn lemma_word_bytes_injective(a: u64, b: u64)
    requires
        word_bytes(a) == word_bytes(b),
    ensures
        a == b,
{
    assert(word_bytes(a)[0] == word_bytes(b)[0]);
    assert(word_bytes(a)[1] == word_bytes(b)[1]);
    assert(word_bytes(a)[2] == word_bytes(b)[2]);
    assert(word_bytes(a)[3] == word_bytes(b)[3]);
    assert(word_bytes(a)[4] == word_bytes(b)[4]);
    assert(word_bytes(a)[5] == word_bytes(b)[5]);
    assert(word_bytes(a)[6] == word_bytes(b)[6]);
    assert(word_bytes(a)[7] == word_bytes(b)[7]);
    assert(a == b) by (bit_vector)
        requires
            (a >> 56u64) as u8 == (b >> 56u64) as u8,
            (a >> 48u64) as u8 == (b >> 48u64) as u8,
            (a >> 40u64) as u8 == (b >> 40u64) as u8,
            (a >> 32u64) as u8 == (b >> 32u64) as u8,
            (a >> 24u64) as u8 == (b >> 24u64) as u8,
            (a >> 16u64) as u8 == (b >> 16u64) as u8,
            (a >> 8u64) as u8 == (b >> 8u64) as u8,
            a as u8 == b as u8,
    ;
}

/// The word with the given eight bytes, most significant first.
fn pack_word(b0: u8, b1: u8, b2: u8, b3: u8, b4: u8, b5: u8, b6: u8, b7: u8) -> (w: u64)
    ensures
        word_bytes(w) == seq![b0, b1, b2, b3, b4, b5, b6, b7],
{
    let w = ((b0 as u64) << 56u64) | ((b1 as u64) << 48u64) | ((b2 as u64) << 40u64) | ((
    b3 as u64) << 32u64) | ((b4 as u64) << 24u64) | ((b5 as u64) << 16u64) | ((b6 as u64)
        << 8u64) | (b7 as u64);
    assert((w >> 56u64) as u8 == b0 && (w >> 48u64) as u8 == b1 && (w >> 40u64) as u8 == b2 && (w
        >> 32u64) as u8 == b3 && (w >> 24u64) as u8 == b4 && (w >> 16u64) as u8 == b5 && (w
        >> 8u64) as u8 == b6 && w as u8 == b7) by (bit_vector)
        requires
            w == ((b0 as u64) << 56u64) | ((b1 as u64) << 48u64) | ((b2 as u64) << 40u64) | ((
            b3 as u64) << 32u64) | ((b4 as u64) << 24u64) | ((b5 as u64) << 16u64) | ((
            b6 as u64) << 8u64) | (b7 as u64),
    ;
    assert(word_bytes(w) =~= seq![b0, b1, b2, b3, b4, b5, b6, b7]);
    w
}

/// The eight bytes of a word, most significant first.
fn unpack_word(w: u64) -> (r: [u8; 8])
    ensures
        r@ == word_bytes(w),
{
    let r = [
        (w >> 56u64) as u8,
        (w >> 48u64) as u8,
        (w >> 40u64) as u8,
        (w >> 32u64) as u8,
        (w >> 24u64) as u8,
        (w >> 16u64) as u8,
        (w >> 8u64) as u8,
        w as u8,
    ];
    assert(r@ =~= word_bytes(w));
    r
}

impl View for Pubkey {
    type V = Seq<u8>;

    open spec fn view(&self) -> Seq<u8> {
        self.bytes()
    }
}

} // verus!
