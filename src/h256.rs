use vstd::prelude::*;

verus! {

/// Number of levels of the tree; height 256 lies above the root.
pub const TREE_HEIGHT: usize = 256;

/// Whether bit `p` (0 = least significant) of the byte `b` is set.
pub open spec fn byte_bit(b: u8, p: u8) -> bool {
    (b >> p) & 1u8 == 1u8
}

/// Bit `i` of a 32-byte big-endian path: bit `i % 8` of byte `31 - i / 8`.
pub open spec fn bit_at(s: Seq<u8>, i: int) -> bool {
    byte_bit(s[31 - i / 8], (i % 8) as u8)
}

/// The thirty-two zero bytes of the zero path.
pub open spec fn zero_bytes() -> Seq<u8> {
    Seq::new(32, |_k: int| 0u8)
}

/// The bytes of `s` with bit `i` set.
pub open spec fn with_bit_set(s: Seq<u8>, i: int) -> Seq<u8> {
    s.update(31 - i / 8, s[31 - i / 8] | (1u8 << ((i % 8) as u8)))
}

/// The bytes of `s` with bit `i` cleared.
pub open spec fn with_bit_cleared(s: Seq<u8>, i: int) -> Seq<u8> {
    s.update(31 - i / 8, s[31 - i / 8] & !(1u8 << ((i % 8) as u8)))
}

/// The highest index below `n` at which the bits of `a` and `b` differ,
/// or 0 when they agree on all of them.
pub open spec fn highest_diff(a: Seq<u8>, b: Seq<u8>, n: int) -> int
    decreases n,
{
    if n <= 0 {
        0
    } else if bit_at(a, n - 1) != bit_at(b, n - 1) {
        n - 1
    } else {
        highest_diff(a, b, n - 1)
    }
}

/// `r` holds the bits of `s` whose index lies in `[start, end)`, and zero
/// elsewhere.
pub open spec fn is_bit_range_of(r: Seq<u8>, s: Seq<u8>, start: int, end: int) -> bool {
    &&& r.len() == 32
    &&& forall|j: int| 0 <= j < 256 ==> #[trigger] bit_at(r, j) == (start <= j < end && bit_at(s, j))
}

proof fn lemma_byte_set(b: u8, p: u8, q: u8)
    by (bit_vector)
    requires
        p < 8,
        q < 8,
    ensures
        byte_bit(b | (1u8 << p), q) == (q == p || byte_bit(b, q)),
        byte_bit(b & !(1u8 << p), q) == (q != p && byte_bit(b, q)),
{
}

proof fn lemma_zero_byte(q: u8)
    by (bit_vector)
    requires
        q < 8,
    ensures
        !byte_bit(0u8, q),
{
}

proof fn lemma_byte_ext(a: u8, b: u8)
    by (bit_vector)
    requires
        byte_bit(a, 0) == byte_bit(b, 0),
        byte_bit(a, 1) == byte_bit(b, 1),
        byte_bit(a, 2) == byte_bit(b, 2),
        byte_bit(a, 3) == byte_bit(b, 3),
        byte_bit(a, 4) == byte_bit(b, 4),
        byte_bit(a, 5) == byte_bit(b, 5),
        byte_bit(a, 6) == byte_bit(b, 6),
        byte_bit(a, 7) == byte_bit(b, 7),
    ensures
        a == b,
{
}

/// Two paths whose 256 bits all agree are equal byte for byte.
pub proof fn lemma_bits_determine_bytes(a: Seq<u8>, b: Seq<u8>)
    requires
        a.len() == 32,
        b.len() == 32,
        forall|j: int| 0 <= j < 256 ==> #[trigger] bit_at(a, j) == bit_at(b, j),
    ensures
        a == b,
{
    assert forall|m: int| 0 <= m < 32 implies a[m] == b[m] by {
        assert forall|q: u8| q < 8 implies byte_bit(a[m], q) == byte_bit(b[m], q) by {
            let j = (31 - m) * 8 + q;
            assert(31 - j / 8 == m && j % 8 == q as int);
            assert(bit_at(a, j) == bit_at(b, j));
        }
        lemma_byte_ext(a[m], b[m]);
    }
    assert(a =~= b);
}

/// The zero path has no bit set.
pub proof fn lemma_zero_bits()
    ensures
        forall|j: int| 0 <= j < 256 ==> !#[trigger] bit_at(zero_bytes(), j),
{
    assert forall|j: int| 0 <= j < 256 implies !#[trigger] bit_at(zero_bytes(), j) by {
        lemma_zero_byte((j % 8) as u8);
    }
}

/// Setting or clearing bit `i` decides that bit and leaves every other bit
/// as it was.
pub proof fn lemma_set_clear_bit(s: Seq<u8>, i: int)
    requires
        s.len() == 32,
        0 <= i < 256,
    ensures
        with_bit_set(s, i).len() == 32,
        with_bit_cleared(s, i).len() == 32,
        bit_at(with_bit_set(s, i), i),
        !bit_at(with_bit_cleared(s, i), i),
        forall|j: int| 0 <= j < 256 && j != i ==> #[trigger] bit_at(with_bit_set(s, i), j) == bit_at(s, j),
        forall|j: int| 0 <= j < 256 && j != i ==> #[trigger] bit_at(with_bit_cleared(s, i), j) == bit_at(s, j),
{
    let p = (i % 8) as u8;
    assert forall|j: int| 0 <= j < 256 implies #[trigger] bit_at(with_bit_set(s, i), j) == (j == i
        || bit_at(s, j)) by {
        let q = (j % 8) as u8;
        lemma_byte_set(s[31 - i / 8], p, q);
        if j / 8 == i / 8 {
            assert(j == i <==> q == p);
        }
    }
    assert forall|j: int| 0 <= j < 256 implies #[trigger] bit_at(with_bit_cleared(s, i), j) == (j
        != i && bit_at(s, j)) by {
        let q = (j % 8) as u8;
        lemma_byte_set(s[31 - i / 8], p, q);
        if j / 8 == i / 8 {
            assert(j == i <==> q == p);
        }
    }
}

/// The bits at and above the fork height: two equal paths fork at 0, and two
/// different paths differ at their fork height and agree above it.
pub proof fn lemma_fork_height(x: Seq<u8>, y: Seq<u8>)
    requires
        x.len() == 32,
        y.len() == 32,
    ensures
        0 <= highest_diff(x, y, 256) < 256,
        highest_diff(x, x, 256) == 0,
        x != y ==> bit_at(x, highest_diff(x, y, 256)) != bit_at(y, highest_diff(x, y, 256)),
        forall|j: int| highest_diff(x, y, 256) < j < 256 ==> #[trigger] bit_at(x, j) == bit_at(y, j),
{
    lemma_highest_diff(x, x, 256);
    lemma_highest_diff(x, y, 256);
    if x != y && bit_at(x, highest_diff(x, y, 256)) == bit_at(y, highest_diff(x, y, 256)) {
        lemma_bits_determine_bytes(x, y);
    }
}

proof fn lemma_highest_diff(a: Seq<u8>, b: Seq<u8>, n: int)
    requires
        0 <= n <= 256,
    ensures
        0 <= highest_diff(a, b, n) < if n == 0 { 1 } else { n },
        forall|j: int| highest_diff(a, b, n) < j < n ==> #[trigger] bit_at(a, j) == bit_at(b, j),
        bit_at(a, highest_diff(a, b, n)) == bit_at(b, highest_diff(a, b, n)) ==> forall|j: int|
            0 <= j < n ==> #[trigger] bit_at(a, j) == bit_at(b, j),
        n > 0 && bit_at(a, highest_diff(a, b, n)) == bit_at(b, highest_diff(a, b, n)) ==> highest_diff(a, b, n) == 0,
    decreases n,
{
    if n > 0 {
        lemma_highest_diff(a, b, n - 1);
    }
}

/// Copying the full range `[0, 256)` gives the path back unchanged.
pub proof fn lemma_copy_full_range(s: Seq<u8>, r: Seq<u8>)
    requires
        s.len() == 32,
        is_bit_range_of(r, s, 0, 256),
    ensures
        r == s,
{
    lemma_bits_determine_bytes(r, s);
}

/// Copying an empty range `[i, i)` gives the zero path.
pub proof fn lemma_copy_empty_range(s: Seq<u8>, r: Seq<u8>, i: int)
    requires
        is_bit_range_of(r, s, i, i),
    ensures
        r == zero_bytes(),
{
    lemma_zero_bits();
    lemma_bits_determine_bytes(r, zero_bytes());
}

/// Copying a range out of a copy of that same range changes nothing.
pub proof fn lemma_copy_idempotent(s: Seq<u8>, r: Seq<u8>, r2: Seq<u8>, start: int, end: int)
    requires
        is_bit_range_of(r, s, start, end),
        is_bit_range_of(r2, r, start, end),
    ensures
        r2 == r,
{
    lemma_bits_determine_bytes(r2, r);
}

/// The parent path at `h` has every bit at height `h` or below cleared and
/// every bit above `h` kept; at height 255 it is the zero path.
pub proof fn lemma_parent_path(s: Seq<u8>, r: Seq<u8>, h: int)
    requires
        0 <= h < 256,
        is_bit_range_of(r, s, h + 1, 256),
    ensures
        forall|j: int| 0 <= j <= h ==> !#[trigger] bit_at(r, j),
        forall|j: int| h < j < 256 ==> #[trigger] bit_at(r, j) == bit_at(s, j),
        h == 255 ==> r == zero_bytes(),
{
    if h == 255 {
        lemma_copy_empty_range(s, r, 256);
    }
}

/// A 256-bit value, read as a path from the root (bit 255) to a leaf (bit 0).
#[derive(Eq, Debug, Hash, Clone, Copy, PartialOrd, Ord)]
pub struct H256([u8; 32]);

impl View for H256 {
    type V = Seq<u8>;

    closed spec fn view(&self) -> Seq<u8> {
        self.0@
    }
}

impl H256 {
    /// The length of every path's bytes.
    pub broadcast proof fn lemma_len(h: H256)
        ensures
            #[trigger] h@.len() == 32,
    {
    }

    /// The zero path, every bit clear.
    pub fn zero() -> (r: H256)
        ensures
            r@ == zero_bytes(),
    {
        let r = H256([0u8; 32]);
        assert(r@ =~= zero_bytes());
        r
    }

    /// Whether every byte is zero.
    pub fn is_zero(&self) -> (r: bool)
        ensures
            r == (self@ == zero_bytes()),
    {
        let mut k: usize = 0;
        while k < 32
            invariant
                k <= 32,
                forall|m: int| 0 <= m < k ==> self@[m] == 0u8,
            decreases 32 - k,
        {
            if self.0[k] != 0 {
                assert(self@[k as int] != zero_bytes()[k as int]);
                return false;
            }
            k += 1;
        }
        assert(self@ =~= zero_bytes());
        true
    }

    /// Bit `i`: bit `i % 8` of byte `31 - i / 8`.
    #[inline]
    pub fn get_bit(&self, i: u8) -> (r: bool)
        ensures
            r == bit_at(self@, i as int),
    {
        let byte_pos = 31 - i / 8;
        let bit_pos = i % 8;
        let byte = self.0[byte_pos as usize];
        let bit = (byte >> bit_pos) & 1;
        assert(bit != 0 <==> (byte >> bit_pos) & 1u8 == 1u8) by (bit_vector)
            requires
                bit == (byte >> bit_pos) & 1u8,
        ;
        bit != 0
    }

    /// Sets bit `i`, leaving every other bit as it was.
    #[inline]
    pub fn set_bit(&mut self, i: u8)
        ensures
            final(self)@ == with_bit_set(old(self)@, i as int),
            bit_at(final(self)@, i as int),
            forall|j: int| 0 <= j < 256 && j != i ==> #[trigger] bit_at(final(self)@, j) == bit_at(old(self)@, j),
    {
        let byte_pos = (31 - i / 8) as usize;
        let bit_pos = i % 8;
        self.0[byte_pos] = self.0[byte_pos] | (1u8 << bit_pos);
        proof {
            assert(self@ =~= with_bit_set(old(self)@, i as int));
            lemma_set_clear_bit(old(self)@, i as int);
        }
    }

    /// Clears bit `i`, leaving every other bit as it was.
    #[inline]
    pub fn clear_bit(&mut self, i: u8)
        ensures
            final(self)@ == with_bit_cleared(old(self)@, i as int),
            !bit_at(final(self)@, i as int),
            forall|j: int| 0 <= j < 256 && j != i ==> #[trigger] bit_at(final(self)@, j) == bit_at(old(self)@, j),
    {
        let byte_pos = (31 - i / 8) as usize;
        let bit_pos = i % 8;
        self.0[byte_pos] = self.0[byte_pos] & !(1u8 << bit_pos);
        proof {
            assert(self@ =~= with_bit_cleared(old(self)@, i as int));
            lemma_set_clear_bit(old(self)@, i as int);
        }
    }

    /// The 32 bytes of the path.
    pub fn as_slice(&self) -> (r: &[u8])
        ensures
            r@ == self@,
    {
        self.0.as_slice()
    }

    /// The highest bit index at which `self` and `key` differ; 0 when they
    /// are equal.
    pub fn fork_height(&self, key: &H256) -> (r: u8)
        ensures
            r as int == highest_diff(self@, key@, 256),
    {
        let mut h: u16 = 256;
        while h > 0
            invariant
                h <= 256,
                highest_diff(self@, key@, 256) == highest_diff(self@, key@, h as int),
            decreases h,
        {
            h = h - 1;
            if self.get_bit(h as u8) != key.get_bit(h as u8) {
                return h as u8;
            }
        }
        0
    }

    /// The bits of `self` strictly above `height`; all others cleared.
    pub fn parent_path(&self, height: u8) -> (r: H256)
        ensures
            is_bit_range_of(r@, self@, height + 1, 256),
    {
        match height.checked_add(1) {
            Some(i) => self.copy_bits(i, 256),
            None => {
                let r = H256::zero();
                proof {
                    lemma_zero_bits();
                }
                r
            },
        }
    }

    /// The bits of `self` whose index lies in `[start, end)`, with `end`
    /// clipped to 256; all other bits zero. Whole bytes are copied at once,
    /// the partial bytes at either end of the range bit by bit.
    pub fn copy_bits(&self, start: u8, end: u16) -> (r: H256)
        requires
            start <= end,
        ensures
            is_bit_range_of(r@, self@, start as int, end as int),
    {
        let mut target = H256::zero();
        let start: usize = start as usize;
        let end: usize = if end > 256 { 256 } else { end as usize };
        let remain: usize = if start % 8 != 0 { 1 } else { 0 };
        let end_byte: usize = 32 - start / 8 - remain;
        let start_byte: usize = 32 - end / 8;
        let ghost lo: int = (32 - end_byte) * 8;
        let ghost hi: int = (32 - start_byte) * 8;
        let copied = start_byte < 32 && start_byte <= end_byte;
        if copied {
            let mut k: usize = start_byte;
            while k < end_byte
                invariant
                    start_byte <= k <= end_byte <= 32,
                    target@.len() == 32,
                    forall|m: int|
                        0 <= m < 32 ==> target@[m] == if start_byte <= m < k {
                            self@[m]
                        } else {
                            0u8
                        },
                decreases end_byte - k,
            {
                target.0[k] = self.0[k];
                k += 1;
            }
        }
        proof {
            assert forall|j: int| 0 <= j < 256 implies #[trigger] bit_at(target@, j) == (copied && lo
                <= j < hi && bit_at(self@, j)) by {
                let m = 31 - j / 8;
                if !(copied && start_byte <= m < end_byte) {
                    lemma_zero_byte((j % 8) as u8);
                }
            }
        }
        let lim: usize = if (32 - end_byte) * 8 < end { (32 - end_byte) * 8 } else { end };
        let mut i: usize = start;
        while i < lim
            invariant
                start <= i,
                i <= lim || i == start,
                lim <= end <= 256,
                target@.len() == 32,
                forall|j: int| 0 <= j < 256 ==> #[trigger] bit_at(target@, j) == ((copied && lo <= j
                    < hi || start <= j < i) && bit_at(self@, j)),
            decreases lim - i,
        {
            if self.get_bit(i as u8) {
                target.set_bit(i as u8);
            }
            i += 1;
        }
        let mut i: usize = if (32 - start_byte) * 8 > start { (32 - start_byte) * 8 } else { start };
        let from: usize = i;
        while i < end
            invariant
                from <= i,
                i <= end || i == from,
                end <= 256,
                target@.len() == 32,
                forall|j: int| 0 <= j < 256 ==> #[trigger] bit_at(target@, j) == ((copied && lo <= j
                    < hi || start <= j < lim || from <= j < i) && bit_at(self@, j)),
            decreases end - i,
        {
            if self.get_bit(i as u8) {
                target.set_bit(i as u8);
            }
            i += 1;
        }
        proof {
            assert(start <= lo < start + 8);
            assert(end - 8 < hi <= end);
            assert(copied <==> (end >= 8 && lo <= hi));
            assert forall|j: int| 0 <= j < 256 implies #[trigger] bit_at(target@, j) == (start <= j
                < end && bit_at(self@, j)) by {
                assert((copied && lo <= j < hi || start <= j < lim || from <= j < end) <==> start <= j
                    < end);
            }
        }
        target
    }
}

impl PartialEq for H256 {
    fn eq(&self, other: &H256) -> (r: bool)
        ensures
            r == (self@ == other@),
    {
        let mut k: usize = 0;
        while k < 32
            invariant
                k <= 32,
                forall|m: int| 0 <= m < k ==> self@[m] == other@[m],
            decreases 32 - k,
        {
            if self.0[k] != other.0[k] {
                return false;
            }
            k += 1;
        }
        assert(self@ =~= other@);
        true
    }
}

impl vstd::std_specs::cmp::PartialEqSpecImpl for H256 {
    open spec fn obeys_eq_spec() -> bool {
        true
    }

    open spec fn eq_spec(&self, other: &H256) -> bool {
        self@ == other@
    }
}

impl Default for H256 {
    fn default() -> (r: H256)
        ensures
            r@ == zero_bytes(),
    {
        H256::zero()
    }
}

impl From<[u8; 32]> for H256 {
    fn from(v: [u8; 32]) -> (r: H256)
        ensures
            r@ == v@,
    {
        H256(v)
    }
}

impl vstd::std_specs::convert::FromSpecImpl<[u8; 32]> for H256 {
    open spec fn obeys_from_spec() -> bool {
        true
    }

    closed spec fn from_spec(v: [u8; 32]) -> H256 {
        H256(v)
    }
}

impl From<H256> for [u8; 32] {
    fn from(v: H256) -> (r: [u8; 32])
        ensures
            r@ == v@,
    {
        v.0
    }
}

impl vstd::std_specs::convert::FromSpecImpl<H256> for [u8; 32] {
    open spec fn obeys_from_spec() -> bool {
        true
    }

    closed spec fn from_spec(v: H256) -> [u8; 32] {
        v.0
    }
}

/// A digest used as a key of the tree's store.
#[derive(Eq, PartialEq, Debug, Hash, Clone, Copy, PartialOrd, Ord)]
pub struct Hash([u8; 32]);

impl View for Hash {
    type V = Seq<u8>;

    closed spec fn view(&self) -> Seq<u8> {
        self.0@
    }
}

impl From<H256> for Hash {
    fn from(hash: H256) -> (r: Hash)
        ensures
            r@ == hash@,
    {
        let bytes: [u8; 32] = hash.into();
        Hash(bytes)
    }
}

impl From<[u8; 32]> for Hash {
    fn from(hash: [u8; 32]) -> (r: Hash)
        ensures
            r@ == hash@,
    {
        Hash(hash)
    }
}


impl vstd::std_specs::convert::FromSpecImpl<H256> for Hash {
    open spec fn obeys_from_spec() -> bool {
        true
    }

    closed spec fn from_spec(hash: H256) -> Hash {
        Hash(hash.0)
    }
}

impl vstd::std_specs::convert::FromSpecImpl<[u8; 32]> for Hash {
    open spec fn obeys_from_spec() -> bool {
        true
    }

    closed spec fn from_spec(hash: [u8; 32]) -> Hash {
        Hash(hash)
    }
}

} // verus!
