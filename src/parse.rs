//! Reading big-endian cells out of the word-aligned parts of a blob.

use vstd::prelude::*;

verus! {

/// The value of the big-endian 32-bit word at the front of `s`.
pub open spec fn be_u32(s: Seq<u8>) -> int {
    s[0] as int * 0x100_0000 + s[1] as int * 0x1_0000 + s[2] as int * 0x100 + s[3] as int
}

/// The value of the big-endian 64-bit integer made of the two words at the front of `s`.
pub open spec fn be_u64(s: Seq<u8>) -> int {
    be_u32(s) * 0x1_0000_0000 + be_u32(s.subrange(4, 8))
}

/// Reads the big-endian word at `pos` in `b`.
pub fn read_be_u32(b: &[u8], pos: usize) -> (r: u32)
    requires
        pos + 4 <= b@.len(),
    ensures
        r as int == be_u32(b@.subrange(pos as int, pos + 4)),
{
    let b0 = b[pos] as u32;
    let b1 = b[pos + 1] as u32;
    let b2 = b[pos + 2] as u32;
    let b3 = b[pos + 3] as u32;
    assert(b0 * 0x100_0000 + b1 * 0x1_0000 + b2 * 0x100 + b3 <= 0xffff_ffff) by (nonlinear_arith)
        requires b0 <= 255, b1 <= 255, b2 <= 255, b3 <= 255;
    b0 * 0x100_0000 + b1 * 0x1_0000 + b2 * 0x100 + b3
}


/// The number of whole words at the front of a byte sequence.
pub open spec fn whole_words(len: int) -> int {
    len / 4
}

/// `len` rounded up to a word boundary.
pub open spec fn round_up4(len: int) -> int {
    (len + 3) / 4 * 4
}

/// Whether every byte of `s` in `[lo, hi)` is zero.
pub open spec fn zero_between(s: Seq<u8>, lo: int, hi: int) -> bool {
    forall|i: int| lo <= i < hi ==> s[i] == 0
}

/// The value held by the `n` cells at the front of `s`: a count of zero is the
/// value zero, one cell is a 32-bit value, and two or more cells are read as
/// the 64-bit value of their first two cells.
pub open spec fn cells_value(s: Seq<u8>, n: int) -> u64 {
    if n == 0 {
        0
    } else if n == 1 {
        be_u32(s) as u64
    } else {
        be_u64(s) as u64
    }
}

/// Whether some cell beyond the second of the `n` at the front of `s` is nonzero.
pub open spec fn cells_discard_nonzero(s: Seq<u8>, n: int) -> bool {
    exists|i: int| 8 <= i < 4 * n && s[i] != 0
}

/// A diagnostic that does not stop decoding.
#[derive(Debug, Clone, PartialEq, Eq)]
pub enum Warning {
    /// A cell count above two held a nonzero cell beyond the second, which was discarded.
    DiscardedCells,
    /// An alias named a path that no node has; the alias was left out.
    DanglingAlias(Vec<u8>),
    /// The chosen node held properties that were not recognised.
    UnusedChosenProperties,
}

/// A word-aligned, big-endian run of bytes that is consumed from the front.
#[derive(Debug)]
pub struct U32ByteSlice {
    data: Vec<u8>,
    start: usize,
}

impl View for U32ByteSlice {
    type V = Seq<u8>;

    closed spec fn view(&self) -> Seq<u8> {
        self.data@.subrange(self.start as int, self.data@.len() as int)
    }
}

impl U32ByteSlice {
    #[verifier::type_invariant]
    closed spec fn inv(&self) -> bool {
        self.start <= self.data@.len()
    }

    /// A slice over a copy of `b`.
    pub fn from_bytes(b: &[u8]) -> (r: Self)
        ensures
            r@ == b@,
    {
        let mut data: Vec<u8> = Vec::new();
        let mut i: usize = 0;
        while i < b.len()
            invariant
                i <= b@.len(),
                data@ == b@.subrange(0, i as int),
            decreases b@.len() - i,
        {
            data.push(b[i]);
            i = i + 1;
        }
        assert(data@.subrange(0, data@.len() as int) == data@);
        U32ByteSlice { data, start: 0 }
    }

    /// Wraps the words of `bytes` of which the first `length` bytes are
    /// meaningful. `bytes` must hold exactly the words that `length` bytes
    /// occupy, and the padding after the meaningful bytes must be zero.
    pub fn new(bytes: &[u8], length: usize) -> (r: Option<Self>)
        ensures
            r.is_some() <==> (bytes@.len() == round_up4(length as int) && length <= bytes@.len()
                && zero_between(bytes@, length as int, bytes@.len() as int)),
            r matches Some(s) ==> s@ == bytes@.subrange(0, length as int),
    {
        if length > bytes.len() || bytes.len() - length >= 4 || bytes.len() % 4 != 0 {
            return None;
        }
        let mut i: usize = length;
        while i < bytes.len()
            invariant
                length <= i <= bytes@.len(),
                zero_between(bytes@, length as int, i as int),
            decreases bytes@.len() - i,
        {
            if bytes[i] != 0 {
                return None;
            }
            i = i + 1;
        }
        let mut data: Vec<u8> = Vec::new();
        let mut j: usize = 0;
        while j < length
            invariant
                j <= length <= bytes@.len(),
                data@ == bytes@.subrange(0, j as int),
            decreases length - j,
        {
            data.push(bytes[j]);
            j = j + 1;
        }
        assert(data@.subrange(0, data@.len() as int) == data@);
        Some(U32ByteSlice { data, start: 0 })
    }

    /// The byte at `i` of the remaining bytes.
    fn at(&self, i: usize) -> (r: u8)
        requires
            i < self@.len(),
        ensures
            r == self@[i as int],
    {
        proof {
            use_type_invariant(&*self);
        }
        let n = self.data.len();
        assert(self@.len() == n - self.start);
        self.data[self.start + i]
    }

    /// The number of whole words left, not counting a final partial word.
    fn remaining_u32s(&self) -> (r: usize)
        ensures
            r == whole_words(self@.len() as int),
    {
        proof {
            use_type_invariant(&*self);
        }
        (self.data.len() - self.start) / 4
    }

    /// Removes the first word, if a whole one is left.
    pub fn consume_u32(&mut self) -> (r: Option<u32>)
        ensures
            old(self)@.len() >= 4 ==> r == Some(be_u32(old(self)@) as u32)
                && final(self)@ == old(self)@.subrange(4, old(self)@.len() as int),
            old(self)@.len() < 4 ==> r.is_none() && final(self)@ == old(self)@,
    {
        proof {
            use_type_invariant(&*self);
        }
        if self.data.len() - self.start >= 4 {
            let v = read_be_u32(self.data.as_slice(), self.start);
            assert(self.data@.subrange(self.start as int, self.start + 4) == self@.subrange(0, 4));
            self.start = self.start + 4;
            assert(final(self)@ == old(self)@.subrange(4, old(self)@.len() as int));
            Some(v)
        } else {
            None
        }
    }

    /// Removes the first two words and reads them as one 64-bit value, if two
    /// whole words are left.
    pub fn consume_u64(&mut self) -> (r: Option<u64>)
        ensures
            old(self)@.len() >= 8 ==> r == Some(be_u64(old(self)@) as u64)
                && final(self)@ == old(self)@.subrange(8, old(self)@.len() as int),
            old(self)@.len() < 8 ==> r.is_none() && final(self)@ == old(self)@,
    {
        proof {
            use_type_invariant(&*self);
        }
        if self.data.len() - self.start >= 8 {
            let hi = read_be_u32(self.data.as_slice(), self.start);
            let lo = read_be_u32(self.data.as_slice(), self.start + 4);
            assert(self.data@.subrange(self.start as int, self.start + 4) == self@.subrange(0, 4));
            assert(self.data@.subrange(self.start + 4, self.start + 8) == self@.subrange(4, 8));
            self.start = self.start + 8;
            assert(final(self)@ == old(self)@.subrange(8, old(self)@.len() as int));
            let v: u64 = (hi as u64) * 0x1_0000_0000 + lo as u64;
            Some(v)
        } else {
            None
        }
    }

    /// Whether no bytes are left.
    pub fn is_empty(&self) -> (r: bool)
        ensures
            r == (self@.len() == 0),
    {
        proof {
            use_type_invariant(&*self);
        }
        self.start == self.data.len()
    }

    /// The number of words left, counting a final partial word.
    pub fn len_u32s(&self) -> (r: usize)
        ensures
            r == (self@.len() + 3) / 4,
    {
        proof {
            use_type_invariant(&*self);
        }
        let n = self.data.len() - self.start;
        n / 4 + if n % 4 == 0 { 0 } else { 1 }
    }

    /// The number of bytes left.
    pub fn len_bytes(&self) -> (r: usize)
        ensures
            r == self@.len(),
    {
        proof {
            use_type_invariant(&*self);
        }
        self.data.len() - self.start
    }

    /// A copy of the remaining bytes in `[lo, hi)`.
    fn copy_range(&self, lo: usize, hi: usize) -> (r: Vec<u8>)
        requires
            lo <= hi <= self@.len(),
        ensures
            r@ == self@.subrange(lo as int, hi as int),
    {
        proof {
            use_type_invariant(&*self);
        }
        let mut out: Vec<u8> = Vec::new();
        let mut i: usize = lo;
        while i < hi
            invariant
                lo <= i <= hi <= self@.len(),
                out@ == self@.subrange(lo as int, i as int),
            decreases hi - i,
        {
            let b = self.at(i);
            out.push(b);
            i = i + 1;
        }
        out
    }

    /// Drops the first `n` remaining bytes.
    pub fn skip(&mut self, n: usize)
        requires
            n <= old(self)@.len(),
        ensures
            final(self)@ == old(self)@.subrange(n as int, old(self)@.len() as int),
    {
        proof {
            use_type_invariant(&*self);
        }
        let len = self.data.len();
        assert(self@.len() == len - self.start);
        self.start = self.start + n;
        assert(final(self)@ =~= old(self)@.subrange(n as int, old(self)@.len() as int));
    }

    /// A copy of the remaining bytes.
    pub fn to_vec(&self) -> (r: Vec<u8>)
        ensures
            r@ == self@,
    {
        let n = self.len_bytes();
        let r = self.copy_range(0, n);
        assert(self@.subrange(0, n as int) == self@);
        r
    }

    /// Removes the first `cell_count` cells and reads them as one integer.
    /// Cells beyond the second are discarded, with a warning when one of them
    /// is nonzero. Nothing is removed when fewer cells are left.
    pub fn consume_cells(&mut self, cell_count: u8, warnings: &mut Vec<Warning>) -> (r: Option<u64>)
        ensures
            final(warnings)@ == old(warnings)@ + cell_warnings(old(self)@, cell_count as int),
            old(self)@.len() >= 4 * cell_count ==> r == Some(cells_value(old(self)@, cell_count as int))
                && final(self)@ == old(self)@.subrange(4 * cell_count, old(self)@.len() as int),
            old(self)@.len() < 4 * cell_count ==> r.is_none() && final(self)@ == old(self)@,
    {
        let n = cell_count as usize;
        if self.len_bytes() < 4 * n {
            assert(old(warnings)@ + seq![] == old(warnings)@);
            return None;
        }
        if n == 0 {
            assert(old(warnings)@ + seq![] == old(warnings)@);
            assert(self@.subrange(0, self@.len() as int) == self@);
            return Some(0);
        }
        if n == 1 {
            assert(old(warnings)@ + seq![] == old(warnings)@);
            let v = self.consume_u32();
            return match v {
                Some(x) => Some(x as u64),
                None => None,
            };
        }
        let ghost s = self@;
        let mut nonzero = false;
        let mut i: usize = 8;
        while i < 4 * n
            invariant
                self@ == s,
                n <= 255,
                8 <= i <= 4 * n <= s.len(),
                nonzero <==> exists|j: int| 8 <= j < i && s[j] != 0,
            decreases 4 * n - i,
        {
            if self.at(i) != 0 {
                nonzero = true;
            }
            i = i + 1;
        }
        let v = self.consume_u64();
        self.skip(4 * n - 8);
        if nonzero {
            warnings.push(Warning::DiscardedCells);
        } else {
            assert(old(warnings)@ + seq![] == old(warnings)@);
        }
        v
    }

    /// Reads all the remaining bytes as exactly `cell_count` cells.
    pub fn into_cells(self, cell_count: u8, warnings: &mut Vec<Warning>) -> (r: Option<u64>)
        ensures
            final(warnings)@ == old(warnings)@ + cell_warnings(self@, cell_count as int),
            r == if self@.len() == 4 * cell_count {
                Some(cells_value(self@, cell_count as int))
            } else {
                None::<u64>
            },
    {
        let mut rest = self;
        let v = rest.consume_cells(cell_count, warnings);
        if rest.is_empty() {
            v
        } else {
            None
        }
    }

    /// Removes the first `bytes` bytes, and then the padding up to the next
    /// word boundary, and returns the removed bytes without the padding.
    pub fn take(&mut self, bytes: usize) -> (r: Option<Self>)
        ensures
            bytes <= old(self)@.len() ==> (r matches Some(t)
                && t@ == old(self)@.subrange(0, bytes as int)
                && final(self)@ == old(self)@.subrange(
                    padded_end(old(self)@.len() as int, bytes as int),
                    old(self)@.len() as int,
                )),
            bytes > old(self)@.len() ==> r.is_none() && final(self)@ == old(self)@,
    {
        let len = self.len_bytes();
        if bytes > len {
            return None;
        }
        let v = self.copy_range(0, bytes);
        let pad = if bytes % 4 == 0 { 0 } else { 4 - bytes % 4 };
        let end = if len - bytes < pad { len } else { bytes + pad };
        assert(end == padded_end(len as int, bytes as int));
        self.skip(end);
        assert(v@.subrange(0, v@.len() as int) =~= v@);
        Some(U32ByteSlice { data: v, start: 0 })
    }

    /// Removes a NUL-terminated string from the front, and the zero padding
    /// that follows it up to the next word boundary. Fails, removing nothing,
    /// when no NUL is left or when the padding is not zero.
    pub fn consume_c_str(&mut self) -> (r: Option<Vec<u8>>)
        ensures
            r matches Some(v) ==> nul_at(old(self)@, v@.len() as int)
                && v@ == old(self)@.subrange(0, v@.len() as int)
                && c_str_padding_ok(old(self)@, v@.len() as int)
                && final(self)@ == old(self)@.subrange(
                    padded_end(old(self)@.len() as int, v@.len() + 1 as int),
                    old(self)@.len() as int,
                ),
            r.is_none() ==> final(self)@ == old(self)@ && forall|k: int|
                nul_at(old(self)@, k) ==> !c_str_padding_ok(old(self)@, k),
    {
        let len = self.len_bytes();
        let mut k: usize = 0;
        while k < len
            invariant
                len == self@.len(),
                k <= len,
                forall|i: int| 0 <= i < k ==> self@[i] != 0,
            ensures
                k <= len,
                forall|i: int| 0 <= i < k ==> self@[i] != 0,
                k < len ==> self@[k as int] == 0,
            decreases len - k,
        {
            if self.at(k) == 0 {
                break;
            }
            k = k + 1;
        }
        if k == len {
            return None;
        }
        assert(nul_at(self@, k as int));
        assert(forall|j: int| nul_at(self@, j) ==> j == k) by {
            assert forall|j: int| nul_at(self@, j) implies j == k by {
                if j < k {
                    assert(self@[j] != 0);
                } else if j > k {
                    assert(self@[k as int] != 0);
                }
            }
        }
        let used = k + 1;
        let pad = if used % 4 == 0 { 0 } else { 4 - used % 4 };
        let end = if len - used < pad { len } else { used + pad };
        let mut i: usize = used;
        while i < end
            invariant
                len == self@.len(),
                used <= i <= end <= len,
                used == k + 1,
                end == padded_end(len as int, used as int),
                forall|j: int| nul_at(self@, j) ==> j == k,
                zero_between(self@, used as int, i as int),
            decreases end - i,
        {
            if self.at(i) != 0 {
                return None;
            }
            i = i + 1;
        }
        let v = self.copy_range(0, k);
        self.skip(end);
        Some(v)
    }

    /// Reads all the remaining bytes as a list of tuples, where field `f` of
    /// each tuple is `cell_counts[f]` cells wide. Fails when the bytes are not
    /// a whole number of such tuples.
    pub fn into_cells_slice(self, cell_counts: &[u8], warnings: &mut Vec<Warning>) -> (r: Option<
        Vec<Vec<u64>>,
    >)
        requires
            cell_counts@.len() <= 0x100_0000,
        ensures
            old(warnings)@.is_prefix_of(final(warnings)@),
            r.is_some() == cells_slice_spec(self@, cell_counts@).is_some(),
            r matches Some(v) ==> v@.len() == cells_slice_spec(self@, cell_counts@).unwrap().len()
                && forall|g: int| 0 <= g < v@.len() ==>
                    v@[g]@ == cells_slice_spec(self@, cell_counts@).unwrap()[g],
    {
        let ghost s = self@;
        let ghost counts = cell_counts@;
        let len = self.len_bytes();
        if len % 4 != 0 {
            return None;
        }
        let nf = cell_counts.len();
        let mut total: usize = 0;
        let mut f: usize = 0;
        while f < nf
            invariant
                f <= nf == counts.len() <= 0x100_0000,
                counts == cell_counts@,
                total == cell_offset(counts, f as int),
                total <= 255 * f,
            decreases nf - f,
        {
            total = total + cell_counts[f] as usize;
            f = f + 1;
        }
        if total == 0 {
            if len == 0 {
                let out: Vec<Vec<u64>> = Vec::new();
                assert(out@ =~= Seq::<Vec<u64>>::empty());
                return Some(out);
            }
            return None;
        }
        let words = len / 4;
        if words % total != 0 {
            return None;
        }
        let groups = words / total;
        proof {
            assert(groups * total == words) by (nonlinear_arith)
                requires groups == words / total, words % total == 0, total > 0;
        }
        let mut rest = self;
        let mut out: Vec<Vec<u64>> = Vec::new();
        let mut g: usize = 0;
        while g < groups
            invariant
                s.len() == len == 4 * words,
                total == cells_total(counts) > 0,
                groups * total == words,
                g <= groups,
                counts == cell_counts@,
                counts.len() == nf,
                rest@ == s.subrange(4 * (g * total), s.len() as int),
                old(warnings)@.is_prefix_of(warnings@),
                out@.len() == g,
                forall|h: int| 0 <= h < g ==> out@[h]@ == decode_group(s, counts, h),
            decreases groups - g,
        {
            proof {
                assert((g + 1) * total <= groups * total) by (nonlinear_arith)
                    requires g + 1 <= groups, total > 0;
                assert((g + 1) * total == g * total + total) by (nonlinear_arith);
                assert(g * total >= 0) by (nonlinear_arith)
                    requires g >= 0, total >= 0;
            }
            let mut group: Vec<u64> = Vec::new();
            let mut f: usize = 0;
            while f < nf
                invariant
                    s.len() == len == 4 * words,
                    total == cells_total(counts),
                    (g + 1) * total <= words,
                    (g + 1) * total == g * total + total,
                    g * total >= 0,
                    f <= nf == counts.len(),
                    counts == cell_counts@,
                    rest@ == s.subrange(4 * (g * total + cell_offset(counts, f as int)), s.len() as int),
                    old(warnings)@.is_prefix_of(warnings@),
                    group@.len() == f,
                    forall|e: int| 0 <= e < f ==> group@[e] == decode_group(s, counts, g as int)[e],
                decreases nf - f,
            {
                proof {
                    lemma_cell_offset_mono(counts, f as int + 1, nf as int);
                    lemma_cell_offset_mono(counts, 0, f as int);
                }
                let ghost before = rest@;
                let ghost w0 = warnings@;
                let ghost p = 4 * (g * total + cell_offset(counts, f as int));
                assert(cell_offset(counts, f as int + 1) == cell_offset(counts, f as int) + counts[f as int]);
                assert(cell_offset(counts, f as int + 1) <= total);
                assert(p + 4 * counts[f as int] <= 4 * words);
                assert(before.len() == s.len() - p);
                assert(before.len() >= 4 * counts[f as int]);
                let v = rest.consume_cells(cell_counts[f], warnings);
                proof {
                    assert(w0.is_prefix_of(warnings@)) by {
                        assert(warnings@.subrange(0, w0.len() as int) =~= w0);
                    }
                    assert(old(warnings)@.is_prefix_of(warnings@)) by {
                        assert(warnings@.subrange(0, old(warnings)@.len() as int) =~= old(warnings)@);
                    }
                    assert(rest@ =~= s.subrange(4 * (g * total + cell_offset(counts, f as int + 1)), s.len() as int));
                }
                let x = match v {
                    Some(x) => x,
                    None => 0,
                };
                group.push(x);
                f = f + 1;
            }
            proof {
                assert(group@ =~= decode_group(s, counts, g as int));
            }
            out.push(group);
            g = g + 1;
        }
        Some(out)
    }

    /// The string up to the first NUL byte, if there is one.
    pub fn to_c_str(&self) -> (r: Option<Vec<u8>>)
        ensures
            r.is_some() == c_str_of(self@).is_some(),
            r matches Some(v) ==> c_str_of(self@) == Some(v@),
    {
        let len = self.len_bytes();
        let mut k: usize = 0;
        while k < len
            invariant
                len == self@.len(),
                k <= len,
                forall|i: int| 0 <= i < k ==> self@[i] != 0,
            ensures
                k <= len,
                forall|i: int| 0 <= i < k ==> self@[i] != 0,
                k < len ==> self@[k as int] == 0,
            decreases len - k,
        {
            if self.at(k) == 0 {
                break;
            }
            k = k + 1;
        }
        if k == len {
            return None;
        }
        proof {
            assert(nul_at(self@, k as int));
            let j = choose|j: int| nul_at(self@, j);
            lemma_nul_at_unique(self@, j, k as int);
        }
        Some(self.copy_range(0, k))
    }

    /// The remaining bytes read as exactly one word.
    pub fn try_into_u32(self) -> (r: Result<u32, TryFromError>)
        ensures
            r == if self@.len() == 4 {
                Ok(be_u32(self@) as u32)
            } else if self@.len() == 0 {
                Err(TryFromError::Empty)
            } else {
                Err::<u32, TryFromError>(TryFromError::Excess)
            },
    {
        let mut rest = self;
        let v = rest.consume_u32();
        if !rest.is_empty() {
            return Err(TryFromError::Excess);
        }
        match v {
            Some(x) => Ok(x),
            None => Err(TryFromError::Empty),
        }
    }

    /// The remaining bytes read as exactly one 64-bit value.
    pub fn try_into_u64(self) -> (r: Result<u64, TryFromError>)
        ensures
            r == if self@.len() == 8 {
                Ok(be_u64(self@) as u64)
            } else if self@.len() == 0 {
                Err(TryFromError::Empty)
            } else {
                Err::<u64, TryFromError>(TryFromError::Excess)
            },
    {
        let mut rest = self;
        let v = rest.consume_u64();
        if !rest.is_empty() {
            return Err(TryFromError::Excess);
        }
        match v {
            Some(x) => Ok(x),
            None => Err(TryFromError::Empty),
        }
    }

    /// A copy of this slice.
    pub fn duplicate(&self) -> (r: Self)
        ensures
            r@ == self@,
    {
        let v = self.to_vec();
        proof {
            assert(v@.subrange(0, v@.len() as int) =~= v@);
        }
        U32ByteSlice { data: v, start: 0 }
    }
}

/// The number of cells before field `f` of a tuple whose field widths are `counts`.
pub open spec fn cell_offset(counts: Seq<u8>, f: int) -> int
    decreases f,
{
    if f <= 0 {
        0
    } else {
        cell_offset(counts, f - 1) + counts[f - 1]
    }
}

/// The width in cells of a tuple whose field widths are `counts`.
pub open spec fn cells_total(counts: Seq<u8>) -> int {
    cell_offset(counts, counts.len() as int)
}

/// Tuple `g` of the list of tuples that `s` holds.
pub open spec fn decode_group(s: Seq<u8>, counts: Seq<u8>, g: int) -> Seq<u64> {
    Seq::new(
        counts.len(),
        |f: int|
            cells_value(
                s.subrange(4 * (g * cells_total(counts) + cell_offset(counts, f)), s.len() as int),
                counts[f] as int,
            ),
    )
}

/// The list of tuples that `s` holds, where field `f` of each is `counts[f]`
/// cells wide: none when `s` is not a whole number of tuples.
pub open spec fn cells_slice_spec(s: Seq<u8>, counts: Seq<u8>) -> Option<Seq<Seq<u64>>> {
    let total = cells_total(counts);
    if s.len() % 4 != 0 {
        None
    } else if total == 0 {
        if s.len() == 0 {
            Some(Seq::empty())
        } else {
            None
        }
    } else if (s.len() as int / 4) % total != 0 {
        None
    } else {
        Some(Seq::new((s.len() as int / 4 / total) as nat, |g: int| decode_group(s, counts, g)))
    }
}

proof fn lemma_cell_offset_mono(counts: Seq<u8>, f: int, h: int)
    requires
        0 <= f <= h <= counts.len(),
    ensures
        cell_offset(counts, f) <= cell_offset(counts, h),
    decreases h - f,
{
    if f < h {
        lemma_cell_offset_mono(counts, f, h - 1);
    }
}

/// The warnings that removing `n` cells from the front of `s` gives.
pub open spec fn cell_warnings(s: Seq<u8>, n: int) -> Seq<Warning> {
    if s.len() >= 4 * n && n > 2 && cells_discard_nonzero(s, n) {
        seq![Warning::DiscardedCells]
    } else {
        seq![]
    }
}

/// Where a run of `n` bytes and its padding to a word boundary ends, in a
/// sequence of `len` bytes.
pub open spec fn padded_end(len: int, n: int) -> int {
    if round_up4(n) <= len {
        round_up4(n)
    } else {
        len
    }
}

/// Errors from reading a slice as one integer.
#[derive(Debug, Clone, Copy, PartialEq, Eq)]
pub enum TryFromError {
    /// Too few bytes.
    Empty,
    /// Too many bytes.
    Excess,
}

/// The string up to the first NUL byte of `s`, if it holds one.
pub open spec fn c_str_of(s: Seq<u8>) -> Option<Seq<u8>> {
    if exists|k: int| nul_at(s, k) {
        Some(s.subrange(0, choose|k: int| nul_at(s, k)))
    } else {
        None
    }
}

pub proof fn lemma_nul_at_unique(s: Seq<u8>, j: int, k: int)
    requires
        nul_at(s, j),
        nul_at(s, k),
    ensures
        j == k,
{
    if j < k {
        assert(s[j] != 0);
    } else if k < j {
        assert(s[k] != 0);
    }
}

/// Whether the first NUL byte of `s` is at `k`.
pub open spec fn nul_at(s: Seq<u8>, k: int) -> bool {
    0 <= k < s.len() && s[k] == 0 && forall|i: int| 0 <= i < k ==> s[i] != 0
}

/// Whether the padding after a string whose NUL is at `k` is zero.
pub open spec fn c_str_padding_ok(s: Seq<u8>, k: int) -> bool {
    zero_between(s, k + 1, padded_end(s.len() as int, k + 1))
}


} // verus!
