//! The memory reservation block: physical ranges that the client program
//! must not use for general allocation.

use vstd::prelude::*;
use crate::node::reserved_memory::{sort_by_start, sorted_by_start};
use crate::parse::{be_u32, be_u64, read_be_u32};

verus! {

/// Entry `i` of a block of big-endian (address, size) pairs.
pub open spec fn pair_at(s: Seq<u8>, i: int) -> (u64, u64) {
    (be_u64(s.subrange(16 * i, 16 * i + 8)) as u64, be_u64(s.subrange(16 * i + 8, 16 * i + 16)) as u64)
}

/// The entries of a block of `n` pairs, without the last one.
pub open spec fn block_entries(s: Seq<u8>, n: int) -> Seq<(u64, u64)> {
    Seq::new((n - 1) as nat, |i: int| pair_at(s, i))
}

/// Reads the big-endian 64-bit value at `pos` in `b`.
fn read_be_u64(b: &[u8], pos: usize) -> (r: u64)
    requires
        pos + 8 <= b@.len(),
    ensures
        r as int == be_u64(b@.subrange(pos as int, pos + 8)),
{
    let _n = b.len();
    let hi = read_be_u32(b, pos);
    let lo = read_be_u32(b, pos + 4);
    let ghost s = b@.subrange(pos as int, pos + 8);
    assert(s.subrange(0, 4) =~= b@.subrange(pos as int, pos + 4));
    assert(s.subrange(4, 8) =~= b@.subrange(pos + 4, pos + 8));
    assert(be_u32(s) == be_u32(s.subrange(0, 4)));
    (hi as u64) * 0x1_0000_0000 + lo as u64
}

/// Whether the entries of the block at `off` in `s` end with the (0, 0)
/// sentinel at entry `n`, the first one.
pub open spec fn sentinel_at(s: Seq<u8>, off: int, n: int) -> bool {
    &&& 0 <= off
    &&& 0 <= n
    &&& off + 16 * (n + 1) <= s.len()
    &&& pair_at(s.subrange(off, s.len() as int), n) == (0u64, 0u64)
    &&& forall|j: int| 0 <= j < n ==> #[trigger] pair_at(s.subrange(off, s.len() as int), j) != (0u64, 0u64)
}

/// The reserved ranges, as (address, size) pairs sorted by address.
#[derive(Debug)]
pub struct MemoryReservations(pub Vec<(u64, u64)>);

impl MemoryReservations {
    /// Reads the block that starts at byte `offset` of the blob `dtb`: the
    /// entries up to its first (0, 0) sentinel.
    pub fn read_block(dtb: &[u8], offset: usize) -> (r: Result<MemoryReservations, ()>)
        ensures
            r is Ok <==> exists|n: int| sentinel_at(dtb@, offset as int, n),
            r matches Ok(m) ==> exists|n: int| #[trigger] sentinel_at(dtb@, offset as int, n) && sorted_by_start(m.0@)
                && m.0@.to_multiset() == block_entries(dtb@.subrange(offset as int, dtb@.len() as int), n + 1).to_multiset(),
    {
        let len = dtb.len();
        if offset > len {
            return Err(());
        }
        let rest = &dtb[offset..len];
        let ghost t = rest@;
        assert(t == dtb@.subrange(offset as int, dtb@.len() as int));
        let mut n: usize = 0;
        while rest.len() - n * 16 >= 16
            invariant
                t == rest@,
                t == dtb@.subrange(offset as int, dtb@.len() as int),
                len == dtb@.len(),
                offset <= len,
                rest@.len() == len - offset,
                n * 16 <= rest@.len(),
                forall|j: int| 0 <= j < n ==> #[trigger] pair_at(t, j) != (0u64, 0u64),
            decreases rest@.len() - n * 16,
        {
            let address = read_be_u64(rest, 16 * n);
            let size = read_be_u64(rest, 16 * n + 8);
            if address == 0 && size == 0 {
                let block = &rest[0..16 * (n + 1)];
                proof {
                    assert(offset + 16 * (n + 1) <= dtb@.len());
                    assert(pair_at(t, n as int) == (0u64, 0u64));
                    assert(t == dtb@.subrange(offset as int, dtb@.len() as int));
                    assert(sentinel_at(dtb@, offset as int, n as int));
                    assert forall|j: int| 0 <= j <= n implies #[trigger] pair_at(block@, j) == pair_at(t, j) by {
                        assert(block@.subrange(16 * j, 16 * j + 8) =~= t.subrange(16 * j, 16 * j + 8));
                        assert(block@.subrange(16 * j + 8, 16 * j + 16) =~= t.subrange(16 * j + 8, 16 * j + 16));
                    }
                    assert(block@.len() / 16 == n + 1);
                }
                let m = MemoryReservations::try_from(block);
                proof {
                    assert(block_entries(block@, n + 1) =~= block_entries(t, n + 1));
                }
                return m;
            }
            proof {
                assert(pair_at(t, n as int) != (0u64, 0u64));
            }
            n = n + 1;
        }
        proof {
            assert forall|k: int| !sentinel_at(dtb@, offset as int, k) by {
                if sentinel_at(dtb@, offset as int, k) {
                    assert(k < n || k >= n);
                }
            }
        }
        Err(())
    }

    /// Reads a block of (address, size) pairs whose last entry is the (0, 0)
    /// sentinel, which is left out of the result.
    pub fn try_from(value: &[u8]) -> (r: Result<MemoryReservations, ()>)
        ensures
            r is Ok <==> (value@.len() % 16 == 0 && value@.len() >= 16 && pair_at(value@, value@.len() as int / 16 - 1) == (0u64, 0u64)),
            r matches Ok(m) ==> sorted_by_start(m.0@) && m.0@.to_multiset() == block_entries(value@, value@.len() as int / 16).to_multiset(),
    {
        let len = value.len();
        if len % 16 != 0 || len < 16 {
            return Err(());
        }
        let n = len / 16;
        let last_address = read_be_u64(value, 16 * (n - 1));
        let last_size = read_be_u64(value, 16 * (n - 1) + 8);
        if last_address != 0 || last_size != 0 {
            return Err(());
        }
        let mut entries: Vec<(u64, u64)> = Vec::new();
        let mut i: usize = 0;
        while i < n - 1
            invariant
                n == value@.len() / 16,
                value@.len() == 16 * n,
                i <= n - 1,
                len == value@.len(),
                entries@ == block_entries(value@, n as int).subrange(0, i as int),
            decreases n - 1 - i,
        {
            assert(16 * i + 16 <= len) by (nonlinear_arith)
                requires i < n - 1, len == 16 * n;
            let address = read_be_u64(value, 16 * i);
            let size = read_be_u64(value, 16 * i + 8);
            entries.push((address, size));
            assert(entries@ =~= block_entries(value@, n as int).subrange(0, i + 1));
            i = i + 1;
        }
        assert(entries@ =~= block_entries(value@, n as int));
        Ok(MemoryReservations(sort_by_start(entries)))
    }
}

} // verus!
