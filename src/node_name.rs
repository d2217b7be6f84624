//! Node names: a node-name component and an optional unit address.

use vstd::prelude::*;
use crate::map::MapKey;

verus! {

/// Whether `b` may stand in a node name: ASCII letters and digits, `,`, `.`,
/// `_`, `+` and `-`.
pub open spec fn valid_name_byte(b: u8) -> bool {
    (0x30 <= b <= 0x39) || (0x41 <= b <= 0x5a) || (0x61 <= b <= 0x7a) || b == 0x2c || b == 0x2e
        || b == 0x5f || b == 0x2b || b == 0x2d
}

/// Whether every byte of `s` may stand in a node name.
pub open spec fn valid_name_bytes(s: Seq<u8>) -> bool {
    forall|i: int| 0 <= i < s.len() ==> valid_name_byte(#[trigger] s[i])
}

/// The longest node-name component.
pub const MAX_NODE_NAME_LENGTH: usize = 31;

/// Whether the first `v` in `s` is at `i`.
pub open spec fn first_at(s: Seq<u8>, v: u8, i: int) -> bool {
    0 <= i < s.len() && s[i] == v && forall|j: int| 0 <= j < i ==> s[j] != v
}

/// The parts of `s` before and after the first `v`, if `s` holds one.
pub open spec fn split_first(s: Seq<u8>, v: u8) -> Option<(Seq<u8>, Seq<u8>)> {
    if exists|i: int| first_at(s, v, i) {
        let i = choose|i: int| first_at(s, v, i);
        Some((s.subrange(0, i), s.subrange(i + 1, s.len() as int)))
    } else {
        None
    }
}

pub proof fn lemma_first_at_unique(s: Seq<u8>, v: u8, i: int, j: int)
    requires
        first_at(s, v, i),
        first_at(s, v, j),
    ensures
        i == j,
{
    if i < j {
        assert(s[i] != v);
    } else if j < i {
        assert(s[j] != v);
    }
}

/// The value of a hexadecimal digit, or -1 for any other byte.
pub open spec fn hex_digit(b: u8) -> int {
    if 0x30 <= b <= 0x39 {
        b - 0x30
    } else if 0x61 <= b <= 0x66 {
        b - 0x61 + 10
    } else if 0x41 <= b <= 0x46 {
        b - 0x41 + 10
    } else {
        -1
    }
}

/// Whether every byte of `s` is a hexadecimal digit.
pub open spec fn all_hex(s: Seq<u8>) -> bool {
    forall|i: int| 0 <= i < s.len() ==> hex_digit(#[trigger] s[i]) >= 0
}

/// The value of the hexadecimal digits `s`.
pub open spec fn hex_value(s: Seq<u8>) -> int
    decreases s.len(),
{
    if s.len() == 0 {
        0
    } else {
        hex_value(s.drop_last()) * 16 + hex_digit(s.last())
    }
}

/// The digits of a number written as an optional `+` and then hexadecimal digits.
pub open spec fn hex_digits_of(s: Seq<u8>) -> Seq<u8> {
    if s.len() > 0 && s[0] == 0x2b {
        s.subrange(1, s.len() as int)
    } else {
        s
    }
}

/// The 64-bit value that `s` writes in hexadecimal, if it is one: an optional
/// `+`, then at least one hexadecimal digit, with a value below 2^64.
pub open spec fn parse_hex_u64(s: Seq<u8>) -> Option<u64> {
    let d = hex_digits_of(s);
    if d.len() > 0 && all_hex(d) && hex_value(d) < 0x1_0000_0000_0000_0000 {
        Some(hex_value(d) as u64)
    } else {
        None
    }
}

proof fn lemma_hex_value_nonneg(s: Seq<u8>)
    requires
        all_hex(s),
    ensures
        hex_value(s) >= 0,
    decreases s.len(),
{
    if s.len() > 0 {
        lemma_hex_value_nonneg(s.drop_last());
    }
}

proof fn lemma_hex_value_grows(s: Seq<u8>, i: int, j: int)
    requires
        0 <= i <= j <= s.len(),
        all_hex(s),
    ensures
        hex_value(s.subrange(0, i)) <= hex_value(s.subrange(0, j)),
    decreases j - i,
{
    if i < j {
        lemma_hex_value_grows(s, i, j - 1);
        assert(s.subrange(0, j).drop_last() =~= s.subrange(0, j - 1));
        lemma_hex_value_nonneg(s.subrange(0, j - 1));
    }
}

/// Splits `slice` at the first `value`: the part before it and the part
/// after it. `None` when `value` does not occur.
pub fn split_at_first(slice: &[u8], value: u8) -> (r: Option<(&[u8], &[u8])>)
    ensures
        r.is_none() == split_first(slice@, value).is_none(),
        r matches Some((a, b)) ==> split_first(slice@, value) == Some((a@, b@)),
{
    let mut i: usize = 0;
    while i < slice.len()
        invariant
            i <= slice@.len(),
            forall|j: int| 0 <= j < i ==> slice@[j] != value,
        decreases slice@.len() - i,
    {
        if slice[i] == value {
            proof {
                assert(first_at(slice@, value, i as int));
                let c = choose|c: int| first_at(slice@, value, c);
                lemma_first_at_unique(slice@, value, i as int, c);
            }
            return Some((&slice[0..i], &slice[i + 1..slice.len()]));
        }
        i = i + 1;
    }
    None
}

/// Reads the hexadecimal unit address `s`.
fn parse_hex(s: &[u8]) -> (r: Option<u64>)
    ensures
        r == parse_hex_u64(s@),
{
    let start: usize = if s.len() > 0 && s[0] == 0x2b { 1 } else { 0 };
    let ghost d = hex_digits_of(s@);
    assert(d =~= s@.subrange(start as int, s@.len() as int));
    if start == s.len() {
        return None;
    }
    let mut acc: u64 = 0;
    let mut i: usize = start;
    while i < s.len()
        invariant
            start <= i <= s@.len(),
            d == s@.subrange(start as int, s@.len() as int),
            d == hex_digits_of(s@),
            all_hex(d.subrange(0, i - start)),
            acc as int == hex_value(d.subrange(0, i - start)),
        decreases s@.len() - i,
    {
        let b = s[i];
        assert(d[i - start] == b);
        let v: u64 = if 0x30 <= b && b <= 0x39 {
            (b - 0x30) as u64
        } else if 0x61 <= b && b <= 0x66 {
            (b - 0x61 + 10) as u64
        } else if 0x41 <= b && b <= 0x46 {
            (b - 0x41 + 10) as u64
        } else {
            assert(hex_digit(d[i - start]) < 0);
            assert(!all_hex(d));
            return None;
        };
        assert(d.subrange(0, i + 1 - start).drop_last() =~= d.subrange(0, i - start));
        assert(all_hex(d.subrange(0, i + 1 - start)));
        assert(hex_value(d.subrange(0, i + 1 - start)) == acc * 16 + v);
        if acc >= 0x1000_0000_0000_0000 {
            proof {
                let k = i + 1 - start;
                if all_hex(d) {
                    lemma_hex_value_grows(d, k, d.len() as int);
                    assert(d.subrange(0, d.len() as int) =~= d);
                }
            }
            return None;
        }
        acc = acc * 16 + v;
        i = i + 1;
    }
    assert(d.subrange(0, d.len() as int) =~= d);
    Some(acc)
}
/// The non-empty `/`-separated segments of a path, in order.
pub open spec fn path_segments(p: Seq<u8>) -> Seq<Seq<u8>>
    decreases p.len(),
{
    match split_first(p, 0x2f) {
        None => if p.len() == 0 {
            Seq::empty()
        } else {
            seq![p]
        },
        Some((a, rest)) => {
            if rest.len() < p.len() {
                (if a.len() == 0 {
                    Seq::empty()
                } else {
                    seq![a]
                }) + path_segments(rest)
            } else {
                Seq::empty()
            }
        },
    }
}

proof fn lemma_split_first_shorter(p: Seq<u8>, v: u8)
    requires
        split_first(p, v) is Some,
    ensures
        split_first(p, v)->Some_0.1.len() < p.len(),
{
    let i = choose|i: int| first_at(p, v, i);
}

/// Splits a path into its non-empty `/`-separated segments.
pub fn split_path(path: &[u8]) -> (r: Vec<Vec<u8>>)
    ensures
        r@.len() == path_segments(path@).len(),
        forall|i: int| 0 <= i < r@.len() ==> (#[trigger] r@[i])@ == path_segments(path@)[i],
{
    let mut out: Vec<Vec<u8>> = Vec::new();
    let ghost mut acc: Seq<Seq<u8>> = Seq::empty();
    let mut rest: &[u8] = path;
    while rest.len() > 0
        invariant
            path_segments(path@) == acc + path_segments(rest@),
            out@.len() == acc.len(),
            forall|i: int| 0 <= i < out@.len() ==> (#[trigger] out@[i])@ == acc[i],
        decreases rest@.len(),
    {
        match split_at_first(rest, 0x2f) {
            None => {
                out.push(crate::map::copy_bytes(rest));
                proof {
                    assert(path_segments(rest@) == seq![rest@]);
                    acc = acc.push(rest@);
                    assert(path_segments(path@) == acc + Seq::<Seq<u8>>::empty());
                }
                rest = &rest[0..0];
                proof {
                    assert(rest@.len() == 0);
                    assert(path_segments(rest@) =~= Seq::<Seq<u8>>::empty());
                }
            },
            Some((a, b)) => {
                proof {
                    lemma_split_first_shorter(rest@, 0x2f);
                }
                let ghost old_rest = rest@;
                if a.len() > 0 {
                    out.push(crate::map::copy_bytes(a));
                    proof {
                        assert(acc + path_segments(old_rest) =~= acc.push(a@) + path_segments(b@));
                        acc = acc.push(a@);
                    }
                } else {
                    proof {
                        assert(path_segments(old_rest) =~= path_segments(b@));
                    }
                }
                rest = b;
            },
        }
    }
    proof {
        assert(path_segments(rest@) =~= Seq::<Seq<u8>>::empty());
        assert(acc + Seq::<Seq<u8>>::empty() =~= acc);
    }
    out
}

/// A byte that may stand in a node name.
#[derive(Debug, Clone, Copy, PartialEq, Eq)]
pub struct Char {
    byte: u8,
}

impl Char {
    /// Whether `byte` may stand in a node name.
    pub fn is_valid(byte: u8) -> (r: bool)
        ensures
            r == valid_name_byte(byte),
    {
        (0x30 <= byte && byte <= 0x39) || (0x41 <= byte && byte <= 0x5a) || (0x61 <= byte && byte
            <= 0x7a) || byte == 0x2c || byte == 0x2e || byte == 0x5f || byte == 0x2b || byte == 0x2d
    }

    /// The character `byte`, if it may stand in a node name.
    pub fn new(byte: u8) -> (r: Option<Char>)
        ensures
            r.is_some() == valid_name_byte(byte),
            r matches Some(c) ==> c.byte() == byte,
    {
        if Char::is_valid(byte) {
            Some(Char { byte })
        } else {
            None
        }
    }

    pub closed spec fn byte(&self) -> u8 {
        self.byte
    }

    /// The byte of this character.
    pub fn as_byte(&self) -> (r: u8)
        ensures
            r == self.byte(),
    {
        self.byte
    }
}

/// The node-name component of a name: bytes that may stand in a node name.
#[derive(Debug, Clone, PartialEq, Eq)]
pub struct NameSlice {
    bytes: Vec<u8>,
}

impl View for NameSlice {
    type V = Seq<u8>;

    closed spec fn view(&self) -> Seq<u8> {
        self.bytes@
    }
}

impl NameSlice {
    /// The node-name component `bytes`, if every byte may stand in a node name.
    pub fn try_from_bytes(bytes: &[u8]) -> (r: Option<NameSlice>)
        ensures
            r.is_some() == valid_name_bytes(bytes@),
            r matches Some(n) ==> n@ == bytes@,
    {
        let mut out: Vec<u8> = Vec::new();
        let mut i: usize = 0;
        while i < bytes.len()
            invariant
                i <= bytes@.len(),
                out@ == bytes@.subrange(0, i as int),
                valid_name_bytes(out@),
            decreases bytes@.len() - i,
        {
            if !Char::is_valid(bytes[i]) {
                return None;
            }
            out.push(bytes[i]);
            i = i + 1;
        }
        assert(out@ =~= bytes@);
        Some(NameSlice { bytes: out })
    }

    /// The bytes of this component.
    pub fn as_bytes(&self) -> (r: &[u8])
        ensures
            r@ == self@,
    {
        self.bytes.as_slice()
    }

    /// Whether this component is `other`.
    pub fn equals(&self, other: &[u8]) -> (r: bool)
        ensures
            r == (self@ == other@),
    {
        crate::map::compare_bytes(self.bytes.as_slice(), other) == 0
    }

    /// Whether this component begins with `prefix`.
    pub fn starts_with(&self, prefix: &[u8]) -> (r: bool)
        ensures
            r == prefix@.is_prefix_of(self@),
    {
        if prefix.len() > self.bytes.len() {
            return false;
        }
        let mut i: usize = 0;
        while i < prefix.len()
            invariant
                i <= prefix@.len() <= self.bytes@.len(),
                forall|j: int| 0 <= j < i ==> prefix@[j] == self.bytes@[j],
            decreases prefix@.len() - i,
        {
            if prefix[i] != self.bytes[i] {
                return false;
            }
            i = i + 1;
        }
        assert(self.bytes@.subrange(0, prefix@.len() as int) =~= prefix@);
        true
    }
}

/// A node's name: its node-name component and its unit address, if any.
#[derive(Debug, Clone, PartialEq, Eq)]
pub struct NameRef {
    node_name: NameSlice,
    unit_address: Option<u64>,
}

/// Errors from reading a node name.
#[derive(Debug, Clone, Copy, PartialEq, Eq)]
pub enum NameRefError {
    /// A byte that may not stand in a name, or a unit address that is not hexadecimal.
    InvalidCharacters,
    /// The node-name component is longer than 31 bytes.
    TooLong,
}

/// The name that the bytes `s` write: `node-name[@unit-address]`, where only
/// the part of the unit address before its first comma is read.
pub open spec fn parse_name(s: Seq<u8>) -> Result<(Seq<u8>, Option<u64>), NameRefError> {
    match split_first(s, 0x40) {
        None => if s.len() > 31 {
            Err(NameRefError::TooLong)
        } else if !valid_name_bytes(s) {
            Err(NameRefError::InvalidCharacters)
        } else {
            Ok((s, None))
        },
        Some((node, unit)) => {
            let address = match split_first(unit, 0x2c) {
                Some((a, _)) => a,
                None => unit,
            };
            if node.len() > 31 {
                Err(NameRefError::TooLong)
            } else if !valid_name_bytes(node) || parse_hex_u64(address).is_none() {
                Err(NameRefError::InvalidCharacters)
            } else {
                Ok((node, parse_hex_u64(address)))
            }
        },
    }
}

impl NameRef {
    pub closed spec fn spec_node_name(&self) -> Seq<u8> {
        self.node_name@
    }

    pub closed spec fn spec_unit_address(&self) -> Option<u64> {
        self.unit_address
    }

    /// Reads a node name from its bytes.
    pub fn try_from(value: &[u8]) -> (r: Result<NameRef, NameRefError>)
        ensures
            r matches Ok(n) ==> parse_name(value@) == Ok::<(Seq<u8>, Option<u64>), NameRefError>(
                (n.spec_node_name(), n.spec_unit_address()),
            ),
            r matches Err(e) ==> parse_name(value@) == Err::<(Seq<u8>, Option<u64>), NameRefError>(e),
    {
        match split_at_first(value, 0x40) {
            None => {
                if value.len() > MAX_NODE_NAME_LENGTH {
                    return Err(NameRefError::TooLong);
                }
                match NameSlice::try_from_bytes(value) {
                    Some(node_name) => Ok(NameRef { node_name, unit_address: None }),
                    None => Err(NameRefError::InvalidCharacters),
                }
            },
            Some((node, unit)) => {
                let address = match split_at_first(unit, 0x2c) {
                    Some((a, _)) => a,
                    None => unit,
                };
                if node.len() > MAX_NODE_NAME_LENGTH {
                    return Err(NameRefError::TooLong);
                }
                let node_name = match NameSlice::try_from_bytes(node) {
                    Some(n) => n,
                    None => return Err(NameRefError::InvalidCharacters),
                };
                match parse_hex(address) {
                    Some(a) => Ok(NameRef { node_name, unit_address: Some(a) }),
                    None => Err(NameRefError::InvalidCharacters),
                }
            },
        }
    }

    /// The name with the given parts.
    pub fn from_parts(node_name: NameSlice, unit_address: Option<u64>) -> (r: NameRef)
        ensures
            r.spec_node_name() == node_name@,
            r.spec_unit_address() == unit_address,
    {
        NameRef { node_name, unit_address }
    }

    /// A copy of this name.
    pub fn clone_name(&self) -> (r: NameRef)
        ensures
            r.spec_node_name() == self.spec_node_name(),
            r.spec_unit_address() == self.spec_unit_address(),
    {
        let bytes = crate::map::copy_bytes(self.node_name.as_bytes());
        NameRef { node_name: NameSlice { bytes }, unit_address: self.unit_address }
    }

    /// The node-name component of this name.
    pub fn node_name(&self) -> (r: &NameSlice)
        ensures
            r@ == self.spec_node_name(),
    {
        &self.node_name
    }

    /// The unit address of this name, if it has one.
    pub fn unit_address(&self) -> (r: Option<u64>)
        ensures
            r == self.spec_unit_address(),
    {
        self.unit_address
    }
}

/// The eight big-endian bytes of `a`.
pub open spec fn be64_bytes(a: u64) -> Seq<u8> {
    seq![
        (a >> 56u64) as u8,
        ((a >> 48u64) & 0xffu64) as u8,
        ((a >> 40u64) & 0xffu64) as u8,
        ((a >> 32u64) & 0xffu64) as u8,
        ((a >> 24u64) & 0xffu64) as u8,
        ((a >> 16u64) & 0xffu64) as u8,
        ((a >> 8u64) & 0xffu64) as u8,
        (a & 0xffu64) as u8,
    ]
}

/// The key of a name in a map: its node-name component, a zero byte, and then
/// a zero byte when it has no unit address or a one byte and the address.
pub open spec fn name_key(node_name: Seq<u8>, unit_address: Option<u64>) -> Seq<u8> {
    node_name + seq![0u8] + match unit_address {
        None => seq![0u8],
        Some(a) => seq![1u8] + be64_bytes(a),
    }
}

/// Only the empty name without a unit address has the key of the empty name.
pub proof fn lemma_root_key(n: Seq<u8>, u: Option<u64>)
    requires
        name_key(n, u) == name_key(Seq::empty(), None),
    ensures
        n.len() == 0,
        u is None,
{
    assert(name_key(Seq::empty(), None).len() == 2);
    assert(name_key(n, u).len() == n.len() + 1 + (if u is None { 1int } else { 9int }));
}

impl MapKey for NameRef {
    open spec fn key_view(&self) -> Seq<u8> {
        name_key(self.spec_node_name(), self.spec_unit_address())
    }

    fn key_bytes(&self) -> (r: Vec<u8>) {
        let mut out: Vec<u8> = Vec::new();
        let n = self.node_name.as_bytes();
        let mut i: usize = 0;
        while i < n.len()
            invariant
                i <= n@.len(),
                out@ == n@.subrange(0, i as int),
            decreases n@.len() - i,
        {
            out.push(n[i]);
            i = i + 1;
        }
        out.push(0);
        match self.unit_address {
            None => {
                out.push(0);
            },
            Some(a) => {
                out.push(1);
                out.push((a >> 56u64) as u8);
                out.push(((a >> 48u64) & 0xffu64) as u8);
                out.push(((a >> 40u64) & 0xffu64) as u8);
                out.push(((a >> 32u64) & 0xffu64) as u8);
                out.push(((a >> 24u64) & 0xffu64) as u8);
                out.push(((a >> 16u64) & 0xffu64) as u8);
                out.push(((a >> 8u64) & 0xffu64) as u8);
                out.push((a & 0xffu64) as u8);
            },
        }
        assert(out@ =~= self.key_view());
        out
    }
}

} // verus!
