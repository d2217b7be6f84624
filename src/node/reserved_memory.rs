//! Reserved memory: the children of `/reserved-memory`.

use vstd::prelude::*;
use crate::keys;
use crate::keys::PropertyKeys;
use crate::map::{compare_bytes, copy_bytes, MapKey, SortedMap};
use crate::node::device::{decode_reg, reg_spec};
use crate::node_name::{split_at_first, split_first, NameRef};
use crate::parse::{c_str_of, cells_value, U32ByteSlice, Warning};
use crate::property::PropertyMap;
use crate::raw::{arena_ok, cell_count_of, children_below, mark_children, take_node, CellContext, CellError, ChildMap, RawNode};

verus! {

/// What a reserved region is meant for, from its `compatible`.
#[derive(Debug)]
pub enum Compatible {
    /// A pool of DMA buffers shared by devices.
    SharedDmaPool,
    /// `vendor,[device-]usage`.
    VendorSpecific(Vec<u8>, Option<Vec<u8>>, Vec<u8>),
}

/// Whether `c` is what the string `s` names.
pub open spec fn compatible_of(c: Compatible, s: Seq<u8>) -> bool {
    if s == keys::word_shared_dma_pool() {
        c is SharedDmaPool
    } else {
        match split_first(s, 0x2c) {
            None => false,
            Some((vendor, rest)) => match split_first(rest, 0x2d) {
                Some((device, usage)) => c matches Compatible::VendorSpecific(v, Some(d), u) && v@ == vendor
                    && d@ == device && u@ == usage,
                None => c matches Compatible::VendorSpecific(v, None, u) && v@ == vendor && u@ == rest,
            },
        }
    }
}

impl Compatible {
    /// Reads a reserved region's `compatible` string.
    pub fn try_from(s: &[u8]) -> (r: Result<Compatible, ()>)
        ensures
            r is Ok <==> (s@ == keys::word_shared_dma_pool() || split_first(s@, 0x2c) is Some),
            r matches Ok(c) ==> compatible_of(c, s@),
    {
        if compare_bytes(s, keys::shared_dma_pool_word().as_slice()) == 0 {
            return Ok(Compatible::SharedDmaPool);
        }
        match split_at_first(s, 0x2c) {
            None => Err(()),
            Some((vendor, rest)) => match split_at_first(rest, 0x2d) {
                Some((device, usage)) => Ok(
                    Compatible::VendorSpecific(copy_bytes(vendor), Some(copy_bytes(device)), copy_bytes(usage)),
                ),
                None => Ok(Compatible::VendorSpecific(copy_bytes(vendor), None, copy_bytes(rest))),
            },
        }
    }
}

/// Limits on how a reserved region is used.
#[derive(Debug, Clone, Copy, PartialEq, Eq)]
pub enum Usage {
    /// The region must not be mapped.
    NoMap,
    /// The system may use the region while its owners can reclaim it.
    Reusable,
    /// No limit.
    Other,
}

/// Where a reserved region lies.
#[derive(Debug)]
pub enum Range {
    /// Fixed (address, size) ranges.
    Static(Vec<(u64, u64)>),
    /// A size to be allocated, with an optional alignment and optional
    /// ranges to allocate from, sorted by start.
    Dynamic(u64, Option<u64>, Option<Vec<(u64, u64)>>),
}

/// A reserved region.
#[derive(Debug)]
pub struct Node {
    memory: Range,
    usage: Usage,
    compatible: Option<Compatible>,
    properties: PropertyMap,
    children: ChildMap,
}

/// Errors from decoding a reserved region.
#[derive(Debug, Clone, Copy, PartialEq, Eq)]
pub enum Error {
    /// Neither `reg` nor `size` is given.
    InvalidMemory,
    /// Both `no-map` and `reusable` are given.
    Usage,
    /// A value does not fit the cell counts.
    Cells,
    /// `compatible` is malformed.
    Compatible,
}

/// Errors from decoding `/reserved-memory`.
#[derive(Debug, Clone, Copy, PartialEq, Eq)]
pub enum RootError {
    /// A reserved region is invalid.
    Child(Error),
    /// The cell counts differ from the root's, or `ranges` is not present and empty.
    CellsMismatch,
}

/// Whether a reserved region with properties `p` decodes with the root's
/// cell counts.
pub open spec fn region_valid(p: vstd::map::Map<Seq<u8>, U32ByteSlice>, address_cells: u8, size_cells: u8) -> bool {
    &&& p.contains_key(keys::key_size()) ==> p[keys::key_size()]@.len() == 4 * size_cells
    &&& p.contains_key(keys::key_alignment()) ==> p[keys::key_alignment()]@.len() == 4 * size_cells
    &&& p.contains_key(keys::key_reg()) ==> reg_spec(p[keys::key_reg()]@, address_cells, size_cells) is Some
    &&& !(p.contains_key(keys::key_no_map()) && p.contains_key(keys::key_reusable()))
    &&& p.contains_key(keys::key_alloc_ranges()) ==> reg_spec(p[keys::key_alloc_ranges()]@, address_cells, size_cells) is Some
    &&& p.contains_key(keys::key_compatible()) ==> (c_str_of(p[keys::key_compatible()]@) matches Some(t)
        && (t == keys::word_shared_dma_pool() || split_first(t, 0x2c) is Some))
    &&& cell_count_of(p, keys::key_address_cells(), 2) is Ok
    &&& cell_count_of(p, keys::key_size_cells(), 1) is Ok
    &&& p.contains_key(keys::key_reg()) || p.contains_key(keys::key_size())
}

/// Whether the starts of `s` never decrease.
pub open spec fn sorted_by_start(s: Seq<(u64, u64)>) -> bool {
    forall|a: int, b: int| 0 <= a < b < s.len() ==> (#[trigger] s[a]).0 <= (#[trigger] s[b]).0
}

/// Sorts (start, size) pairs by start.
pub fn sort_by_start(v: Vec<(u64, u64)>) -> (r: Vec<(u64, u64)>)
    ensures
        sorted_by_start(r@),
        r@.to_multiset() == v@.to_multiset(),
{
    let mut out: Vec<(u64, u64)> = Vec::new();
    proof {
        assert(v@.subrange(0, 0) =~= Seq::<(u64, u64)>::empty());
        assert(out@ =~= Seq::<(u64, u64)>::empty());
    }
    let mut i: usize = 0;
    while i < v.len()
        invariant
            i <= v@.len(),
            sorted_by_start(out@),
            out@.to_multiset() == v@.subrange(0, i as int).to_multiset(),
        decreases v@.len() - i,
    {
        let e = v[i];
        let mut pos: usize = 0;
        while pos < out.len() && out[pos].0 <= e.0
            invariant
                pos <= out@.len(),
                forall|j: int| 0 <= j < pos ==> (#[trigger] out@[j]).0 <= e.0,
            decreases out@.len() - pos,
        {
            pos = pos + 1;
        }
        let ghost before = out@;
        out.insert(pos, e);
        proof {
            assert(sorted_by_start(out@)) by {
                assert forall|a: int, b: int| 0 <= a < b < out@.len() implies (#[trigger] out@[a]).0 <= (#[trigger] out@[b]).0 by {
                    if b < pos {
                    } else if b == pos {
                        assert(out@[a] == before[a]);
                    } else if a == pos {
                        assert(out@[b] == before[b - 1]);
                        assert(before[pos as int].0 > e.0);
                        if b - 1 > pos {
                            assert(before[pos as int].0 <= before[b - 1].0);
                        }
                    } else if a < pos {
                        assert(out@[b] == before[b - 1]);
                    } else {
                        assert(out@[a] == before[a - 1]);
                        assert(out@[b] == before[b - 1]);
                    }
                }
            }
            assert(v@.subrange(0, i + 1) =~= v@.subrange(0, i as int).push(e));
            vstd::seq_lib::to_multiset_insert(before, pos as int, e);
            vstd::seq_lib::to_multiset_build(v@.subrange(0, i as int), e);
        }
        i = i + 1;
    }
    assert(v@.subrange(0, v@.len() as int) =~= v@);
    out
}

impl Node {
    pub closed spec fn spec_memory(&self) -> Range {
        self.memory
    }

    pub closed spec fn spec_compatible(&self) -> Option<Compatible> {
        self.compatible
    }

    pub closed spec fn spec_properties(&self) -> PropertyMap {
        self.properties
    }

    pub closed spec fn spec_usage(&self) -> Usage {
        self.usage
    }

    pub closed spec fn spec_children(&self) -> ChildMap {
        self.children
    }

    pub closed spec fn spec_is_static(&self) -> bool {
        self.memory is Static
    }

    /// Decodes a reserved region, whose values are read with the root's cell
    /// counts. Also returns the node's own cell counts, which govern its children.
    pub fn new(value: RawNode, address_cells: u8, size_cells: u8, warnings: &mut Vec<Warning>) -> (r: Result<(Node, u8, u8), Error>)
        requires
            value.wf(),
        ensures
            old(warnings)@.is_prefix_of(final(warnings)@),
            r matches Ok((n, _, _)) ==> n.spec_children() == value.children
                && n.spec_is_static() == value.properties@.contains_key(keys::key_reg())
                && n.spec_usage() == (if value.properties@.contains_key(keys::key_no_map()) {
                    Usage::NoMap
                } else if value.properties@.contains_key(keys::key_reusable()) {
                    Usage::Reusable
                } else {
                    Usage::Other
                }),
            value.properties@.contains_key(keys::key_no_map()) && value.properties@.contains_key(keys::key_reusable()) ==> r is Err,
            r is Ok <==> region_valid(value.properties@, address_cells, size_cells),
            !value.properties@.contains_key(keys::key_reg()) && !value.properties@.contains_key(keys::key_size()) ==> r is Err,
    {
        let mut value = value;
        proof {
            keys::lemma_reserved_keys_distinct();
        }
        let size = match value.properties.remove(&PropertyKeys::size()) {
            Some(bytes) => match bytes.into_cells(size_cells, warnings) {
                Some(x) => Some(x),
                None => return Err(Error::Cells),
            },
            None => None,
        };
        let ghost w1 = warnings@;
        let alignment = match value.properties.remove(&PropertyKeys::alignment()) {
            Some(bytes) => match bytes.into_cells(size_cells, warnings) {
                Some(x) => Some(x),
                None => return Err(Error::Cells),
            },
            None => None,
        };
        let ghost w2 = warnings@;
        proof {
            assert(warnings@.subrange(0, old(warnings)@.len() as int) =~= old(warnings)@);
        }
        let regs = match value.properties.remove(&PropertyKeys::reg()) {
            Some(bytes) => match decode_reg(bytes, address_cells, size_cells, warnings) {
                Some(v) => Some(v),
                None => return Err(Error::Cells),
            },
            None => None,
        };
        let no_map = value.properties.remove(&PropertyKeys::no_map()).is_some();
        let reusable = value.properties.remove(&PropertyKeys::reusable()).is_some();
        if no_map && reusable {
            return Err(Error::Usage);
        }
        let ghost w3 = warnings@;
        let alloc_ranges = match value.properties.remove(&PropertyKeys::alloc_ranges()) {
            Some(bytes) => match decode_reg(bytes, address_cells, size_cells, warnings) {
                Some(v) => Some(sort_by_start(v)),
                None => return Err(Error::Cells),
            },
            None => None,
        };
        let compatible = match value.properties.remove(&PropertyKeys::compatible()) {
            Some(bytes) => match bytes.to_c_str() {
                Some(s) => match Compatible::try_from(s.as_slice()) {
                    Ok(c) => Some(c),
                    Err(_) => return Err(Error::Compatible),
                },
                None => return Err(Error::Compatible),
            },
            None => None,
        };
        let (a, s) = value.extract_cell_counts();
        let (a, s) = match (a, s) {
            (Ok(a), Ok(s)) => (a, s),
            _ => return Err(Error::Cells),
        };
        let memory = match regs {
            Some(r) => Range::Static(r),
            None => match size {
                Some(sz) => Range::Dynamic(sz, alignment, alloc_ranges),
                None => return Err(Error::InvalidMemory),
            },
        };
        let usage = if no_map {
            Usage::NoMap
        } else if reusable {
            Usage::Reusable
        } else {
            Usage::Other
        };
        Ok((Node { memory, usage, compatible, properties: value.properties, children: value.children }, a, s))
    }

    /// Decodes `/reserved-memory` and its children, taken from the arena
    /// `nodes`; `address_cells` and `size_cells` are the root's.
    pub fn parse_parent(
        parent: RawNode,
        address_cells: u8,
        size_cells: u8,
        nodes: &mut Vec<RawNode>,
        ctx: &mut CellContext,
        warnings: &mut Vec<Warning>,
    ) -> (r: Result<SortedMap<NameRef, Node>, RootError>)
        requires
            parent.wf(),
            arena_ok(old(nodes)@),
            old(ctx)@.len() == old(nodes)@.len(),
            children_below(parent.children, old(nodes)@.len() as int),
        ensures
            arena_ok(final(nodes)@),
            final(nodes)@.len() == old(nodes)@.len(),
            final(ctx)@.len() == old(ctx)@.len(),
            old(warnings)@.is_prefix_of(final(warnings)@),
            cell_count_of(parent.properties@, keys::key_address_cells(), 2) != Ok::<u8, CellError>(address_cells)
                || cell_count_of(parent.properties@, keys::key_size_cells(), 1) != Ok::<u8, CellError>(size_cells)
                || !parent.properties@.contains_key(keys::key_ranges())
                || parent.properties@[keys::key_ranges()]@.len() != 0
                ==> r == Err::<SortedMap<NameRef, Node>, RootError>(RootError::CellsMismatch),
            r matches Ok(m) ==> m.wf() && forall|k: Seq<u8>| #[trigger] m@.contains_key(k) ==> m@[k].spec_children().wf(),
            r matches Ok(m) ==> m@.dom() == parent.children@.dom(),
            r matches Ok(m) ==> forall|j: int| 0 <= j < parent.children.entries().len() ==> region_valid(
                old(nodes)@[(#[trigger] parent.children.entries()[j]).1 as int].properties@,
                address_cells,
                size_cells,
            ),
    {
        let mut node = parent;
        let (a, s) = node.extract_cell_counts();
        proof {
            assert(keys::key_ranges() != keys::key_address_cells() && keys::key_ranges() != keys::key_size_cells()) by {
                assert(keys::key_ranges().len() != keys::key_address_cells().len());
                assert(keys::key_ranges().len() != keys::key_size_cells().len());
            }
        }
        let ranges_empty = match node.properties.remove(&PropertyKeys::ranges()) {
            Some(b) => b.is_empty(),
            None => false,
        };
        let cells_match = match (a, s) {
            (Ok(a), Ok(s)) => a == address_cells && s == size_cells,
            _ => false,
        };
        if !cells_match || !ranges_empty {
            return Err(RootError::CellsMismatch);
        }
        let mut out: SortedMap<NameRef, Node> = SortedMap::new();
        let entries = node.children.iter();
        let ghost n0 = old(nodes)@;
        proof {
            node.children.lemma_entries_in_view();
            assert forall|j1: int, j2: int| 0 <= j1 < entries@.len() && 0 <= j2 < entries@.len() && j1 != j2
                implies (#[trigger] entries@[j1]).1 != (#[trigger] entries@[j2]).1 by {
                let k1 = entries@[j1].0.key_view();
                let k2 = entries@[j2].0.key_view();
                assert(node.children@.contains_key(k1) && node.children@.contains_key(k2));
                assert(node.children.key_order()[j1] == k1 && node.children.key_order()[j2] == k2);
                crate::map::lemma_bytes_lt_irreflexive(k1);
            }
            assert(out@.dom() =~= Set::<Seq<u8>>::empty());
        }
        let mut k: usize = 0;
        while k < entries.len()
            invariant
                arena_ok(nodes@),
                nodes@.len() == old(nodes)@.len(),
                ctx@.len() == old(ctx)@.len(),
                ctx@.len() == nodes@.len(),
                cell_count_of(parent.properties@, keys::key_address_cells(), 2) == Ok::<u8, CellError>(address_cells),
                cell_count_of(parent.properties@, keys::key_size_cells(), 1) == Ok::<u8, CellError>(size_cells),
                parent.properties@.contains_key(keys::key_ranges()),
                parent.properties@[keys::key_ranges()]@.len() == 0,
                out.wf(),
                forall|q: Seq<u8>| #[trigger] out@.contains_key(q) ==> out@[q].spec_children().wf(),
                node.wf(),
                old(warnings)@.is_prefix_of(warnings@),
                entries@ == node.children.entries(),
                forall|j: int| 0 <= j < node.children.entries().len() ==> #[trigger] node.children@.contains_key(
                    node.children.entries()[j].0.key_view(),
                ) && node.children@[node.children.entries()[j].0.key_view()] == node.children.entries()[j].1,
                children_below(node.children, nodes@.len() as int),
                k <= entries@.len(),
                n0 == old(nodes)@,
                node.children == parent.children,
                forall|j1: int, j2: int| 0 <= j1 < entries@.len() && 0 <= j2 < entries@.len() && j1 != j2
                    ==> (#[trigger] entries@[j1]).1 != (#[trigger] entries@[j2]).1,
                forall|j: int| k <= j < entries@.len() ==> nodes@[(#[trigger] entries@[j]).1 as int] == n0[entries@[j].1 as int],
                forall|j: int| 0 <= j < k ==> region_valid(n0[(#[trigger] entries@[j]).1 as int].properties@, address_cells, size_cells),
                forall|q: Seq<u8>| out@.contains_key(q) <==> exists|j: int| 0 <= j < k && (#[trigger] entries@[j]).0.key_view() == q,
            decreases entries@.len() - k,
        {
            let place = entries[k].1;
            assert(node.children@.contains_key(node.children.entries()[k as int].0.key_view()));
            let ghost nb = nodes@;
            let raw = take_node(nodes, place);
            assert(raw == n0[place as int]);
            proof {
                assert forall|j: int| k + 1 <= j < entries@.len() implies nodes@[(#[trigger] entries@[j]).1 as int] == n0[entries@[j].1 as int] by {
                    assert(entries@[j].1 != entries@[k as int].1);
                    assert(node.children@.contains_key(node.children.entries()[j].0.key_view()));
                    assert(nodes@[entries@[j].1 as int] == nb[entries@[j].1 as int]);
                }
            }
            let ghost w0 = warnings@;
            let (region, ca, cs) = match Node::new(raw, address_cells, size_cells, warnings) {
                Ok(x) => x,
                Err(e) => {
                    proof {
                        assert(warnings@.subrange(0, old(warnings)@.len() as int) =~= old(warnings)@);
                    }
                    return Err(RootError::Child(e));
                },
            };
            proof {
                assert(warnings@.subrange(0, old(warnings)@.len() as int) =~= old(warnings)@);
            }
            mark_children(ctx, region.children(), (ca, cs));
            let name = entries[k].0.clone_name();
            let ghost o0 = out@;
            out.insert(name, region);
            proof {
                assert forall|q: Seq<u8>| out@.contains_key(q) <==> exists|j: int| 0 <= j < k + 1 && (#[trigger] entries@[j]).0.key_view() == q by {
                    if out@.contains_key(q) && q != entries@[k as int].0.key_view() {
                        assert(o0.contains_key(q));
                    }
                    if exists|j: int| 0 <= j < k + 1 && (#[trigger] entries@[j]).0.key_view() == q {
                        let j = choose|j: int| 0 <= j < k + 1 && (#[trigger] entries@[j]).0.key_view() == q;
                        if j < k {
                            assert(o0.contains_key(q));
                        }
                    }
                }
            }
            k = k + 1;
        }
        proof {
            assert(out@.dom() =~= parent.children@.dom()) by {
                assert forall|q: Seq<u8>| out@.dom().contains(q) <==> parent.children@.dom().contains(q) by {
                    if parent.children@.contains_key(q) {
                        let j = choose|j: int| 0 <= j < parent.children.entries().len() && #[trigger] parent.children.entries()[j].0.key_view() == q;
                        assert(entries@[j].0.key_view() == q);
                    }
                    if out@.contains_key(q) {
                        let j = choose|j: int| 0 <= j < k && (#[trigger] entries@[j]).0.key_view() == q;
                        assert(node.children@.contains_key(node.children.entries()[j].0.key_view()));
                    }
                }
            }
        }
        Ok(out)
    }

    /// Where the region lies.
    pub fn memory(&self) -> (r: &Range)
        ensures
            *r == self.spec_memory(),
    {
        &self.memory
    }

    /// How the region may be used.
    pub fn usage(&self) -> (r: Usage)
        ensures
            r == self.spec_usage(),
    {
        self.usage
    }

    /// What the region is meant for, if given.
    pub fn compatible(&self) -> (r: Option<&Compatible>)
        ensures
            r.is_some() == self.spec_compatible().is_some(),
            r matches Some(c) ==> self.spec_compatible() == Some(*c),
    {
        self.compatible.as_ref()
    }

    /// The properties that were not decoded.
    pub fn properties(&self) -> (r: &PropertyMap)
        ensures
            *r == self.spec_properties(),
    {
        &self.properties
    }

    /// The children, as places in the node arena.
    pub fn children(&self) -> (r: &ChildMap)
        ensures
            *r == self.spec_children(),
    {
        &self.children
    }
}

} // verus!
