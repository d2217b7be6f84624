//! CPU nodes and the `/cpus` node that holds them.

use vstd::prelude::*;
use crate::keys;
use crate::keys::PropertyKeys;
use crate::map::{compare_bytes, lemma_select_subset, select, MapKey, SortedMap};
use crate::node::cache::{cache_valid, HigherLevel, HigherLevelError, L1};
use crate::parse::{be_u32, c_str_of, U32ByteSlice};
use crate::property::{comma_count, EnableMethod, EnableMethodError, PropertyMap};
use crate::node_name::NameRef;
use crate::raw::{arena_ok, cell_count_of, children_below, mark_children, take_node, CellContext, CellError, RawNode};

verus! {

/// The state of a CPU.
#[derive(Debug, Clone, Copy, PartialEq, Eq)]
pub enum Status {
    /// Running.
    Okay,
    /// Quiescent; started through its enable method.
    Disabled,
    /// Not operational, or absent.
    Fail,
}

/// A CPU.
#[derive(Debug)]
pub struct Node {
    enable_method: Option<EnableMethod>,
    reg: u32,
    l1_cache: L1,
    status: Status,
    next_cache: Option<u32>,
    properties: PropertyMap,
}

/// Errors from decoding a CPU node.
#[derive(Debug, Clone, Copy, PartialEq, Eq)]
pub enum NodeError {
    /// `device_type` is absent or not `cpu`.
    DeviceType,
    /// The enable method is malformed, or absent on a disabled CPU.
    EnableMethod,
    /// A spin-table CPU has no valid release address.
    ReleaseAddr,
    /// `status` is not `okay`, `disabled` or `fail`.
    Status,
    /// `reg` is absent or not one word, or the CPU ids are not one cell wide.
    Reg,
    /// `next-level-cache` names no cache.
    NextLevelCache,
}

/// Errors from decoding the `/cpus` node.
#[derive(Debug, Clone, Copy, PartialEq, Eq)]
pub enum RootError {
    /// A CPU node is invalid.
    Cpu(NodeError),
    /// A cache node is invalid.
    Cache(HigherLevelError),
    /// `#address-cells` is absent, malformed or zero, or `#size-cells` is not zero.
    Reg,
    /// A CPU's unit address differs from its `reg`: `(unit address, reg)`.
    RegMismatch(Option<u64>, u32),
}

/// The value of property `key` for a CPU whose own properties are `own` and
/// whose `/cpus` node holds `base`: its own value wins.
pub open spec fn cpu_property(
    own: vstd::map::Map<Seq<u8>, U32ByteSlice>,
    base: vstd::map::Map<Seq<u8>, U32ByteSlice>,
    key: Seq<u8>,
) -> Option<Seq<u8>> {
    if own.contains_key(key) {
        Some(own[key]@)
    } else if base.contains_key(key) {
        Some(base[key]@)
    } else {
        None
    }
}

/// Whether the string property `e` names a valid enable method, given the
/// CPU's `cpu-release-addr` value `release`.
pub open spec fn enable_valid_bytes(e: Seq<u8>, release: Option<Seq<u8>>) -> bool {
    &&& c_str_of(e) matches Some(s)
    &&& if s == keys::word_spin_table() {
        release matches Some(r) && r.len() == 8
    } else {
        comma_count(s) == 1
    }
}

/// Whether a CPU whose own properties are `own`, under a `/cpus` node with
/// properties `base`, decodes; `caches` are the higher-level caches by
/// phandle and `address_cells` the width of CPU ids.
pub open spec fn cpu_valid(
    own: vstd::map::Map<Seq<u8>, U32ByteSlice>,
    base: vstd::map::Map<Seq<u8>, U32ByteSlice>,
    caches: SortedMap<u32, HigherLevel>,
    address_cells: u8,
) -> bool {
    &&& address_cells == 1
    &&& cpu_property(own, base, keys::key_reg()) matches Some(v) && v.len() == 4
    &&& cpu_property(own, base, keys::key_device_type()) matches Some(v) && c_str_of(v) == Some(keys::word_cpu())
    &&& cpu_property(own, base, keys::key_enable_method()) matches Some(e) ==> enable_valid_bytes(
        e,
        cpu_property(own, base, keys::key_cpu_release_addr()),
    )
    &&& cpu_property(own, base, keys::key_status()) matches Some(v) ==> (c_str_of(v) matches Some(t) && (t
        == keys::word_okay() || t == keys::word_fail() || (t == keys::word_disabled() && cpu_property(
        own,
        base,
        keys::key_enable_method(),
    ) is Some)))
    &&& cpu_property(own, base, keys::key_next_level_cache()) matches Some(v) ==> (v.len() == 4
        && caches@.contains_key((be_u32(v) as u32).key_view()))
}

/// Whether the CPU is disabled and has no enable method.
pub open spec fn disabled_without_method(
    own: vstd::map::Map<Seq<u8>, U32ByteSlice>,
    base: vstd::map::Map<Seq<u8>, U32ByteSlice>,
) -> bool {
    &&& cpu_property(own, base, keys::key_enable_method()).is_none()
    &&& cpu_property(own, base, keys::key_status()) matches Some(v)
    &&& c_str_of(v) == Some(keys::word_disabled())
}

/// Whether the name `n` is that of a CPU node: it begins with `cpu`.
pub open spec fn is_cpu_name(n: NameRef) -> bool {
    keys::word_cpu().is_prefix_of(n.spec_node_name())
}

/// The key of the id of a CPU node with properties `p` under `/cpus`
/// properties `parent`.
pub open spec fn cpu_reg_key(p: vstd::map::Map<Seq<u8>, U32ByteSlice>, parent: vstd::map::Map<Seq<u8>, U32ByteSlice>) -> Seq<u8> {
    (be_u32(cpu_property(p, parent.remove(keys::key_address_cells()).remove(keys::key_size_cells()), keys::key_reg())->Some_0) as u32).key_view()
}

/// The phandle of a cache node with properties `p`.
pub open spec fn cache_phandle(p: vstd::map::Map<Seq<u8>, U32ByteSlice>) -> u32 {
    be_u32(p[keys::key_phandle()]@) as u32
}

/// Whether a cache node with properties `p` decodes and is entered in
/// `caches` under its phandle.
pub open spec fn cache_decoded(p: vstd::map::Map<Seq<u8>, U32ByteSlice>, caches: SortedMap<u32, HigherLevel>) -> bool {
    cache_valid(p) && caches@.contains_key((be_u32(p[keys::key_phandle()]@) as u32).key_view())
}

/// Whether a CPU node with properties `p`, under `/cpus` properties `base`,
/// decodes and is entered in `cpus` under its id.
pub open spec fn cpu_decoded(
    p: vstd::map::Map<Seq<u8>, U32ByteSlice>,
    base: vstd::map::Map<Seq<u8>, U32ByteSlice>,
    address_cells: u8,
    cpus: SortedMap<u32, Node>,
    caches: SortedMap<u32, HigherLevel>,
) -> bool {
    cpu_valid(p, base, caches, address_cells) && cpus@.contains_key(
        (be_u32(cpu_property(p, base, keys::key_reg())->Some_0) as u32).key_view(),
    )
}

/// Whether the child `entry` of `/cpus` (properties `parent`) decoded: as a
/// cache when its name does not begin with `cpu`, else as a CPU.
pub open spec fn child_decoded(
    entry: (NameRef, usize),
    nodes: Seq<RawNode>,
    parent: vstd::map::Map<Seq<u8>, U32ByteSlice>,
    cpus: SortedMap<u32, Node>,
    caches: SortedMap<u32, HigherLevel>,
) -> bool {
    let p = nodes[entry.1 as int].properties@;
    if is_cpu_name(entry.0) {
        cell_count_of(parent, keys::key_address_cells(), 2) matches Ok(a) && cpu_decoded(
            p,
            parent.remove(keys::key_address_cells()).remove(keys::key_size_cells()),
            a,
            cpus,
            caches,
        )
    } else {
        cache_decoded(p, caches)
    }
}

/// Whether every CPU of `cpus` is entered under its id.
pub open spec fn cpus_keyed_by_reg(cpus: SortedMap<u32, Node>) -> bool {
    forall|k: Seq<u8>| #[trigger] cpus@.contains_key(k) ==> cpus@[k].spec_reg().key_view() == k
}

impl Node {
    pub closed spec fn spec_reg(&self) -> u32 {
        self.reg
    }

    pub closed spec fn spec_status(&self) -> Status {
        self.status
    }

    pub closed spec fn spec_has_enable_method(&self) -> bool {
        self.enable_method.is_some()
    }

    pub closed spec fn spec_properties(&self) -> PropertyMap {
        self.properties
    }

    pub closed spec fn spec_enable_method(&self) -> Option<EnableMethod> {
        self.enable_method
    }

    pub closed spec fn spec_next_cache(&self) -> Option<u32> {
        self.next_cache
    }

    pub closed spec fn spec_l1_cache(&self) -> L1 {
        self.l1_cache
    }

    /// Decodes a CPU node. Properties that the CPU does not give itself are
    /// taken from `base`, the properties of `/cpus`; `caches` gives the
    /// higher-level caches by phandle; `address_cells` is the width of CPU ids.
    pub fn new(
        value: RawNode,
        base: &PropertyMap,
        caches: &SortedMap<u32, HigherLevel>,
        address_cells: u8,
    ) -> (r: Result<Node, NodeError>)
        requires
            value.wf(),
            base.wf(),
            caches.wf(),
        ensures
            disabled_without_method(value.properties@, base@) ==> r is Err,
            r matches Ok(n) ==> (n.spec_status() == Status::Disabled ==> n.spec_has_enable_method())
                && address_cells == 1 && (cpu_property(value.properties@, base@, keys::key_reg())
                matches Some(v) && v.len() == 4 && n.spec_reg() == be_u32(v)),
            address_cells != 1 ==> r is Err,
            r is Ok <==> cpu_valid(value.properties@, base@, *caches, address_cells),
            ({
                let own = value.properties@;
                let b = base@;
                let dt_ok = cpu_property(own, b, keys::key_device_type()) matches Some(v) && c_str_of(v) == Some(keys::word_cpu());
                let em = cpu_property(own, b, keys::key_enable_method());
                let release = cpu_property(own, b, keys::key_cpu_release_addr());
                &&& !dt_ok ==> r == Err::<Node, NodeError>(NodeError::DeviceType)
                &&& dt_ok && (em matches Some(e) && c_str_of(e) == Some(keys::word_spin_table()) && !(release matches Some(x) && x.len() == 8))
                    ==> r == Err::<Node, NodeError>(NodeError::ReleaseAddr)
                &&& dt_ok && (em matches Some(e) && !(c_str_of(e) matches Some(t) && (t == keys::word_spin_table() || comma_count(t) == 1)))
                    ==> r == Err::<Node, NodeError>(NodeError::EnableMethod)
                &&& dt_ok && disabled_without_method(own, b) ==> r == Err::<Node, NodeError>(NodeError::EnableMethod)
                &&& r matches Ok(n) ==> (match em {
                    None => n.spec_enable_method() is None,
                    Some(e) => c_str_of(e) matches Some(t) && n.spec_enable_method() matches Some(m) && crate::property::enable_method_of(m, t, release),
                })
                &&& r matches Ok(n) ==> n.spec_next_cache() == (match cpu_property(own, b, keys::key_next_level_cache()) {
                    Some(v) => Some(be_u32(v) as u32),
                    None => None,
                })
                &&& r matches Ok(n) ==> (match cpu_property(own, b, keys::key_status()) {
                    None => n.spec_status() == Status::Okay,
                    Some(v) => c_str_of(v) matches Some(t) && n.spec_status() == (if t == keys::word_okay() {
                        Status::Okay
                    } else if t == keys::word_disabled() {
                        Status::Disabled
                    } else {
                        Status::Fail
                    }),
                })
            }),
    {
        let mut value = value;
        let ghost own = value.properties@;
        value.properties.extend_preserve(base);
        let ghost merged = value.properties@;
        assert(forall|k: Seq<u8>| #[trigger] merged.contains_key(k) ==> cpu_property(own, base@, k) == Some(merged[k]@));
        assert(forall|k: Seq<u8>| !#[trigger] merged.contains_key(k) ==> cpu_property(own, base@, k).is_none());
        proof {
            keys::lemma_cpu_keys_distinct();
        }
        let device_type_ok = match value.properties.remove(&PropertyKeys::device_type()) {
            Some(bytes) => match bytes.to_c_str() {
                Some(s) => compare_bytes(s.as_slice(), keys::cpu_word().as_slice()) == 0,
                None => false,
            },
            None => false,
        };
        if !device_type_ok {
            return Err(NodeError::DeviceType);
        }
        let ghost m1 = value.properties@;
        let enable_method = match EnableMethod::extract_from_properties(&mut value.properties) {
            Ok(method) => Some(method),
            Err(EnableMethodError::NotPresent) => None,
            Err(EnableMethodError::NoReleaseAddr) => return Err(NodeError::ReleaseAddr),
            Err(EnableMethodError::Invalid) => return Err(NodeError::EnableMethod),
        };
        let ghost m2 = value.properties@;
        assert(m2.contains_key(keys::key_status()) == merged.contains_key(keys::key_status()) && (m2.contains_key(keys::key_status()) ==> m2[keys::key_status()] == merged[keys::key_status()])) by {
            let st = keys::key_status();
            assert(m2.remove(keys::key_cpu_release_addr()).contains_key(st) == m2.contains_key(st));
            assert(m1.remove(keys::key_enable_method()).remove(keys::key_cpu_release_addr()).contains_key(st) == m1.contains_key(st));
            assert(m1.contains_key(st) == merged.contains_key(st));
            if m2.contains_key(st) {
                assert(m2.remove(keys::key_cpu_release_addr())[st] == m2[st]);
                assert(m1.remove(keys::key_enable_method()).remove(keys::key_cpu_release_addr())[st] == m1[st]);
                assert(m1[st] == merged[st]);
            }
        }
        let status = match value.properties.remove(&PropertyKeys::status()) {
            Some(bytes) => match bytes.to_c_str() {
                Some(s) => {
                    if compare_bytes(s.as_slice(), keys::okay_word().as_slice()) == 0 {
                        Status::Okay
                    } else if compare_bytes(s.as_slice(), keys::disabled_word().as_slice()) == 0 {
                        if enable_method.is_none() {
                            return Err(NodeError::EnableMethod);
                        }
                        Status::Disabled
                    } else if compare_bytes(s.as_slice(), keys::fail_word().as_slice()) == 0 {
                        Status::Fail
                    } else {
                        return Err(NodeError::Status);
                    }
                },
                None => return Err(NodeError::Status),
            },
            None => Status::Okay,
        };
        proof {
            let nk = keys::key_next_level_cache();
            assert(m2.remove(keys::key_cpu_release_addr()).contains_key(nk) == m2.contains_key(nk));
            assert(m1.remove(keys::key_enable_method()).remove(keys::key_cpu_release_addr()).contains_key(nk) == m1.contains_key(nk));
            assert(m1.contains_key(nk) == merged.contains_key(nk));
            if m2.contains_key(nk) {
                assert(m2.remove(keys::key_cpu_release_addr())[nk] == m2[nk]);
                assert(m1.remove(keys::key_enable_method()).remove(keys::key_cpu_release_addr())[nk] == m1[nk]);
                assert(m1[nk] == merged[nk]);
            }
            assert(value.properties@.contains_key(nk) == merged.contains_key(nk));
            if merged.contains_key(nk) {
                assert(value.properties@[nk] == merged[nk]);
            }
        }
        let next_cache = match value.properties.remove(&PropertyKeys::next_level_cache()) {
            Some(bytes) => match bytes.try_into_u32() {
                Ok(p) => if caches.get(&p).is_some() {
                    Some(p)
                } else {
                    return Err(NodeError::NextLevelCache);
                },
                Err(_) => return Err(NodeError::NextLevelCache),
            },
            None => None,
        };
        proof {
            let rk = keys::key_reg();
            assert(m2.remove(keys::key_cpu_release_addr()).contains_key(rk) == m2.contains_key(rk));
            assert(m1.remove(keys::key_enable_method()).remove(keys::key_cpu_release_addr()).contains_key(rk) == m1.contains_key(rk));
            assert(m1.contains_key(rk) == merged.contains_key(rk));
            if m2.contains_key(rk) {
                assert(m2.remove(keys::key_cpu_release_addr())[rk] == m2[rk]);
                assert(m1.remove(keys::key_enable_method()).remove(keys::key_cpu_release_addr())[rk] == m1[rk]);
                assert(m1[rk] == merged[rk]);
            }
            assert(value.properties@.contains_key(rk) == merged.contains_key(rk));
            if merged.contains_key(rk) {
                assert(value.properties@[rk] == merged[rk]);
            }
        }
        if address_cells != 1 {
            return Err(NodeError::Reg);
        }
        let reg = match value.properties.remove(&PropertyKeys::reg()) {
            Some(bytes) => match bytes.try_into_u32() {
                Ok(x) => x,
                Err(_) => return Err(NodeError::Reg),
            },
            None => return Err(NodeError::Reg),
        };
        let l1_cache = L1::extract_from(&mut value.properties);
        Ok(Node { enable_method, reg, l1_cache, status, next_cache, properties: value.properties })
    }

    /// Decodes the `/cpus` node `parent` and its children, taken from the
    /// arena `nodes`: children whose names do not begin with `cpu` are
    /// higher-level caches, decoded first and entered in `phandles`; the
    /// others are CPUs. Returns the CPUs by id and the caches by phandle.
    #[verifier::rlimit(80)]
    pub fn parse_parent(
        parent: RawNode,
        nodes: &mut Vec<RawNode>,
        phandles: &mut SortedMap<u32, usize>,
        ctx: &mut CellContext,
    ) -> (r: Result<(SortedMap<u32, Node>, SortedMap<u32, HigherLevel>), RootError>)
        requires
            parent.wf(),
            old(phandles).wf(),
            arena_ok(old(nodes)@),
            old(ctx)@.len() == old(nodes)@.len(),
            children_below(parent.children, old(nodes)@.len() as int),
        ensures
            arena_ok(final(nodes)@),
            final(nodes)@.len() == old(nodes)@.len(),
            final(ctx)@.len() == old(ctx)@.len(),
            final(phandles).wf(),
            !parent.properties@.contains_key(keys::key_address_cells()) ==> r == Err::<(SortedMap<u32, Node>, SortedMap<u32, HigherLevel>), RootError>(RootError::Reg),
            cell_count_of(parent.properties@, keys::key_size_cells(), 1) != Ok::<u8, CellError>(0) ==> r == Err::<(SortedMap<u32, Node>, SortedMap<u32, HigherLevel>), RootError>(RootError::Reg),
            r matches Ok((cpus, caches)) ==> cpus.wf() && caches.wf() && cpus_keyed_by_reg(cpus),
            r matches Ok((cpus, caches)) ==> forall|k: Seq<u8>| #[trigger] caches@.contains_key(k) ==> final(phandles)@.contains_key(k),
            r is Ok ==> forall|j1: int, j2: int| 0 <= j1 < parent.children.entries().len() && 0 <= j2 < parent.children.entries().len()
                && j1 != j2 && !is_cpu_name((#[trigger] parent.children.entries()[j1]).0) && !is_cpu_name((#[trigger] parent.children.entries()[j2]).0)
                ==> cache_phandle(old(nodes)@[parent.children.entries()[j1].1 as int].properties@) != cache_phandle(
                    old(nodes)@[parent.children.entries()[j2].1 as int].properties@),
            r matches Ok((cpus, caches)) ==> forall|q: Seq<u8>| #[trigger] cpus@.contains_key(q) ==> exists|j: int|
                0 <= j < parent.children.entries().len() && is_cpu_name((#[trigger] parent.children.entries()[j]).0) && cpu_reg_key(
                old(nodes)@[parent.children.entries()[j].1 as int].properties@,
                parent.properties@,
            ) == q,
            r matches Ok((cpus, caches)) ==> forall|j: int| 0 <= j < parent.children.entries().len() ==> child_decoded(
                #[trigger] parent.children.entries()[j],
                old(nodes)@,
                parent.properties@,
                cpus,
                caches,
            ),
    {
        let mut node = parent;
        let ghost props0 = node.properties@;
        let has_address_cells = node.properties.get(&PropertyKeys::address_cells()).is_some();
        let (a, s) = node.extract_cell_counts();
        let address_cells = match (a, s) {
            (Ok(a), Ok(0)) => a,
            _ => return Err(RootError::Reg),
        };
        if !has_address_cells || address_cells == 0 {
            return Err(RootError::Reg);
        }
        let ghost base = node.properties@;
        let prefix = crate::node::root::NodeNames::cpu_prefix();
        let entries = node.children.iter();
        let ghost n0 = old(nodes)@;
        proof {
            node.children.lemma_entries_in_view();
            assert forall|j1: int, j2: int| 0 <= j1 < entries@.len() && 0 <= j2 < entries@.len() && j1 != j2
                implies (#[trigger] entries@[j1]).1 != (#[trigger] entries@[j2]).1 by {
                let k1 = entries@[j1].0.key_view();
                let k2 = entries@[j2].0.key_view();
                assert(node.children@.contains_key(k1) && node.children@.contains_key(k2));
                if j1 < j2 {
                    assert(node.children.key_order()[j1] == k1 && node.children.key_order()[j2] == k2);
                    crate::map::lemma_bytes_lt_irreflexive(k1);
                } else {
                    assert(node.children.key_order()[j1] == k1 && node.children.key_order()[j2] == k2);
                    crate::map::lemma_bytes_lt_irreflexive(k1);
                }
            }
            assert forall|j: int| 0 <= j < entries@.len() implies (#[trigger] entries@[j]).1 < n0.len() by {
                assert(node.children@.contains_key(entries@[j].0.key_view()));
            }
        }
        let mut caches: SortedMap<u32, HigherLevel> = SortedMap::new();
        let mut i: usize = 0;
        while i < entries.len()
            invariant
                arena_ok(nodes@),
                ctx@.len() == nodes@.len(),
                nodes@.len() == n0.len(),
                ctx@.len() == old(ctx)@.len(),
                phandles.wf(),
                caches.wf(),
                node.wf(),
                i <= entries@.len(),
                props0.contains_key(keys::key_address_cells()),
                cell_count_of(props0, keys::key_size_cells(), 1) == Ok::<u8, CellError>(0),
                props0 == parent.properties@,
                entries@ == parent.children.entries(),
                forall|j1: int, j2: int| 0 <= j1 < entries@.len() && 0 <= j2 < entries@.len() && j1 != j2
                    ==> (#[trigger] entries@[j1]).1 != (#[trigger] entries@[j2]).1,
                forall|j: int| 0 <= j < entries@.len() ==> (#[trigger] entries@[j]).1 < n0.len(),
                n0 == old(nodes)@,
                prefix@ == keys::word_cpu(),
                forall|j: int| 0 <= j < entries@.len() && (i <= j || is_cpu_name((#[trigger] entries@[j]).0)) ==> nodes@[entries@[j].1 as int] == n0[entries@[j].1 as int],
                forall|j: int| 0 <= j < i && !is_cpu_name(#[trigger] entries@[j].0) ==> cache_decoded(n0[entries@[j].1 as int].properties@, caches),
                forall|k: Seq<u8>| #[trigger] caches@.contains_key(k) ==> phandles@.contains_key(k),
                forall|j: int| 0 <= j < i && !is_cpu_name(#[trigger] entries@[j].0) ==> phandles@.contains_key(
                    cache_phandle(n0[entries@[j].1 as int].properties@).key_view()),
                forall|j1: int, j2: int| 0 <= j1 < i && 0 <= j2 < i && j1 != j2 && !is_cpu_name((#[trigger] entries@[j1]).0)
                    && !is_cpu_name((#[trigger] entries@[j2]).0) ==> cache_phandle(n0[entries@[j1].1 as int].properties@)
                    != cache_phandle(n0[entries@[j2].1 as int].properties@),
            decreases entries@.len() - i,
        {
            let place = entries[i].1;
            let is_cache = !entries[i].0.node_name().starts_with(prefix.as_slice());
            assert(is_cache == !is_cpu_name(entries@[i as int].0));
            if is_cache {
                let ghost nb = nodes@;
                let raw = take_node(nodes, place);
                let ghost p = raw.properties@;
                assert(raw == n0[place as int]);
                proof {
                    assert forall|j: int| 0 <= j < entries@.len() && (i + 1 <= j || is_cpu_name((#[trigger] entries@[j]).0))
                        implies nodes@[entries@[j].1 as int] == n0[entries@[j].1 as int] by {
                        assert(j != i);
                        assert(entries@[j].1 != entries@[i as int].1);
                        assert(nodes@[entries@[j].1 as int] == nb[entries@[j].1 as int]);
                    }
                }
                let (phandle, cache, ca, cs) = match HigherLevel::new(raw) {
                    Ok(x) => x,
                    Err(e) => return Err(RootError::Cache(e)),
                };
                let ghost ph0 = phandles@;
                if phandles.insert(phandle, place).is_some() {
                    return Err(RootError::Cache(HigherLevelError::DuplicatePHandle));
                }
                proof {
                    assert(phandle == cache_phandle(p));
                    assert forall|j: int| 0 <= j < i && !is_cpu_name(#[trigger] entries@[j].0) implies
                        cache_phandle(n0[entries@[j].1 as int].properties@) != phandle by {
                        assert(ph0.contains_key(cache_phandle(n0[entries@[j].1 as int].properties@).key_view()));
                    }
                }
                mark_children(ctx, cache.children(), (ca, cs));
                let ghost c0 = caches@;
                caches.insert(phandle, cache);
                proof {
                    assert forall|j: int| 0 <= j < i + 1 && !is_cpu_name(#[trigger] entries@[j].0) implies cache_decoded(n0[entries@[j].1 as int].properties@, caches) by {
                        if j == i {
                            assert(caches@.contains_key(phandle.key_view()));
                        } else {
                            let q = n0[entries@[j].1 as int].properties@;
                            assert(c0.contains_key((be_u32(q[keys::key_phandle()]@) as u32).key_view()));
                        }
                    }
                }
            }
            i = i + 1;
        }
        let mut cpus: SortedMap<u32, Node> = SortedMap::new();
        let mut k: usize = 0;
        while k < entries.len()
            invariant
                arena_ok(nodes@),
                ctx@.len() == nodes@.len(),
                nodes@.len() == n0.len(),
                ctx@.len() == old(ctx)@.len(),
                phandles.wf(),
                caches.wf(),
                cpus.wf(),
                cpus_keyed_by_reg(cpus),
                forall|k: Seq<u8>| #[trigger] caches@.contains_key(k) ==> phandles@.contains_key(k),
                node.wf(),
                node.properties@ == base,
                base == props0.remove(keys::key_address_cells()).remove(keys::key_size_cells()),
                cell_count_of(props0, keys::key_address_cells(), 2) == Ok::<u8, CellError>(address_cells),
                k <= entries@.len(),
                props0.contains_key(keys::key_address_cells()),
                cell_count_of(props0, keys::key_size_cells(), 1) == Ok::<u8, CellError>(0),
                props0 == parent.properties@,
                entries@ == parent.children.entries(),
                forall|j1: int, j2: int| 0 <= j1 < entries@.len() && 0 <= j2 < entries@.len() && j1 != j2
                    ==> (#[trigger] entries@[j1]).1 != (#[trigger] entries@[j2]).1,
                forall|j: int| 0 <= j < entries@.len() ==> (#[trigger] entries@[j]).1 < n0.len(),
                n0 == old(nodes)@,
                prefix@ == keys::word_cpu(),
                forall|j: int| k <= j < entries@.len() && is_cpu_name(#[trigger] entries@[j].0) ==> nodes@[entries@[j].1 as int] == n0[entries@[j].1 as int],
                forall|j: int| 0 <= j < entries@.len() && !is_cpu_name(#[trigger] entries@[j].0) ==> cache_decoded(n0[entries@[j].1 as int].properties@, caches),
                forall|j1: int, j2: int| 0 <= j1 < entries@.len() && 0 <= j2 < entries@.len() && j1 != j2 && !is_cpu_name((#[trigger] entries@[j1]).0)
                    && !is_cpu_name((#[trigger] entries@[j2]).0) ==> cache_phandle(n0[entries@[j1].1 as int].properties@)
                    != cache_phandle(n0[entries@[j2].1 as int].properties@),
                forall|j: int| 0 <= j < k && is_cpu_name(#[trigger] entries@[j].0) ==> cpu_decoded(n0[entries@[j].1 as int].properties@, base, address_cells, cpus, caches),
                forall|q: Seq<u8>| #[trigger] cpus@.contains_key(q) ==> exists|j: int| 0 <= j < k && is_cpu_name((#[trigger] entries@[j]).0)
                    && cpu_reg_key(n0[entries@[j].1 as int].properties@, props0) == q,
            decreases entries@.len() - k,
        {
            let name = &entries[k].0;
            let place = entries[k].1;
            let is_cpu = name.node_name().starts_with(prefix.as_slice());
            assert(is_cpu == is_cpu_name(entries@[k as int].0));
            if is_cpu {
                let ghost nb = nodes@;
                let raw = take_node(nodes, place);
                assert(raw == n0[place as int]);
                proof {
                    assert forall|j: int| k + 1 <= j < entries@.len() && is_cpu_name(#[trigger] entries@[j].0)
                        implies nodes@[entries@[j].1 as int] == n0[entries@[j].1 as int] by {
                        assert(entries@[j].1 != entries@[k as int].1);
                        assert(nodes@[entries@[j].1 as int] == nb[entries@[j].1 as int]);
                    }
                }
                let cpu = match Node::new(raw, &node.properties, &caches, address_cells) {
                    Ok(c) => c,
                    Err(e) => return Err(RootError::Cpu(e)),
                };
                match name.unit_address() {
                    Some(unit) => if unit != cpu.reg as u64 {
                        return Err(RootError::RegMismatch(Some(unit), cpu.reg));
                    },
                    None => {},
                }
                let ghost before = cpus@;
                let ghost key = cpu.reg.key_view();
                cpus.insert(cpu.reg, cpu);
                proof {
                    assert forall|q: Seq<u8>| #[trigger] cpus@.contains_key(q) implies cpus@[q].spec_reg().key_view() == q by {
                        if q != key {
                            assert(before.contains_key(q));
                        }
                    }
                    assert(cpu_reg_key(n0[place as int].properties@, props0) == key);
                    assert forall|q: Seq<u8>| #[trigger] cpus@.contains_key(q) implies exists|j: int| 0 <= j < k + 1 && is_cpu_name((#[trigger] entries@[j]).0)
                        && cpu_reg_key(n0[entries@[j].1 as int].properties@, props0) == q by {
                        if q == key {
                            assert(entries@[k as int].1 == place);
                        } else {
                            assert(before.contains_key(q));
                            let j = choose|j: int| 0 <= j < k && is_cpu_name((#[trigger] entries@[j]).0)
                                && cpu_reg_key(n0[entries@[j].1 as int].properties@, props0) == q;
                        }
                    }
                    assert forall|j: int| 0 <= j < k + 1 && is_cpu_name(#[trigger] entries@[j].0) implies cpu_decoded(n0[entries@[j].1 as int].properties@, base, address_cells, cpus, caches) by {
                        if j == k {
                            assert(cpus@.contains_key(key));
                        } else {
                            let q = n0[entries@[j].1 as int].properties@;
                            assert(before.contains_key((be_u32(cpu_property(q, base, keys::key_reg())->Some_0) as u32).key_view()));
                        }
                    }
                }
            }
            k = k + 1;
        }
        Ok((cpus, caches))
    }

    /// How the CPU is started, if given.
    pub fn enable_method(&self) -> (r: Option<&EnableMethod>)
        ensures
            r.is_some() == self.spec_has_enable_method(),
            r matches Some(m) ==> self.spec_enable_method() == Some(*m),
    {
        self.enable_method.as_ref()
    }

    /// The CPU's id.
    pub fn reg(&self) -> (r: u32)
        ensures
            r == self.spec_reg(),
    {
        self.reg
    }

    /// The CPU's L1 cache.
    pub fn l1_cache(&self) -> (r: &L1)
        ensures
            *r == self.spec_l1_cache(),
    {
        &self.l1_cache
    }

    /// The CPU's state.
    pub fn status(&self) -> (r: Status)
        ensures
            r == self.spec_status(),
    {
        self.status
    }

    /// The phandle of the next cache level, if given; it names one of the
    /// root's higher-level caches.
    pub fn next_cache(&self) -> (r: Option<u32>)
        ensures
            r == self.spec_next_cache(),
    {
        self.next_cache
    }

    /// The properties that were not decoded.
    pub fn properties(&self) -> (r: &PropertyMap)
        ensures
            *r == self.spec_properties(),
    {
        &self.properties
    }
}

} // verus!
