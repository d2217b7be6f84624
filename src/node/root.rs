//! The root node: the whole typed tree, with its CPUs, caches, memory,
//! reserved memory, aliases, phandles and chosen node.

use vstd::prelude::*;
use crate::keys;
use crate::keys::PropertyKeys;
use crate::map::{compare_bytes, lemma_select_subset, select, MapKey, SortedMap};
use crate::node::cache::HigherLevel;
use crate::node::chosen::{Chosen, Error as ChosenError};
use crate::node::cpu;
use crate::node::device;
use crate::node::memory_region::{self, MemoryRegion};
use crate::node::reserved_memory;
use crate::node_name::{name_key, parse_name, path_segments, split_path, NameRef, NameSlice};
use crate::parse::{c_str_of, Warning};
use crate::property::{ChassisError, ChassisType, Model, PropertyMap};
use crate::raw::{node_view, NodeView, arena_ok, cell_count_of, children_below, mark_children, take_node, CellContext, CellError, ChildMap, RawNode, RawTree};

verus! {

/// The map key of a path segment, when the segment is a valid name.
pub open spec fn segment_key(seg: Seq<u8>) -> Option<Seq<u8>> {
    match parse_name(seg) {
        Ok((n, u)) => Some(name_key(n, u)),
        Err(_) => None,
    }
}

/// The device that the segments `segs` lead to from device `idx`.
pub open spec fn descend(devices: Seq<Option<device::Node>>, idx: int, segs: Seq<Seq<u8>>) -> Option<int>
    decreases segs.len(),
{
    if segs.len() == 0 {
        Some(idx)
    } else if 0 <= idx < devices.len() && devices[idx] is Some && segment_key(segs[0]) is Some
        && devices[idx]->Some_0.spec_children()@.contains_key(segment_key(segs[0])->Some_0) {
        descend(devices, devices[idx]->Some_0.spec_children()@[segment_key(segs[0])->Some_0] as int, segs.drop_first())
    } else {
        None
    }
}

/// Whether no two devices of `devices` have the same phandle.
pub open spec fn devices_phandles_unique(devices: Seq<Option<device::Node>>) -> bool {
    forall|i: int, j: int|
        0 <= i < devices.len() && 0 <= j < devices.len() && #[trigger] devices[i] is Some && #[trigger] devices[j] is Some
            && devices[i]->Some_0.spec_phandle() is Some && devices[i]->Some_0.spec_phandle() == devices[j]->Some_0.spec_phandle()
            ==> i == j
}

/// Whether `phandles` enters each device of `devices` that has a phandle
/// under that phandle.
pub open spec fn devices_phandles_registered(devices: Seq<Option<device::Node>>, phandles: SortedMap<u32, usize>) -> bool {
    forall|i: int|
        0 <= i < devices.len() && #[trigger] devices[i] is Some && devices[i]->Some_0.spec_phandle() is Some
            ==> phandles@.contains_key(devices[i]->Some_0.spec_phandle()->Some_0.key_view())
            && phandles@[devices[i]->Some_0.spec_phandle()->Some_0.key_view()] == i
}

/// Decodes, as generic devices, the nodes before place `root_place` that
/// `ctx` gives parent cell counts for, parents before children, entering
/// their phandles in `phandles`.
#[verifier::rlimit(50)]
fn resolve_devices(
    nodes: &mut Vec<RawNode>,
    ctx: &mut CellContext,
    phandles: &mut SortedMap<u32, usize>,
    devices: &mut Vec<Option<device::Node>>,
    root_place: usize,
    higher_caches: &SortedMap<u32, HigherLevel>,
    warnings: &mut Vec<Warning>,
) -> (r: Result<(), device::Error>)
    requires
        arena_ok(old(nodes)@),
        old(ctx)@.len() == old(nodes)@.len(),
        old(devices)@.len() == old(nodes)@.len(),
        root_place < old(nodes)@.len(),
        old(phandles).wf(),
        forall|j: int| 0 <= j < old(devices)@.len() ==> (#[trigger] old(devices)@[j]) is None,
        forall|k: Seq<u8>| #[trigger] higher_caches@.contains_key(k) ==> old(phandles)@.contains_key(k),
    ensures
        arena_ok(final(nodes)@),
        final(nodes)@.len() == old(nodes)@.len(),
        final(ctx)@.len() == old(ctx)@.len(),
        final(devices)@.len() == old(nodes)@.len(),
        final(phandles).wf(),
        old(warnings)@.is_prefix_of(final(warnings)@),
        forall|j: int| 0 <= j < final(devices)@.len() && #[trigger] final(devices)@[j] is Some ==> final(devices)@[j]->Some_0.wf(),
        r is Ok ==> devices_phandles_registered(final(devices)@, *final(phandles)),
        r is Ok ==> forall|j: int| 0 <= j < final(devices)@.len() && #[trigger] final(devices)@[j] is Some
            && final(devices)@[j]->Some_0.spec_phandle() is Some
            ==> !higher_caches@.contains_key(final(devices)@[j]->Some_0.spec_phandle()->Some_0.key_view()),
{
    let n = nodes.len();
    let mut i: usize = root_place;
    while i > 0
        invariant
            arena_ok(nodes@),
            nodes@.len() == n,
            ctx@.len() == n,
            devices@.len() == n,
            i <= root_place < n,
            phandles.wf(),
            n == old(nodes)@.len(),
            old(warnings)@.is_prefix_of(warnings@),
            ctx@.len() == old(ctx)@.len(),
            forall|j: int| 0 <= j < n && #[trigger] devices@[j] is Some ==> devices@[j]->Some_0.wf(),
            devices_phandles_registered(devices@, *phandles),
            forall|j: int| 0 <= j < i ==> (#[trigger] devices@[j]) is None,
            forall|k: Seq<u8>| #[trigger] higher_caches@.contains_key(k) ==> phandles@.contains_key(k),
            forall|j: int| 0 <= j < n && #[trigger] devices@[j] is Some && devices@[j]->Some_0.spec_phandle() is Some
                ==> !higher_caches@.contains_key(devices@[j]->Some_0.spec_phandle()->Some_0.key_view()),
        decreases i,
    {
        i = i - 1;
        match ctx[i] {
            Some((pa, ps)) => {
                let raw_node = take_node(nodes, i);
                let ghost w1 = warnings@;
                let (dev, ca, cs) = match device::Node::new(raw_node, Some(pa), Some(ps), warnings) {
                    Ok(x) => x,
                    Err(e) => {
                        proof {
                            assert(warnings@.subrange(0, old(warnings)@.len() as int) =~= old(warnings)@);
                        }
                        return Err(e);
                    },
                };
                proof {
                    assert(warnings@.subrange(0, old(warnings)@.len() as int) =~= old(warnings)@);
                }
                mark_children(ctx, dev.children(), (ca, cs));
                let ghost ph0 = *phandles;
                match dev.phandle() {
                    Some(p) => {
                        if phandles.insert(p, i).is_some() {
                            return Err(device::Error::DuplicatePHandle);
                        }
                    },
                    None => {},
                }
                let ghost dv0 = devices@;
                let ghost dph = dev.spec_phandle();
                devices.set(i, Some(dev));
                proof {
                    assert forall|j: int| 0 <= j < n && #[trigger] devices@[j] is Some && devices@[j]->Some_0.spec_phandle() is Some
                        implies !higher_caches@.contains_key(devices@[j]->Some_0.spec_phandle()->Some_0.key_view()) by {
                        if j != i {
                            assert(devices@[j] == dv0[j]);
                        } else {
                            assert(!ph0@.contains_key(dph->Some_0.key_view()));
                        }
                    }
                }
                proof {
                    lemma_register_device(dv0, devices@, ph0, *phandles, i as int);
                }
            },
            None => {},
        }
    }
    Ok(())
}

/// Entering a device at an empty place keeps every device entered.
proof fn lemma_register_device(
    before: Seq<Option<device::Node>>,
    after: Seq<Option<device::Node>>,
    ph0: SortedMap<u32, usize>,
    ph1: SortedMap<u32, usize>,
    i: int,
)
    requires
        0 <= i < before.len(),
        i <= usize::MAX,
        before[i] is None,
        after == before.update(i, after[i]),
        after[i] is Some,
        devices_phandles_registered(before, ph0),
        match after[i]->Some_0.spec_phandle() {
            Some(p) => !ph0@.contains_key(p.key_view()) && ph1@ == ph0@.insert(p.key_view(), i as usize),
            None => ph1@ == ph0@,
        },
    ensures
        devices_phandles_registered(after, ph1),
{
    assert forall|j: int|
        0 <= j < after.len() && #[trigger] after[j] is Some && after[j]->Some_0.spec_phandle() is Some
        implies ph1@.contains_key(after[j]->Some_0.spec_phandle()->Some_0.key_view())
            && ph1@[after[j]->Some_0.spec_phandle()->Some_0.key_view()] == j by {
        if j != i {
            assert(after[j] == before[j]);
        }
    }
}

/// Resolves each property of `/aliases` as a path in `root`; an alias whose
/// path names no node is left out, with a warning.
pub fn parse_aliases(aliases: RawNode, root: &Node, warnings: &mut Vec<Warning>) -> (r: SortedMap<NameRef, usize>)
    requires
        aliases.wf(),
        root.wf(),
    ensures
        r.wf(),
        old(warnings)@.is_prefix_of(final(warnings)@),
        (exists|j: int| 0 <= j < aliases.properties.entries().len() && segment_key(#[trigger] aliases.properties.entries()[j].0@) is Some
            && (c_str_of(aliases.properties.entries()[j].1@) matches Some(p) && root.resolve(p) is None))
            ==> final(warnings)@.len() > old(warnings)@.len(),
        forall|j: int| 0 <= j < aliases.properties.entries().len() && (segment_key(#[trigger] aliases.properties.entries()[j].0@) matches Some(k)
            && (c_str_of(aliases.properties.entries()[j].1@) matches Some(p) && root.resolve(p) is Some))
            ==> r@.contains_key(segment_key(aliases.properties.entries()[j].0@)->Some_0),
        forall|k: Seq<u8>| #[trigger] r@.contains_key(k) ==> exists|j: int|
            0 <= j < aliases.properties.entries().len() && segment_key(aliases.properties.entries()[j].0@) == Some(k)
            && (c_str_of(aliases.properties.entries()[j].1@) matches Some(p) && root.resolve(p) == Some(r@[k] as int)),
{
    let entries = aliases.properties.iter();
    let mut out: SortedMap<NameRef, usize> = SortedMap::new();
    let mut i: usize = 0;
    while i < entries.len()
        invariant
            root.wf(),
            out.wf(),
            entries@ == aliases.properties.entries(),
            i <= entries@.len(),
            old(warnings)@.is_prefix_of(warnings@),
            forall|j: int| 0 <= j < i && (segment_key(#[trigger] entries@[j].0@) matches Some(k)
                && (c_str_of(entries@[j].1@) matches Some(p) && root.resolve(p) is Some))
                ==> out@.contains_key(segment_key(entries@[j].0@)->Some_0),
            (exists|j: int| 0 <= j < i && segment_key(#[trigger] entries@[j].0@) is Some
                && (c_str_of(entries@[j].1@) matches Some(p) && root.resolve(p) is None))
                ==> warnings@.len() > old(warnings)@.len(),
            forall|k: Seq<u8>| #[trigger] out@.contains_key(k) ==> exists|j: int|
                0 <= j < entries@.len() && segment_key(entries@[j].0@) == Some(k)
                && (c_str_of(entries@[j].1@) matches Some(p) && root.resolve(p) == Some(out@[k] as int)),
        decreases entries@.len() - i,
    {
        let (name, value) = &entries[i];
        match NameRef::try_from(name.as_slice()) {
            Ok(alias) => match value.to_c_str() {
                Some(path) => match root.find_str(path.as_slice()) {
                    Some(place) => {
                        let ghost k = alias.key_view();
                        let ghost before = out@;
                        out.insert(alias, place);
                        proof {
                            assert(segment_key(entries@[i as int].0@) == Some(k));
                            assert forall|q: Seq<u8>| #[trigger] out@.contains_key(q) implies exists|j: int|
                                0 <= j < entries@.len() && segment_key(entries@[j].0@) == Some(q)
                                && (c_str_of(entries@[j].1@) matches Some(p) && root.resolve(p) == Some(out@[q] as int)) by {
                                if q == k {
                                    assert(c_str_of(entries@[i as int].1@) == Some(path@));
                                } else {
                                    assert(before.contains_key(q));
                                }
                            }
                        }
                    },
                    None => {
                        warnings.push(Warning::DanglingAlias(crate::map::copy_bytes(name.as_slice())));
                        proof {
                            assert(warnings@.subrange(0, old(warnings)@.len() as int) =~= old(warnings)@);
                        }
                    },
                },
                None => {},
            },
            Err(_) => {},
        }
        i = i + 1;
    }
    out
}

/// Whether the root's own properties decode: `model` and `compatible` are
/// present and valid, `serial-number` is a terminated string if present, and
/// the cell counts are valid with a nonzero size.
pub open spec fn root_props_ok(p: vstd::map::Map<Seq<u8>, crate::parse::U32ByteSlice>) -> bool {
    &&& p.contains_key(keys::key_model()) && c_str_of(p[keys::key_model()]@) is Some
    &&& p.contains_key(keys::key_compatible()) && crate::property::string_list(p[keys::key_compatible()]@) is Some
    &&& p.contains_key(keys::key_serial_number()) ==> c_str_of(p[keys::key_serial_number()]@) is Some
    &&& cell_count_of(p, keys::key_address_cells(), 2) is Ok
    &&& cell_count_of(p, keys::key_size_cells(), 1) matches Ok(s) && s != 0
}

/// Whether the root's own properties decode but `/cpus` is absent or its
/// `#size-cells` is not zero.
pub open spec fn cpu_root_error(raw: RawTree) -> bool {
    let top = raw.nodes@[raw.root_index()];
    let cpus_key = name_key(keys::word_cpus(), None);
    &&& root_props_ok(top.properties@)
    &&& (!top.children@.contains_key(cpus_key) || cell_count_of(
        raw.nodes@[top.children@[cpus_key] as int].properties@,
        keys::key_size_cells(),
        1,
    ) != Ok::<u8, CellError>(0))
}

/// The cell count that property `key` of the property values `p` gives,
/// `default` when absent.
pub open spec fn cell_count_view(p: vstd::map::Map<Seq<u8>, Seq<u8>>, key: Seq<u8>, default: u8) -> Result<u8, CellError> {
    if !p.contains_key(key) {
        Ok(default)
    } else if p[key].len() == 4 && crate::parse::be_u32(p[key]) < 256 {
        Ok(crate::parse::be_u32(p[key]) as u8)
    } else {
        Err(CellError::Invalid)
    }
}

/// `root_props_ok` on property values.
pub open spec fn root_props_ok_view(p: vstd::map::Map<Seq<u8>, Seq<u8>>) -> bool {
    &&& p.contains_key(keys::key_model()) && c_str_of(p[keys::key_model()]) is Some
    &&& p.contains_key(keys::key_compatible()) && crate::property::string_list(p[keys::key_compatible()]) is Some
    &&& p.contains_key(keys::key_serial_number()) ==> c_str_of(p[keys::key_serial_number()]) is Some
    &&& cell_count_view(p, keys::key_address_cells(), 2) is Ok
    &&& cell_count_view(p, keys::key_size_cells(), 1) matches Ok(s) && s != 0
}

/// `cpu_root_error` on the views of the nodes of an untyped tree.
pub open spec fn cpu_root_error_view(nodes: Seq<NodeView>) -> bool {
    let top = nodes.last();
    let cpus_key = name_key(keys::word_cpus(), None);
    &&& nodes.len() > 0
    &&& root_props_ok_view(top.properties)
    &&& (!top.children.contains_key(cpus_key) || (top.children[cpus_key] < nodes.len() && cell_count_view(
        nodes[top.children[cpus_key] as int].properties,
        keys::key_size_cells(),
        1,
    ) != Ok::<u8, CellError>(0)))
}

/// The two statements of a missing or malformed `/cpus` agree.
pub proof fn lemma_cpu_root_error_view(raw: RawTree)
    requires
        raw.wf(),
    ensures
        cpu_root_error(raw) == cpu_root_error_view(raw.nodes@.map_values(|n: RawNode| node_view(n))),
{
    let views = raw.nodes@.map_values(|n: RawNode| node_view(n));
    let top = raw.nodes@[raw.root_index()];
    assert(views.last() == node_view(top));
    let pv = top.properties@.map_values(|v: crate::parse::U32ByteSlice| v@);
    assert(root_props_ok(top.properties@) == root_props_ok_view(pv));
    let cpus_key = name_key(keys::word_cpus(), None);
    if top.children@.contains_key(cpus_key) {
        let c = top.children@[cpus_key] as int;
        assert(c < raw.root_index());
        assert(views[c] == node_view(raw.nodes@[c]));
        let cp = raw.nodes@[c].properties@;
        assert(cell_count_of(cp, keys::key_size_cells(), 1) == cell_count_view(
            cp.map_values(|v: crate::parse::U32ByteSlice| v@), keys::key_size_cells(), 1));
    }
}

/// Whether every child of `/cpus` in `raw` decoded into `cpus` or `caches`.
#[verifier::opaque]
pub open spec fn cpus_decoded_from(raw: RawTree, cpus: SortedMap<u32, cpu::Node>, caches: SortedMap<u32, HigherLevel>) -> bool {
    let top = raw.nodes@[raw.root_index()];
    let cpus_key = name_key(keys::word_cpus(), None);
    let cn = raw.nodes@[top.children@[cpus_key] as int];
    &&& top.children@.contains_key(cpus_key)
    &&& forall|j: int| 0 <= j < cn.children.entries().len() ==> cpu::child_decoded(
        #[trigger] cn.children.entries()[j],
        raw.nodes@,
        cn.properties@,
        cpus,
        caches,
    )
    &&& forall|j1: int, j2: int| 0 <= j1 < cn.children.entries().len() && 0 <= j2 < cn.children.entries().len() && j1 != j2
        && !cpu::is_cpu_name((#[trigger] cn.children.entries()[j1]).0) && !cpu::is_cpu_name((#[trigger] cn.children.entries()[j2]).0)
        ==> cpu::cache_phandle(raw.nodes@[cn.children.entries()[j1].1 as int].properties@) != cpu::cache_phandle(
            raw.nodes@[cn.children.entries()[j2].1 as int].properties@)
    &&& forall|q: Seq<u8>| #[trigger] cpus@.contains_key(q) ==> exists|j: int|
        0 <= j < cn.children.entries().len() && cpu::is_cpu_name((#[trigger] cn.children.entries()[j]).0)
        && cpu::cpu_reg_key(raw.nodes@[cn.children.entries()[j].1 as int].properties@, cn.properties@) == q
}

/// Whether a node with properties `props` is a memory node: its
/// `device_type` is `memory`.
pub open spec fn is_memory_node(props: vstd::map::Map<Seq<u8>, crate::parse::U32ByteSlice>) -> bool {
    props.contains_key(keys::key_device_type()) && c_str_of(props[keys::key_device_type()]@) == Some(keys::word_memory())
}

/// Whether `node` is a memory node.
fn memory_typed(node: &RawNode) -> (r: bool)
    requires
        node.wf(),
    ensures
        r == is_memory_node(node.properties@),
{
    match node.properties.get(&PropertyKeys::device_type()) {
        Some(bytes) => match bytes.to_c_str() {
            Some(s) => compare_bytes(s.as_slice(), keys::memory_word().as_slice()) == 0,
            None => false,
        },
        None => false,
    }
}

/// The root of the tree.
#[derive(Debug)]
pub struct Node {
    model: Model,
    compatible: Vec<Model>,
    serial_number: Option<Vec<u8>>,
    chassis: Option<ChassisType>,
    higher_caches: SortedMap<u32, HigherLevel>,
    reserved_memory: Option<SortedMap<NameRef, reserved_memory::Node>>,
    memory: Vec<MemoryRegion>,
    cpus: SortedMap<u32, cpu::Node>,
    aliases: SortedMap<NameRef, usize>,
    phandles: SortedMap<u32, usize>,
    properties: PropertyMap,
    children: ChildMap,
    chosen: Option<Chosen>,
    devices: Vec<Option<device::Node>>,
}

/// Errors from decoding the root node.
#[derive(Debug)]
pub enum NodeError {
    /// `model` is absent or not a terminated string.
    Model,
    /// `compatible` is absent or malformed.
    Compatible,
    /// `serial-number` is not a terminated string.
    SerialNumber,
    /// `/cpus` is absent, or its cell counts are wrong.
    CpuRoot,
    /// A CPU or cache under `/cpus` is invalid.
    Cpu(cpu::RootError),
    /// The root's cell counts are malformed, or its size cells are zero.
    Cells(CellError),
    /// `/reserved-memory` is invalid.
    ReservedMemory(reserved_memory::RootError),
    /// A memory node is invalid.
    Memory(memory_region::Error),
    /// A device node is invalid.
    Child(device::Error),
    /// `chassis-type` is invalid.
    Chassis(ChassisError),
    /// `/chosen` is invalid.
    Chosen(ChosenError),
}

/// The name of the node `name`, which has no unit address.
fn plain_name(name: Vec<u8>) -> (r: NameRef)
    requires
        crate::node_name::valid_name_bytes(name@),
    ensures
        r.spec_node_name() == name@,
        r.spec_unit_address().is_none(),
{
    let s = NameSlice::try_from_bytes(name.as_slice()).unwrap();
    NameRef::from_parts(s, None)
}

/// The names of the nodes that the root decodes specially.
pub struct NodeNames;

impl NodeNames {
    /// `cpus`, the node that holds the CPUs.
    pub fn cpus() -> (r: NameRef)
        ensures
            r.spec_node_name() == keys::word_cpus(),
            r.spec_unit_address().is_none(),
    {
        let w = keys::cpus_word();
        assert(crate::node_name::valid_name_bytes(w@)) by {
            assert forall|i: int| 0 <= i < w@.len() implies crate::node_name::valid_name_byte(#[trigger] w@[i]) by {
                assert(w@ == seq![99u8, 112, 117, 115]);
            }
        }
        plain_name(w)
    }

    /// `cpu`, the beginning of the names of CPU nodes.
    pub fn cpu_prefix() -> (r: Vec<u8>)
        ensures
            r@ == keys::word_cpu(),
    {
        keys::cpu_word()
    }

    /// `memory`, the name of memory nodes.
    pub fn memory() -> (r: Vec<u8>)
        ensures
            r@ == keys::word_memory(),
    {
        keys::memory_word()
    }

    /// `reserved-memory`, the node that holds the reserved regions.
    pub fn reserved_memory() -> (r: NameRef)
        ensures
            r.spec_node_name() == keys::word_reserved_memory(),
            r.spec_unit_address().is_none(),
    {
        let w = keys::reserved_memory_word();
        assert(crate::node_name::valid_name_bytes(w@)) by {
            assert forall|i: int| 0 <= i < w@.len() implies crate::node_name::valid_name_byte(#[trigger] w@[i]) by {
                assert(w@ == seq![114u8, 101, 115, 101, 114, 118, 101, 100, 45, 109, 101, 109, 111, 114, 121]);
            }
        }
        plain_name(w)
    }

    /// `aliases`, the node that names other nodes.
    pub fn aliases() -> (r: NameRef)
        ensures
            r.spec_node_name() == keys::word_aliases(),
            r.spec_unit_address().is_none(),
    {
        let w = keys::aliases_word();
        assert(crate::node_name::valid_name_bytes(w@)) by {
            assert forall|i: int| 0 <= i < w@.len() implies crate::node_name::valid_name_byte(#[trigger] w@[i]) by {
                assert(w@ == seq![97u8, 108, 105, 97, 115, 101, 115]);
            }
        }
        plain_name(w)
    }

    /// `chosen`, the node of boot-time parameters.
    pub fn chosen() -> (r: NameRef)
        ensures
            r.spec_node_name() == keys::word_chosen(),
            r.spec_unit_address().is_none(),
    {
        let w = keys::chosen_word();
        assert(crate::node_name::valid_name_bytes(w@)) by {
            assert forall|i: int| 0 <= i < w@.len() implies crate::node_name::valid_name_byte(#[trigger] w@[i]) by {
                assert(w@ == seq![99u8, 104, 111, 115, 101, 110]);
            }
        }
        plain_name(w)
    }
}

impl Node {
    pub closed spec fn spec_devices(&self) -> Seq<Option<device::Node>> {
        self.devices@
    }

    pub closed spec fn spec_children(&self) -> ChildMap {
        self.children
    }

    pub closed spec fn spec_reserved(&self) -> Option<SortedMap<NameRef, reserved_memory::Node>> {
        self.reserved_memory
    }

    pub closed spec fn spec_model(&self) -> Model {
        self.model
    }

    pub closed spec fn spec_compatible(&self) -> Seq<Model> {
        self.compatible@
    }

    pub closed spec fn spec_serial_number(&self) -> Option<Seq<u8>> {
        match self.serial_number {
            Some(v) => Some(v@),
            None => None,
        }
    }

    pub closed spec fn spec_chassis(&self) -> Option<ChassisType> {
        self.chassis
    }

    pub closed spec fn spec_higher_caches(&self) -> SortedMap<u32, HigherLevel> {
        self.higher_caches
    }

    pub closed spec fn spec_properties(&self) -> PropertyMap {
        self.properties
    }

    pub closed spec fn spec_phandles(&self) -> SortedMap<u32, usize> {
        self.phandles
    }

    pub closed spec fn spec_aliases(&self) -> SortedMap<NameRef, usize> {
        self.aliases
    }

    pub closed spec fn spec_chosen(&self) -> Option<Chosen> {
        self.chosen
    }

    pub closed spec fn spec_memory(&self) -> Seq<MemoryRegion> {
        self.memory@
    }

    pub closed spec fn spec_cpus(&self) -> SortedMap<u32, cpu::Node> {
        self.cpus
    }

    /// The device that the path `path` names, if any: its place in the arena.
    pub open spec fn resolve(&self, path: Seq<u8>) -> Option<int> {
        let segs = path_segments(path);
        if segs.len() == 0 || segment_key(segs[0]) is None {
            None
        } else if segs[0] == keys::word_reserved_memory() {
            match self.spec_reserved() {
                None => None,
                Some(m) => if segs.len() < 3 || segment_key(segs[1]) is None || !m@.contains_key(
                    segment_key(segs[1])->Some_0,
                ) || segment_key(segs[2]) is None || !m@[segment_key(segs[1])->Some_0].spec_children()@.contains_key(
                    segment_key(segs[2])->Some_0,
                ) {
                    None
                } else {
                    descend(
                        self.spec_devices(),
                        m@[segment_key(segs[1])->Some_0].spec_children()@[segment_key(segs[2])->Some_0] as int,
                        segs.subrange(3, segs.len() as int),
                    )
                },
            }
        } else if self.spec_children()@.contains_key(segment_key(segs[0])->Some_0) {
            descend(
                self.spec_devices(),
                self.spec_children()@[segment_key(segs[0])->Some_0] as int,
                segs.drop_first(),
            )
        } else {
            None
        }
    }

    pub open spec fn wf(&self) -> bool {
        &&& self.spec_children().wf()
        &&& self.spec_cpus().wf()
        &&& cpu::cpus_keyed_by_reg(self.spec_cpus())
        &&& forall|i: int| 0 <= i < self.spec_devices().len() && #[trigger] self.spec_devices()[i] is Some
            ==> self.spec_devices()[i]->Some_0.wf()
        &&& self.spec_reserved() matches Some(m) ==> m.wf() && forall|k: Seq<u8>| #[trigger] m@.contains_key(k) ==> m@[k].spec_children().wf()
    }

    /// Follows `segs[from..]` from device `idx`.
    fn descend_from(&self, idx: usize, segs: &Vec<Vec<u8>>, from: usize) -> (r: Option<usize>)
        requires
            self.wf(),
            from <= segs@.len(),
        ensures
            r.is_some() == descend(self.spec_devices(), idx as int, segs@.subrange(from as int, segs@.len() as int).map_values(|v: Vec<u8>| v@)).is_some(),
            r matches Some(i) ==> descend(self.spec_devices(), idx as int, segs@.subrange(from as int, segs@.len() as int).map_values(|v: Vec<u8>| v@)) == Some(i as int),
    {
        let ghost all = segs@.map_values(|v: Vec<u8>| v@);
        assert(segs@.subrange(from as int, segs@.len() as int).map_values(|v: Vec<u8>| v@) =~= all.subrange(from as int, all.len() as int));
        let mut cur = idx;
        let mut j = from;
        while j < segs.len()
            invariant
                self.wf(),
                from <= j <= segs@.len(),
                all == segs@.map_values(|v: Vec<u8>| v@),
                segs@.subrange(from as int, segs@.len() as int).map_values(|v: Vec<u8>| v@) == all.subrange(from as int, all.len() as int),
                descend(self.spec_devices(), idx as int, all.subrange(from as int, all.len() as int))
                    == descend(self.spec_devices(), cur as int, all.subrange(j as int, all.len() as int)),
            decreases segs@.len() - j,
        {
            let ghost rest = all.subrange(j as int, all.len() as int);
            assert(rest.drop_first() =~= all.subrange(j + 1, all.len() as int));
            assert(rest[0] == segs@[j as int]@);
            assert(rest.len() > 0);
            let name = match NameRef::try_from(segs[j].as_slice()) {
                Ok(n) => n,
                Err(_) => {
                    assert(segment_key(rest[0]) is None);
                    assert(descend(self.spec_devices(), cur as int, rest) is None);
                    return None;
                },
            };
            assert(segment_key(rest[0]) == Some(name.key_view()));
            if cur >= self.devices.len() {
                assert(descend(self.spec_devices(), cur as int, rest) is None);
                return None;
            }
            let next = match &self.devices[cur] {
                Some(d) => match d.children().get(&name) {
                    Some(c) => *c,
                    None => return None,
                },
                None => return None,
            };
            cur = next;
            j = j + 1;
        }
        assert(all.subrange(j as int, all.len() as int).len() == 0);
        Some(cur)
    }

    /// The device that the `/`-separated path `path` names, if any.
    pub fn find_str(&self, path: &[u8]) -> (r: Option<usize>)
        requires
            self.wf(),
        ensures
            r.is_some() == self.resolve(path@).is_some(),
            r matches Some(i) ==> self.resolve(path@) == Some(i as int),
    {
        let segs = split_path(path);
        let ghost all = segs@.map_values(|v: Vec<u8>| v@);
        assert(all =~= path_segments(path@));
        if segs.len() == 0 {
            return None;
        }
        let first = match NameRef::try_from(segs[0].as_slice()) {
            Ok(n) => n,
            Err(_) => return None,
        };
        if compare_bytes(segs[0].as_slice(), keys::reserved_memory_word().as_slice()) == 0 {
            let reserved = match &self.reserved_memory {
                Some(m) => m,
                None => return None,
            };
            if segs.len() < 3 {
                return None;
            }
            let second = match NameRef::try_from(segs[1].as_slice()) {
                Ok(n) => n,
                Err(_) => return None,
            };
            let region = match reserved.get(&second) {
                Some(r) => r,
                None => return None,
            };
            let third = match NameRef::try_from(segs[2].as_slice()) {
                Ok(n) => n,
                Err(_) => return None,
            };
            let start = match region.children().get(&third) {
                Some(c) => *c,
                None => return None,
            };
            assert(segs@.subrange(3, segs@.len() as int).map_values(|v: Vec<u8>| v@) =~= all.subrange(3, all.len() as int));
            return self.descend_from(start, &segs, 3);
        }
        let start = match self.children.get(&first) {
            Some(c) => *c,
            None => return None,
        };
        assert(all.drop_first() =~= all.subrange(1, all.len() as int));
        assert(segs@.subrange(1, segs@.len() as int).map_values(|v: Vec<u8>| v@) =~= all.subrange(1, all.len() as int));
        self.descend_from(start, &segs, 1)
    }

    /// Resolves the untyped tree `raw` into the typed tree: `/cpus`,
    /// `/reserved-memory` and the memory nodes are decoded first, then every
    /// other node below the root as a generic device, parents before
    /// children; `/aliases` and `/chosen` last, against the finished tree.
    #[verifier::rlimit(50)]
    pub fn try_from(raw: RawTree, warnings: &mut Vec<Warning>) -> (r: Result<Node, NodeError>)
        requires
            raw.wf(),
        ensures
            old(warnings)@.is_prefix_of(final(warnings)@),
            r matches Ok(root) ==> root.wf() && devices_phandles_unique(root.spec_devices()),
            r matches Ok(root) ==> forall|i: int| 0 <= i < root.spec_devices().len() && #[trigger] root.spec_devices()[i] is Some
                && root.spec_devices()[i]->Some_0.spec_phandle() is Some ==> !root.spec_higher_caches()@.contains_key(
                root.spec_devices()[i]->Some_0.spec_phandle()->Some_0.key_view()),
            r matches Ok(root) ==> forall|k: Seq<u8>| #[trigger] root.spec_aliases()@.contains_key(k) ==> exists|p: Seq<u8>|
                root.resolve(p) == Some(root.spec_aliases()@[k] as int),
            r matches Ok(root) ==> (root.spec_chosen() matches Some(c) ==> (c.spec_stdout() matches Some(i) ==> exists|p: Seq<u8>|
                root.resolve(p) == Some(i as int))),
            !raw.nodes@[raw.root_index()].properties@.contains_key(keys::key_model()) ==> r is Err,
            !raw.nodes@[raw.root_index()].properties@.contains_key(keys::key_compatible()) ==> r is Err,
            !raw.nodes@[raw.root_index()].children@.contains_key(name_key(keys::word_cpus(), None)) ==> r is Err,
            cpu_root_error(raw) ==> r == Err::<Node, NodeError>(NodeError::CpuRoot),
            r matches Ok(root) ==> cpus_decoded_from(raw, root.spec_cpus(), root.spec_higher_caches()),
            r matches Ok(root) ==> ({
                let p = raw.nodes@[raw.root_index()].properties@;
                &&& c_str_of(p[keys::key_model()]@) matches Some(m) && crate::property::model_of(root.spec_model(), m)
                &&& crate::property::string_list(p[keys::key_compatible()]@) matches Some(l) && root.spec_compatible().len() == l.len()
                    && forall|i: int| 0 <= i < l.len() ==> crate::property::model_of(#[trigger] root.spec_compatible()[i], l[i])
                &&& root.spec_serial_number() == (if p.contains_key(keys::key_serial_number()) {
                    c_str_of(p[keys::key_serial_number()]@)
                } else {
                    None
                })
            }),
            ({
                let top = raw.nodes@[raw.root_index()];
                let cpus_key = name_key(keys::word_cpus(), None);
                top.children@.contains_key(cpus_key) && cell_count_of(
                    raw.nodes@[top.children@[cpus_key] as int].properties@,
                    keys::key_size_cells(),
                    1,
                ) != Ok::<u8, CellError>(0)
            }) ==> r is Err,
    {
        let mut nodes = raw.nodes;
        let n = nodes.len();
        let root_place = n - 1;
        let ghost nodes0 = nodes@;
        let mut top = take_node(&mut nodes, root_place);
        let mut ctx: CellContext = Vec::new();
        let mut devices: Vec<Option<device::Node>> = Vec::new();
        let mut i: usize = 0;
        while i < n
            invariant
                i <= n,
                ctx@.len() == i,
                devices@.len() == i,
                forall|j: int| 0 <= j < i ==> (#[trigger] devices@[j]) is None,
            decreases n - i,
        {
            ctx.push(None);
            devices.push(None);
            i = i + 1;
        }
        let ghost w0 = warnings@;
        proof {
            keys::lemma_root_keys_distinct();
        }
        let model = match top.properties.remove(&PropertyKeys::model()) {
            Some(bytes) => match bytes.to_c_str() {
                Some(s) => Model::from_c_str(s.as_slice()),
                None => return Err(NodeError::Model),
            },
            None => return Err(NodeError::Model),
        };
        let compatible = match top.properties.remove(&PropertyKeys::compatible()) {
            Some(bytes) => match Model::list_from(&bytes) {
                Some(v) => v,
                None => return Err(NodeError::Compatible),
            },
            None => return Err(NodeError::Compatible),
        };
        let serial_number = match top.properties.remove(&PropertyKeys::serial_number()) {
            Some(bytes) => match bytes.to_c_str() {
                Some(s) => Some(s),
                None => return Err(NodeError::SerialNumber),
            },
            None => None,
        };
        let (a, s) = top.extract_cell_counts();
        let address_cells = match a {
            Ok(a) => a,
            Err(e) => return Err(NodeError::Cells(e)),
        };
        let size_cells = match s {
            Ok(s) => s,
            Err(e) => return Err(NodeError::Cells(e)),
        };
        if size_cells == 0 {
            return Err(NodeError::Cells(CellError::Invalid));
        }
        let mut phandles: SortedMap<u32, usize> = SortedMap::new();
        let cpus_name = NodeNames::cpus();
        let cpus_place = match top.children.remove(&cpus_name) {
            Some(p) => p,
            None => return Err(NodeError::CpuRoot),
        };
        let ghost nb = nodes@;
        let cpus_raw = take_node(&mut nodes, cpus_place);
        assert(cpus_raw == nodes0[cpus_place as int]);
        let ghost nc = nodes@;
        proof {
            assert forall|j: int| 0 <= j < cpus_raw.children.entries().len() implies nc[(#[trigger] cpus_raw.children.entries()[j]).1 as int]
                == nodes0[cpus_raw.children.entries()[j].1 as int] by {
                cpus_raw.children.lemma_entries_in_view();
                assert(cpus_raw.children@.contains_key(cpus_raw.children.entries()[j].0.key_view()));
            }
        }
        let (cpus, higher_caches) = match cpu::Node::parse_parent(cpus_raw, &mut nodes, &mut phandles, &mut ctx) {
            Ok(x) => x,
            Err(cpu::RootError::Reg) => return Err(NodeError::CpuRoot),
            Err(e) => return Err(NodeError::Cpu(e)),
        };
        assert(cpus_decoded_from(raw, cpus, higher_caches)) by {
            reveal(cpus_decoded_from);
            let cn = raw.nodes@[raw.nodes@[raw.root_index()].children@[name_key(keys::word_cpus(), None)] as int];
            assert(cn == cpus_raw);
            assert forall|j: int| 0 <= j < cn.children.entries().len() implies cpu::child_decoded(
                #[trigger] cn.children.entries()[j], raw.nodes@, cn.properties@, cpus, higher_caches) by {
                assert(nc[cn.children.entries()[j].1 as int] == nodes0[cn.children.entries()[j].1 as int]);
            }
            assert forall|j1: int, j2: int| 0 <= j1 < cn.children.entries().len() && 0 <= j2 < cn.children.entries().len() && j1 != j2
                && !cpu::is_cpu_name((#[trigger] cn.children.entries()[j1]).0) && !cpu::is_cpu_name((#[trigger] cn.children.entries()[j2]).0)
                implies cpu::cache_phandle(raw.nodes@[cn.children.entries()[j1].1 as int].properties@) != cpu::cache_phandle(
                    raw.nodes@[cn.children.entries()[j2].1 as int].properties@) by {
                assert(nc[cn.children.entries()[j1].1 as int] == nodes0[cn.children.entries()[j1].1 as int]);
                assert(nc[cn.children.entries()[j2].1 as int] == nodes0[cn.children.entries()[j2].1 as int]);
            }
            assert forall|q: Seq<u8>| #[trigger] cpus@.contains_key(q) implies exists|j: int|
                0 <= j < cn.children.entries().len() && cpu::is_cpu_name((#[trigger] cn.children.entries()[j]).0)
                && cpu::cpu_reg_key(raw.nodes@[cn.children.entries()[j].1 as int].properties@, cn.properties@) == q by {
                let j = choose|j: int| 0 <= j < cn.children.entries().len() && cpu::is_cpu_name((#[trigger] cn.children.entries()[j]).0)
                    && cpu::cpu_reg_key(nc[cn.children.entries()[j].1 as int].properties@, cn.properties@) == q;
                assert(nc[cn.children.entries()[j].1 as int] == nodes0[cn.children.entries()[j].1 as int]);
            }
        }
        let reserved_memory = match top.children.remove(&NodeNames::reserved_memory()) {
            Some(p) => {
                let rm = take_node(&mut nodes, p);
                match reserved_memory::Node::parse_parent(rm, address_cells, size_cells, &mut nodes, &mut ctx, warnings) {
                    Ok(m) => Some(m),
                    Err(e) => return Err(NodeError::ReservedMemory(e)),
                }
            },
            None => None,
        };
        let arena = &nodes;
        let is_memory = |name: &NameRef, place: &usize| -> (b: bool)
            requires
                arena_ok(arena@),
            ensures
                b == (*place < arena@.len() && is_memory_node(arena@[*place as int].properties@)),
            {
                *place < arena.len() && memory_typed(&arena[*place])
            };
        assert(forall|k: &NameRef, v: &usize| is_memory.requires((k, v)));
        let ghost before = top.children.entries();
        let ghost ch0 = top.children;
        assert(children_below(ch0, root_place as int));
        let memory_entries = top.children.extract_if(is_memory);
        proof {
            let mask = choose|mask: Seq<bool>| #![trigger select(before, mask, true)]
                mask.len() == before.len() && (forall|i: int| 0 <= i < mask.len() ==> is_memory.ensures((&before[i].0, &before[i].1), #[trigger] mask[i]))
                && memory_entries@ == select(before, mask, true) && top.children.entries() == select(before, mask, false);
            lemma_select_subset(before, mask, true);
            ch0.lemma_entries_in_view();
            assert forall|j: int| 0 <= j < before.len() implies (#[trigger] before[j]).1 < nodes@.len() by {
                assert(ch0@.contains_key(ch0.entries()[j].0.key_view()));
            }
            assert forall|j: int| 0 <= j < memory_entries@.len() implies (#[trigger] memory_entries@[j]).1 < nodes@.len() by {
                assert(before.contains(memory_entries@[j]));
            }
            lemma_select_subset(before, mask, false);
            top.children.lemma_entries_in_view();
            assert forall|q: Seq<u8>| #[trigger] top.children@.contains_key(q) implies top.children@[q] < root_place by {
                let j = choose|j: int| 0 <= j < top.children.entries().len() && #[trigger] top.children.entries()[j].0.key_view() == q;
                assert(before.contains(top.children.entries()[j]));
                let a = choose|a: int| 0 <= a < before.len() && before[a] == top.children.entries()[j];
                assert(ch0@.contains_key(ch0.entries()[a].0.key_view()));
            }
        }
        let mut memory: Vec<MemoryRegion> = Vec::new();
        let mut k: usize = 0;
        while k < memory_entries.len()
            invariant
                arena_ok(nodes@),
                nodes@.len() == n,
                ctx@.len() == n,
                forall|j: int| 0 <= j < memory_entries@.len() ==> (#[trigger] memory_entries@[j]).1 < nodes@.len(),
                !cpu_root_error(raw),
                cpus_decoded_from(raw, cpus, higher_caches),
                old(warnings)@.is_prefix_of(warnings@),
                k <= memory_entries@.len(),
            decreases memory_entries@.len() - k,
        {
            let place = memory_entries[k].1;
            let m = take_node(&mut nodes, place);
            let ghost w1 = warnings@;
            let region = match MemoryRegion::new(m, &memory_entries[k].0, address_cells, size_cells, warnings) {
                Ok(r) => r,
                Err(e) => {
                    proof {
                        assert(warnings@.subrange(0, old(warnings)@.len() as int) =~= old(warnings)@);
                    }
                    return Err(NodeError::Memory(e));
                },
            };
            proof {
                assert(warnings@.subrange(0, old(warnings)@.len() as int) =~= old(warnings)@);
            }
            memory.push(region);
            k = k + 1;
        }
        let chassis = match top.properties.remove(&PropertyKeys::chassis()) {
            Some(bytes) => match ChassisType::try_from(&bytes) {
                Ok(c) => Some(c),
                Err(e) => return Err(NodeError::Chassis(e)),
            },
            None => None,
        };
        let aliases_place = top.children.remove(&NodeNames::aliases());
        let chosen_place = top.children.remove(&NodeNames::chosen());
        assert(children_below(top.children, root_place as int));
        mark_children(&mut ctx, &top.children, (address_cells, size_cells));
        match resolve_devices(&mut nodes, &mut ctx, &mut phandles, &mut devices, root_place, &higher_caches, warnings) {
            Ok(()) => {},
            Err(e) => return Err(NodeError::Child(e)),
        }
        let mut root = Node {
            model,
            compatible,
            serial_number,
            chassis,
            higher_caches,
            reserved_memory,
            memory,
            cpus,
            aliases: SortedMap::new(),
            phandles,
            properties: top.properties,
            children: top.children,
            chosen: None,
            devices,
        };
        match aliases_place {
            Some(p) => {
                let al = take_node(&mut nodes, p);
                let aliases = parse_aliases(al, &root, warnings);
                let ghost before = root;
                root.aliases = aliases;
                proof {
                    assert forall|k: Seq<u8>| #[trigger] root.spec_aliases()@.contains_key(k) implies exists|p: Seq<u8>|
                        root.resolve(p) == Some(root.spec_aliases()@[k] as int) by {
                        let j = choose|j: int| 0 <= j < al.properties.entries().len() && segment_key(al.properties.entries()[j].0@) == Some(k)
                            && (c_str_of(al.properties.entries()[j].1@) matches Some(p) && before.resolve(p) == Some(aliases@[k] as int));
                        let p = c_str_of(al.properties.entries()[j].1@)->Some_0;
                        assert(root.resolve(p) == before.resolve(p));
                    }
                }
            },
            None => {},
        }
        match chosen_place {
            Some(p) => {
                let ch = take_node(&mut nodes, p);
                match Chosen::from_node(ch, &root, warnings) {
                    Ok(c) => {
                        let ghost before = root;
                        proof {
                            if c.spec_stdout() is Some {
                                let p = c_str_of(ch.properties@[keys::key_stdout_path()]@)->Some_0;
                                assert(before.resolve(p) == Some(c.spec_stdout()->Some_0 as int));
                            }
                        }
                        root.chosen = Some(c);
                        proof {
                            assert forall|k: Seq<u8>| #[trigger] root.spec_aliases()@.contains_key(k) implies exists|p: Seq<u8>|
                                root.resolve(p) == Some(root.spec_aliases()@[k] as int) by {
                                let p = choose|p: Seq<u8>| before.resolve(p) == Some(before.spec_aliases()@[k] as int);
                                assert(root.resolve(p) == before.resolve(p));
                            }
                            if c.spec_stdout() is Some {
                                let p = c_str_of(ch.properties@[keys::key_stdout_path()]@)->Some_0;
                                assert(root.resolve(p) == before.resolve(p));
                            }
                        }
                    },
                    Err(e) => return Err(NodeError::Chosen(e)),
                }
            },
            None => {},
        }
        Ok(root)
    }

    /// The CPUs by id.
    pub fn cpus(&self) -> (r: &SortedMap<u32, cpu::Node>)
        ensures
            *r == self.spec_cpus(),
    {
        &self.cpus
    }

    /// The system's model.
    pub fn model(&self) -> (r: &Model)
        ensures
            *r == self.spec_model(),
    {
        &self.model
    }

    /// The platforms the system is compatible with, most specific first.
    pub fn compatible(&self) -> (r: &Vec<Model>)
        ensures
            r@ == self.spec_compatible(),
    {
        &self.compatible
    }

    /// The serial number, if given.
    pub fn serial_number(&self) -> (r: Option<&Vec<u8>>)
        ensures
            r.is_some() == self.spec_serial_number().is_some(),
            r matches Some(v) ==> self.spec_serial_number() == Some(v@),
    {
        self.serial_number.as_ref()
    }

    /// The form factor, if given.
    pub fn chassis(&self) -> (r: Option<ChassisType>)
        ensures
            r == self.spec_chassis(),
    {
        self.chassis
    }

    /// The caches beyond L1, by phandle.
    pub fn higher_caches(&self) -> (r: &SortedMap<u32, HigherLevel>)
        ensures
            *r == self.spec_higher_caches(),
    {
        &self.higher_caches
    }

    /// The reserved regions by name, if `/reserved-memory` is given.
    pub fn reserved_memory(&self) -> (r: Option<&SortedMap<NameRef, reserved_memory::Node>>)
        ensures
            r.is_some() == self.spec_reserved().is_some(),
            r matches Some(m) ==> self.spec_reserved() == Some(*m),
    {
        self.reserved_memory.as_ref()
    }

    /// The memory nodes.
    pub fn memory(&self) -> (r: &Vec<MemoryRegion>)
        ensures
            r@ == self.spec_memory(),
    {
        &self.memory
    }

    /// The places of the devices and caches, by phandle.
    pub fn phandles(&self) -> (r: &SortedMap<u32, usize>)
        ensures
            *r == self.spec_phandles(),
    {
        &self.phandles
    }

    /// The places of the aliased devices, by alias.
    pub fn aliases(&self) -> (r: &SortedMap<NameRef, usize>)
        ensures
            *r == self.spec_aliases(),
    {
        &self.aliases
    }

    /// The chosen node, if given.
    pub fn chosen(&self) -> (r: Option<&Chosen>)
        ensures
            r.is_some() == self.spec_chosen().is_some(),
            r matches Some(c) ==> self.spec_chosen() == Some(*c),
    {
        self.chosen.as_ref()
    }

    /// The root's properties that were not decoded.
    pub fn properties(&self) -> (r: &PropertyMap)
        ensures
            *r == self.spec_properties(),
    {
        &self.properties
    }

    /// The root's device children, as places in the arena.
    pub fn children(&self) -> (r: &ChildMap)
        ensures
            *r == self.spec_children(),
    {
        &self.children
    }

    /// The device at place `i` of the arena, if there is one.
    pub fn device(&self, i: usize) -> (r: Option<&device::Node>)
        ensures
            i < self.spec_devices().len() && self.spec_devices()[i as int] is Some ==> r == Some(&self.spec_devices()[i as int]->Some_0),
            !(i < self.spec_devices().len() && self.spec_devices()[i as int] is Some) ==> r is None,
    {
        if i < self.devices.len() {
            self.devices[i].as_ref()
        } else {
            None
        }
    }
}

} // verus!
