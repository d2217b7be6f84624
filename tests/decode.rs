use device_tree::dtb::{DeviceTree, DeviceTreeError};
use device_tree::node::chosen::Error as ChosenError;
use device_tree::node::cpu::{NodeError as CpuNodeError, RootError as CpuRootError, Status as CpuStatus};
use device_tree::node::device::Error as DeviceError;
use device_tree::node::memory_region::Error as MemoryError;
use device_tree::node::cache::HigherLevelError;
use device_tree::node::root::NodeError;
use device_tree::node_name::NameRef;
use device_tree::parse::Warning;
use device_tree::raw::RawTree;
use device_tree::parse::U32ByteSlice;
use device_tree::memory_reservation::MemoryReservations;

/// Builds blobs token by token.
struct Blob {
    structure: Vec<u8>,
    strings: Vec<u8>,
}

impl Blob {
    fn new() -> Blob {
        Blob { structure: Vec::new(), strings: Vec::new() }
    }

    fn word(&mut self, v: u32) {
        self.structure.extend_from_slice(&v.to_be_bytes());
    }

    fn pad(&mut self) {
        while self.structure.len() % 4 != 0 {
            self.structure.push(0);
        }
    }

    fn begin(&mut self, name: &str) {
        self.word(1);
        self.structure.extend_from_slice(name.as_bytes());
        self.structure.push(0);
        self.pad();
    }

    fn end(&mut self) {
        self.word(2);
    }

    fn prop(&mut self, name: &str, value: &[u8]) {
        let off = self.strings.len() as u32;
        self.strings.extend_from_slice(name.as_bytes());
        self.strings.push(0);
        self.word(3);
        self.word(value.len() as u32);
        self.word(off);
        self.structure.extend_from_slice(value);
        self.pad();
    }

    fn prop_u32(&mut self, name: &str, v: u32) {
        self.prop(name, &v.to_be_bytes());
    }

    fn prop_str(&mut self, name: &str, s: &str) {
        let mut v = s.as_bytes().to_vec();
        v.push(0);
        self.prop(name, &v);
    }

    fn finish(&mut self, boot_cpuid: u32) -> Vec<u8> {
        self.word(9);
        let off_rsvmap = 40u32;
        let off_struct = off_rsvmap + 16;
        let off_strings = off_struct + self.structure.len() as u32;
        let total = off_strings + self.strings.len() as u32;
        let mut out = Vec::new();
        for v in [
            0xD00D_FEEDu32,
            total,
            off_struct,
            off_strings,
            off_rsvmap,
            17,
            16,
            boot_cpuid,
            self.strings.len() as u32,
            self.structure.len() as u32,
        ] {
            out.extend_from_slice(&v.to_be_bytes());
        }
        out.extend_from_slice(&[0u8; 16]);
        out.extend_from_slice(&self.structure);
        out.extend_from_slice(&self.strings);
        out
    }
}

/// The root's own properties.
fn root_props(b: &mut Blob) {
    b.prop_str("model", "acme,board");
    b.prop_str("compatible", "acme,board");
    b.prop_u32("#address-cells", 2);
    b.prop_u32("#size-cells", 1);
}

/// A `/cpus` node with one CPU, id 0.
fn cpus(b: &mut Blob, cpu_extra: &dyn Fn(&mut Blob)) {
    b.begin("cpus");
    b.prop_u32("#address-cells", 1);
    b.prop_u32("#size-cells", 0);
    b.begin("cpu@0");
    b.prop_str("device_type", "cpu");
    b.prop_u32("reg", 0);
    cpu_extra(b);
    b.end();
    b.end();
}

/// A `/soc` node with a UART at `uart@1000` whose phandle is 1.
fn soc(b: &mut Blob) {
    b.begin("soc");
    b.prop_u32("#address-cells", 1);
    b.prop_u32("#size-cells", 1);
    b.begin("uart@1000");
    b.prop("reg", &[0, 0, 0x10, 0, 0, 0, 0x1, 0]);
    b.prop_u32("phandle", 1);
    b.end();
    b.end();
}

fn full_blob(chosen_path: &str, alias_path: &str) -> Vec<u8> {
    let mut b = Blob::new();
    b.begin("");
    root_props(&mut b);
    cpus(&mut b, &|_b: &mut Blob| {});
    b.begin("memory@80000000");
    b.prop_str("device_type", "memory");
    b.prop("reg", &[0, 0, 0, 0, 0x80, 0, 0, 0, 0, 0, 0x10, 0]);
    b.end();
    soc(&mut b);
    b.begin("aliases");
    b.prop_str("serial0", alias_path);
    b.end();
    b.begin("chosen");
    b.prop_str("stdout-path", chosen_path);
    b.end();
    b.end();
    b.finish(0)
}

#[test]
fn full_tree_decodes() {
    let blob = full_blob("/soc/uart@1000", "/soc/uart@1000");
    let mut warnings = Vec::new();
    let tree = DeviceTree::from_bytes(&blob, &mut warnings).unwrap();
    assert_eq!(tree.version(), 17);
    assert_eq!(tree.last_compatible_version(), 16);
    assert_eq!(tree.boot_cpu().reg(), 0);
    assert_eq!(tree.boot_cpu().status(), CpuStatus::Okay);
    let root = tree.root();
    assert_eq!(root.cpus().len(), 1);
    assert_eq!(root.memory().len(), 1);
    assert_eq!(root.memory()[0].regions(), &vec![(0x8000_0000u64, 0x1000u64)]);
    let uart = tree.get_node(b"/soc/uart@1000").unwrap();
    assert_eq!(uart.reg(), Some(&vec![(0x1000u64, 0x100u64)]));
    assert_eq!(uart.phandle(), Some(1));
    let chosen = root.chosen().unwrap();
    let stdout = chosen.stdout().unwrap();
    assert_eq!(root.device(stdout).unwrap().phandle(), Some(1));
    assert_eq!(chosen.stdin(), chosen.stdout());
    assert_eq!(root.aliases().len(), 1);
    assert!(warnings.is_empty());
}

#[test]
fn path_lookup_ignores_empty_segments() {
    let blob = full_blob("/soc/uart@1000", "/soc/uart@1000");
    let mut warnings = Vec::new();
    let tree = DeviceTree::from_bytes(&blob, &mut warnings).unwrap();
    assert!(tree.get_node(b"//soc///uart@1000/").is_some());
    assert!(tree.get_node(b"/soc/uart@2000").is_none());
    assert!(tree.get_node(b"/").is_none());
}

#[test]
fn minimal_blob_builds_an_empty_root() {
    let mut b = Blob::new();
    b.begin("");
    b.end();
    let blob = b.finish(0);
    let structure = U32ByteSlice::new(&blob[56..72], 16).unwrap();
    let tree = RawTree::build(structure, &[]).unwrap();
    assert_eq!(tree.nodes.len(), 1);
    let mut root = tree.nodes.into_iter().next().unwrap();
    assert!(root.children.is_empty());
    assert!(root.properties.is_empty());
    let (a, s) = root.extract_cell_counts();
    assert_eq!(a, Ok(2));
    assert_eq!(s, Ok(1));
}

#[test]
fn minimal_blob_lacks_cpus() {
    let mut b = Blob::new();
    b.begin("");
    root_props(&mut b);
    b.end();
    let blob = b.finish(0);
    let mut warnings = Vec::new();
    let r = DeviceTree::from_bytes(&blob, &mut warnings);
    assert!(matches!(r, Err(DeviceTreeError::Node(NodeError::CpuRoot))));
}

#[test]
fn bad_magic_is_rejected() {
    for magic in [0u32, 0xD00D_FEEE, 0xEDFE_0DD0, 0xFFFF_FFFF] {
        let mut blob = full_blob("/soc/uart@1000", "/soc/uart@1000");
        blob[0..4].copy_from_slice(&magic.to_be_bytes());
        let mut warnings = Vec::new();
        let r = DeviceTree::from_bytes(&blob, &mut warnings);
        assert!(matches!(r, Err(DeviceTreeError::Magic)));
    }
}

#[test]
fn short_blob_is_eof() {
    let mut warnings = Vec::new();
    assert!(matches!(DeviceTree::from_bytes(&[0xD0, 0x0D], &mut warnings), Err(DeviceTreeError::EoF)));
}

#[test]
fn misaligned_structure_block_is_rejected() {
    let blob = full_blob("/soc/uart@1000", "/soc/uart@1000");
    let mut warnings = Vec::new();
    let mut off = blob.clone();
    off[8..12].copy_from_slice(&57u32.to_be_bytes());
    assert!(matches!(DeviceTree::from_bytes(&off, &mut warnings), Err(DeviceTreeError::Alignment)));
    let mut size = blob.clone();
    let s = u32::from_be_bytes([blob[36], blob[37], blob[38], blob[39]]);
    size[36..40].copy_from_slice(&(s - 2).to_be_bytes());
    assert!(matches!(DeviceTree::from_bytes(&size, &mut warnings), Err(DeviceTreeError::Alignment)));
}

#[test]
fn newer_version_is_rejected() {
    let mut blob = full_blob("/soc/uart@1000", "/soc/uart@1000");
    blob[24..28].copy_from_slice(&18u32.to_be_bytes());
    let mut warnings = Vec::new();
    assert!(matches!(DeviceTree::from_bytes(&blob, &mut warnings), Err(DeviceTreeError::NewerVersion(17, 18))));
}

#[test]
fn duplicate_phandle_is_rejected_in_either_order() {
    for first_has_lower in [true, false] {
        let mut b = Blob::new();
        b.begin("");
        root_props(&mut b);
        cpus(&mut b, &|_b: &mut Blob| {});
        b.begin("a");
        b.prop_u32("phandle", if first_has_lower { 5 } else { 7 });
        b.end();
        b.begin("b");
        b.prop_u32("phandle", if first_has_lower { 5 } else { 7 });
        b.end();
        b.end();
        let blob = b.finish(0);
        let mut warnings = Vec::new();
        let r = DeviceTree::from_bytes(&blob, &mut warnings);
        assert!(matches!(r, Err(DeviceTreeError::Node(NodeError::Child(DeviceError::DuplicatePHandle)))));
    }
}

#[test]
fn distinct_phandles_are_accepted() {
    let mut b = Blob::new();
    b.begin("");
    root_props(&mut b);
    cpus(&mut b, &|_b: &mut Blob| {});
    b.begin("a");
    b.prop_u32("phandle", 5);
    b.end();
    b.begin("b");
    b.prop_u32("phandle", 6);
    b.end();
    b.end();
    let blob = b.finish(0);
    let mut warnings = Vec::new();
    let tree = DeviceTree::from_bytes(&blob, &mut warnings).unwrap();
    assert_eq!(tree.root().phandles().len(), 2);
}

#[test]
fn cpus_with_nonzero_size_cells_is_rejected() {
    let mut b = Blob::new();
    b.begin("");
    root_props(&mut b);
    b.begin("cpus");
    b.prop_u32("#address-cells", 1);
    b.prop_u32("#size-cells", 1);
    b.begin("cpu@0");
    b.prop_str("device_type", "cpu");
    b.prop_u32("reg", 0);
    b.end();
    b.end();
    b.end();
    let blob = b.finish(0);
    let mut warnings = Vec::new();
    let r = DeviceTree::from_bytes(&blob, &mut warnings);
    assert!(matches!(r, Err(DeviceTreeError::Node(NodeError::CpuRoot))));
}

#[test]
fn disabled_cpu_without_enable_method_is_rejected() {
    let mut b = Blob::new();
    b.begin("");
    root_props(&mut b);
    cpus(&mut b, &|b: &mut Blob| b.prop_str("status", "disabled"));
    b.end();
    let blob = b.finish(0);
    let mut warnings = Vec::new();
    let r = DeviceTree::from_bytes(&blob, &mut warnings);
    assert!(matches!(
        r,
        Err(DeviceTreeError::Node(NodeError::Cpu(CpuRootError::Cpu(CpuNodeError::EnableMethod))))
    ));
}

#[test]
fn disabled_cpu_with_spin_table_is_accepted() {
    let mut b = Blob::new();
    b.begin("");
    root_props(&mut b);
    cpus(&mut b, &|b: &mut Blob| {
        b.prop_str("status", "disabled");
        b.prop_str("enable-method", "spin-table");
        b.prop("cpu-release-addr", &[0, 0, 0, 0, 0, 0, 0x80, 0]);
    });
    b.end();
    let blob = b.finish(0);
    let mut warnings = Vec::new();
    let tree = DeviceTree::from_bytes(&blob, &mut warnings).unwrap();
    assert_eq!(tree.boot_cpu().status(), CpuStatus::Disabled);
    assert!(tree.boot_cpu().enable_method().is_some());
}

#[test]
fn dangling_stdout_path_fails() {
    let blob = full_blob("/missing/node", "/soc/uart@1000");
    let mut warnings = Vec::new();
    let r = DeviceTree::from_bytes(&blob, &mut warnings);
    match r {
        Err(DeviceTreeError::Node(NodeError::Chosen(ChosenError::StdoutDanglingPath(p)))) => {
            assert_eq!(p, b"/missing/node".to_vec());
        }
        other => panic!("unexpected {:?}", other.is_ok()),
    }
}

#[test]
fn dangling_alias_is_dropped_with_a_warning() {
    let blob = full_blob("/soc/uart@1000", "/missing/node");
    let mut warnings = Vec::new();
    let tree = DeviceTree::from_bytes(&blob, &mut warnings).unwrap();
    assert!(tree.root().aliases().is_empty());
    assert_eq!(warnings, vec![Warning::DanglingAlias(b"serial0".to_vec())]);
}

#[test]
fn missing_boot_cpu_is_rejected() {
    let mut b = Blob::new();
    b.begin("");
    root_props(&mut b);
    cpus(&mut b, &|_b: &mut Blob| {});
    b.end();
    let blob = b.finish(3);
    let mut warnings = Vec::new();
    let r = DeviceTree::from_bytes(&blob, &mut warnings);
    assert!(matches!(r, Err(DeviceTreeError::BootCpu(3))));
}

#[test]
fn boot_cpu_follows_the_header() {
    let mut b = Blob::new();
    b.begin("");
    root_props(&mut b);
    b.begin("cpus");
    b.prop_u32("#address-cells", 1);
    b.prop_u32("#size-cells", 0);
    for id in [0u32, 1, 2] {
        b.begin(&format!("cpu@{}", id));
        b.prop_str("device_type", "cpu");
        b.prop_u32("reg", id);
        b.end();
    }
    b.end();
    b.end();
    let blob = b.finish(2);
    let mut warnings = Vec::new();
    let tree = DeviceTree::from_bytes(&blob, &mut warnings).unwrap();
    assert_eq!(tree.boot_cpu().reg(), 2);
    assert_eq!(tree.root().cpus().len(), 3);
}

#[test]
fn cpu_reg_must_match_unit_address() {
    let mut b = Blob::new();
    b.begin("");
    root_props(&mut b);
    b.begin("cpus");
    b.prop_u32("#address-cells", 1);
    b.prop_u32("#size-cells", 0);
    b.begin("cpu@1");
    b.prop_str("device_type", "cpu");
    b.prop_u32("reg", 0);
    b.end();
    b.end();
    b.end();
    let blob = b.finish(0);
    let mut warnings = Vec::new();
    let r = DeviceTree::from_bytes(&blob, &mut warnings);
    assert!(matches!(
        r,
        Err(DeviceTreeError::Node(NodeError::Cpu(CpuRootError::RegMismatch(Some(1), 0))))
    ));
}

#[test]
fn duplicate_property_is_rejected() {
    let mut b = Blob::new();
    b.begin("");
    b.prop_str("model", "a");
    b.prop_str("model", "b");
    b.end();
    let blob = b.finish(0);
    let mut warnings = Vec::new();
    assert!(matches!(DeviceTree::from_bytes(&blob, &mut warnings), Err(DeviceTreeError::Parsing)));
}

#[test]
fn structural_errors_are_named() {
    let mut warnings = Vec::new();
    let mut b = Blob::new();
    b.begin("");
    b.end();
    b.end();
    assert!(matches!(DeviceTree::from_bytes(&b.finish(0), &mut warnings), Err(DeviceTreeError::TooManyEnds)));

    let mut b = Blob::new();
    b.begin("");
    assert!(matches!(DeviceTree::from_bytes(&b.finish(0), &mut warnings), Err(DeviceTreeError::BadDepth(2))));

    let mut b = Blob::new();
    b.begin("a");
    b.end();
    assert!(matches!(DeviceTree::from_bytes(&b.finish(0), &mut warnings), Err(DeviceTreeError::BadRootName(_))));

    let mut b = Blob::new();
    b.begin("");
    b.end();
    b.begin("");
    b.end();
    match DeviceTree::from_bytes(&b.finish(0), &mut warnings) {
        Err(DeviceTreeError::BadRoots(names)) => assert_eq!(names.len(), 2),
        _ => panic!("expected BadRoots"),
    }

    let mut b = Blob::new();
    b.prop_str("model", "a");
    assert!(matches!(DeviceTree::from_bytes(&b.finish(0), &mut warnings), Err(DeviceTreeError::InvalidProp)));

    let mut b = Blob::new();
    b.begin("");
    b.end();
    b.word(9);
    assert!(matches!(DeviceTree::from_bytes(&b.finish(0), &mut warnings), Err(DeviceTreeError::TooManyEnds)));

    let mut b = Blob::new();
    b.begin("");
    b.end();
    b.word(7);
    assert!(matches!(
        DeviceTree::from_bytes(&b.finish(0), &mut warnings),
        Err(DeviceTreeError::Token(device_tree::token::TokenError::InvalidToken(7)))
    ));
}

#[test]
fn name_ref_reads_unit_addresses() {
    let n = NameRef::try_from(b"uart@1f00").unwrap();
    assert_eq!(n.node_name().as_bytes(), b"uart");
    assert_eq!(n.unit_address(), Some(0x1f00));
    let n = NameRef::try_from(b"pci@8,1").unwrap();
    assert_eq!(n.unit_address(), Some(8));
    let n = NameRef::try_from(b"").unwrap();
    assert_eq!(n.unit_address(), None);
}

#[test]
fn reservation_block_of_a_blob() {
    let blob = full_blob("/soc/uart@1000", "/soc/uart@1000");
    let m = MemoryReservations::read_block(&blob, 40).unwrap();
    assert!(m.0.is_empty());
    let mut b = Vec::new();
    for v in [0x3000u64, 0x10, 0x1000, 0x20, 0, 0, 0x5000, 0x5] {
        b.extend_from_slice(&v.to_be_bytes());
    }
    let m = MemoryReservations::read_block(&b, 0).unwrap();
    assert_eq!(m.0, vec![(0x1000, 0x20), (0x3000, 0x10)]);
    assert!(MemoryReservations::read_block(&b[..32], 0).is_err());
    assert!(MemoryReservations::read_block(&b, 100).is_err());
}

/// A tree with the given extra nodes under the root.
fn tree_with(extra: &dyn Fn(&mut Blob)) -> Vec<u8> {
    let mut b = Blob::new();
    b.begin("");
    root_props(&mut b);
    cpus(&mut b, &|_b: &mut Blob| {});
    extra(&mut b);
    b.end();
    b.finish(0)
}

#[test]
fn reserved_memory_regions() {
    let blob = tree_with(&|b: &mut Blob| {
        b.begin("reserved-memory");
        b.prop_u32("#address-cells", 2);
        b.prop_u32("#size-cells", 1);
        b.prop("ranges", &[]);
        b.begin("fb@90000000");
        b.prop("reg", &[0, 0, 0, 0, 0x90, 0, 0, 0, 0, 0x10, 0, 0]);
        b.prop("no-map", &[]);
        b.begin("panel");
        b.prop_u32("phandle", 9);
        b.end();
        b.end();
        b.begin("pool");
        b.prop_u32("size", 0x4000);
        b.prop_u32("alignment", 0x1000);
        b.prop_str("compatible", "shared-dma-pool");
        b.prop("reusable", &[]);
        b.end();
        b.end();
    });
    let mut warnings = Vec::new();
    let tree = DeviceTree::from_bytes(&blob, &mut warnings).unwrap();
    let reserved = tree.root().reserved_memory().unwrap();
    assert_eq!(reserved.len(), 2);
    let fb = reserved.get(&NameRef::try_from(b"fb@90000000").unwrap()).unwrap();
    assert_eq!(fb.usage(), device_tree::node::reserved_memory::Usage::NoMap);
    assert!(matches!(fb.memory(), device_tree::node::reserved_memory::Range::Static(r) if r == &vec![(0x9000_0000u64, 0x10_0000u64)]));
    let pool = reserved.get(&NameRef::try_from(b"pool").unwrap()).unwrap();
    assert_eq!(pool.usage(), device_tree::node::reserved_memory::Usage::Reusable);
    assert!(matches!(pool.memory(), device_tree::node::reserved_memory::Range::Dynamic(0x4000, Some(0x1000), None)));
    let panel = tree.get_node(b"/reserved-memory/fb@90000000/panel").unwrap();
    assert_eq!(panel.phandle(), Some(9));
}

#[test]
fn reserved_memory_errors() {
    let mut warnings = Vec::new();
    let mismatch = tree_with(&|b: &mut Blob| {
        b.begin("reserved-memory");
        b.prop_u32("#address-cells", 1);
        b.prop_u32("#size-cells", 1);
        b.prop("ranges", &[]);
        b.end();
    });
    assert!(matches!(
        DeviceTree::from_bytes(&mismatch, &mut warnings),
        Err(DeviceTreeError::Node(NodeError::ReservedMemory(device_tree::node::reserved_memory::RootError::CellsMismatch)))
    ));
    let both = tree_with(&|b: &mut Blob| {
        b.begin("reserved-memory");
        b.prop_u32("#address-cells", 2);
        b.prop_u32("#size-cells", 1);
        b.prop("ranges", &[]);
        b.begin("x");
        b.prop_u32("size", 16);
        b.prop("no-map", &[]);
        b.prop("reusable", &[]);
        b.end();
        b.end();
    });
    assert!(matches!(
        DeviceTree::from_bytes(&both, &mut warnings),
        Err(DeviceTreeError::Node(NodeError::ReservedMemory(device_tree::node::reserved_memory::RootError::Child(
            device_tree::node::reserved_memory::Error::Usage
        ))))
    ));
    let neither = tree_with(&|b: &mut Blob| {
        b.begin("reserved-memory");
        b.prop_u32("#address-cells", 2);
        b.prop_u32("#size-cells", 1);
        b.prop("ranges", &[]);
        b.begin("x");
        b.end();
        b.end();
    });
    assert!(matches!(
        DeviceTree::from_bytes(&neither, &mut warnings),
        Err(DeviceTreeError::Node(NodeError::ReservedMemory(device_tree::node::reserved_memory::RootError::Child(
            device_tree::node::reserved_memory::Error::InvalidMemory
        ))))
    ));
}

#[test]
fn memory_node_errors() {
    let mut warnings = Vec::new();
    let wrong_type = tree_with(&|b: &mut Blob| {
        b.begin("memory@0");
        b.prop_str("device_type", "ram");
        b.prop("reg", &[0, 0, 0, 0, 0, 0, 0, 0, 0, 0, 1, 0]);
        b.end();
    });
    let tree = DeviceTree::from_bytes(&wrong_type, &mut warnings).unwrap();
    assert!(tree.root().memory().is_empty());
    assert!(tree.get_node(b"/memory@0").is_some());
    let mut props = device_tree::map::SortedMap::new();
    props.insert(b"device_type".to_vec(), U32ByteSlice::from_bytes(b"ram\0"));
    let raw = device_tree::raw::RawNode { properties: props, children: device_tree::map::SortedMap::new() };
    let name = NameRef::try_from(b"memory@0").unwrap();
    let r = device_tree::node::memory_region::MemoryRegion::new(raw, &name, 2, 1, &mut warnings);
    assert!(matches!(r, Err(MemoryError::Type)));
    let mismatch = tree_with(&|b: &mut Blob| {
        b.begin("memory@1000");
        b.prop_str("device_type", "memory");
        b.prop("reg", &[0, 0, 0, 0, 0, 0, 0, 0, 0, 0, 1, 0]);
        b.end();
    });
    assert!(matches!(DeviceTree::from_bytes(&mismatch, &mut warnings), Err(DeviceTreeError::Node(NodeError::Memory(MemoryError::Reg)))));
    let children = tree_with(&|b: &mut Blob| {
        b.begin("memory");
        b.prop_str("device_type", "memory");
        b.begin("x");
        b.end();
        b.end();
    });
    assert!(matches!(DeviceTree::from_bytes(&children, &mut warnings), Err(DeviceTreeError::Node(NodeError::Memory(MemoryError::Children)))));
}

#[test]
fn caches_under_cpus() {
    let mut b = Blob::new();
    b.begin("");
    root_props(&mut b);
    b.begin("cpus");
    b.prop_u32("#address-cells", 1);
    b.prop_u32("#size-cells", 0);
    b.begin("cpu@0");
    b.prop_str("device_type", "cpu");
    b.prop_u32("reg", 0);
    b.prop_u32("next-level-cache", 0x20);
    b.end();
    b.begin("l2-cache");
    b.prop_str("compatible", "cache");
    b.prop_u32("phandle", 0x20);
    b.prop_u32("cache-level", 2);
    b.prop_u32("cache-size", 0x8_0000);
    b.end();
    b.end();
    b.end();
    let blob = b.finish(0);
    let mut warnings = Vec::new();
    let tree = DeviceTree::from_bytes(&blob, &mut warnings).unwrap();
    assert_eq!(tree.boot_cpu().next_cache(), Some(0x20));
    let l2 = tree.root().higher_caches().get(&0x20).unwrap();
    assert_eq!(l2.level(), 2);
    assert_eq!(l2.cache().size(), Some(0x8_0000));

    let mut b = Blob::new();
    b.begin("");
    root_props(&mut b);
    b.begin("cpus");
    b.prop_u32("#address-cells", 1);
    b.prop_u32("#size-cells", 0);
    b.begin("l2-cache");
    b.prop_str("compatible", "memory");
    b.end();
    b.end();
    b.end();
    let blob = b.finish(0);
    assert!(matches!(
        DeviceTree::from_bytes(&blob, &mut warnings),
        Err(DeviceTreeError::Node(NodeError::Cpu(CpuRootError::Cache(HigherLevelError::BadType))))
    ));
}

#[test]
fn dangling_next_level_cache_is_rejected() {
    let blob = tree_with(&|_b: &mut Blob| {});
    let mut warnings = Vec::new();
    assert!(DeviceTree::from_bytes(&blob, &mut warnings).is_ok());
    let mut b = Blob::new();
    b.begin("");
    root_props(&mut b);
    cpus(&mut b, &|b: &mut Blob| b.prop_u32("next-level-cache", 7));
    b.end();
    let blob = b.finish(0);
    assert!(matches!(
        DeviceTree::from_bytes(&blob, &mut warnings),
        Err(DeviceTreeError::Node(NodeError::Cpu(CpuRootError::Cpu(CpuNodeError::NextLevelCache))))
    ));
}

#[test]
fn chosen_details() {
    let blob = tree_with(&|b: &mut Blob| {
        soc(b);
        b.begin("chosen");
        b.prop_str("bootargs", "console=ttyS0");
        b.prop_str("stdout-path", "/soc/uart@1000");
        b.prop_str("stdin-path", "/soc");
        b.prop_u32("linux,initrd-start", 0);
        b.end();
    });
    let mut warnings = Vec::new();
    let tree = DeviceTree::from_bytes(&blob, &mut warnings).unwrap();
    let chosen = tree.root().chosen().unwrap();
    assert_eq!(chosen.boot_args(), Some(&b"console=ttyS0".to_vec()));
    assert_ne!(chosen.stdin(), chosen.stdout());
    assert_eq!(chosen.properties().len(), 1);
    assert_eq!(warnings, vec![Warning::UnusedChosenProperties]);

    let dangling_stdin = tree_with(&|b: &mut Blob| {
        b.begin("chosen");
        b.prop_str("stdin-path", "/nowhere");
        b.end();
    });
    assert!(matches!(
        DeviceTree::from_bytes(&dangling_stdin, &mut warnings),
        Err(DeviceTreeError::Node(NodeError::Chosen(ChosenError::StdinDanglingPath(_))))
    ));
}

#[test]
fn device_node_errors() {
    let mut warnings = Vec::new();
    let bad_status = tree_with(&|b: &mut Blob| {
        b.begin("x");
        b.prop_str("status", "broken");
        b.end();
    });
    assert!(matches!(DeviceTree::from_bytes(&bad_status, &mut warnings), Err(DeviceTreeError::Node(NodeError::Child(DeviceError::Status)))));
    let bad_reg = tree_with(&|b: &mut Blob| {
        b.begin("x");
        b.prop("reg", &[0, 0, 0, 1]);
        b.end();
    });
    assert!(matches!(DeviceTree::from_bytes(&bad_reg, &mut warnings), Err(DeviceTreeError::Node(NodeError::Child(DeviceError::Reg)))));
    let bad_cells = tree_with(&|b: &mut Blob| {
        b.begin("x");
        b.prop("#address-cells", &[0, 0, 1]);
        b.end();
    });
    assert!(matches!(DeviceTree::from_bytes(&bad_cells, &mut warnings), Err(DeviceTreeError::Node(NodeError::Child(DeviceError::Cells)))));
    let bad_phandle = tree_with(&|b: &mut Blob| {
        b.begin("x");
        b.prop("phandle", &[0, 1]);
        b.end();
    });
    assert!(matches!(DeviceTree::from_bytes(&bad_phandle, &mut warnings), Err(DeviceTreeError::Node(NodeError::Child(DeviceError::BadPHandle)))));
    let ranges = tree_with(&|b: &mut Blob| {
        b.begin("bus");
        b.prop_u32("#address-cells", 1);
        b.prop_u32("#size-cells", 1);
        b.prop("ranges", &[0, 0, 0, 0, 0, 0, 0, 0, 0x10, 0, 0, 0, 0, 0, 0x10, 0]);
        b.end();
    });
    let tree = DeviceTree::from_bytes(&ranges, &mut warnings).unwrap();
    let bus = tree.get_node(b"/bus").unwrap();
    let r = bus.ranges().unwrap();
    assert_eq!(r.len(), 1);
    assert_eq!(r[0].parent_address, 0x1000_0000);
    assert_eq!(r[0].length, 0x1000);
}
