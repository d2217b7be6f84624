//! Decoding a whole blob into a [`DeviceTree`].

use vstd::prelude::*;
use crate::header::{check_header, header_of, word, Header, HeaderError, FDT_HEADER_MAGIC, HEADER_SIZE, VERSION_PARSED};
use crate::map::{lemma_u32_key_injective, MapKey, SortedMap};
use crate::node::{cpu, device, root};
use crate::node_name::NameRef;
use crate::parse::{U32ByteSlice, Warning};
use crate::raw::{build_spec, error_is, node_view, BuildError, NodeView, RawNode, RawTree};
use crate::token::TokenError;

verus! {

/// Errors from decoding a blob.
#[derive(Debug)]
pub enum DeviceTreeError {
    /// The blob, or the structure block, is not word-aligned.
    Alignment,
    /// The blob does not begin with the magic word.
    Magic,
    /// The tree is invalid.
    Node(root::NodeError),
    /// An offset and a size overflow.
    Size,
    /// A token could not be decoded.
    Token(TokenError),
    /// The blob ends before the header or before its total size, or the
    /// structure block has no `End` token.
    EoF,
    /// Two properties of one node have the same name.
    Parsing,
    /// A boot CPU id that no CPU node has.
    BootCpu(u32),
    /// More `EndNode` tokens than `BeginNode` tokens, or a second `End`.
    TooManyEnds,
    /// A property outside every node.
    InvalidProp,
    /// Two children of one node have the same name.
    MismatchedNodes,
    /// Not exactly one node at the top of the structure block: their names.
    BadRoots(Vec<NameRef>),
    /// The top node has a name.
    BadRootName(NameRef),
    /// The `End` token came inside a node: the depth it came at.
    BadDepth(usize),
    /// Tokens follow the `End` token.
    TrailingData,
    /// The layout is newer than this decoder reads: `(version, last_comp_version)`.
    NewerVersion(u32, u32),
    /// The strings block `(offset, size)` reaches past the blob.
    StringsIndex(u32, u32),
    /// The structure block `(offset, size)` reaches past the blob.
    StructIndex(u32, u32),
}

/// The error of the whole decode that a header error gives.
pub open spec fn header_error(e: HeaderError) -> DeviceTreeError {
    match e {
        HeaderError::EoF => DeviceTreeError::EoF,
        HeaderError::Magic => DeviceTreeError::Magic,
        HeaderError::NewerVersion(v, l) => DeviceTreeError::NewerVersion(v, l),
        HeaderError::Alignment => DeviceTreeError::Alignment,
        HeaderError::Size => DeviceTreeError::Size,
        HeaderError::StructIndex(o, s) => DeviceTreeError::StructIndex(o, s),
        HeaderError::StringsIndex(o, s) => DeviceTreeError::StringsIndex(o, s),
    }
}

impl DeviceTreeError {
    /// The error of the whole decode that a header error gives.
    pub fn from_header(e: HeaderError) -> (r: DeviceTreeError)
        ensures
            r == header_error(e),
    {
        match e {
            HeaderError::EoF => DeviceTreeError::EoF,
            HeaderError::Magic => DeviceTreeError::Magic,
            HeaderError::NewerVersion(v, l) => DeviceTreeError::NewerVersion(v, l),
            HeaderError::Alignment => DeviceTreeError::Alignment,
            HeaderError::Size => DeviceTreeError::Size,
            HeaderError::StructIndex(o, s) => DeviceTreeError::StructIndex(o, s),
            HeaderError::StringsIndex(o, s) => DeviceTreeError::StringsIndex(o, s),
        }
    }
}

/// Whether the structure block `s` (with strings block `strings`) builds
/// an untyped tree whose `/cpus` children decoded into `cpus` and `caches`.
#[verifier::opaque]
pub open spec fn cpus_from_blob(
    s: Seq<u8>,
    strings: Seq<u8>,
    cpus: SortedMap<u32, cpu::Node>,
    caches: SortedMap<u32, crate::node::cache::HigherLevel>,
) -> bool {
    exists|raw: RawTree|
        #![trigger root::cpus_decoded_from(raw, cpus, caches)]
        raw.wf() && build_spec(s, strings) == Ok::<Seq<NodeView>, BuildError>(raw.nodes@.map_values(|n: RawNode| node_view(n)))
            && root::cpus_decoded_from(raw, cpus, caches)
}

/// Resolves the untyped tree `raw` and checks that a CPU has the id `boot`.
fn decode_root(raw: RawTree, boot: u32, warnings: &mut Vec<Warning>) -> (r: Result<root::Node, DeviceTreeError>)
    requires
        raw.wf(),
    ensures
        old(warnings)@.is_prefix_of(final(warnings)@),
        r matches Ok(t) ==> t.wf() && t.spec_cpus()@.contains_key(boot.key_view())
            && root::cpus_decoded_from(raw, t.spec_cpus(), t.spec_higher_caches()),
        root::cpu_root_error_view(raw.nodes@.map_values(|n: RawNode| node_view(n)))
            ==> r matches Err(DeviceTreeError::Node(root::NodeError::CpuRoot)),
        r is Ok || r matches Err(DeviceTreeError::Node(_)) || r == Err::<root::Node, DeviceTreeError>(DeviceTreeError::BootCpu(boot)),
{
    proof {
        root::lemma_cpu_root_error_view(raw);
    }
    let ghost raw_g = raw;
    let root = match root::Node::try_from(raw, warnings) {
        Ok(r) => r,
        Err(e) => return Err(DeviceTreeError::Node(e)),
    };
    if root.cpus().get(&boot).is_none() {
        return Err(DeviceTreeError::BootCpu(boot));
    }
    Ok(root)
}

/// A decoded device tree.
#[derive(Debug)]
pub struct DeviceTree {
    root: root::Node,
    version: u32,
    last_compatible_version: u32,
    boot_cpuid: u32,
}

impl DeviceTree {
    #[verifier::type_invariant]
    closed spec fn inv(&self) -> bool {
        &&& self.root.wf()
        &&& self.root.spec_cpus()@.contains_key(self.boot_cpuid.key_view())
    }

    pub closed spec fn spec_root(&self) -> root::Node {
        self.root
    }

    pub closed spec fn spec_version(&self) -> u32 {
        self.version
    }

    pub closed spec fn spec_last_compatible_version(&self) -> u32 {
        self.last_compatible_version
    }

    pub closed spec fn spec_boot_cpuid(&self) -> u32 {
        self.boot_cpuid
    }

    /// Decodes the blob `dtb`, reporting non-fatal findings to `warnings`.
    #[verifier::rlimit(100)]
    pub fn from_bytes(dtb: &[u8], warnings: &mut Vec<Warning>) -> (r: Result<DeviceTree, DeviceTreeError>)
        ensures
            old(warnings)@.is_prefix_of(final(warnings)@),
            check_header(dtb@) matches Err(e) ==> r == Err::<DeviceTree, DeviceTreeError>(header_error(e)),
            dtb@.len() >= 8 && word(dtb@, 0) != FDT_HEADER_MAGIC ==> r == Err::<DeviceTree, DeviceTreeError>(DeviceTreeError::Magic),
            ({
                let h = header_of(dtb@);
                &&& dtb@.len() >= 8
                &&& word(dtb@, 0) == FDT_HEADER_MAGIC
                &&& HEADER_SIZE <= h.total_size <= dtb@.len()
                &&& h.last_comp_version <= VERSION_PARSED
                &&& (h.off_dt_struct % 4 != 0 || h.size_dt_struct % 4 != 0)
            }) ==> r == Err::<DeviceTree, DeviceTreeError>(DeviceTreeError::Alignment),
            check_header(dtb@) matches Ok(h) ==> (build_spec(
                dtb@.subrange(h.off_dt_struct as int, h.off_dt_struct + h.size_dt_struct),
                dtb@.subrange(h.off_dt_strings as int, h.off_dt_strings + h.size_dt_strings),
            ) matches Err(b) ==> (r matches Err(e) && error_is(e, b))),
            check_header(dtb@) matches Ok(h) ==> (build_spec(
                dtb@.subrange(h.off_dt_struct as int, h.off_dt_struct + h.size_dt_struct),
                dtb@.subrange(h.off_dt_strings as int, h.off_dt_strings + h.size_dt_strings),
            ) is Ok ==> (r is Ok || r matches Err(DeviceTreeError::Node(_)) || r == Err::<DeviceTree, DeviceTreeError>(
                DeviceTreeError::BootCpu(h.boot_cpuid_phys)))),
            check_header(dtb@) matches Ok(h) ==> (build_spec(
                dtb@.subrange(h.off_dt_struct as int, h.off_dt_struct + h.size_dt_struct),
                dtb@.subrange(h.off_dt_strings as int, h.off_dt_strings + h.size_dt_strings),
            ) matches Ok(nodes) ==> (root::cpu_root_error_view(nodes) ==> r matches Err(DeviceTreeError::Node(root::NodeError::CpuRoot)))),
            r matches Ok(t) ==> check_header(dtb@) matches Ok(h) && cpus_from_blob(
                dtb@.subrange(h.off_dt_struct as int, h.off_dt_struct + h.size_dt_struct),
                dtb@.subrange(h.off_dt_strings as int, h.off_dt_strings + h.size_dt_strings),
                t.spec_root().spec_cpus(),
                t.spec_root().spec_higher_caches(),
            ),
            r matches Err(DeviceTreeError::BootCpu(b)) ==> check_header(dtb@) matches Ok(h) && b == h.boot_cpuid_phys,
            r matches Ok(t) ==> check_header(dtb@) matches Ok(h) && t.spec_version() == h.version
                && t.spec_last_compatible_version() == h.last_comp_version
                && t.spec_boot_cpuid() == h.boot_cpuid_phys,
    {
        let h = match Header::parse(dtb) {
            Ok(h) => h,
            Err(e) => return Err(DeviceTreeError::from_header(e)),
        };
        let struct_start = h.off_dt_struct as usize;
        let struct_end = struct_start + h.size_dt_struct as usize;
        let structure = match U32ByteSlice::new(&dtb[struct_start..struct_end], h.size_dt_struct as usize) {
            Some(s) => s,
            None => return Err(DeviceTreeError::Alignment),
        };
        let strings_start = h.off_dt_strings as usize;
        let strings_end = strings_start + h.size_dt_strings as usize;
        let strings = &dtb[strings_start..strings_end];
        assert(structure@ == dtb@.subrange(h.off_dt_struct as int, h.off_dt_struct + h.size_dt_struct));
        assert(strings@ == dtb@.subrange(h.off_dt_strings as int, h.off_dt_strings + h.size_dt_strings));
        let raw = match RawTree::build(structure, strings) {
            Ok(t) => t,
            Err(e) => {
                assert(old(warnings)@.is_prefix_of(warnings@)) by {
                    assert(warnings@.subrange(0, warnings@.len() as int) =~= warnings@);
                }
                return Err(e);
            },
        };
        let ghost raw_g = raw;
        let root = match decode_root(raw, h.boot_cpuid_phys, warnings) {
            Ok(r) => r,
            Err(e) => return Err(e),
        };
        assert(cpus_from_blob(structure@, strings@, root.spec_cpus(), root.spec_higher_caches())) by {
            reveal(cpus_from_blob);
            assert(raw_g.wf());
        }
        Ok(DeviceTree {
            root,
            version: h.version,
            last_compatible_version: h.last_comp_version,
            boot_cpuid: h.boot_cpuid_phys,
        })
    }

    /// The root node.
    pub fn root(&self) -> (r: &root::Node)
        ensures
            *r == self.spec_root(),
            r.wf(),
    {
        proof {
            use_type_invariant(self);
        }
        &self.root
    }

    /// The CPUs by id.
    pub fn cpus(&self) -> (r: &SortedMap<u32, cpu::Node>)
        ensures
            *r == self.spec_root().spec_cpus(),
            r@.contains_key(self.spec_boot_cpuid().key_view()),
    {
        proof {
            use_type_invariant(self);
        }
        self.root.cpus()
    }

    /// The CPU that boots the system: the one whose id the header gives.
    pub fn boot_cpu(&self) -> (r: &cpu::Node)
        ensures
            r.spec_reg() == self.spec_boot_cpuid(),
            self.spec_root().spec_cpus()@.contains_key(self.spec_boot_cpuid().key_view()),
            *r == self.spec_root().spec_cpus()@[self.spec_boot_cpuid().key_view()],
    {
        proof {
            use_type_invariant(self);
        }
        let c = self.root.cpus().get(&self.boot_cpuid).unwrap();
        proof {
            let k = self.boot_cpuid.key_view();
            assert(self.root.spec_cpus()@[k].spec_reg().key_view() == k);
            lemma_u32_key_injective(c.spec_reg(), self.boot_cpuid);
        }
        c
    }

    /// The layout version of the blob.
    pub fn version(&self) -> (r: u32)
        ensures
            r == self.spec_version(),
    {
        self.version
    }

    /// The oldest layout version that the blob is compatible with.
    pub fn last_compatible_version(&self) -> (r: u32)
        ensures
            r == self.spec_last_compatible_version(),
    {
        self.last_compatible_version
    }

    /// The device that the `/`-separated path `path` names, if any.
    pub fn get_node(&self, path: &[u8]) -> (r: Option<&device::Node>)
        ensures
            r.is_some() == (self.spec_root().resolve(path@) matches Some(i) && 0 <= i < self.spec_root().spec_devices().len()
                && self.spec_root().spec_devices()[i] is Some),
            r matches Some(d) ==> *d == self.spec_root().spec_devices()[self.spec_root().resolve(path@)->Some_0]->Some_0,
    {
        proof {
            use_type_invariant(self);
        }
        match self.root.find_str(path) {
            Some(i) => self.root.device(i),
            None => None,
        }
    }
}

} // verus!
