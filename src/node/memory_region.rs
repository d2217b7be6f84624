//! Memory nodes: the physical memory of the system.

use vstd::prelude::*;
use crate::keys;
use crate::keys::PropertyKeys;
use crate::map::compare_bytes;
use crate::node::device::{decode_reg, reg_spec};
use crate::node_name::NameRef;
use crate::parse::{be_u32, be_u64, c_str_of, U32ByteSlice, Warning};
use crate::property::PropertyMap;
use crate::raw::RawNode;

verus! {

/// An area that the boot program mapped: effective address to physical address.
#[derive(Debug, Clone, Copy, PartialEq, Eq)]
pub struct InitialMappedArea {
    pub effective_address: u64,
    pub physical_address: u64,
    pub size: u32,
}

impl InitialMappedArea {
    /// Reads two 64-bit addresses and a nonzero 32-bit size.
    pub fn try_from(value: U32ByteSlice) -> (r: Result<InitialMappedArea, ()>)
        ensures
            r is Ok <==> (value@.len() == 20 && be_u32(value@.subrange(16, 20)) != 0),
            r matches Ok(m) ==> m.effective_address == be_u64(value@) && m.physical_address == be_u64(
                value@.subrange(8, 20),
            ) && m.size == be_u32(value@.subrange(16, 20)),
    {
        let mut value = value;
        let ghost s = value@;
        let effective_address = match value.consume_u64() {
            Some(x) => x,
            None => return Err(()),
        };
        let physical_address = match value.consume_u64() {
            Some(x) => x,
            None => return Err(()),
        };
        assert(value@ =~= s.subrange(16, s.len() as int));
        let size = match value.try_into_u32() {
            Ok(x) => x,
            Err(_) => return Err(()),
        };
        if size == 0 {
            return Err(());
        }
        assert(s.subrange(8, s.len() as int).subrange(8, s.len() - 8) =~= s.subrange(16, 20));
        Ok(InitialMappedArea { effective_address, physical_address, size })
    }
}

/// A memory node: ranges of physical memory.
#[derive(Debug)]
pub struct MemoryRegion {
    regions: Vec<(u64, u64)>,
    hotpluggable: bool,
    initial_mapped_area: Option<InitialMappedArea>,
    properties: PropertyMap,
}

/// Errors from decoding a memory node.
#[derive(Debug, Clone, Copy, PartialEq, Eq)]
pub enum Error {
    /// `device_type` is absent or not `memory`.
    Type,
    /// `reg` is absent, empty or malformed, or its first start differs from the unit address.
    Reg,
    /// The node has children.
    Children,
}

impl MemoryRegion {
    pub closed spec fn spec_properties(&self) -> PropertyMap {
        self.properties
    }

    pub closed spec fn spec_initial_mapped_area(&self) -> Option<InitialMappedArea> {
        self.initial_mapped_area
    }

    pub closed spec fn spec_regions(&self) -> Seq<(u64, u64)> {
        self.regions@
    }

    pub closed spec fn spec_hotpluggable(&self) -> bool {
        self.hotpluggable
    }

    /// Decodes the memory node `node` named `name`, whose `reg` is read with
    /// the root's cell counts.
    pub fn new(node: RawNode, name: &NameRef, address_cells: u8, size_cells: u8, warnings: &mut Vec<Warning>) -> (r: Result<MemoryRegion, Error>)
        requires
            node.wf(),
        ensures
            old(warnings)@.is_prefix_of(final(warnings)@),
            node.children@ != vstd::map::Map::<Seq<u8>, usize>::empty() ==> r == Err::<MemoryRegion, Error>(Error::Children),
            node.children@ == vstd::map::Map::<Seq<u8>, usize>::empty() && !(node.properties@.contains_key(keys::key_device_type())
                && c_str_of(node.properties@[keys::key_device_type()]@) == Some(keys::word_memory()))
                ==> r == Err::<MemoryRegion, Error>(Error::Type),
            node.children@ == vstd::map::Map::<Seq<u8>, usize>::empty() && node.properties@.contains_key(keys::key_device_type())
                && c_str_of(node.properties@[keys::key_device_type()]@) == Some(keys::word_memory())
                && !(node.properties@.contains_key(keys::key_reg()) && (reg_spec(node.properties@[keys::key_reg()]@, address_cells, size_cells)
                matches Some(v) && v.len() > 0 && (name.spec_unit_address() matches Some(u) ==> v[0].0 == u)))
                ==> r == Err::<MemoryRegion, Error>(Error::Reg),
            r matches Ok(m) ==> m.spec_initial_mapped_area() is None && m.spec_properties()@ == node.properties@.remove(
                keys::key_device_type()).remove(keys::key_hotpluggable()).remove(keys::key_reg()),
            r is Ok <==> ({
                let p = node.properties@;
                &&& node.children@ == vstd::map::Map::<Seq<u8>, usize>::empty()
                &&& p.contains_key(keys::key_device_type())
                &&& c_str_of(p[keys::key_device_type()]@) == Some(keys::word_memory())
                &&& p.contains_key(keys::key_reg())
                &&& reg_spec(p[keys::key_reg()]@, address_cells, size_cells) matches Some(v)
                &&& v.len() > 0
                &&& name.spec_unit_address() matches Some(u) ==> v[0].0 == u
            }),
            r matches Ok(m) ==> node.properties@.contains_key(keys::key_reg())
                && reg_spec(node.properties@[keys::key_reg()]@, address_cells, size_cells) == Some(m.spec_regions())
                && m.spec_regions().len() > 0
                && (name.spec_unit_address() matches Some(u) ==> m.spec_regions()[0].0 == u)
                && m.spec_hotpluggable() == node.properties@.contains_key(keys::key_hotpluggable())
                && node.properties@.contains_key(keys::key_device_type())
                && c_str_of(node.properties@[keys::key_device_type()]@) == Some(keys::word_memory()),
    {
        let mut node = node;
        if !node.children.is_empty() {
            return Err(Error::Children);
        }
        proof {
            keys::lemma_memory_keys_distinct();
        }
        let type_ok = match node.properties.remove(&PropertyKeys::device_type()) {
            Some(bytes) => match bytes.to_c_str() {
                Some(s) => compare_bytes(s.as_slice(), keys::memory_word().as_slice()) == 0,
                None => false,
            },
            None => false,
        };
        if !type_ok {
            return Err(Error::Type);
        }
        let hotpluggable = node.properties.remove(&PropertyKeys::hotpluggable()).is_some();
        let bytes = match node.properties.remove(&PropertyKeys::reg()) {
            Some(b) => b,
            None => return Err(Error::Reg),
        };
        let regions = match decode_reg(bytes, address_cells, size_cells, warnings) {
            Some(v) => v,
            None => return Err(Error::Reg),
        };
        if regions.len() == 0 {
            return Err(Error::Reg);
        }
        match name.unit_address() {
            Some(u) => if regions[0].0 != u {
                return Err(Error::Reg);
            },
            None => {},
        }
        Ok(MemoryRegion { regions, hotpluggable, initial_mapped_area: None, properties: node.properties })
    }

    /// The (start, size) ranges.
    pub fn regions(&self) -> (r: &Vec<(u64, u64)>)
        ensures
            r@ == self.spec_regions(),
    {
        &self.regions
    }

    /// Whether the memory may be removed later.
    pub fn hotpluggable(&self) -> (r: bool)
        ensures
            r == self.spec_hotpluggable(),
    {
        self.hotpluggable
    }

    /// The initially mapped area, if given.
    pub fn initial_mapped_area(&self) -> (r: Option<InitialMappedArea>)
        ensures
            r == self.spec_initial_mapped_area(),
    {
        self.initial_mapped_area
    }

    /// The properties that were not decoded.
    pub fn properties(&self) -> (r: &PropertyMap)
        ensures
            *r == self.spec_properties(),
    {
        &self.properties
    }
}

} // verus!
