//! Cache descriptions: the L1 cache of a CPU and higher-level cache nodes.

use vstd::prelude::*;
use crate::keys;
use crate::keys::PropertyKeys;
use crate::parse::{be_u32, c_str_of, U32ByteSlice};
use crate::property::PropertyMap;
use crate::raw::{cell_count_of, CellError, ChildMap, RawNode};

verus! {

/// The geometry of a cache; each field is absent unless given as a nonzero word.
#[derive(Debug, Clone, Copy, PartialEq, Eq)]
pub struct Description {
    size: Option<u32>,
    sets: Option<u32>,
    block_size: Option<u32>,
    line_size: Option<u32>,
}

/// The value of the cache field `key` in `props`: a nonzero word, else absent.
pub open spec fn cache_field(props: vstd::map::Map<Seq<u8>, U32ByteSlice>, key: Seq<u8>) -> Option<u32> {
    if props.contains_key(key) && props[key]@.len() == 4 && be_u32(props[key]@) != 0 {
        Some(be_u32(props[key]@) as u32)
    } else {
        None
    }
}

/// Whether `d` is the geometry that the four given keys of `props` give.
pub open spec fn description_of(
    d: Description,
    props: vstd::map::Map<Seq<u8>, U32ByteSlice>,
    size: Seq<u8>,
    sets: Seq<u8>,
    block_size: Seq<u8>,
    line_size: Seq<u8>,
) -> bool {
    &&& d.spec_size() == cache_field(props, size)
    &&& d.spec_sets() == cache_field(props, sets)
    &&& d.spec_block_size() == cache_field(props, block_size)
    &&& d.spec_line_size() == cache_field(props, line_size)
}

/// Removes `key` from `properties` and reads it as a nonzero word.
fn take_field(properties: &mut PropertyMap, key: Vec<u8>) -> (r: Option<u32>)
    requires
        old(properties).wf(),
    ensures
        final(properties).wf(),
        final(properties)@ == old(properties)@.remove(key@),
        r == cache_field(old(properties)@, key@),
{
    match properties.remove(&key) {
        Some(bytes) => match bytes.try_into_u32() {
            Ok(x) => if x != 0 {
                Some(x)
            } else {
                None
            },
            Err(_) => None,
        },
        None => None,
    }
}

impl Description {
    pub closed spec fn spec_size(&self) -> Option<u32> {
        self.size
    }

    pub closed spec fn spec_sets(&self) -> Option<u32> {
        self.sets
    }

    pub closed spec fn spec_block_size(&self) -> Option<u32> {
        self.block_size
    }

    pub closed spec fn spec_line_size(&self) -> Option<u32> {
        self.line_size
    }

    /// Removes the four cache fields named by the given keys from
    /// `properties` and reads them.
    pub fn from_prefix(
        properties: &mut PropertyMap,
        size_key: Vec<u8>,
        sets_key: Vec<u8>,
        block_size_key: Vec<u8>,
        line_size_key: Vec<u8>,
    ) -> (r: Description)
        requires
            old(properties).wf(),
            size_key@ != sets_key@ && size_key@ != block_size_key@ && size_key@ != line_size_key@,
            sets_key@ != block_size_key@ && sets_key@ != line_size_key@,
            block_size_key@ != line_size_key@,
        ensures
            final(properties).wf(),
            final(properties)@ == old(properties)@.remove(size_key@).remove(sets_key@).remove(
                block_size_key@,
            ).remove(line_size_key@),
            r.spec_size() == cache_field(old(properties)@, size_key@),
            r.spec_sets() == cache_field(old(properties)@, sets_key@),
            r.spec_block_size() == cache_field(old(properties)@, block_size_key@),
            r.spec_line_size() == cache_field(old(properties)@, line_size_key@),
    {
        let size = take_field(properties, size_key);
        let sets = take_field(properties, sets_key);
        let block_size = take_field(properties, block_size_key);
        let line_size = take_field(properties, line_size_key);
        Description { size, sets, block_size, line_size }
    }

    /// The size in bytes.
    pub fn size(&self) -> (r: Option<u32>)
        ensures
            r == self.spec_size(),
    {
        self.size
    }

    /// The number of associativity sets.
    pub fn sets(&self) -> (r: Option<u32>)
        ensures
            r == self.spec_sets(),
    {
        self.sets
    }

    /// The block size in bytes.
    pub fn block_size(&self) -> (r: Option<u32>)
        ensures
            r == self.spec_block_size(),
    {
        self.block_size
    }

    /// The line size in bytes.
    pub fn line_size(&self) -> (r: Option<u32>)
        ensures
            r == self.spec_line_size(),
    {
        self.line_size
    }
}

/// A cache beyond L1, described by a node whose `compatible` is `cache`.
#[derive(Debug)]
pub struct HigherLevel {
    cache: Description,
    level: u32,
    children: ChildMap,
    properties: PropertyMap,
}

/// Errors from decoding a higher-level cache node.
#[derive(Debug, Clone, Copy, PartialEq, Eq)]
pub enum HigherLevelError {
    /// `compatible` is absent or not `cache`.
    BadType,
    /// `phandle` is absent or not one word.
    PHandle,
    /// `cache-level` is absent or not one word.
    Level,
    /// `#address-cells` or `#size-cells` is malformed.
    Cells,
    /// Another node has the same phandle.
    DuplicatePHandle,
}

/// Whether a node with properties `p` decodes as a higher-level cache.
pub open spec fn cache_valid(p: vstd::map::Map<Seq<u8>, U32ByteSlice>) -> bool {
    &&& p.contains_key(keys::key_compatible()) && value_is_word(p[keys::key_compatible()]@, keys::word_cache())
    &&& p.contains_key(keys::key_phandle()) && p[keys::key_phandle()]@.len() == 4
    &&& p.contains_key(keys::key_cache_level()) && p[keys::key_cache_level()]@.len() == 4
    &&& cell_count_of(p, keys::key_address_cells(), 2) is Ok
    &&& cell_count_of(p, keys::key_size_cells(), 1) is Ok
}

/// Whether the property value `v` is the string `w`.
pub open spec fn value_is_word(v: Seq<u8>, w: Seq<u8>) -> bool {
    c_str_of(v) == Some(w)
}

impl HigherLevel {
    pub closed spec fn spec_cache(&self) -> Description {
        self.cache
    }

    pub closed spec fn spec_properties(&self) -> PropertyMap {
        self.properties
    }

    pub closed spec fn spec_level(&self) -> u32 {
        self.level
    }

    pub closed spec fn spec_children(&self) -> ChildMap {
        self.children
    }

    /// Decodes a higher-level cache node; returns its phandle, the cache and
    /// its own cell counts, which govern its children.
    pub fn new(value: RawNode) -> (r: Result<(u32, HigherLevel, u8, u8), HigherLevelError>)
        requires
            value.wf(),
        ensures
            !(value.properties@.contains_key(keys::key_compatible()) && value_is_word(
                value.properties@[keys::key_compatible()]@,
                keys::word_cache(),
            )) ==> r == Err::<(u32, HigherLevel, u8, u8), HigherLevelError>(HigherLevelError::BadType),
            r is Ok <==> cache_valid(value.properties@),
            ({
                let p = value.properties@;
                let compat_ok = p.contains_key(keys::key_compatible()) && value_is_word(p[keys::key_compatible()]@, keys::word_cache());
                let phandle_ok = p.contains_key(keys::key_phandle()) && p[keys::key_phandle()]@.len() == 4;
                &&& compat_ok && !phandle_ok ==> r == Err::<(u32, HigherLevel, u8, u8), HigherLevelError>(HigherLevelError::PHandle)
                &&& compat_ok && phandle_ok && !(p.contains_key(keys::key_cache_level()) && p[keys::key_cache_level()]@.len() == 4)
                    ==> r == Err::<(u32, HigherLevel, u8, u8), HigherLevelError>(HigherLevelError::Level)
                &&& r matches Ok((_, c, a, s)) ==> description_of(c.spec_cache(), p, keys::key_cache_size(), keys::key_cache_sets(),
                    keys::key_cache_block_size(), keys::key_cache_line_size())
                    && cell_count_of(p, keys::key_address_cells(), 2) == Ok::<u8, CellError>(a)
                    && cell_count_of(p, keys::key_size_cells(), 1) == Ok::<u8, CellError>(s)
                    && c.spec_properties()@ == p.remove(keys::key_compatible()).remove(keys::key_phandle()).remove(
                        keys::key_cache_level()).remove(keys::key_cache_size()).remove(keys::key_cache_sets()).remove(
                        keys::key_cache_block_size()).remove(keys::key_cache_line_size()).remove(keys::key_address_cells()).remove(
                        keys::key_size_cells())
            }),
            r matches Ok((p, c, _, _)) ==> value.properties@.contains_key(keys::key_phandle())
                && value.properties@[keys::key_phandle()]@.len() == 4
                && p == be_u32(value.properties@[keys::key_phandle()]@) && c.spec_children()
                == value.children && value.properties@.contains_key(keys::key_cache_level())
                && value.properties@[keys::key_cache_level()]@.len() == 4
                && c.spec_level() == be_u32(value.properties@[keys::key_cache_level()]@),
    {
        let mut value = value;
        let ghost props0 = value.properties@;
        proof {
            keys::lemma_cache_node_keys_distinct();
        }
        let compatible_ok = match value.properties.remove(&PropertyKeys::compatible()) {
            Some(bytes) => match bytes.to_c_str() {
                Some(s) => crate::map::compare_bytes(s.as_slice(), keys::cache_word().as_slice()) == 0,
                None => false,
            },
            None => false,
        };
        if !compatible_ok {
            return Err(HigherLevelError::BadType);
        }
        let phandle = match value.properties.remove(&PropertyKeys::phandle()) {
            Some(bytes) => match bytes.try_into_u32() {
                Ok(p) => p,
                Err(_) => return Err(HigherLevelError::PHandle),
            },
            None => return Err(HigherLevelError::PHandle),
        };
        let level = match value.properties.remove(&PropertyKeys::cache_level()) {
            Some(bytes) => match bytes.try_into_u32() {
                Ok(l) => l,
                Err(_) => return Err(HigherLevelError::Level),
            },
            None => return Err(HigherLevelError::Level),
        };
        let cache = Description::from_prefix(
            &mut value.properties,
            PropertyKeys::cache_size(),
            PropertyKeys::cache_sets(),
            PropertyKeys::cache_block_size(),
            PropertyKeys::cache_line_size(),
        );
        let (a, s) = value.extract_cell_counts();
        let (a, s) = match (a, s) {
            (Ok(a), Ok(s)) => (a, s),
            _ => return Err(HigherLevelError::Cells),
        };
        Ok((phandle, HigherLevel { cache, level, children: value.children, properties: value.properties }, a, s))
    }

    /// The cache's geometry.
    pub fn cache(&self) -> (r: &Description)
        ensures
            *r == self.spec_cache(),
    {
        &self.cache
    }

    /// The cache's level in the hierarchy.
    pub fn level(&self) -> (r: u32)
        ensures
            r == self.spec_level(),
    {
        self.level
    }

    /// The properties that were not decoded.
    pub fn properties(&self) -> (r: &PropertyMap)
        ensures
            *r == self.spec_properties(),
    {
        &self.properties
    }

    /// The children, as places in the node arena.
    pub fn children(&self) -> (r: &ChildMap)
        ensures
            *r == self.spec_children(),
    {
        &self.children
    }
}

/// Separate instruction and data caches.
#[derive(Debug, Clone, Copy, PartialEq, Eq)]
pub struct Harvard {
    icache: Description,
    dcache: Description,
}

impl Harvard {
    pub closed spec fn spec_icache(&self) -> Description {
        self.icache
    }

    pub closed spec fn spec_dcache(&self) -> Description {
        self.dcache
    }

    /// The data cache.
    pub fn dcache(&self) -> (r: &Description)
        ensures
            *r == self.spec_dcache(),
    {
        &self.dcache
    }

    /// The instruction cache.
    pub fn icache(&self) -> (r: &Description)
        ensures
            *r == self.spec_icache(),
    {
        &self.icache
    }
}

/// The L1 cache of a CPU.
#[derive(Debug, Clone, Copy, PartialEq, Eq)]
pub enum L1 {
    /// One cache for instructions and data.
    Unified(Description),
    /// Separate instruction and data caches.
    Harvard(Harvard),
}

impl L1 {
    /// Reads the L1 cache from a CPU's properties: unified when
    /// `cache-unified` is present, read from the unprefixed keys; else
    /// separate caches read from the `i-` and `d-` keys.
    pub fn extract_from(properties: &mut PropertyMap) -> (r: L1)
        requires
            old(properties).wf(),
        ensures
            final(properties).wf(),
            old(properties)@.contains_key(keys::key_cache_unified()) ==> (r matches L1::Unified(d)
                && description_of(d, old(properties)@, keys::key_cache_size(), keys::key_cache_sets(),
                    keys::key_cache_block_size(), keys::key_cache_line_size())),
            !old(properties)@.contains_key(keys::key_cache_unified()) ==> (r matches L1::Harvard(h)
                && description_of(h.spec_icache(), old(properties)@, keys::key_i_cache_size(), keys::key_i_cache_sets(),
                    keys::key_i_cache_block_size(), keys::key_i_cache_line_size())
                && description_of(h.spec_dcache(), old(properties)@, keys::key_d_cache_size(), keys::key_d_cache_sets(),
                    keys::key_d_cache_block_size(), keys::key_d_cache_line_size())),
    {
        proof {
            keys::lemma_l1_keys_distinct();
        }
        if properties.remove(&PropertyKeys::cache_unified()).is_some() {
            L1::Unified(
                Description::from_prefix(
                    properties,
                    PropertyKeys::cache_size(),
                    PropertyKeys::cache_sets(),
                    PropertyKeys::cache_block_size(),
                    PropertyKeys::cache_line_size(),
                ),
            )
        } else {
            let icache = Description::from_prefix(
                properties,
                PropertyKeys::i_cache_size(),
                PropertyKeys::i_cache_sets(),
                PropertyKeys::i_cache_block_size(),
                PropertyKeys::i_cache_line_size(),
            );
            let dcache = Description::from_prefix(
                properties,
                PropertyKeys::d_cache_size(),
                PropertyKeys::d_cache_sets(),
                PropertyKeys::d_cache_block_size(),
                PropertyKeys::d_cache_line_size(),
            );
            L1::Harvard(Harvard { icache, dcache })
        }
    }
}

} // verus!
