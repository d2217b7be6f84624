//! Generic device nodes.

use vstd::prelude::*;
use crate::keys;
use crate::keys::PropertyKeys;
use crate::parse::{be_u32, c_str_of, cells_slice_spec, U32ByteSlice, Warning};
use crate::property::{model_of, status_of, status_valid, string_list, Model, PropertyMap, Range, Status};
use crate::raw::{cell_count_of, CellError, ChildMap, RawNode};

verus! {

/// A generic device node.
#[derive(Debug)]
pub struct Node {
    compatible: Option<Vec<Model>>,
    model: Option<Model>,
    reg: Option<Vec<(u64, u64)>>,
    ranges: Option<Vec<Range>>,
    status: Status,
    phandle: Option<u32>,
    pub(crate) properties: PropertyMap,
    children: ChildMap,
}

/// Errors from decoding a device node.
#[derive(Debug, Clone, Copy, PartialEq, Eq)]
pub enum Error {
    /// `reg` is not a list of (address, size) pairs in the parent's cell counts.
    Reg,
    /// `compatible` is not a list of terminated strings.
    Compatible,
    /// `model` is not a terminated string.
    Model,
    /// `ranges` is not a list of (child address, parent address, length) triples.
    Ranges,
    /// `status` is not a valid status.
    Status,
    /// `#address-cells` or `#size-cells` is malformed.
    Cells,
    /// `phandle` is not one word.
    BadPHandle,
    /// Another node has the same phandle.
    DuplicatePHandle,
}

/// The pairs of a list of two-field tuples.
pub open spec fn as_pairs(groups: Seq<Seq<u64>>) -> Seq<(u64, u64)> {
    Seq::new(groups.len(), |i: int| (groups[i][0], groups[i][1]))
}

/// The ranges of a list of three-field tuples.
pub open spec fn as_ranges(groups: Seq<Seq<u64>>) -> Seq<Range> {
    Seq::new(
        groups.len(),
        |i: int| Range { child_address: groups[i][0], parent_address: groups[i][1], length: groups[i][2] },
    )
}

/// The list of (address, size) pairs that `value` holds with the given cell
/// counts, if it is one.
pub open spec fn reg_spec(value: Seq<u8>, address_cells: u8, size_cells: u8) -> Option<Seq<(u64, u64)>> {
    match cells_slice_spec(value, seq![address_cells, size_cells]) {
        Some(g) => Some(as_pairs(g)),
        None => None,
    }
}

/// Converts decoded two-field tuples to pairs.
pub fn to_pairs(groups: Vec<Vec<u64>>) -> (r: Vec<(u64, u64)>)
    requires
        forall|i: int| 0 <= i < groups@.len() ==> (#[trigger] groups@[i])@.len() == 2,
    ensures
        r@ == as_pairs(groups@.map_values(|g: Vec<u64>| g@)),
{
    let mut out: Vec<(u64, u64)> = Vec::new();
    let mut i: usize = 0;
    while i < groups.len()
        invariant
            i <= groups@.len(),
            forall|j: int| 0 <= j < groups@.len() ==> (#[trigger] groups@[j])@.len() == 2,
            out@ =~= as_pairs(groups@.map_values(|g: Vec<u64>| g@)).subrange(0, i as int),
        decreases groups@.len() - i,
    {
        let g = &groups[i];
        out.push((g[0], g[1]));
        i = i + 1;
    }
    out
}

/// Converts decoded three-field tuples to ranges.
pub fn to_ranges(groups: Vec<Vec<u64>>) -> (r: Vec<Range>)
    requires
        forall|i: int| 0 <= i < groups@.len() ==> (#[trigger] groups@[i])@.len() == 3,
    ensures
        r@ == as_ranges(groups@.map_values(|g: Vec<u64>| g@)),
{
    let mut out: Vec<Range> = Vec::new();
    let mut i: usize = 0;
    while i < groups.len()
        invariant
            i <= groups@.len(),
            forall|j: int| 0 <= j < groups@.len() ==> (#[trigger] groups@[j])@.len() == 3,
            out@ =~= as_ranges(groups@.map_values(|g: Vec<u64>| g@)).subrange(0, i as int),
        decreases groups@.len() - i,
    {
        let g = &groups[i];
        out.push(Range::from_triple(g[0], g[1], g[2]));
        i = i + 1;
    }
    out
}

/// Decodes `value` as a list of (address, size) pairs.
pub fn decode_reg(value: U32ByteSlice, address_cells: u8, size_cells: u8, warnings: &mut Vec<Warning>) -> (r: Option<Vec<(u64, u64)>>)
    ensures
        old(warnings)@.is_prefix_of(final(warnings)@),
        r.is_some() == reg_spec(value@, address_cells, size_cells).is_some(),
        r matches Some(v) ==> v@ == reg_spec(value@, address_cells, size_cells).unwrap(),
{
    let counts: Vec<u8> = vec![address_cells, size_cells];
    let ghost s = value@;
    match value.into_cells_slice(counts.as_slice(), warnings) {
        Some(groups) => {
            proof {
                assert(counts@ =~= seq![address_cells, size_cells]);
                let spec_groups = cells_slice_spec(s, counts@).unwrap();
                assert forall|i: int| 0 <= i < groups@.len() implies (#[trigger] groups@[i])@.len() == 2 by {
                    assert(groups@[i]@ == spec_groups[i]);
                }
                assert(groups@.map_values(|g: Vec<u64>| g@) =~= spec_groups);
            }
            Some(to_pairs(groups))
        },
        None => {
            assert(counts@ =~= seq![address_cells, size_cells]);
            None
        },
    }
}

/// The phandle that the property value `v` gives, if it is one word.
pub open spec fn phandle_spec(v: Seq<u8>) -> Option<u32> {
    if v.len() == 4 {
        Some(be_u32(v) as u32)
    } else {
        None
    }
}

/// The phandle that `props` give: none when absent, an error when malformed.
pub open spec fn phandle_of(props: vstd::map::Map<Seq<u8>, U32ByteSlice>) -> Result<Option<u32>, Error> {
    if !props.contains_key(keys::key_phandle()) {
        Ok(None)
    } else {
        match phandle_spec(props[keys::key_phandle()]@) {
            Some(p) => Ok(Some(p)),
            None => Err(Error::BadPHandle),
        }
    }
}

/// Whether a node with properties `p`, whose parent gives the cell counts
/// `address_cells` and `size_cells`, decodes as a device.
pub open spec fn device_valid(
    p: vstd::map::Map<Seq<u8>, U32ByteSlice>,
    address_cells: Option<u8>,
    size_cells: Option<u8>,
) -> bool {
    let own_a = cell_count_of(p, keys::key_address_cells(), 2);
    let own_s = cell_count_of(p, keys::key_size_cells(), 1);
    &&& own_a is Ok && own_s is Ok
    &&& p.contains_key(keys::key_reg()) ==> (address_cells is Some && size_cells is Some && reg_spec(
        p[keys::key_reg()]@,
        address_cells->Some_0,
        size_cells->Some_0,
    ) is Some)
    &&& p.contains_key(keys::key_compatible()) ==> string_list(p[keys::key_compatible()]@) is Some
    &&& p.contains_key(keys::key_model()) ==> c_str_of(p[keys::key_model()]@) is Some
    &&& p.contains_key(keys::key_ranges()) ==> (address_cells is Some && cells_slice_spec(
        p[keys::key_ranges()]@,
        seq![own_a->Ok_0, address_cells->Some_0, own_s->Ok_0],
    ) is Some)
    &&& p.contains_key(keys::key_status()) ==> (c_str_of(p[keys::key_status()]@) is Some && status_valid(
        c_str_of(p[keys::key_status()]@)->Some_0,
    ))
    &&& phandle_of(p) is Ok
}

impl Node {
    pub open spec fn wf(&self) -> bool {
        self.spec_properties().wf() && self.spec_children().wf()
    }

    pub closed spec fn spec_properties(&self) -> PropertyMap {
        self.properties
    }

    pub closed spec fn spec_children(&self) -> ChildMap {
        self.children
    }

    pub closed spec fn spec_phandle(&self) -> Option<u32> {
        self.phandle
    }

    pub closed spec fn spec_status(&self) -> Status {
        self.status
    }

    pub closed spec fn spec_model(&self) -> Option<Model> {
        self.model
    }

    pub closed spec fn spec_compatible(&self) -> Option<Seq<Model>> {
        match self.compatible {
            Some(v) => Some(v@),
            None => None,
        }
    }

    pub closed spec fn spec_ranges(&self) -> Option<Seq<Range>> {
        match self.ranges {
            Some(v) => Some(v@),
            None => None,
        }
    }

    pub closed spec fn spec_reg(&self) -> Option<Seq<(u64, u64)>> {
        match self.reg {
            Some(v) => Some(v@),
            None => None,
        }
    }

    /// Decodes a generic device node whose `reg` is read with the parent's
    /// cell counts `address_cells` and `size_cells` (absent when the parent
    /// gives none). Also returns the node's own cell counts, which govern its children.
    pub fn new(
        value: RawNode,
        address_cells: Option<u8>,
        size_cells: Option<u8>,
        warnings: &mut Vec<Warning>,
    ) -> (r: Result<(Node, u8, u8), Error>)
        requires
            value.wf(),
        ensures
            old(warnings)@.is_prefix_of(final(warnings)@),
            r is Ok <==> device_valid(value.properties@, address_cells, size_cells),
            r matches Ok((n, a, s)) ==> n.wf() && n.spec_children() == value.children
                && cell_count_of(value.properties@, keys::key_address_cells(), 2) == Ok::<u8, CellError>(a)
                && cell_count_of(value.properties@, keys::key_size_cells(), 1) == Ok::<u8, CellError>(s)
                && phandle_of(value.properties@) == Ok::<Option<u32>, Error>(n.spec_phandle())
                && (value.properties@.contains_key(keys::key_reg()) <==> n.spec_reg().is_some())
                && (n.spec_reg() matches Some(v) ==> address_cells matches Some(pa) && size_cells matches Some(ps)
                    && reg_spec(value.properties@[keys::key_reg()]@, pa, ps) == Some(v)),
            r matches Ok((n, a, s)) ==> ({
                let p = value.properties@;
                &&& (p.contains_key(keys::key_status()) ==> (c_str_of(p[keys::key_status()]@) matches Some(t)
                    && status_of(n.spec_status(), t)))
                &&& (!p.contains_key(keys::key_status()) ==> n.spec_status() is Okay)
                &&& (p.contains_key(keys::key_model()) <==> n.spec_model() is Some)
                &&& (n.spec_model() matches Some(m) ==> (c_str_of(p[keys::key_model()]@) matches Some(t)
                    && model_of(m, t)))
                &&& (p.contains_key(keys::key_compatible()) <==> n.spec_compatible() is Some)
                &&& (n.spec_compatible() matches Some(v) ==> (string_list(p[keys::key_compatible()]@) matches Some(l)
                    && v.len() == l.len() && forall|i: int| 0 <= i < v.len() ==> model_of(#[trigger] v[i], l[i])))
                &&& (p.contains_key(keys::key_ranges()) <==> n.spec_ranges() is Some)
                &&& (n.spec_ranges() matches Some(v) ==> (address_cells matches Some(pa)
                    && cells_slice_spec(p[keys::key_ranges()]@, seq![a, pa, s]) matches Some(g) && v == as_ranges(g)))
                &&& n.spec_properties()@ == p.remove(keys::key_address_cells()).remove(keys::key_size_cells()).remove(
                    keys::key_reg()).remove(keys::key_compatible()).remove(keys::key_model()).remove(keys::key_ranges()).remove(
                    keys::key_status()).remove(keys::key_phandle())
            }),
            cell_count_of(value.properties@, keys::key_address_cells(), 2) is Err
                || cell_count_of(value.properties@, keys::key_size_cells(), 1) is Err ==> r == Err::<(Node, u8, u8), Error>(Error::Cells),
            phandle_of(value.properties@) is Err ==> r is Err,
            cell_count_of(value.properties@, keys::key_address_cells(), 2) is Ok && cell_count_of(value.properties@, keys::key_size_cells(), 1) is Ok
                && value.properties@.contains_key(keys::key_reg()) && !(address_cells is Some && size_cells is Some && reg_spec(
                value.properties@[keys::key_reg()]@, address_cells->Some_0, size_cells->Some_0) is Some)
                ==> r == Err::<(Node, u8, u8), Error>(Error::Reg),
    {
        let mut value = value;
        let ghost props0 = value.properties@;
        proof {
            keys::lemma_device_keys_distinct();
        }
        let (own_address, own_size) = value.extract_cell_counts();
        let (own_address, own_size) = match (own_address, own_size) {
            (Ok(a), Ok(s)) => (a, s),
            _ => return Err(Error::Cells),
        };
        proof {
            assert(props0.remove(keys::key_address_cells()).remove(keys::key_size_cells()).contains_key(keys::key_phandle()) == props0.contains_key(keys::key_phandle())) by {
                assert(keys::key_phandle() != keys::key_address_cells());
                assert(keys::key_phandle() != keys::key_size_cells());
            }
        }
        let ghost props1 = value.properties@;
        assert(keys::key_reg() != keys::key_address_cells() && keys::key_reg() != keys::key_size_cells()) by {
            assert(keys::key_reg().len() != keys::key_address_cells().len());
            assert(keys::key_reg().len() != keys::key_size_cells().len());
        }
        assert(keys::key_phandle() != keys::key_address_cells() && keys::key_phandle() != keys::key_size_cells()) by {
            assert(keys::key_phandle().len() != keys::key_address_cells().len());
            assert(keys::key_phandle().len() != keys::key_size_cells().len());
        }
        let reg = match value.properties.remove(&PropertyKeys::reg()) {
            Some(bytes) => match (address_cells, size_cells) {
                (Some(a), Some(s)) => match decode_reg(bytes, a, s, warnings) {
                    Some(v) => Some(v),
                    None => return Err(Error::Reg),
                },
                _ => return Err(Error::Reg),
            },
            None => None,
        };
        let compatible = match value.properties.remove(&PropertyKeys::compatible()) {
            Some(bytes) => match Model::list_from(&bytes) {
                Some(v) => Some(v),
                None => return Err(Error::Compatible),
            },
            None => None,
        };
        let model = match value.properties.remove(&PropertyKeys::model()) {
            Some(bytes) => match bytes.to_c_str() {
                Some(s) => Some(Model::from_c_str(s.as_slice())),
                None => return Err(Error::Model),
            },
            None => None,
        };
        let ranges = match value.properties.remove(&PropertyKeys::ranges()) {
            Some(bytes) => match address_cells {
                Some(pa) => {
                    let counts: Vec<u8> = vec![own_address, pa, own_size];
                    match bytes.into_cells_slice(counts.as_slice(), warnings) {
                        Some(groups) => {
                            let ghost spec_groups = cells_slice_spec(bytes@, counts@).unwrap();
                            proof {
                                assert(counts@ =~= seq![own_address, pa, own_size]);
                                assert forall|i: int| 0 <= i < groups@.len() implies (#[trigger] groups@[i])@.len() == 3 by {
                                    assert(groups@[i]@ == spec_groups[i]);
                                }
                                assert(groups@.map_values(|g: Vec<u64>| g@) =~= spec_groups);
                            }
                            Some(to_ranges(groups))
                        },
                        None => {
                            assert(counts@ =~= seq![own_address, pa, own_size]);
                            return Err(Error::Ranges);
                        },
                    }
                },
                None => return Err(Error::Ranges),
            },
            None => None,
        };
        let status = match value.properties.remove(&PropertyKeys::status()) {
            Some(bytes) => match Status::try_from(&bytes) {
                Ok(st) => st,
                Err(_) => return Err(Error::Status),
            },
            None => Status::Okay,
        };
        let ghost props2 = value.properties@;
        let phandle = match value.properties.remove(&PropertyKeys::phandle()) {
            Some(bytes) => match bytes.try_into_u32() {
                Ok(p) => Some(p),
                Err(_) => return Err(Error::BadPHandle),
            },
            None => None,
        };
        Ok((
            Node { compatible, model, reg, ranges, status, phandle, properties: value.properties, children: value.children },
            own_address,
            own_size,
        ))
    }

    /// The `compatible` models, most specific first.
    pub fn compatible(&self) -> (r: Option<&Vec<Model>>)
        ensures
            r.is_some() == self.spec_compatible().is_some(),
            r matches Some(v) ==> self.spec_compatible() == Some(v@),
    {
        self.compatible.as_ref()
    }

    /// The `model`.
    pub fn model(&self) -> (r: Option<&Model>)
        ensures
            r.is_some() == self.spec_model().is_some(),
            r matches Some(m) ==> self.spec_model() == Some(*m),
    {
        self.model.as_ref()
    }

    /// The `reg` (address, size) pairs.
    pub fn reg(&self) -> (r: Option<&Vec<(u64, u64)>>)
        ensures
            r.is_some() == self.spec_reg().is_some(),
            r matches Some(v) ==> self.spec_reg() == Some(v@),
    {
        self.reg.as_ref()
    }

    /// The `ranges` entries.
    pub fn ranges(&self) -> (r: Option<&Vec<Range>>)
        ensures
            r.is_some() == self.spec_ranges().is_some(),
            r matches Some(v) ==> self.spec_ranges() == Some(v@),
    {
        self.ranges.as_ref()
    }

    /// The status; `Okay` when the node has none.
    pub fn status(&self) -> (r: &Status)
        ensures
            *r == self.spec_status(),
    {
        &self.status
    }

    /// The phandle, if the node has one.
    pub fn phandle(&self) -> (r: Option<u32>)
        ensures
            r == self.spec_phandle(),
    {
        self.phandle
    }

    /// The properties that were not decoded.
    pub fn properties(&self) -> (r: &PropertyMap)
        ensures
            *r == self.spec_properties(),
    {
        &self.properties
    }

    /// The children, as places in the node arena.
    pub fn children(&self) -> (r: &ChildMap)
        ensures
            *r == self.spec_children(),
    {
        &self.children
    }
}

} // verus!
