//! The untyped tree: nodes with their properties and named children, built
//! from the token stream with an explicit stack.

use vstd::prelude::*;
use crate::keys;
use crate::keys::PropertyKeys;
use crate::map::{MapKey, SortedMap};
use crate::node_name::NameRef;
use crate::parse::{be_u32, U32ByteSlice};
use crate::property::PropertyMap;
use crate::token::{token_spec, token_view, Token, TokenError, TokenView};
use crate::node_name::name_key;
use crate::dtb::DeviceTreeError;

verus! {

/// Children by name, as places in a node arena.
pub type ChildMap = SortedMap<NameRef, usize>;

/// A node before typing: its properties and its children.
#[derive(Debug)]
pub struct RawNode {
    pub properties: PropertyMap,
    pub children: ChildMap,
}

/// Errors from reading `#address-cells` or `#size-cells`.
#[derive(Debug, Clone, Copy, PartialEq, Eq)]
pub enum CellError {
    /// The property is absent where it is required.
    NotPresent,
    /// The property is not one word holding a value below 256.
    Invalid,
}

/// The cell count that the property `key` of `props` gives, `default` when absent.
pub open spec fn cell_count_of(
    props: vstd::map::Map<Seq<u8>, U32ByteSlice>,
    key: Seq<u8>,
    default: u8,
) -> Result<u8, CellError> {
    if !props.contains_key(key) {
        Ok(default)
    } else if props[key]@.len() == 4 && be_u32(props[key]@) < 256 {
        Ok(be_u32(props[key]@) as u8)
    } else {
        Err(CellError::Invalid)
    }
}

/// Reads a cell count property value.
pub fn parse_cells(bytes: U32ByteSlice) -> (r: Result<u8, CellError>)
    ensures
        r == (if bytes@.len() == 4 && be_u32(bytes@) < 256 {
            Ok(be_u32(bytes@) as u8)
        } else {
            Err::<u8, CellError>(CellError::Invalid)
        }),
{
    match bytes.try_into_u32() {
        Ok(x) => if x < 256 {
            Ok(x as u8)
        } else {
            Err(CellError::Invalid)
        },
        Err(_) => Err(CellError::Invalid),
    }
}

/// Whether no two children share a place.
pub open spec fn children_injective(children: vstd::map::Map<Seq<u8>, usize>) -> bool {
    forall|k1: Seq<u8>, k2: Seq<u8>|
        #[trigger] children.contains_key(k1) && #[trigger] children.contains_key(k2) && children[k1] == children[k2] ==> k1 == k2
}

impl RawNode {
    pub open spec fn wf(&self) -> bool {
        self.properties.wf() && self.children.wf() && children_injective(self.children@)
    }

    /// A node with no properties and no children.
    pub fn empty() -> (r: RawNode)
        ensures
            r.wf(),
            r.properties@ == vstd::map::Map::<Seq<u8>, U32ByteSlice>::empty(),
            r.children@ == vstd::map::Map::<Seq<u8>, usize>::empty(),
    {
        RawNode { properties: SortedMap::new(), children: SortedMap::new() }
    }

    /// Removes `#address-cells` and `#size-cells` and reads them, with the
    /// defaults 2 and 1 when absent.
    pub fn extract_cell_counts(&mut self) -> (r: (Result<u8, CellError>, Result<u8, CellError>))
        requires
            old(self).wf(),
        ensures
            final(self).wf(),
            final(self).children == old(self).children,
            r.0 == cell_count_of(old(self).properties@, keys::key_address_cells(), 2),
            r.1 == cell_count_of(old(self).properties@, keys::key_size_cells(), 1),
            final(self).properties@ == old(self).properties@.remove(keys::key_address_cells()).remove(
                keys::key_size_cells(),
            ),
    {
        let a = match self.properties.remove(&PropertyKeys::address_cells()) {
            Some(b) => parse_cells(b),
            None => Ok(2),
        };
        let s = match self.properties.remove(&PropertyKeys::size_cells()) {
            Some(b) => parse_cells(b),
            None => Ok(1),
        };
        proof {
            assert(keys::key_address_cells() != keys::key_size_cells()) by {
                assert(keys::key_address_cells()[1] != keys::key_size_cells()[1]);
            }
        }
        (a, s)
    }
}

/// The untyped tree: an arena of nodes in which every node comes after its
/// children, and the root comes last.
#[derive(Debug)]
pub struct RawTree {
    pub nodes: Vec<RawNode>,
}

/// Whether every child of the nodes of `nodes` stands before its parent.
pub open spec fn children_before(nodes: Seq<RawNode>) -> bool {
    forall|i: int, k: Seq<u8>|
        0 <= i < nodes.len() && #[trigger] nodes[i].children@.contains_key(k) ==> nodes[i].children@[k]
            < i
}

impl RawTree {
    pub open spec fn wf(&self) -> bool {
        &&& self.nodes@.len() > 0
        &&& children_before(self.nodes@)
        &&& forall|i: int| 0 <= i < self.nodes@.len() ==> (#[trigger] self.nodes@[i]).wf()
    }

    /// The place of the root node.
    pub open spec fn root_index(&self) -> int {
        self.nodes@.len() - 1
    }
}

/// Cell counts by arena place: those that a node's parent gives its `reg`,
/// for the nodes that are decoded as generic devices.
pub type CellContext = Vec<Option<(u8, u8)>>;

/// Whether `nodes` is an arena in which children stand before their parents
/// and every node is well formed.
pub open spec fn arena_ok(nodes: Seq<RawNode>) -> bool {
    &&& children_before(nodes)
    &&& forall|i: int| 0 <= i < nodes.len() ==> (#[trigger] nodes[i]).wf()
}

/// Whether every child in `children` stands before place `n`.
pub open spec fn children_below(children: ChildMap, n: int) -> bool {
    forall|k: Seq<u8>| #[trigger] children@.contains_key(k) ==> children@[k] < n
}

/// Moves node `i` out of the arena, leaving an empty node in its place.
pub fn take_node(nodes: &mut Vec<RawNode>, i: usize) -> (r: RawNode)
    requires
        i < old(nodes)@.len(),
        arena_ok(old(nodes)@),
    ensures
        r == old(nodes)@[i as int],
        r.wf(),
        children_below(r.children, i as int),
        final(nodes)@.len() == old(nodes)@.len(),
        arena_ok(final(nodes)@),
        forall|j: int| 0 <= j < final(nodes)@.len() && j != i ==> final(nodes)@[j] == old(nodes)@[j],
        final(nodes)@[i as int].properties@ == vstd::map::Map::<Seq<u8>, U32ByteSlice>::empty(),
        final(nodes)@[i as int].children@ == vstd::map::Map::<Seq<u8>, usize>::empty(),
{
    let n = nodes.remove(i);
    nodes.insert(i, RawNode::empty());
    proof {
        assert forall|j: int| 0 <= j < nodes@.len() && j != i implies nodes@[j] == old(nodes)@[j] by {
            if j < i {
                assert(nodes@[j] == old(nodes)@.remove(i as int)[j]);
            } else {
                assert(nodes@[j] == old(nodes)@.remove(i as int)[j - 1]);
            }
        }
        assert(children_before(nodes@)) by {
            assert forall|j: int, k: Seq<u8>|
                0 <= j < nodes@.len() && #[trigger] nodes@[j].children@.contains_key(k) implies nodes@[j].children@[k] < j by {
                if j != i {
                    assert(old(nodes)@[j].children@.contains_key(k));
                }
            }
        }
        assert forall|k: Seq<u8>| #[trigger] n.children@.contains_key(k) implies n.children@[k] < i by {
            assert(old(nodes)@[i as int].children@.contains_key(k));
        }
    }
    n
}

/// Records `cells` as the parent cell counts of every child in `children`.
pub fn mark_children(ctx: &mut CellContext, children: &ChildMap, cells: (u8, u8))
    requires
        children.wf(),
        children_below(*children, old(ctx)@.len() as int),
    ensures
        final(ctx)@.len() == old(ctx)@.len(),
{
    let entries = children.iter();
    proof {
        children.lemma_entries_in_view();
    }
    let mut i: usize = 0;
    while i < entries.len()
        invariant
            entries@ == children.entries(),
            children.wf(),
            children_below(*children, ctx@.len() as int),
            forall|j: int| 0 <= j < children.entries().len() ==> #[trigger] children@.contains_key(
                children.entries()[j].0.key_view(),
            ) && children@[children.entries()[j].0.key_view()] == children.entries()[j].1,
            ctx@.len() == old(ctx)@.len(),
            i <= entries@.len(),
        decreases entries@.len() - i,
    {
        let c = entries[i].1;
        assert(children@.contains_key(children.entries()[i as int].0.key_view()));
        ctx.set(c, Some(cells));
        i = i + 1;
    }
}

/// A node's view: its property values by name, and its children's places by name.
pub ghost struct NodeView {
    pub properties: vstd::map::Map<Seq<u8>, Seq<u8>>,
    pub children: vstd::map::Map<Seq<u8>, usize>,
}

/// An open node's view: its name's key and what it holds so far.
pub ghost struct FrameView {
    pub key: Seq<u8>,
    pub node: NodeView,
}

/// Where building stands: the open nodes, innermost last; the finished
/// nodes in the order they closed; and the nodes closed at the top level.
pub ghost struct BuildState {
    pub frames: Seq<FrameView>,
    pub nodes: Seq<NodeView>,
    pub roots: Seq<Seq<u8>>,
}

/// The view of a node.
pub open spec fn node_view(n: RawNode) -> NodeView {
    NodeView { properties: n.properties@.map_values(|v: U32ByteSlice| v@), children: n.children@ }
}

/// What goes wrong while the tree is built; a name is given as its map key.
pub ghost enum BuildError {
    Token(TokenError),
    EoF,
    TooManyEnds,
    InvalidProp,
    Parsing,
    MismatchedNodes,
    BadRoots(Seq<Seq<u8>>),
    BadRootName(Seq<u8>),
    BadDepth(nat),
    TrailingData,
}

/// The depth reported when `End` comes with `open` nodes still open: the
/// open nodes and the top level.
pub open spec fn depth_after(open: nat) -> nat {
    if open < usize::MAX {
        open + 1
    } else {
        usize::MAX as nat
    }
}

/// Whether the decode error `e` is the build error `b`.
pub open spec fn error_is(e: DeviceTreeError, b: BuildError) -> bool {
    match b {
        BuildError::Token(t) => e == DeviceTreeError::Token(t),
        BuildError::EoF => e is EoF,
        BuildError::TooManyEnds => e is TooManyEnds,
        BuildError::InvalidProp => e is InvalidProp,
        BuildError::Parsing => e is Parsing,
        BuildError::MismatchedNodes => e is MismatchedNodes,
        BuildError::BadRoots(keys) => e matches DeviceTreeError::BadRoots(names) && names@.map_values(
            |n: NameRef| n.key_view(),
        ) == keys,
        BuildError::BadRootName(k) => e matches DeviceTreeError::BadRootName(n) && n.key_view() == k,
        BuildError::BadDepth(d) => e matches DeviceTreeError::BadDepth(x) && x == d,
        BuildError::TrailingData => e is TrailingData,
    }
}

/// The tree that the rest `s` of the structure block gives from state `st`:
/// the finished nodes, or the first error.
pub open spec fn build_from(st: BuildState, s: Seq<u8>, strings: Seq<u8>) -> Result<Seq<NodeView>, BuildError>
    decreases s.len(),
{
    if s.len() == 0 {
        Err(BuildError::EoF)
    } else {
        match token_spec(s, strings) {
            Err(e) => Err(BuildError::Token(e)),
            Ok((t, c)) => if c <= 0 || c > s.len() {
                Err(BuildError::EoF)
            } else {
                let rest = s.subrange(c, s.len() as int);
                match t {
                    TokenView::BeginNode(k) => build_from(
                        BuildState {
                            frames: st.frames.push(
                                FrameView {
                                    key: k,
                                    node: NodeView { properties: vstd::map::Map::empty(), children: vstd::map::Map::empty() },
                                },
                            ),
                            ..st
                        },
                        rest,
                        strings,
                    ),
                    TokenView::EndNode => if st.frames.len() == 0 {
                        Err(BuildError::TooManyEnds)
                    } else {
                        let f = st.frames.last();
                        let idx = st.nodes.len();
                        let frames = st.frames.drop_last();
                        let nodes = st.nodes.push(f.node);
                        if frames.len() > 0 {
                            let top = frames.last();
                            if top.node.children.contains_key(f.key) {
                                Err(BuildError::MismatchedNodes)
                            } else {
                                build_from(
                                    BuildState {
                                        frames: frames.update(
                                            frames.len() - 1,
                                            FrameView {
                                                key: top.key,
                                                node: NodeView {
                                                    properties: top.node.properties,
                                                    children: top.node.children.insert(f.key, idx as usize),
                                                },
                                            },
                                        ),
                                        nodes,
                                        roots: st.roots,
                                    },
                                    rest,
                                    strings,
                                )
                            }
                        } else {
                            build_from(BuildState { frames, nodes, roots: st.roots.push(f.key) }, rest, strings)
                        }
                    },
                    TokenView::Prop(n, v) => if st.frames.len() == 0 {
                        Err(BuildError::InvalidProp)
                    } else {
                        let top = st.frames.last();
                        if top.node.properties.contains_key(n) {
                            Err(BuildError::Parsing)
                        } else {
                            build_from(
                                BuildState {
                                    frames: st.frames.update(
                                        st.frames.len() - 1,
                                        FrameView {
                                            key: top.key,
                                            node: NodeView {
                                                properties: top.node.properties.insert(n, v),
                                                children: top.node.children,
                                            },
                                        },
                                    ),
                                    ..st
                                },
                                rest,
                                strings,
                            )
                        }
                    },
                    TokenView::Nop => build_from(st, rest, strings),
                    TokenView::End => if st.frames.len() != 0 {
                        Err(BuildError::BadDepth(depth_after(st.frames.len())))
                    } else if st.roots.len() != 1 {
                        Err(BuildError::BadRoots(st.roots))
                    } else if st.roots[0] != name_key(Seq::empty(), None) {
                        Err(BuildError::BadRootName(st.roots[0]))
                    } else if rest.len() != 0 {
                        match token_spec(rest, strings) {
                            Ok((TokenView::End, _)) => Err(BuildError::TooManyEnds),
                            _ => Err(BuildError::TrailingData),
                        }
                    } else {
                        Ok(st.nodes)
                    },
                }
            },
        }
    }
}

/// The tree that the structure block `s` gives.
#[verifier::opaque]
pub open spec fn build_spec(s: Seq<u8>, strings: Seq<u8>) -> Result<Seq<NodeView>, BuildError> {
    build_from(BuildState { frames: Seq::empty(), nodes: Seq::empty(), roots: Seq::empty() }, s, strings)
}

/// The structure block of a minimal tree: an empty root node, then `End`.
pub open spec fn minimal_block() -> Seq<u8> {
    seq![0u8, 0, 0, 1, 0, 0, 0, 0, 0, 0, 0, 2, 0, 0, 0, 9]
}

/// A minimal structure block builds a single root with no properties and no
/// children, whose cell counts are the defaults: 2 address cells, 1 size cell.
pub proof fn lemma_minimal_block(strings: Seq<u8>)
    ensures
        build_spec(minimal_block(), strings) == Ok::<Seq<NodeView>, BuildError>(
            seq![NodeView { properties: vstd::map::Map::empty(), children: vstd::map::Map::empty() }],
        ),
        cell_count_of(vstd::map::Map::empty(), keys::key_address_cells(), 2) == Ok::<u8, CellError>(2),
        cell_count_of(vstd::map::Map::empty(), keys::key_size_cells(), 1) == Ok::<u8, CellError>(1),
{
    reveal(build_spec);
    let s = minimal_block();
    let rest = s.subrange(4, 16);
    assert(be_u32(s) == 1);
    assert(crate::parse::nul_at(rest, 0));
    assert(forall|k: int| crate::parse::nul_at(rest, k) ==> k == 0);
    assert(crate::parse::padded_end(rest.len() as int, 1) == 4);
    assert(crate::parse::c_str_padding_ok(rest, 0));
    assert(rest.subrange(0, 0) =~= Seq::<u8>::empty());
    assert(crate::node_name::split_first(Seq::<u8>::empty(), 0x40) is None);
    assert(crate::node_name::parse_name(Seq::<u8>::empty()) == Ok::<(Seq<u8>, Option<u64>), crate::node_name::NameRefError>((Seq::<u8>::empty(), None)));
    let root_key = name_key(Seq::empty(), None);
    assert(token_spec(s, strings) == Ok::<(TokenView, int), TokenError>((TokenView::BeginNode(root_key), 8int)));
    let s1 = s.subrange(8, 16);
    assert(be_u32(s1) == 2);
    assert(token_spec(s1, strings) == Ok::<(TokenView, int), TokenError>((TokenView::EndNode, 4int)));
    let s2 = s1.subrange(4, 8);
    assert(be_u32(s2) == 9);
    assert(token_spec(s2, strings) == Ok::<(TokenView, int), TokenError>((TokenView::End, 4int)));
    let empty = NodeView { properties: vstd::map::Map::empty(), children: vstd::map::Map::empty() };
    let st1 = BuildState { frames: seq![FrameView { key: root_key, node: empty }], nodes: Seq::empty(), roots: Seq::empty() };
    let st2 = BuildState { frames: Seq::empty(), nodes: seq![empty], roots: seq![root_key] };
    assert(s2.subrange(4, 4).len() == 0);
    assert(build_from(st2, s2, strings) == Ok::<Seq<NodeView>, BuildError>(seq![empty]));
    assert(st1.frames.drop_last() =~= Seq::<FrameView>::empty());
    assert(Seq::<NodeView>::empty().push(empty) =~= seq![empty]);
    assert(Seq::<Seq<u8>>::empty().push(root_key) =~= seq![root_key]);
    assert(s.subrange(8, 16) == s1);
    assert(s1.subrange(4, 8) == s2);
    assert(build_from(st1, s1, strings) == Ok::<Seq<NodeView>, BuildError>(seq![empty]));
    assert(Seq::<FrameView>::empty().push(FrameView { key: root_key, node: empty }) =~= st1.frames);
}

/// A node that is still open while the tree is built.
struct Frame {
    name: NameRef,
    node: RawNode,
}

/// Whether every child recorded in `frames` stands before place `n`.
spec fn frames_ok(frames: Seq<Frame>, n: int) -> bool {
    forall|f: int, k: Seq<u8>|
        0 <= f < frames.len() && #[trigger] frames[f].node.children@.contains_key(k)
            ==> frames[f].node.children@[k] < n
}

/// The view of the open nodes.
spec fn frames_view(frames: Seq<Frame>) -> Seq<FrameView> {
    frames.map_values(|f: Frame| FrameView { key: f.name.key_view(), node: node_view(f.node) })
}

/// Whether every node of `frames` is well formed.
spec fn frames_wf(frames: Seq<Frame>) -> bool {
    forall|f: int| 0 <= f < frames.len() ==> (#[trigger] frames[f]).node.wf()
}

impl RawTree {
    /// Assembles the untyped tree from the structure block `structure`,
    /// reading property names from `strings`.
    pub fn build(structure: U32ByteSlice, strings: &[u8]) -> (r: Result<RawTree, DeviceTreeError>)
        ensures
            r matches Ok(t) ==> t.wf(),
            r is Ok <==> build_spec(structure@, strings@) is Ok,
            r matches Ok(t) ==> t.nodes@.map_values(|n: RawNode| node_view(n)) == build_spec(structure@, strings@)->Ok_0,
            r matches Err(e) ==> error_is(e, build_spec(structure@, strings@)->Err_0),
    {
        proof {
            reveal(build_spec);
        }
        let mut bytes = structure;
        let mut nodes: Vec<RawNode> = Vec::new();
        let mut frames: Vec<Frame> = Vec::new();
        let mut roots: Vec<(NameRef, usize)> = Vec::new();
        proof {
            assert(frames_view(frames@) =~= Seq::<FrameView>::empty());
            assert(nodes@.map_values(|n: RawNode| node_view(n)) =~= Seq::<NodeView>::empty());
            assert(roots@.map_values(|e: (NameRef, usize)| e.0.key_view()) =~= Seq::<Seq<u8>>::empty());
        }
        while !bytes.is_empty()
            invariant
                children_before(nodes@),
                forall|i: int| 0 <= i < nodes@.len() ==> (#[trigger] nodes@[i]).wf(),
                frames_ok(frames@, nodes@.len() as int),
                frames_wf(frames@),
                forall|i: int| 0 <= i < roots@.len() ==> (#[trigger] roots@[i]).1 < nodes@.len(),
                frames@.len() == 0 && roots@.len() > 0 ==> roots@.last().1 == nodes@.len() - 1,
                build_spec(structure@, strings@) == build_from(
                    BuildState {
                        frames: frames_view(frames@),
                        nodes: nodes@.map_values(|n: RawNode| node_view(n)),
                        roots: roots@.map_values(|e: (NameRef, usize)| e.0.key_view()),
                    },
                    bytes@,
                    strings@,
                ),
            decreases bytes@.len(),
        {
            let ghost st0 = BuildState {
                frames: frames_view(frames@),
                nodes: nodes@.map_values(|n: RawNode| node_view(n)),
                roots: roots@.map_values(|e: (NameRef, usize)| e.0.key_view()),
            };
            let ghost b0 = bytes@;
            let token = match Token::consume_token(&mut bytes, strings) {
                Ok(t) => t,
                Err(e) => return Err(DeviceTreeError::Token(e)),
            };
            let ghost c = token_spec(b0, strings@)->Ok_0.1;
            assert(bytes@ == b0.subrange(c, b0.len() as int));
            assert(token_view(token) == token_spec(b0, strings@)->Ok_0.0);
            match token {
                Token::BeginNode(name) => {
                    let ghost fr0 = frames@;
                    let ghost k = name.key_view();
                    let empty = RawNode::empty();
                    proof {
                        assert(node_view(empty) == NodeView { properties: vstd::map::Map::empty(), children: vstd::map::Map::empty() }) by {
                            assert(empty.properties@.map_values(|v: U32ByteSlice| v@) =~= vstd::map::Map::<Seq<u8>, Seq<u8>>::empty());
                        }
                    }
                    frames.push(Frame { name, node: empty });
                    proof {
                        assert(frames_view(frames@) =~= st0.frames.push(
                            FrameView { key: k, node: NodeView { properties: vstd::map::Map::empty(), children: vstd::map::Map::empty() } },
                        ));
                        assert(frames_wf(frames@)) by {
                            assert forall|f: int| 0 <= f < frames@.len() implies (#[trigger] frames@[f]).node.wf() by {
                                if f < frames@.len() - 1 {
                                    assert(frames@[f] == fr0[f]);
                                }
                            }
                        }
                    }
                },
                Token::EndNode => {
                    let frame = match frames.pop() {
                        Some(f) => f,
                        None => return Err(DeviceTreeError::TooManyEnds),
                    };
                    let idx = nodes.len();
                    assert(frames_ok(seq![frame], idx as int));
                    let ghost nd0 = nodes@;
                    let ghost fkey = frame.name.key_view();
                    let ghost fview = node_view(frame.node);
                    proof {
                        assert(st0.frames.last() == FrameView { key: fkey, node: fview });
                        assert(frames_view(frames@) =~= st0.frames.drop_last());
                    }
                    nodes.push(frame.node);
                    proof {
                        assert(nodes@.map_values(|n: RawNode| node_view(n)) =~= st0.nodes.push(fview));
                        assert(children_before(nodes@)) by {
                            assert forall|i: int, k: Seq<u8>|
                                0 <= i < nodes@.len() && #[trigger] nodes@[i].children@.contains_key(k)
                                implies nodes@[i].children@[k] < i by {
                                if i < idx {
                                    assert(nodes@[i] == nd0[i]);
                                }
                            }
                        }
                    }
                    if frames.len() > 0 {
                        let ghost fr1 = frames@;
                        let mut top = frames.pop().unwrap();
                        let ghost top0 = top.node.children@;
                        let ghost topv = FrameView { key: top.name.key_view(), node: node_view(top.node) };
                        assert(frames_view(fr1).last() == topv);
                        assert(frames_ok(seq![top], idx as int));
                        let previous = top.node.children.insert(frame.name, idx);
                        if previous.is_some() {
                            return Err(DeviceTreeError::MismatchedNodes);
                        }
                        proof {
                            assert forall|k: Seq<u8>| #[trigger] top.node.children@.contains_key(k)
                                implies top.node.children@[k] < nodes@.len() by {
                                if k != frame.name.key_view() {
                                    assert(top0.contains_key(k));
                                }
                            }
                            assert forall|k1: Seq<u8>, k2: Seq<u8>|
                                #[trigger] top.node.children@.contains_key(k1) && #[trigger] top.node.children@.contains_key(k2)
                                && top.node.children@[k1] == top.node.children@[k2] implies k1 == k2 by {
                                let fk = frame.name.key_view();
                                if k1 != fk && k2 != fk {
                                    assert(top0.contains_key(k1) && top0.contains_key(k2));
                                } else if k1 != fk {
                                    assert(top0.contains_key(k1));
                                    assert(top0[k1] < idx);
                                } else if k2 != fk {
                                    assert(top0.contains_key(k2));
                                    assert(top0[k2] < idx);
                                }
                            }
                        }
                        frames.push(top);
                        proof {
                            assert(frames_view(frames@) =~= frames_view(fr1).update(
                                frames_view(fr1).len() - 1,
                                FrameView {
                                    key: topv.key,
                                    node: NodeView { properties: topv.node.properties, children: topv.node.children.insert(fkey, idx as usize) },
                                },
                            ));
                        }
                    } else {
                        let ghost rt0 = roots@;
                        roots.push((frame.name, idx));
                        proof {
                            assert(roots@.map_values(|e: (NameRef, usize)| e.0.key_view()) =~= st0.roots.push(fkey));
                        }
                    }
                },
                Token::Prop(name, value) => {
                    if frames.len() == 0 {
                        return Err(DeviceTreeError::InvalidProp);
                    }
                    let ghost fr1 = frames@;
                    let ghost nm = name@;
                    let ghost vv = value@;
                    let mut top = frames.pop().unwrap();
                    let ghost topv = FrameView { key: top.name.key_view(), node: node_view(top.node) };
                    let ghost pm0 = top.node.properties@;
                    assert(frames_view(fr1).last() == topv);
                    let previous = top.node.properties.insert(name, value);
                    if previous.is_some() {
                        return Err(DeviceTreeError::Parsing);
                    }
                    frames.push(top);
                    proof {
                        assert(top.node.properties@.map_values(|v: U32ByteSlice| v@) =~= pm0.map_values(|v: U32ByteSlice| v@).insert(nm, vv));
                        assert(frames_view(frames@) =~= frames_view(fr1).update(
                            frames_view(fr1).len() - 1,
                            FrameView {
                                key: topv.key,
                                node: NodeView { properties: topv.node.properties.insert(nm, vv), children: topv.node.children },
                            },
                        ));
                    }
                },
                Token::Nop => {},
                Token::End => {
                    if frames.len() != 0 {
                        return Err(DeviceTreeError::BadDepth(frames.len().saturating_add(1)));
                    }
                    if roots.len() != 1 {
                        let mut names: Vec<NameRef> = Vec::new();
                        let ghost rv = st0.roots;
                        while roots.len() > 0
                            invariant
                                names@.map_values(|n: NameRef| n.key_view()) + roots@.map_values(
                                    |e: (NameRef, usize)| e.0.key_view(),
                                ) == rv,
                            decreases roots@.len(),
                        {
                            let ghost r0 = roots@;
                            let ghost nm0 = names@;
                            let (n, _) = roots.remove(0);
                            names.push(n);
                            proof {
                                assert(names@.map_values(|n: NameRef| n.key_view()) =~= nm0.map_values(|n: NameRef| n.key_view()).push(r0[0].0.key_view()));
                                assert(r0.map_values(|e: (NameRef, usize)| e.0.key_view()) =~= seq![r0[0].0.key_view()] + roots@.map_values(|e: (NameRef, usize)| e.0.key_view()));
                                assert(names@.map_values(|n: NameRef| n.key_view()) + roots@.map_values(
                                    |e: (NameRef, usize)| e.0.key_view()) =~= nm0.map_values(|n: NameRef| n.key_view()) + r0.map_values(|e: (NameRef, usize)| e.0.key_view()));
                            }
                        }
                        proof {
                            assert(names@.map_values(|n: NameRef| n.key_view()) =~= rv);
                        }
                        return Err(DeviceTreeError::BadRoots(names));
                    }
                    let (root_name, _) = roots.pop().unwrap();
                    proof {
                        assert(st0.roots[0] == root_name.key_view());
                    }
                    if root_name.node_name().as_bytes().len() != 0 || root_name.unit_address().is_some() {
                        proof {
                            if root_name.key_view() == name_key(Seq::empty(), None) {
                                crate::node_name::lemma_root_key(root_name.spec_node_name(), root_name.spec_unit_address());
                            }
                        }
                        return Err(DeviceTreeError::BadRootName(root_name));
                    }
                    proof {
                        assert(root_name.spec_node_name() =~= Seq::<u8>::empty());
                    }
                    if !bytes.is_empty() {
                        return match Token::consume_token(&mut bytes, strings) {
                            Ok(Token::End) => Err(DeviceTreeError::TooManyEnds),
                            _ => Err(DeviceTreeError::TrailingData),
                        };
                    }
                    return Ok(RawTree { nodes });
                },
            }
        }
        Err(DeviceTreeError::EoF)
    }
}

} // verus!
