//! Tokens of the structure block.

use vstd::prelude::*;
use crate::map::copy_bytes;
use crate::map::MapKey;
use crate::node_name::{name_key, parse_name, NameRef, NameRefError};
use crate::parse::{be_u32, c_str_of, c_str_padding_ok, nul_at, padded_end, U32ByteSlice};

verus! {

/// The token that begins a node; its name follows.
pub const BEGIN_NODE: u32 = 0x1;
/// The token that ends a node.
pub const END_NODE: u32 = 0x2;
/// The token that gives a property; its length, name offset and value follow.
pub const PROP: u32 = 0x3;
/// A token to be ignored.
pub const NOP: u32 = 0x4;
/// The token that ends the structure block.
pub const END: u32 = 0x9;

/// One token of the structure block.
#[derive(Debug)]
pub enum Token {
    BeginNode(NameRef),
    EndNode,
    /// A property: its name and its value.
    Prop(Vec<u8>, U32ByteSlice),
    Nop,
    End,
}

/// Errors from decoding a token.
#[derive(Debug, Clone, Copy, PartialEq, Eq)]
pub enum TokenError {
    /// The block ends inside a token.
    EoF,
    /// The word is no token.
    InvalidToken(u32),
    /// A node's name is not terminated, or its padding is not zero.
    NodeNameMalformed,
    /// A node's name is not a valid name.
    NodeNameInvalid(NameRefError),
    /// A property's value reaches past the block.
    PropValue,
    /// A property's name offset is outside the strings block, or its name is not terminated.
    PropName,
}

/// A token as the tree builder sees it: a node's name as its map key, a
/// property's name and value as bytes.
pub ghost enum TokenView {
    BeginNode(Seq<u8>),
    EndNode,
    Prop(Seq<u8>, Seq<u8>),
    Nop,
    End,
}

/// The token at the front of the structure bytes `s` and the number of
/// bytes it takes with its padding, or the error that decoding it gives.
pub open spec fn token_spec(s: Seq<u8>, strings: Seq<u8>) -> Result<(TokenView, int), TokenError> {
    if s.len() < 4 {
        Err(TokenError::EoF)
    } else {
        let tag = be_u32(s);
        let rest = s.subrange(4, s.len() as int);
        if tag == BEGIN_NODE {
            if exists|k: int| nul_at(rest, k) {
                let k = choose|k: int| nul_at(rest, k);
                if !c_str_padding_ok(rest, k) {
                    Err(TokenError::NodeNameMalformed)
                } else {
                    match parse_name(rest.subrange(0, k)) {
                        Ok((n, u)) => Ok((TokenView::BeginNode(name_key(n, u)), 4 + padded_end(rest.len() as int, k + 1))),
                        Err(e) => Err(TokenError::NodeNameInvalid(e)),
                    }
                }
            } else {
                Err(TokenError::NodeNameMalformed)
            }
        } else if tag == END_NODE {
            Ok((TokenView::EndNode, 4))
        } else if tag == PROP {
            if rest.len() < 8 {
                Err(TokenError::EoF)
            } else {
                let len = be_u32(rest);
                let body = rest.subrange(8, rest.len() as int);
                if len > body.len() {
                    Err(TokenError::PropValue)
                } else {
                    match prop_name_at(strings, be_u32(rest.subrange(4, 8))) {
                        Some(name) => Ok((TokenView::Prop(name, body.subrange(0, len)), 12 + padded_end(body.len() as int, len))),
                        None => Err(TokenError::PropName),
                    }
                }
            }
        } else if tag == NOP {
            Ok((TokenView::Nop, 4))
        } else if tag == END {
            Ok((TokenView::End, 4))
        } else {
            Err(TokenError::InvalidToken(tag as u32))
        }
    }
}

/// The view of a decoded token.
pub open spec fn token_view(t: Token) -> TokenView {
    match t {
        Token::BeginNode(n) => TokenView::BeginNode(n.key_view()),
        Token::EndNode => TokenView::EndNode,
        Token::Prop(name, value) => TokenView::Prop(name@, value@),
        Token::Nop => TokenView::Nop,
        Token::End => TokenView::End,
    }
}

/// The name at offset `off` of the strings block `strings`.
pub open spec fn prop_name_at(strings: Seq<u8>, off: int) -> Option<Seq<u8>> {
    if off > strings.len() {
        None
    } else {
        c_str_of(strings.subrange(off, strings.len() as int))
    }
}

/// Reads the NUL-terminated string at `off` in `strings`.
fn string_at(strings: &[u8], off: usize) -> (r: Option<Vec<u8>>)
    ensures
        r.is_some() == prop_name_at(strings@, off as int).is_some(),
        r matches Some(v) ==> prop_name_at(strings@, off as int) == Some(v@),
{
    if off > strings.len() {
        return None;
    }
    let tail = U32ByteSlice::from_bytes(&strings[off..strings.len()]);
    tail.to_c_str()
}

impl Token {
    /// Removes one token from the front of `bytes`, reading property names
    /// from `strings`.
    pub fn consume_token(bytes: &mut U32ByteSlice, strings: &[u8]) -> (r: Result<Token, TokenError>)
        ensures
            match token_spec(old(bytes)@, strings@) {
                Err(e) => r == Err::<Token, TokenError>(e),
                Ok((t, c)) => r is Ok && token_view(r->Ok_0) == t && 0 < c <= old(bytes)@.len()
                    && final(bytes)@ == old(bytes)@.subrange(c, old(bytes)@.len() as int),
            },
            r is Ok ==> final(bytes)@.len() < old(bytes)@.len()
                && final(bytes)@ == old(bytes)@.subrange(
                old(bytes)@.len() - final(bytes)@.len(),
                old(bytes)@.len() as int,
            ),
            old(bytes)@.len() < 4 ==> r == Err::<Token, TokenError>(TokenError::EoF),
            old(bytes)@.len() >= 4 ==> ({
                let tag = be_u32(old(bytes)@);
                let rest = old(bytes)@.subrange(4, old(bytes)@.len() as int);
                &&& tag == END_NODE ==> r is Ok && r->Ok_0 is EndNode
                &&& tag == NOP ==> r is Ok && r->Ok_0 is Nop
                &&& tag == END ==> r is Ok && r->Ok_0 is End
                &&& (tag != BEGIN_NODE && tag != END_NODE && tag != PROP && tag != NOP && tag != END)
                    ==> r == Err::<Token, TokenError>(TokenError::InvalidToken(tag as u32))
                &&& tag == BEGIN_NODE ==> (r matches Ok(Token::BeginNode(n)) ==> c_str_of(rest) matches Some(
                    s,
                ) && parse_name(s) == Ok::<(Seq<u8>, Option<u64>), NameRefError>(
                    (n.spec_node_name(), n.spec_unit_address()),
                ))
                &&& tag == BEGIN_NODE ==> (r is Ok ==> (r->Ok_0 is BeginNode))
                &&& tag == PROP ==> (r matches Ok(t) ==> t is Prop)
                &&& tag == PROP ==> (r matches Ok(Token::Prop(name, value)) ==> rest.len() >= 8
                    && prop_name_at(strings@, be_u32(rest.subrange(4, 8))) == Some(name@)
                    && value@ == rest.subrange(8, 8 + be_u32(rest)))
                &&& tag == PROP && rest.len() < 8 ==> r == Err::<Token, TokenError>(TokenError::EoF)
            }),
    {
        let ghost s0 = bytes@;
        let tag = match bytes.consume_u32() {
            Some(t) => t,
            None => return Err(TokenError::EoF),
        };
        if tag == BEGIN_NODE {
            let ghost s1 = bytes@;
            let name = match bytes.consume_c_str() {
                Some(n) => n,
                None => return Err(TokenError::NodeNameMalformed),
            };
            proof {
                let k = name@.len() as int;
                assert(crate::parse::nul_at(s1, k));
                let j = choose|j: int| crate::parse::nul_at(s1, j);
                crate::parse::lemma_nul_at_unique(s1, j, k);
                assert(c_str_of(s1) == Some(name@));
                assert(s1 =~= s0.subrange(4, s0.len() as int));
                assert(name@ =~= s1.subrange(0, k));
                assert(bytes@ =~= s0.subrange(4 + padded_end(s1.len() as int, k + 1), s0.len() as int));
                assert(bytes@ =~= s0.subrange(s0.len() - bytes@.len(), s0.len() as int));
            }
            match NameRef::try_from(name.as_slice()) {
                Ok(n) => Ok(Token::BeginNode(n)),
                Err(e) => Err(TokenError::NodeNameInvalid(e)),
            }
        } else if tag == END_NODE {
            assert(bytes@ =~= s0.subrange(s0.len() - bytes@.len(), s0.len() as int));
            Ok(Token::EndNode)
        } else if tag == PROP {
            let ghost s1 = bytes@;
            let len = match bytes.consume_u32() {
                Some(l) => l,
                None => return Err(TokenError::EoF),
            };
            let ghost s2 = bytes@;
            let nameoff = match bytes.consume_u32() {
                Some(o) => o,
                None => return Err(TokenError::EoF),
            };
            proof {
                assert(s2 =~= s1.subrange(4, s1.len() as int));
                assert(be_u32(s2) == be_u32(s1.subrange(4, 8)));
            }
            let ghost s3 = bytes@;
            let value = match bytes.take(len as usize) {
                Some(v) => v,
                None => return Err(TokenError::PropValue),
            };
            proof {
                assert(value@ =~= s1.subrange(8, 8 + be_u32(s1)));
            }
            let name = match string_at(strings, nameoff as usize) {
                Some(n) => n,
                None => return Err(TokenError::PropName),
            };
            proof {
                assert(s1 =~= s0.subrange(4, s0.len() as int));
                assert(s3 =~= s1.subrange(8, s1.len() as int));
                assert(bytes@ =~= s0.subrange(12 + padded_end(s3.len() as int, len as int), s0.len() as int));
            }
            assert(bytes@ =~= s0.subrange(s0.len() - bytes@.len(), s0.len() as int));
            Ok(Token::Prop(name, value))
        } else if tag == NOP {
            assert(bytes@ =~= s0.subrange(s0.len() - bytes@.len(), s0.len() as int));
            Ok(Token::Nop)
        } else if tag == END {
            assert(bytes@ =~= s0.subrange(s0.len() - bytes@.len(), s0.len() as int));
            Ok(Token::End)
        } else {
            Err(TokenError::InvalidToken(tag))
        }
    }
}

} // verus!
