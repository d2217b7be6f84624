//! Decoders for the values of well-known properties.

use vstd::prelude::*;
use crate::keys;
use crate::keys::PropertyKeys;
use crate::map::{compare_bytes, copy_bytes, MapKey, SortedMap};
use crate::node_name::{split_at_first, split_first};
use crate::parse::{c_str_of, be_u64, U32ByteSlice};

verus! {

/// Property values by property name.
pub type PropertyMap = SortedMap<Vec<u8>, U32ByteSlice>;

impl SortedMap<Vec<u8>, U32ByteSlice> {
    /// Adds the entries of `other` whose names this map does not hold; the
    /// entries this map holds are kept.
    pub fn extend_preserve(&mut self, other: &Self)
        requires
            old(self).wf(),
            other.wf(),
        ensures
            final(self).wf(),
            final(self)@.dom() == old(self)@.dom().union(other@.dom()),
            forall|k: Seq<u8>| old(self)@.contains_key(k) ==> final(self)@[k] == old(self)@[k],
            forall|k: Seq<u8>|
                !old(self)@.contains_key(k) && other@.contains_key(k) ==> final(self)@[k]@ == other@[k]@,
    {
        let entries = other.iter();
        proof {
            other.lemma_entries_in_view();
        }
        let mut i: usize = 0;
        while i < entries.len()
            invariant
                other.wf(),
                entries@ == other.entries(),
                i <= entries@.len(),
                self.wf(),
                forall|k: Seq<u8>| #[trigger] self@.contains_key(k) <==> (old(self)@.contains_key(k) || exists|j: int|
                    0 <= j < i && (#[trigger] entries@[j]).0@ == k),
                forall|k: Seq<u8>| old(self)@.contains_key(k) ==> self@[k] == old(self)@[k],
                forall|k: Seq<u8>|
                    !old(self)@.contains_key(k) && #[trigger] self@.contains_key(k) ==> self@[k]@ == other@[k]@,
                forall|j: int| 0 <= j < other.entries().len() ==> #[trigger] other@.contains_key(
                    other.entries()[j].0.key_view(),
                ) && other@[other.entries()[j].0.key_view()] == other.entries()[j].1,
                forall|k: Seq<u8>| other@.contains_key(k) <==> crate::map::has_key(other.entries(), k),
            decreases entries@.len() - i,
        {
            let (k, v) = &entries[i];
            if self.get(k).is_none() {
                let key = crate::map::copy_bytes(k.as_slice());
                let value = v.duplicate();
                let ghost before = self@;
                proof {
                    assert(other@.contains_key(other.entries()[i as int].0.key_view()));
                    assert(other.entries()[i as int].0.key_view() == k@);
                    assert(other@[k@] == entries@[i as int].1);
                }
                self.insert(key, value);
                proof {
                    assert(self@[k@]@ == other@[k@]@);
                    assert forall|q: Seq<u8>| #[trigger] self@.contains_key(q) <==> (old(self)@.contains_key(q) || exists|j: int|
                        0 <= j < i + 1 && (#[trigger] entries@[j]).0@ == q) by {
                        if q == k@ {
                            assert(entries@[i as int].0@ == q);
                        } else if exists|j: int| 0 <= j < i + 1 && (#[trigger] entries@[j]).0@ == q {
                            let j = choose|j: int| 0 <= j < i + 1 && (#[trigger] entries@[j]).0@ == q;
                            assert(j != i);
                        }
                    }
                }
            } else {
                proof {
                    assert forall|q: Seq<u8>| #[trigger] self@.contains_key(q) <==> (old(self)@.contains_key(q) || exists|j: int|
                        0 <= j < i + 1 && (#[trigger] entries@[j]).0@ == q) by {
                        if exists|j: int| 0 <= j < i + 1 && (#[trigger] entries@[j]).0@ == q {
                            let j = choose|j: int| 0 <= j < i + 1 && (#[trigger] entries@[j]).0@ == q;
                            if j == i {
                                assert(self@.contains_key(k@));
                            }
                        }
                    }
                }
            }
            i = i + 1;
        }
        proof {
            assert(final(self)@.dom() =~= old(self)@.dom().union(other@.dom())) by {
                assert forall|q: Seq<u8>| final(self)@.dom().contains(q) <==> old(self)@.dom().union(other@.dom()).contains(q) by {
                    if other@.contains_key(q) {
                        let j = choose|j: int| 0 <= j < other.entries().len() && #[trigger] other.entries()[j].0.key_view() == q;
                        assert(entries@[j].0@ == q);
                    }
                    if exists|j: int| 0 <= j < entries@.len() && (#[trigger] entries@[j]).0@ == q {
                        let j = choose|j: int| 0 <= j < entries@.len() && (#[trigger] entries@[j]).0@ == q;
                        assert(other@.contains_key(other.entries()[j].0.key_view()));
                    }
                }
            }
            assert forall|k: Seq<u8>|
                !old(self)@.contains_key(k) && other@.contains_key(k) implies final(self)@[k]@ == other@[k]@ by {
                assert(final(self)@.dom().contains(k));
            }
        }
    }
}

/// A model string: `manufacturer,model`, or any other string.
#[derive(Debug)]
pub enum Model {
    /// The parts before and after the first comma.
    ManufacturerModel(Vec<u8>, Vec<u8>),
    /// A string without a comma.
    Other(Vec<u8>),
}

/// Whether `m` is the model that the string `s` writes.
pub open spec fn model_of(m: Model, s: Seq<u8>) -> bool {
    match split_first(s, 0x2c) {
        Some((a, b)) => m matches Model::ManufacturerModel(x, y) && x@ == a && y@ == b,
        None => m matches Model::Other(x) && x@ == s,
    }
}

/// The non-empty strings of a list of NUL-terminated strings, in order: none
/// when the last string is not terminated.
pub open spec fn string_list(s: Seq<u8>) -> Option<Seq<Seq<u8>>>
    decreases s.len(),
{
    if s.len() == 0 {
        Some(Seq::empty())
    } else {
        match c_str_of(s) {
            None => None,
            Some(first) => {
                if first.len() + 1 <= s.len() {
                    match string_list(s.subrange(first.len() + 1int, s.len() as int)) {
                        None => None,
                        Some(rest) => if first.len() == 0 {
                            Some(rest)
                        } else {
                            Some(seq![first] + rest)
                        },
                    }
                } else {
                    None
                }
            },
        }
    }
}

/// `o` with `acc` put in front of the list it holds.
pub open spec fn prepend_strings(acc: Seq<Seq<u8>>, o: Option<Seq<Seq<u8>>>) -> Option<Seq<Seq<u8>>> {
    match o {
        None => None,
        Some(r) => Some(acc + r),
    }
}

impl Model {
    /// The model that the string `s` writes.
    pub fn from_c_str(s: &[u8]) -> (r: Model)
        ensures
            model_of(r, s@),
    {
        match split_at_first(s, 0x2c) {
            Some((a, b)) => Model::ManufacturerModel(copy_bytes(a), copy_bytes(b)),
            None => Model::Other(copy_bytes(s)),
        }
    }

    /// The models of a `compatible` value: a list of NUL-terminated strings,
    /// of which empty ones are skipped. `None` when the last one is not terminated.
    pub fn list_from(value: &U32ByteSlice) -> (r: Option<Vec<Model>>)
        ensures
            r.is_some() == string_list(value@).is_some(),
            r matches Some(v) ==> v@.len() == string_list(value@).unwrap().len() && forall|i: int|
                0 <= i < v@.len() ==> model_of(#[trigger] v@[i], string_list(value@).unwrap()[i]),
    {
        let mut rest = value.duplicate();
        let mut out: Vec<Model> = Vec::new();
        let ghost mut acc: Seq<Seq<u8>> = Seq::empty();
        while !rest.is_empty()
            invariant
                string_list(value@) == prepend_strings(acc, string_list(rest@)),
                out@.len() == acc.len(),
                forall|i: int| 0 <= i < out@.len() ==> model_of(#[trigger] out@[i], acc[i]),
            decreases rest@.len(),
        {
            let ghost before = rest@;
            let _n = rest.len_bytes();
            let s = match rest.to_c_str() {
                Some(s) => s,
                None => {
                    return None;
                },
            };
            proof {
                assert(exists|k: int| crate::parse::nul_at(before, k));
                let k = choose|k: int| crate::parse::nul_at(before, k);
                assert(s@.len() == k);
                assert(k < before.len());
            }
            rest.skip(s.len() + 1);
            proof {
                assert(before.len() > 0);
                assert(c_str_of(before) == Some(s@));
            }
            if s.len() > 0 {
                out.push(Model::from_c_str(s.as_slice()));
                proof {
                    assert(prepend_strings(acc, string_list(before)) == prepend_strings(
                        acc.push(s@),
                        string_list(rest@),
                    )) by {
                        match string_list(rest@) {
                            None => {},
                            Some(r) => {
                                assert(acc + (seq![s@] + r) =~= acc.push(s@) + r);
                            },
                        }
                    }
                    acc = acc.push(s@);
                }
            } else {
                proof {
                    assert(prepend_strings(acc, string_list(before)) == prepend_strings(acc, string_list(rest@)));
                }
            }
        }
        proof {
            assert(acc + Seq::<Seq<u8>>::empty() =~= acc);
        }
        Some(out)
    }
}

/// A `ranges` entry: a child bus address, the parent bus address it maps
/// to, and the length of the mapping.
#[derive(Debug, Clone, Copy, PartialEq, Eq)]
pub struct Range {
    pub child_address: u64,
    pub parent_address: u64,
    pub length: u64,
}

impl Range {
    /// The range of a decoded `(child, parent, length)` triple.
    pub fn from_triple(child_address: u64, parent_address: u64, length: u64) -> (r: Range)
        ensures
            r == (Range { child_address, parent_address, length }),
    {
        Range { child_address, parent_address, length }
    }
}

/// The operational status of a device.
#[derive(Debug)]
pub enum Status {
    Okay,
    Disabled,
    Reserved,
    /// Not operational; the bytes after `fail-`, if any, give the condition.
    Fail(Option<Vec<u8>>),
}

/// Errors from decoding a `status` value.
#[derive(Debug, Clone, Copy, PartialEq, Eq)]
pub enum StatusError {
    /// The value is not a NUL-terminated string.
    NotCStr,
    /// The string is none of the defined values.
    InvalidValue,
}

/// Whether the string `s` is a valid status, and `st` the status it names.
pub open spec fn status_of(st: Status, s: Seq<u8>) -> bool {
    if s.len() >= 4 && s.subrange(0, 4) == keys::word_fail() {
        if s.len() == 4 {
            st matches Status::Fail(None)
        } else {
            s[4] == 0x2d && (st matches Status::Fail(Some(c)) && c@ == s.subrange(5, s.len() as int))
        }
    } else if s == keys::word_okay() {
        st matches Status::Okay
    } else if s == keys::word_disabled() {
        st matches Status::Disabled
    } else if s == keys::word_reserved() {
        st matches Status::Reserved
    } else {
        false
    }
}

/// Whether the string `s` is a valid status.
pub open spec fn status_valid(s: Seq<u8>) -> bool {
    if s.len() >= 4 && s.subrange(0, 4) == keys::word_fail() {
        s.len() == 4 || s[4] == 0x2d
    } else {
        s == keys::word_okay() || s == keys::word_disabled() || s == keys::word_reserved()
    }
}

/// Whether `s` holds the bytes `w`.
fn is_word(s: &[u8], w: Vec<u8>) -> (r: bool)
    ensures
        r == (s@ == w@),
{
    compare_bytes(s, w.as_slice()) == 0
}

impl Status {
    /// Decodes a `status` value.
    pub fn try_from(value: &U32ByteSlice) -> (r: Result<Status, StatusError>)
        ensures
            c_str_of(value@).is_none() <==> r == Err::<Status, StatusError>(StatusError::NotCStr),
            c_str_of(value@) matches Some(s) ==> (r matches Ok(st) <==> status_valid(s)) && (r matches Ok(
                st,
            ) ==> status_of(st, s)) && (!status_valid(s) ==> r == Err::<Status, StatusError>(
                StatusError::InvalidValue,
            )),
    {
        let s = match value.to_c_str() {
            Some(s) => s,
            None => return Err(StatusError::NotCStr),
        };
        let n = s.len();
        if n >= 4 && s[0] == 102 && s[1] == 97 && s[2] == 105 && s[3] == 108 {
            assert(s@.subrange(0, 4) =~= keys::word_fail());
            if n == 4 {
                return Ok(Status::Fail(None));
            }
            if s[4] == 0x2d {
                let code = copy_bytes(&s.as_slice()[5..n]);
                return Ok(Status::Fail(Some(code)));
            }
            return Err(StatusError::InvalidValue);
        }
        assert(!(s@.len() >= 4 && s@.subrange(0, 4) == keys::word_fail())) by {
            if s@.len() >= 4 && s@.subrange(0, 4) == keys::word_fail() {
                assert(s@[0] == s@.subrange(0, 4)[0]);
                assert(s@[1] == s@.subrange(0, 4)[1]);
                assert(s@[2] == s@.subrange(0, 4)[2]);
                assert(s@[3] == s@.subrange(0, 4)[3]);
            }
        }
        if is_word(s.as_slice(), keys::okay_word()) {
            Ok(Status::Okay)
        } else if is_word(s.as_slice(), keys::disabled_word()) {
            Ok(Status::Disabled)
        } else if is_word(s.as_slice(), keys::reserved_word()) {
            Ok(Status::Reserved)
        } else {
            Err(StatusError::InvalidValue)
        }
    }
}

/// How a disabled CPU is started.
#[derive(Debug)]
pub enum EnableMethod {
    /// The spin-table method, with the CPU's release address.
    SpinTable(u64),
    /// A vendor's own method: `vendor,method`.
    VendorSpecific(Vec<u8>, Vec<u8>),
}

/// Errors from decoding an `enable-method` property.
#[derive(Debug, Clone, Copy, PartialEq, Eq)]
pub enum EnableMethodError {
    /// The property is absent.
    NotPresent,
    /// The method is `spin-table` but no valid `cpu-release-addr` is given.
    NoReleaseAddr,
    /// The value is malformed.
    Invalid,
}

/// Whether the properties `p` give a valid enable method: a string that is
/// `spin-table` with a 64-bit `cpu-release-addr`, or holds exactly one comma.
pub open spec fn enable_method_valid(p: vstd::map::Map<Seq<u8>, U32ByteSlice>) -> bool {
    &&& p.contains_key(keys::key_enable_method())
    &&& c_str_of(p[keys::key_enable_method()]@) matches Some(s)
    &&& if s == keys::word_spin_table() {
        p.contains_key(keys::key_cpu_release_addr()) && p[keys::key_cpu_release_addr()]@.len() == 8
    } else {
        comma_count(s) == 1
    }
}

/// The number of commas in `s`.
pub open spec fn comma_count(s: Seq<u8>) -> nat
    decreases s.len(),
{
    if s.len() == 0 {
        0
    } else {
        comma_count(s.drop_last()) + if s.last() == 0x2c { 1nat } else { 0nat }
    }
}

/// The enable method that the properties `props` give, if valid:
/// `Ok(None)` for a spin table whose release address is `addr`; the
/// vendor-specific parts otherwise.
pub open spec fn enable_method_of(m: EnableMethod, s: Seq<u8>, release: Option<Seq<u8>>) -> bool {
    if s == keys::word_spin_table() {
        (release matches Some(a) && a.len() == 8 && m == EnableMethod::SpinTable(be_u64(a) as u64))
    } else {
        comma_count(s) == 1 && (m matches EnableMethod::VendorSpecific(v, x) && split_first(s, 0x2c)
            == Some((v@, x@)))
    }
}

proof fn lemma_no_comma(s: Seq<u8>)
    requires
        comma_count(s) == 0,
    ensures
        forall|i: int| 0 <= i < s.len() ==> s[i] != 0x2c,
    decreases s.len(),
{
    if s.len() > 0 {
        lemma_no_comma(s.drop_last());
        assert forall|i: int| 0 <= i < s.len() implies s[i] != 0x2c by {
            if i < s.len() - 1 {
                assert(s.drop_last()[i] == s[i]);
            }
        }
    }
}

proof fn lemma_comma_found(s: Seq<u8>)
    requires
        comma_count(s) > 0,
    ensures
        split_first(s, 0x2c) is Some,
    decreases s.len(),
{
    assert(s.len() > 0);
    let t = s.drop_last();
    assert(forall|j: int| 0 <= j < t.len() ==> s[j] == t[j]);
    if comma_count(t) > 0 {
        lemma_comma_found(t);
        let i = choose|i: int| crate::node_name::first_at(t, 0x2c, i);
        assert(crate::node_name::first_at(s, 0x2c, i));
    } else {
        lemma_no_comma(t);
        assert(s.last() == 0x2c);
        assert(s[s.len() - 1] == s.last());
        assert(crate::node_name::first_at(s, 0x2c, s.len() - 1));
    }
}

/// Counts the commas in `s`.
fn count_commas(s: &[u8]) -> (r: usize)
    ensures
        r == comma_count(s@),
{
    let mut n: usize = 0;
    let mut i: usize = 0;
    while i < s.len()
        invariant
            i <= s@.len(),
            n == comma_count(s@.subrange(0, i as int)),
            n <= i,
        decreases s@.len() - i,
    {
        assert(s@.subrange(0, i + 1).drop_last() =~= s@.subrange(0, i as int));
        if s[i] == 0x2c {
            n = n + 1;
        }
        i = i + 1;
    }
    assert(s@.subrange(0, s@.len() as int) =~= s@);
    n
}

impl EnableMethod {
    /// Removes `enable-method` from `properties` and decodes it; for a spin
    /// table, also removes `cpu-release-addr` and reads it.
    pub fn extract_from_properties(properties: &mut PropertyMap) -> (r: Result<
        EnableMethod,
        EnableMethodError,
    >)
        requires
            old(properties).wf(),
        ensures
            final(properties).wf(),
            !old(properties)@.contains_key(keys::key_enable_method()) ==> r == Err::<
                EnableMethod,
                EnableMethodError,
            >(EnableMethodError::NotPresent) && final(properties)@ == old(properties)@,
            old(properties)@.contains_key(keys::key_enable_method()) ==> (r matches Err(e) ==> e
                != EnableMethodError::NotPresent),
            r matches Ok(m) ==> c_str_of(old(properties)@[keys::key_enable_method()]@) matches Some(s)
                && enable_method_of(
                m,
                s,
                if old(properties)@.contains_key(keys::key_cpu_release_addr()) {
                    Some(old(properties)@[keys::key_cpu_release_addr()]@)
                } else {
                    None
                },
            ),
            r is Ok <==> enable_method_valid(old(properties)@),
            r == Err::<EnableMethod, EnableMethodError>(EnableMethodError::NoReleaseAddr) <==> (
            old(properties)@.contains_key(keys::key_enable_method()) && c_str_of(
                old(properties)@[keys::key_enable_method()]@,
            ) == Some(keys::word_spin_table()) && !(old(properties)@.contains_key(keys::key_cpu_release_addr())
                && old(properties)@[keys::key_cpu_release_addr()]@.len() == 8)),
            final(properties)@.remove(keys::key_cpu_release_addr()) == old(properties)@.remove(
                keys::key_enable_method(),
            ).remove(keys::key_cpu_release_addr()),
    {
        let bytes = match properties.remove(&PropertyKeys::enable_method()) {
            Some(b) => b,
            None => {
                assert(final(properties)@ =~= old(properties)@);
                return Err(EnableMethodError::NotPresent);
            },
        };
        let method = match bytes.to_c_str() {
            Some(m) => m,
            None => {
                proof {
                    assert(final(properties)@.remove(keys::key_cpu_release_addr()) =~= old(properties)@.remove(
                        keys::key_enable_method()).remove(keys::key_cpu_release_addr()));
                }
                return Err(EnableMethodError::Invalid);
            },
        };
        if is_word(method.as_slice(), keys::spin_table_word()) {
            let addr = properties.remove(&PropertyKeys::cpu_release_addr());
            proof {
                assert(final(properties)@.remove(keys::key_cpu_release_addr()) =~= old(properties)@.remove(
                    keys::key_enable_method()).remove(keys::key_cpu_release_addr()));
            }
            return match addr {
                Some(a) => match a.try_into_u64() {
                    Ok(x) => Ok(EnableMethod::SpinTable(x)),
                    Err(_) => Err(EnableMethodError::NoReleaseAddr),
                },
                None => Err(EnableMethodError::NoReleaseAddr),
            };
        }
        proof {
            assert(final(properties)@.remove(keys::key_cpu_release_addr()) =~= old(properties)@.remove(
                keys::key_enable_method()).remove(keys::key_cpu_release_addr()));
        }
        if count_commas(method.as_slice()) != 1 {
            return Err(EnableMethodError::Invalid);
        }
        proof {
            lemma_comma_found(method@);
        }
        match split_at_first(method.as_slice(), 0x2c) {
            Some((vendor, vendor_method)) => Ok(EnableMethod::VendorSpecific(copy_bytes(vendor), copy_bytes(vendor_method))),
            None => Err(EnableMethodError::Invalid),
        }
    }
}

/// The form factor of the system.
#[derive(Debug, Clone, Copy, PartialEq, Eq)]
pub enum ChassisType {
    Desktop,
    Laptop,
    Convertible,
    Server,
    Tablet,
    Handset,
    Watch,
    Embedded,
}

/// Errors from decoding `chassis-type`.
#[derive(Debug, Clone, Copy, PartialEq, Eq)]
pub enum ChassisError {
    /// The value is not a NUL-terminated string.
    CStr,
    /// The string is none of the defined form factors.
    Invalid,
}

/// The form factor that the string `s` names, if any.
pub open spec fn chassis_of(s: Seq<u8>) -> Option<ChassisType> {
    if s == keys::word_desktop() {
        Some(ChassisType::Desktop)
    } else if s == keys::word_laptop() {
        Some(ChassisType::Laptop)
    } else if s == keys::word_convertible() {
        Some(ChassisType::Convertible)
    } else if s == keys::word_server() {
        Some(ChassisType::Server)
    } else if s == keys::word_tablet() {
        Some(ChassisType::Tablet)
    } else if s == keys::word_handset() {
        Some(ChassisType::Handset)
    } else if s == keys::word_watch() {
        Some(ChassisType::Watch)
    } else if s == keys::word_embedded() {
        Some(ChassisType::Embedded)
    } else {
        None
    }
}

impl ChassisType {
    /// Decodes a `chassis-type` value.
    pub fn try_from(value: &U32ByteSlice) -> (r: Result<ChassisType, ChassisError>)
        ensures
            c_str_of(value@).is_none() ==> r == Err::<ChassisType, ChassisError>(ChassisError::CStr),
            c_str_of(value@) matches Some(s) ==> r == match chassis_of(s) {
                Some(c) => Ok(c),
                None => Err::<ChassisType, ChassisError>(ChassisError::Invalid),
            },
    {
        let s = match value.to_c_str() {
            Some(s) => s,
            None => return Err(ChassisError::CStr),
        };
        let b = s.as_slice();
        if is_word(b, keys::desktop_word()) {
            Ok(ChassisType::Desktop)
        } else if is_word(b, keys::laptop_word()) {
            Ok(ChassisType::Laptop)
        } else if is_word(b, keys::convertible_word()) {
            Ok(ChassisType::Convertible)
        } else if is_word(b, keys::server_word()) {
            Ok(ChassisType::Server)
        } else if is_word(b, keys::tablet_word()) {
            Ok(ChassisType::Tablet)
        } else if is_word(b, keys::handset_word()) {
            Ok(ChassisType::Handset)
        } else if is_word(b, keys::watch_word()) {
            Ok(ChassisType::Watch)
        } else if is_word(b, keys::embedded_word()) {
            Ok(ChassisType::Embedded)
        } else {
            Err(ChassisError::Invalid)
        }
    }
}

} // verus!
