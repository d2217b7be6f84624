//! The `/chosen` node: parameters that the firmware chose.

use vstd::prelude::*;
use crate::keys;
use crate::keys::PropertyKeys;
use crate::node::root;
use crate::parse::{c_str_of, Warning};
use crate::property::PropertyMap;
use crate::raw::RawNode;

verus! {

/// Parameters chosen at boot.
#[derive(Debug)]
pub struct Chosen {
    boot_args: Option<Vec<u8>>,
    stdout: Option<usize>,
    stdin: Option<usize>,
    miscellaneous: PropertyMap,
}

/// Errors from decoding `/chosen`.
#[derive(Debug)]
pub enum Error {
    /// `bootargs` is not a terminated string.
    BootArg,
    /// `stdout-path` is not a terminated string.
    StdoutPathInvalid,
    /// `stdout-path` names no node: the path.
    StdoutDanglingPath(Vec<u8>),
    /// `stdin-path` is not a terminated string.
    StdinPathInvalid,
    /// `stdin-path` names no node: the path.
    StdinDanglingPath(Vec<u8>),
}

/// A place as an integer.
pub open spec fn opt_int(o: Option<usize>) -> Option<int> {
    match o {
        Some(i) => Some(i as int),
        None => None,
    }
}

/// What a path property of `/chosen` gives: absent, a device, or dangling.
pub open spec fn chosen_path(props: vstd::map::Map<Seq<u8>, crate::parse::U32ByteSlice>, key: Seq<u8>, root: root::Node) -> Option<Option<int>> {
    if !props.contains_key(key) {
        Some(None)
    } else {
        match c_str_of(props[key]@) {
            None => None,
            Some(p) => match root.resolve(p) {
                Some(i) => Some(Some(i)),
                None => None,
            },
        }
    }
}

impl Chosen {
    pub closed spec fn spec_stdout(&self) -> Option<usize> {
        self.stdout
    }

    pub closed spec fn spec_stdin(&self) -> Option<usize> {
        self.stdin
    }

    pub closed spec fn spec_boot_args(&self) -> Option<Seq<u8>> {
        match self.boot_args {
            Some(v) => Some(v@),
            None => None,
        }
    }

    pub closed spec fn spec_properties(&self) -> PropertyMap {
        self.miscellaneous
    }

    /// Removes the path property `key` and resolves it in `root`.
    fn resolve_property(properties: &mut PropertyMap, key: Vec<u8>, root: &root::Node) -> (r: Result<Option<usize>, Option<Vec<u8>>>)
        requires
            old(properties).wf(),
            root.wf(),
        ensures
            final(properties).wf(),
            final(properties)@ == old(properties)@.remove(key@),
            !old(properties)@.contains_key(key@) ==> r == Ok::<Option<usize>, Option<Vec<u8>>>(None),
            old(properties)@.contains_key(key@) ==> match c_str_of(old(properties)@[key@]@) {
                None => r == Err::<Option<usize>, Option<Vec<u8>>>(None),
                Some(p) => match root.resolve(p) {
                    Some(i) => r matches Ok(Some(j)) && j as int == i,
                    None => r matches Err(Some(v)) && v@ == p,
                },
            },
    {
        match properties.remove(&key) {
            None => Ok(None),
            Some(bytes) => match bytes.to_c_str() {
                None => Err(None),
                Some(p) => match root.find_str(p.as_slice()) {
                    Some(i) => Ok(Some(i)),
                    None => Err(Some(p)),
                },
            },
        }
    }

    /// Decodes `/chosen`, resolving its paths in `root`. A path that names no
    /// node fails the decode; properties that are not recognised are kept,
    /// with a warning.
    pub fn from_node(chosen: RawNode, root: &root::Node, warnings: &mut Vec<Warning>) -> (r: Result<Chosen, Error>)
        requires
            chosen.wf(),
            root.wf(),
        ensures
            old(warnings)@.is_prefix_of(final(warnings)@),
            chosen.properties@.contains_key(keys::key_stdout_path()) && (c_str_of(chosen.properties@[keys::key_stdout_path()]@) matches Some(p)
                && root.resolve(p) is None) ==> r is Err,
            chosen.properties@.contains_key(keys::key_stdin_path()) && (c_str_of(chosen.properties@[keys::key_stdin_path()]@) matches Some(p)
                && root.resolve(p) is None) ==> r is Err,
            ({
                let p = chosen.properties@;
                let boot_ok = !p.contains_key(keys::key_bootargs()) || c_str_of(p[keys::key_bootargs()]@) is Some;
                let out_ok = chosen_path(p, keys::key_stdout_path(), *root) is Some;
                &&& r is Ok <==> (boot_ok && out_ok && chosen_path(p, keys::key_stdin_path(), *root) is Some)
                &&& !boot_ok ==> r == Err::<Chosen, Error>(Error::BootArg)
                &&& boot_ok && p.contains_key(keys::key_stdout_path()) && c_str_of(p[keys::key_stdout_path()]@) is None
                    ==> r == Err::<Chosen, Error>(Error::StdoutPathInvalid)
                &&& boot_ok && p.contains_key(keys::key_stdout_path()) && (c_str_of(p[keys::key_stdout_path()]@) matches Some(x)
                    && root.resolve(x) is None) ==> (r matches Err(Error::StdoutDanglingPath(v)) && v@ == c_str_of(p[keys::key_stdout_path()]@)->Some_0)
                &&& boot_ok && out_ok && p.contains_key(keys::key_stdin_path()) && c_str_of(p[keys::key_stdin_path()]@) is None
                    ==> r == Err::<Chosen, Error>(Error::StdinPathInvalid)
                &&& boot_ok && out_ok && p.contains_key(keys::key_stdin_path()) && (c_str_of(p[keys::key_stdin_path()]@) matches Some(x)
                    && root.resolve(x) is None) ==> (r matches Err(Error::StdinDanglingPath(v)) && v@ == c_str_of(p[keys::key_stdin_path()]@)->Some_0)
                &&& r matches Ok(c) ==> c.spec_boot_args() == (if p.contains_key(keys::key_bootargs()) {
                    c_str_of(p[keys::key_bootargs()]@)
                } else {
                    None
                })
                &&& r matches Ok(c) ==> c.spec_properties()@ == p.remove(keys::key_bootargs()).remove(keys::key_stdout_path()).remove(
                    keys::key_stdin_path())
                &&& r matches Ok(c) ==> final(warnings)@ == old(warnings)@ + (if c.spec_properties()@ == vstd::map::Map::<Seq<u8>, crate::parse::U32ByteSlice>::empty() {
                    Seq::<Warning>::empty()
                } else {
                    seq![Warning::UnusedChosenProperties]
                })
            }),
            r matches Ok(c) ==> chosen_path(chosen.properties@, keys::key_stdout_path(), *root) == Some(opt_int(c.spec_stdout()))
                && (chosen.properties@.contains_key(keys::key_stdin_path()) ==> chosen_path(chosen.properties@, keys::key_stdin_path(), *root) == Some(opt_int(c.spec_stdin())))
                && (!chosen.properties@.contains_key(keys::key_stdin_path()) ==> c.spec_stdin() == c.spec_stdout()),
    {
        let mut chosen = chosen;
        proof {
            keys::lemma_chosen_keys_distinct();
        }
        let boot_args = match chosen.properties.remove(&PropertyKeys::bootargs()) {
            Some(bytes) => match bytes.to_c_str() {
                Some(s) => Some(s),
                None => return Err(Error::BootArg),
            },
            None => None,
        };
        let stdout = match Chosen::resolve_property(&mut chosen.properties, PropertyKeys::stdout_path(), root) {
            Ok(o) => o,
            Err(None) => return Err(Error::StdoutPathInvalid),
            Err(Some(p)) => return Err(Error::StdoutDanglingPath(p)),
        };
        let stdin = match Chosen::resolve_property(&mut chosen.properties, PropertyKeys::stdin_path(), root) {
            Ok(Some(i)) => Some(i),
            Ok(None) => stdout,
            Err(None) => return Err(Error::StdinPathInvalid),
            Err(Some(p)) => return Err(Error::StdinDanglingPath(p)),
        };
        if !chosen.properties.is_empty() {
            warnings.push(Warning::UnusedChosenProperties);
        } else {
            assert(old(warnings)@ + Seq::<Warning>::empty() =~= old(warnings)@);
        }
        proof {
            assert(warnings@.subrange(0, old(warnings)@.len() as int) =~= old(warnings)@);
        }
        Ok(Chosen { boot_args, stdout, stdin, miscellaneous: chosen.properties })
    }

    /// The boot arguments, if given.
    pub fn boot_args(&self) -> (r: Option<&Vec<u8>>)
        ensures
            r.is_some() == self.spec_boot_args().is_some(),
            r matches Some(v) ==> self.spec_boot_args() == Some(v@),
    {
        self.boot_args.as_ref()
    }

    /// The place of the console output device, if given.
    pub fn stdout(&self) -> (r: Option<usize>)
        ensures
            r == self.spec_stdout(),
    {
        self.stdout
    }

    /// The place of the console input device: `stdout` when not given.
    pub fn stdin(&self) -> (r: Option<usize>)
        ensures
            r == self.spec_stdin(),
    {
        self.stdin
    }

    /// The properties that were not recognised.
    pub fn properties(&self) -> (r: &PropertyMap)
        ensures
            *r == self.spec_properties(),
    {
        &self.miscellaneous
    }
}

} // verus!
