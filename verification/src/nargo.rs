//! Core identifier types: the compact package id, target kinds and crate
//! types.

use vstd::prelude::*;
use vstd::string::StringSliceAdditionalSpecFns;

use crate::bytes;
use crate::error::{Error, ErrorKind};

verus! {

/// A compact package id: a strict substring of the resolver's own verbose
/// package id. It is the primary key of the canonical graph.
#[derive(Clone, Debug, PartialEq, Eq)]
pub struct PkgId(pub Vec<u8>);

impl View for PkgId {
    type V = Seq<u8>;

    open spec fn view(&self) -> Seq<u8> {
        self.0@
    }
}

/// The scheme that marks a local filesystem package id.
pub open spec fn spec_path_file_prefix() -> Seq<u8> {
    "path+file://".spec_bytes()
}

/// The well-known default-registry prefix of a package id.
pub open spec fn spec_crates_io_registry() -> Seq<u8> {
    "registry+https://github.com/rust-lang/crates.io-index".spec_bytes()
}

/// The canonical compact id for a verbose package id under a given build
/// root, or `None` where no canonical id exists: a local-filesystem id that
/// does not lie under the root, or one without a `#` fragment.
pub open spec fn spec_canon_pkg_id(id: Seq<u8>, root: Seq<u8>) -> Option<Seq<u8>> {
    if spec_path_file_prefix().is_prefix_of(id) {
        let rest = id.skip(spec_path_file_prefix().len() as int);
        if !root.is_prefix_of(rest) {
            None
        } else {
            let rest2 = rest.skip(root.len() as int);
            match bytes::find_last(rest2, '#' as u8) {
                None => None,
                Some(h) => {
                    let path = rest2.take(h);
                    let frag = rest2.skip(h + 1);
                    match bytes::find_first(frag, '@' as u8) {
                        // The fragment is `name@version`: the name alone is
                        // the id (a workspace package addressed by name).
                        Some(a) => Some(frag.take(a)),
                        // Otherwise the name is the last path segment.
                        None => match bytes::find_last(path, '/' as u8) {
                            Some(sl) => Some(path.skip(sl + 1)),
                            None => Some(path),
                        },
                    }
                },
            }
        }
    } else if spec_crates_io_registry().is_prefix_of(id) {
        // Strip the fixed prefix; the `name@version` remainder is the id.
        Some(bytes::skip_leading(id.skip(spec_crates_io_registry().len() as int), '#' as u8))
    } else {
        // Any other id (for example a version-controlled source) already
        // uniquely encodes locator, name and revision: used unchanged.
        Some(id)
    }
}

impl PkgId {
    /// Compact a verbose resolver package id. Fails, with an
    /// internal-inconsistency error, exactly where no canonical id exists.
    ///
    /// The result is a pure function of the two arguments, so the mapping is
    /// stable across runs on unchanged inputs.
    pub fn try_from_cargo_pkg_id_spec(id: &[u8], workspace_root: &[u8]) -> (r: Result<
        PkgId,
        Error,
    >)
        ensures
            match r {
                Ok(p) => spec_canon_pkg_id(id@, workspace_root@) == Some(p@),
                Err(e) => spec_canon_pkg_id(id@, workspace_root@) is None && e.kind
                    == ErrorKind::Inconsistent,
            },
    {
        let pp = bytes::lit("path+file://");
        if bytes::starts_with(id, pp.as_slice()) {
            let rest = bytes::copy_range(id, pp.len(), id.len());
            proof {
                assert(rest@ =~= id@.skip(spec_path_file_prefix().len() as int));
            }
            if !bytes::starts_with(rest.as_slice(), workspace_root) {
                return Err(Error::from_display(
                    "package id with a local-filesystem scheme does not lie under the build root",
                ).with_kind(ErrorKind::Inconsistent));
            }
            let rest2 = bytes::copy_range(rest.as_slice(), workspace_root.len(), rest.len());
            proof {
                assert(rest2@ =~= rest@.skip(workspace_root@.len() as int));
            }
            match bytes::rfind_byte(rest2.as_slice(), '#' as u8) {
                None => {
                    proof {
                        bytes::lemma_find_last_none(rest2@, '#' as u8);
                    }
                    Err(Error::from_display(
                        "local-filesystem package id has no version fragment",
                    ).with_kind(ErrorKind::Inconsistent))
                },
                Some(h) => {
                    proof {
                        bytes::lemma_find_last_unique(rest2@, '#' as u8, h as int);
                    }
                    let path = bytes::copy_range(rest2.as_slice(), 0, h);
                    let frag = bytes::copy_range(rest2.as_slice(), h + 1, rest2.len());
                    proof {
                        assert(path@ =~= rest2@.take(h as int));
                        assert(frag@ =~= rest2@.skip(h + 1 as int));
                    }
                    match bytes::find_byte(frag.as_slice(), '@' as u8) {
                        Some(a) => {
                            proof {
                                bytes::lemma_find_first_unique(frag@, '@' as u8, a as int);
                            }
                            let name = bytes::copy_range(frag.as_slice(), 0, a);
                            proof {
                                assert(name@ =~= frag@.take(a as int));
                            }
                            Ok(PkgId(name))
                        },
                        None => {
                            proof {
                                bytes::lemma_find_first_none(frag@, '@' as u8);
                            }
                            match bytes::rfind_byte(path.as_slice(), '/' as u8) {
                                Some(sl) => {
                                    proof {
                                        bytes::lemma_find_last_unique(path@, '/' as u8, sl as int);
                                    }
                                    let name = bytes::copy_range(
                                        path.as_slice(),
                                        sl + 1,
                                        path.len(),
                                    );
                                    proof {
                                        assert(name@ =~= path@.skip(sl + 1 as int));
                                    }
                                    Ok(PkgId(name))
                                },
                                None => {
                                    proof {
                                        bytes::lemma_find_last_none(path@, '/' as u8);
                                    }
                                    Ok(PkgId(path))
                                },
                            }
                        },
                    }
                },
            }
        } else {
            let reg = bytes::lit("registry+https://github.com/rust-lang/crates.io-index");
            if bytes::starts_with(id, reg.as_slice()) {
                let rest = bytes::copy_range(id, reg.len(), id.len());
                proof {
                    assert(rest@ =~= id@.skip(spec_crates_io_registry().len() as int));
                }
                let trimmed = bytes::trim_leading(rest.as_slice(), '#' as u8);
                Ok(PkgId(trimmed))
            } else {
                let copy = bytes::copy_range(id, 0, id.len());
                proof {
                    assert(copy@ =~= id@);
                }
                Ok(PkgId(copy))
            }
        }
    }
}

/// A package target kind, with examples split by the artifact they build.
#[derive(Copy, Clone, Debug, PartialEq, Eq, Structural)]
pub enum TargetKind {
    Lib,
    Bin,
    Test,
    Bench,
    ExampleBin,
    ExampleLib,
    CustomBuild,
}

impl TargetKind {
    /// The serialized name of this kind.
    pub open spec fn spec_str_bytes(self) -> Seq<u8> {
        match self {
            TargetKind::Lib => "lib".spec_bytes(),
            TargetKind::Bin => "bin".spec_bytes(),
            TargetKind::Test => "test".spec_bytes(),
            TargetKind::Bench => "bench".spec_bytes(),
            TargetKind::ExampleBin => "example-bin".spec_bytes(),
            TargetKind::ExampleLib => "example-lib".spec_bytes(),
            TargetKind::CustomBuild => "custom-build".spec_bytes(),
        }
    }

    pub fn as_str(&self) -> (r: &'static str)
        ensures
            r.spec_bytes() == self.spec_str_bytes(),
    {
        match self {
            TargetKind::Lib => "lib",
            TargetKind::Bin => "bin",
            TargetKind::Test => "test",
            TargetKind::Bench => "bench",
            TargetKind::ExampleBin => "example-bin",
            TargetKind::ExampleLib => "example-lib",
            TargetKind::CustomBuild => "custom-build",
        }
    }

    /// Which kind a serialized name denotes, if any.
    pub open spec fn spec_from_str(s: Seq<u8>) -> Option<TargetKind> {
        if s == "lib".spec_bytes() {
            Some(TargetKind::Lib)
        } else if s == "bin".spec_bytes() {
            Some(TargetKind::Bin)
        } else if s == "test".spec_bytes() {
            Some(TargetKind::Test)
        } else if s == "bench".spec_bytes() {
            Some(TargetKind::Bench)
        } else if s == "example-bin".spec_bytes() {
            Some(TargetKind::ExampleBin)
        } else if s == "example-lib".spec_bytes() {
            Some(TargetKind::ExampleLib)
        } else if s == "custom-build".spec_bytes() {
            Some(TargetKind::CustomBuild)
        } else {
            None
        }
    }

    pub fn from_str(s: &[u8]) -> (r: Result<TargetKind, Error>)
        ensures
            match r {
                Ok(k) => Self::spec_from_str(s@) == Some(k),
                Err(e) => Self::spec_from_str(s@) is None && e.kind == ErrorKind::Parse,
            },
    {
        if bytes::bytes_eq(s, bytes::lit("lib").as_slice()) {
            Ok(TargetKind::Lib)
        } else if bytes::bytes_eq(s, bytes::lit("bin").as_slice()) {
            Ok(TargetKind::Bin)
        } else if bytes::bytes_eq(s, bytes::lit("test").as_slice()) {
            Ok(TargetKind::Test)
        } else if bytes::bytes_eq(s, bytes::lit("bench").as_slice()) {
            Ok(TargetKind::Bench)
        } else if bytes::bytes_eq(s, bytes::lit("example-bin").as_slice()) {
            Ok(TargetKind::ExampleBin)
        } else if bytes::bytes_eq(s, bytes::lit("example-lib").as_slice()) {
            Ok(TargetKind::ExampleLib)
        } else if bytes::bytes_eq(s, bytes::lit("custom-build").as_slice()) {
            Ok(TargetKind::CustomBuild)
        } else {
            Err(Error::from_display("invalid target kind").with_kind(ErrorKind::Parse))
        }
    }

    /// The target kind denoted by the resolver's target `kind` and
    /// `crate_types` lists, or `None` where a list it must read is empty.
    pub open spec fn spec_from_cargo_kind(kinds: Seq<Seq<u8>>, crate_types: Seq<Seq<u8>>) -> Option<
        TargetKind,
    > {
        if kinds.len() == 0 {
            None
        } else if kinds[0] == "bench".spec_bytes() {
            Some(TargetKind::Bench)
        } else if kinds[0] == "bin".spec_bytes() {
            Some(TargetKind::Bin)
        } else if kinds[0] == "custom-build".spec_bytes() {
            Some(TargetKind::CustomBuild)
        } else if kinds[0] == "test".spec_bytes() {
            Some(TargetKind::Test)
        } else if kinds[0] == "example".spec_bytes() {
            if crate_types.len() == 0 {
                None
            } else if crate_types[0] == "bin".spec_bytes() {
                Some(TargetKind::ExampleBin)
            } else {
                Some(TargetKind::ExampleLib)
            }
        } else {
            Some(TargetKind::Lib)
        }
    }

    /// Parse the kind from the resolver's serialized target `kind` and
    /// `crate_types`.
    pub fn try_from_cargo_kind(kinds: &Vec<Vec<u8>>, crate_types: &Vec<Vec<u8>>) -> (r: Result<
        TargetKind,
        Error,
    >)
        ensures
            match r {
                Ok(k) => Self::spec_from_cargo_kind(kinds.deep_view(), crate_types.deep_view())
                    == Some(k),
                Err(e) => Self::spec_from_cargo_kind(kinds.deep_view(), crate_types.deep_view())
                    is None && e.kind == ErrorKind::Parse,
            },
    {
        if kinds.len() == 0 {
            return Err(Error::from_display("empty target kind list").with_kind(ErrorKind::Parse));
        }
        let k0 = &kinds[0];
        proof {
            assert(kinds.deep_view()[0] == k0@);
        }
        if bytes::bytes_eq(k0.as_slice(), bytes::lit("bench").as_slice()) {
            Ok(TargetKind::Bench)
        } else if bytes::bytes_eq(k0.as_slice(), bytes::lit("bin").as_slice()) {
            Ok(TargetKind::Bin)
        } else if bytes::bytes_eq(k0.as_slice(), bytes::lit("custom-build").as_slice()) {
            Ok(TargetKind::CustomBuild)
        } else if bytes::bytes_eq(k0.as_slice(), bytes::lit("test").as_slice()) {
            Ok(TargetKind::Test)
        } else if bytes::bytes_eq(k0.as_slice(), bytes::lit("example").as_slice()) {
            if crate_types.len() == 0 {
                return Err(Error::from_display("empty target crate-type list").with_kind(
                    ErrorKind::Parse,
                ));
            }
            let c0 = &crate_types[0];
            proof {
                assert(crate_types.deep_view()[0] == c0@);
            }
            if bytes::bytes_eq(c0.as_slice(), bytes::lit("bin").as_slice()) {
                Ok(TargetKind::ExampleBin)
            } else {
                Ok(TargetKind::ExampleLib)
            }
        } else {
            Ok(TargetKind::Lib)
        }
    }
}

/// The kinds of output artifact a compiler can emit for a target.
#[derive(Copy, Clone, Debug, PartialEq, Eq, Structural)]
pub enum CrateType {
    Bin,
    Lib,
    Rlib,
    Dylib,
    Cdylib,
    Staticlib,
    ProcMacro,
}

impl CrateType {
    /// Whether link-time optimization can be performed for this crate type.
    pub fn can_lto(&self) -> (r: bool)
        ensures
            r == (self is Bin || self is Staticlib || self is Cdylib),
    {
        match self {
            CrateType::Bin | CrateType::Staticlib | CrateType::Cdylib => true,
            CrateType::Lib | CrateType::Rlib | CrateType::Dylib | CrateType::ProcMacro => false,
        }
    }

    /// Whether other crates can link against this crate type.
    pub fn is_linkable(&self) -> (r: bool)
        ensures
            r == (self is Lib || self is Rlib || self is Dylib || self is ProcMacro),
    {
        match self {
            CrateType::Lib | CrateType::Rlib | CrateType::Dylib | CrateType::ProcMacro => true,
            CrateType::Bin | CrateType::Cdylib | CrateType::Staticlib => false,
        }
    }

    /// Whether the artifact is dynamically linked.
    pub fn is_dynamic(&self) -> (r: bool)
        ensures
            r == (self is Dylib || self is Cdylib || self is ProcMacro),
    {
        match self {
            CrateType::Dylib | CrateType::Cdylib | CrateType::ProcMacro => true,
            CrateType::Lib | CrateType::Rlib | CrateType::Bin | CrateType::Staticlib => false,
        }
    }

    /// Whether building this crate type needs its dependencies' object code.
    pub fn requires_upstream_objects(&self) -> (r: bool)
        ensures
            r == !(self is Lib || self is Rlib),
    {
        match self {
            CrateType::Lib | CrateType::Rlib => false,
            _ => true,
        }
    }

    /// The serialized name of this crate type.
    pub open spec fn spec_str_bytes(self) -> Seq<u8> {
        match self {
            CrateType::Bin => "bin".spec_bytes(),
            CrateType::Lib => "lib".spec_bytes(),
            CrateType::Rlib => "rlib".spec_bytes(),
            CrateType::Dylib => "dylib".spec_bytes(),
            CrateType::Cdylib => "cdylib".spec_bytes(),
            CrateType::Staticlib => "staticlib".spec_bytes(),
            CrateType::ProcMacro => "proc-macro".spec_bytes(),
        }
    }

    pub fn as_str(&self) -> (r: &'static str)
        ensures
            r.spec_bytes() == self.spec_str_bytes(),
    {
        match self {
            CrateType::Bin => "bin",
            CrateType::Lib => "lib",
            CrateType::Rlib => "rlib",
            CrateType::Dylib => "dylib",
            CrateType::Cdylib => "cdylib",
            CrateType::Staticlib => "staticlib",
            CrateType::ProcMacro => "proc-macro",
        }
    }

    /// Which crate type a serialized name denotes, if any.
    pub open spec fn spec_from_str(s: Seq<u8>) -> Option<CrateType> {
        if s == "bin".spec_bytes() {
            Some(CrateType::Bin)
        } else if s == "lib".spec_bytes() {
            Some(CrateType::Lib)
        } else if s == "rlib".spec_bytes() {
            Some(CrateType::Rlib)
        } else if s == "dylib".spec_bytes() {
            Some(CrateType::Dylib)
        } else if s == "cdylib".spec_bytes() {
            Some(CrateType::Cdylib)
        } else if s == "staticlib".spec_bytes() {
            Some(CrateType::Staticlib)
        } else if s == "proc-macro".spec_bytes() {
            Some(CrateType::ProcMacro)
        } else {
            None
        }
    }

    pub fn from_str(s: &[u8]) -> (r: Result<CrateType, Error>)
        ensures
            match r {
                Ok(k) => Self::spec_from_str(s@) == Some(k),
                Err(e) => Self::spec_from_str(s@) is None && e.kind == ErrorKind::Parse,
            },
    {
        if bytes::bytes_eq(s, bytes::lit("bin").as_slice()) {
            Ok(CrateType::Bin)
        } else if bytes::bytes_eq(s, bytes::lit("lib").as_slice()) {
            Ok(CrateType::Lib)
        } else if bytes::bytes_eq(s, bytes::lit("rlib").as_slice()) {
            Ok(CrateType::Rlib)
        } else if bytes::bytes_eq(s, bytes::lit("dylib").as_slice()) {
            Ok(CrateType::Dylib)
        } else if bytes::bytes_eq(s, bytes::lit("cdylib").as_slice()) {
            Ok(CrateType::Cdylib)
        } else if bytes::bytes_eq(s, bytes::lit("staticlib").as_slice()) {
            Ok(CrateType::Staticlib)
        } else if bytes::bytes_eq(s, bytes::lit("proc-macro").as_slice()) {
            Ok(CrateType::ProcMacro)
        } else {
            Err(Error::from_display("invalid crate-type").with_kind(ErrorKind::Parse))
        }
    }
}

} // verus!
