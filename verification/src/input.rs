//! The parsed form of the resolver's metadata report: manifests, declared
//! dependencies, build targets and the resolved node graph.
//!
//! Reading and JSON-decoding the report happen outside the library; this
//! module holds the decoded values, every string as bytes.

use vstd::prelude::*;
use vstd::string::StringSliceAdditionalSpecFns;

use crate::bytes;
use crate::error::{Error, ErrorKind};

pub use crate::nargo::PkgId;

verus! {

/// Where a package comes from. Workspace packages have none; registry
/// packages carry the registry's source string.
#[derive(Clone, Debug, PartialEq, Eq)]
pub struct Source(pub Vec<u8>);

impl View for Source {
    type V = Seq<u8>;

    open spec fn view(&self) -> Seq<u8> {
        self.0@
    }
}

/// A source string up to its `#<lock-token>` suffix: two references to the
/// same logical source must compare equal even under different lock tokens.
pub open spec fn spec_strip_locked(s: Seq<u8>) -> Seq<u8> {
    match bytes::find_first(s, '#' as u8) {
        Some(i) => s.take(i),
        None => s,
    }
}

impl Source {
    /// The short symbolic form of the default registry's source.
    pub fn crates_io() -> (r: Source)
        ensures
            r@ == "crates.io".spec_bytes(),
    {
        Source(bytes::lit("crates.io"))
    }

    /// This source without its lock token.
    pub fn strip_locked(&self) -> (r: Source)
        ensures
            r@ == spec_strip_locked(self@),
    {
        match bytes::find_byte(self.0.as_slice(), '#' as u8) {
            Some(i) => {
                proof {
                    bytes::lemma_find_first_unique(self.0@, '#' as u8, i as int);
                }
                let r = bytes::copy_range(self.0.as_slice(), 0, i);
                proof {
                    assert(r@ =~= self.0@.take(i as int));
                }
                Source(r)
            },
            None => {
                proof {
                    bytes::lemma_find_first_none(self.0@, '#' as u8);
                }
                let r = bytes::copy_range(self.0.as_slice(), 0, self.0.len());
                proof {
                    assert(r@ =~= self.0@);
                }
                Source(r)
            },
        }
    }

    /// Whether this is the default registry, in its symbolic form.
    pub fn is_crates_io(&self) -> (r: bool)
        ensures
            r == (self@ == "crates.io".spec_bytes()),
    {
        bytes::bytes_eq(self.0.as_slice(), bytes::lit("crates.io").as_slice())
    }
}

/// A dependency category: wanted at build time of the package itself, of
/// its tests, or of its build script.
#[derive(Copy, Clone, Debug, PartialEq, Eq, Structural)]
pub enum DepKind {
    Normal,
    Dev,
    Build,
}

impl DepKind {
    pub fn is_normal(&self) -> (r: bool)
        ensures
            r == (self is Normal),
    {
        *self == DepKind::Normal
    }

    /// The fixed order of kinds in the canonical output.
    pub open spec fn rank(self) -> int {
        match self {
            DepKind::Normal => 0,
            DepKind::Dev => 1,
            DepKind::Build => 2,
        }
    }

    pub fn rank_exec(&self) -> (r: u8)
        ensures
            r as int == self.rank(),
    {
        match self {
            DepKind::Normal => 0,
            DepKind::Dev => 1,
            DepKind::Build => 2,
        }
    }

    /// The serialized name of this kind.
    pub open spec fn spec_str_bytes(self) -> Seq<u8> {
        match self {
            DepKind::Normal => "normal".spec_bytes(),
            DepKind::Dev => "dev".spec_bytes(),
            DepKind::Build => "build".spec_bytes(),
        }
    }

    pub fn as_str(&self) -> (r: &'static str)
        ensures
            r.spec_bytes() == self.spec_str_bytes(),
    {
        match self {
            DepKind::Normal => "normal",
            DepKind::Dev => "dev",
            DepKind::Build => "build",
        }
    }
}

/// An opaque target-platform predicate. It is never interpreted, only
/// compared for equality and carried into the output.
#[derive(Clone, Debug, PartialEq, Eq)]
pub struct Platform(pub Vec<u8>);

impl View for Platform {
    type V = Seq<u8>;

    open spec fn view(&self) -> Seq<u8> {
        self.0@
    }
}

/// One declared dependency of a manifest.
#[derive(Clone, Debug)]
pub struct ManifestDependency {
    pub name: Vec<u8>,
    pub source: Option<Source>,
    /// The declared version requirement, as written.
    pub req: Vec<u8>,
    pub kind: DepKind,
    pub optional: bool,
    pub uses_default_features: bool,
    pub features: Vec<Vec<u8>>,
    pub target: Option<Platform>,
    pub rename: Option<Vec<u8>>,
    pub registry: Option<Vec<u8>>,
    /// For a path dependency: its path, made workspace-relative by the
    /// cleaning pass.
    pub path: Option<Vec<u8>>,
}

/// One build target of a manifest.
#[derive(Clone, Debug)]
pub struct ManifestTarget {
    pub name: Vec<u8>,
    pub kind: Vec<Vec<u8>>,
    pub crate_types: Vec<Vec<u8>>,
    pub required_features: Vec<Vec<u8>>,
    pub src_path: Vec<u8>,
    pub edition: Vec<u8>,
}

/// One package's manifest. The `features` map is held as an ordered list
/// of (feature, implied features) pairs.
#[derive(Clone, Debug)]
pub struct Manifest {
    pub name: Vec<u8>,
    pub version: Vec<u8>,
    pub id: PkgId,
    pub source: Option<Source>,
    pub dependencies: Vec<ManifestDependency>,
    pub targets: Vec<ManifestTarget>,
    pub features: Vec<(Vec<u8>, Vec<Vec<u8>>)>,
    pub manifest_path: Vec<u8>,
    pub edition: Vec<u8>,
    pub links: Option<Vec<u8>>,
    pub default_run: Option<Vec<u8>>,
    pub rust_version: Option<Vec<u8>>,
}

/// One (kind, target) activation tag the resolver attached to an edge.
#[derive(Clone, Debug)]
pub struct NodeDepKind {
    pub kind: DepKind,
    pub target: Option<Platform>,
}

/// One resolved edge: the dependency's id and its activation tags.
#[derive(Clone, Debug)]
pub struct NodeDep {
    pub pkg: PkgId,
    pub dep_kinds: Vec<NodeDepKind>,
}

/// One resolved package with its outgoing edges.
#[derive(Clone, Debug)]
pub struct Node {
    pub id: PkgId,
    pub deps: Vec<NodeDep>,
}

/// The resolved dependency graph.
#[derive(Clone, Debug)]
pub struct Resolve {
    pub nodes: Vec<Node>,
}

/// The whole metadata report.
#[derive(Clone, Debug)]
pub struct Metadata {
    pub packages: Vec<Manifest>,
    pub workspace_members: Vec<PkgId>,
    pub workspace_default_members: Vec<PkgId>,
    pub resolve: Resolve,
    pub workspace_root: Vec<u8>,
}

/// The source text of an optional source.
pub open spec fn src_view(o: Option<Source>) -> Option<Seq<u8>> {
    match o {
        Some(s) => Some(s@),
        None => None,
    }
}

/// The platform text of an optional target predicate.
pub open spec fn tgt_view(o: Option<Platform>) -> Option<Seq<u8>> {
    match o {
        Some(p) => Some(p@),
        None => None,
    }
}

/// The abstract value of a declared dependency.
#[verifier::ext_equal]
pub struct DepView {
    pub name: Seq<u8>,
    pub source: Option<Seq<u8>>,
    pub req: Seq<u8>,
    pub kind: DepKind,
    pub optional: bool,
    pub uses_default_features: bool,
    pub features: Seq<Seq<u8>>,
    pub target: Option<Seq<u8>>,
    pub rename: Option<Seq<u8>>,
    pub registry: Option<Seq<u8>>,
    pub path: Option<Seq<u8>>,
}

impl View for ManifestDependency {
    type V = DepView;

    open spec fn view(&self) -> DepView {
        DepView {
            name: self.name@,
            source: src_view(self.source),
            req: self.req@,
            kind: self.kind,
            optional: self.optional,
            uses_default_features: self.uses_default_features,
            features: self.features.deep_view(),
            target: tgt_view(self.target),
            rename: self.rename.deep_view(),
            registry: self.registry.deep_view(),
            path: self.path.deep_view(),
        }
    }
}

/// The abstract value of a build target.
#[verifier::ext_equal]
pub struct TargetView {
    pub name: Seq<u8>,
    pub kind: Seq<Seq<u8>>,
    pub crate_types: Seq<Seq<u8>>,
    pub required_features: Seq<Seq<u8>>,
    pub src_path: Seq<u8>,
    pub edition: Seq<u8>,
}

impl View for ManifestTarget {
    type V = TargetView;

    open spec fn view(&self) -> TargetView {
        TargetView {
            name: self.name@,
            kind: self.kind.deep_view(),
            crate_types: self.crate_types.deep_view(),
            required_features: self.required_features.deep_view(),
            src_path: self.src_path@,
            edition: self.edition@,
        }
    }
}

/// The abstract value of a manifest.
#[verifier::ext_equal]
pub struct ManifestView {
    pub name: Seq<u8>,
    pub version: Seq<u8>,
    pub id: Seq<u8>,
    pub source: Option<Seq<u8>>,
    pub dependencies: Seq<DepView>,
    pub targets: Seq<TargetView>,
    pub features: Seq<(Seq<u8>, Seq<Seq<u8>>)>,
    pub manifest_path: Seq<u8>,
    pub edition: Seq<u8>,
    pub links: Option<Seq<u8>>,
    pub default_run: Option<Seq<u8>>,
    pub rust_version: Option<Seq<u8>>,
}

impl View for Manifest {
    type V = ManifestView;

    open spec fn view(&self) -> ManifestView {
        ManifestView {
            name: self.name@,
            version: self.version@,
            id: self.id@,
            source: src_view(self.source),
            dependencies: self.dependencies@.map_values(|d: ManifestDependency| d@),
            targets: self.targets@.map_values(|t: ManifestTarget| t@),
            features: self.features.deep_view(),
            manifest_path: self.manifest_path@,
            edition: self.edition@,
            links: self.links.deep_view(),
            default_run: self.default_run.deep_view(),
            rust_version: self.rust_version.deep_view(),
        }
    }
}

/// The abstract value of an activation tag.
#[verifier::ext_equal]
pub struct NodeDepKindView {
    pub kind: DepKind,
    pub target: Option<Seq<u8>>,
}

impl View for NodeDepKind {
    type V = NodeDepKindView;

    open spec fn view(&self) -> NodeDepKindView {
        NodeDepKindView { kind: self.kind, target: tgt_view(self.target) }
    }
}

/// The abstract value of a resolved edge.
#[verifier::ext_equal]
pub struct NodeDepView {
    pub pkg: Seq<u8>,
    pub dep_kinds: Seq<NodeDepKindView>,
}

impl View for NodeDep {
    type V = NodeDepView;

    open spec fn view(&self) -> NodeDepView {
        NodeDepView {
            pkg: self.pkg@,
            dep_kinds: self.dep_kinds@.map_values(|k: NodeDepKind| k@),
        }
    }
}

/// The abstract value of a resolved node.
#[verifier::ext_equal]
pub struct NodeView {
    pub id: Seq<u8>,
    pub deps: Seq<NodeDepView>,
}

impl View for Node {
    type V = NodeView;

    open spec fn view(&self) -> NodeView {
        NodeView { id: self.id@, deps: self.deps@.map_values(|d: NodeDep| d@) }
    }
}

/// The abstract value of the whole report.
#[verifier::ext_equal]
pub struct MetadataView {
    pub packages: Seq<ManifestView>,
    pub workspace_members: Seq<Seq<u8>>,
    pub workspace_default_members: Seq<Seq<u8>>,
    pub nodes: Seq<NodeView>,
    pub workspace_root: Seq<u8>,
}

impl View for Metadata {
    type V = MetadataView;

    open spec fn view(&self) -> MetadataView {
        MetadataView {
            packages: self.packages@.map_values(|m: Manifest| m@),
            workspace_members: self.workspace_members@.map_values(|p: PkgId| p@),
            workspace_default_members: self.workspace_default_members@.map_values(|p: PkgId| p@),
            nodes: self.resolve.nodes@.map_values(|n: Node| n@),
            workspace_root: self.workspace_root@,
        }
    }
}

/// The directory of a manifest path: the path without its final
/// `Cargo.toml` component.
pub open spec fn spec_manifest_dir(manifest_path: Seq<u8>) -> Option<Seq<u8>> {
    bytes::spec_strip_suffix(manifest_path, "Cargo.toml".spec_bytes())
}

/// A workspace package's path relative to the workspace source directory:
/// its manifest directory with the root prefix and surrounding slashes
/// removed. `None` for a non-workspace package; an error (outer `None`)
/// where the manifest path has an unexpected shape.
pub open spec fn spec_relative_workspace_path(m: ManifestView, workspace_src: Seq<u8>) -> Option<
    Option<Seq<u8>>,
> {
    if m.source is Some {
        Some(None)
    } else {
        match spec_manifest_dir(m.manifest_path) {
            None => None,
            Some(dir) => match bytes::spec_strip_prefix(dir, workspace_src) {
                None => None,
                Some(p) => Some(
                    Some(bytes::skip_trailing(bytes::skip_leading(p, '/' as u8), '/' as u8)),
                ),
            },
        }
    }
}

impl Manifest {
    /// Whether this package is a workspace member: exactly the packages
    /// without a source.
    pub fn is_workspace_pkg(&self) -> (r: bool)
        ensures
            r == (self.source is None),
    {
        self.source.is_none()
    }

    /// The directory that holds this manifest. Fails, as an internal
    /// inconsistency, exactly where the path does not end in the manifest
    /// file's name.
    pub fn manifest_dir(&self) -> (r: Result<Vec<u8>, Error>)
        ensures
            match r {
                Ok(d) => spec_manifest_dir(self.manifest_path@) == Some(d@),
                Err(e) => spec_manifest_dir(self.manifest_path@) is None && e.kind
                    == ErrorKind::Inconsistent,
            },
    {
        let suffix = bytes::lit("Cargo.toml");
        if bytes::ends_with(self.manifest_path.as_slice(), suffix.as_slice()) {
            let d = bytes::copy_range(
                self.manifest_path.as_slice(),
                0,
                self.manifest_path.len() - suffix.len(),
            );
            proof {
                assert(d@ =~= self.manifest_path@.take(
                    self.manifest_path@.len() - "Cargo.toml".spec_bytes().len(),
                ));
            }
            Ok(d)
        } else {
            Err(Error::from_display("manifest path does not end in the manifest file name")
                .with_kind(ErrorKind::Inconsistent))
        }
    }

    /// The package's path inside the workspace source directory, if it is a
    /// workspace package. Fails, as an internal inconsistency, exactly
    /// where the manifest path does not lie under the workspace source.
    pub fn relative_workspace_path(&self, workspace_src: &[u8]) -> (r: Result<
        Option<Vec<u8>>,
        Error,
    >)
        ensures
            match r {
                Ok(p) => spec_relative_workspace_path(self@, workspace_src@) == Some(
                    match p {
                        Some(v) => Some(v@),
                        None => None,
                    },
                ),
                Err(e) => spec_relative_workspace_path(self@, workspace_src@) is None && e.kind
                    == ErrorKind::Inconsistent,
            },
    {
        if self.source.is_some() {
            return Ok(None);
        }
        let dir = match self.manifest_dir() {
            Ok(d) => d,
            Err(e) => {
                return Err(e);
            },
        };
        if !bytes::starts_with(dir.as_slice(), workspace_src) {
            return Err(Error::from_display(
                "a workspace manifest path does not lie under the workspace source directory",
            ).with_kind(ErrorKind::Inconsistent));
        }
        let p = bytes::copy_range(dir.as_slice(), workspace_src.len(), dir.len());
        proof {
            assert(p@ =~= dir@.skip(workspace_src@.len() as int));
        }
        let trimmed_front = bytes::trim_leading(p.as_slice(), '/' as u8);
        let trimmed = bytes::trim_trailing(trimmed_front.as_slice(), '/' as u8);
        Ok(Some(trimmed))
    }
}

} // verus!
