//! The canonicalization pass over a parsed report: every package id is
//! compacted, dev-dependencies and non-library targets of external packages
//! are pruned, path dependencies and target source paths are made relative,
//! and every list whose input order is filesystem-dependent is put into a
//! fixed total order.

use vstd::prelude::*;
use vstd::string::StringSliceAdditionalSpecFns;

use crate::bytes;
use crate::error::{Error, ErrorKind};
use crate::input::{
    DepView, Manifest, ManifestDependency, ManifestTarget, ManifestView, Metadata, MetadataView,
    Node, NodeDep, NodeView, Source, TargetView, spec_manifest_dir, src_view,
};
use crate::nargo::{spec_canon_pkg_id, spec_crates_io_registry, PkgId};
use crate::order::{sort_by_le, sorted_by_le, lemma_map_values_multiset};

verus! {

/// What the cleaning pass needs to know: the build root that verbose
/// package ids and dependency paths are made relative to.
#[derive(Clone, Debug)]
pub struct Context {
    pub workspace_root: Vec<u8>,
}

/// A source string in its compact form: the well-known default registry
/// becomes its short symbolic name, everything else is unchanged.
pub open spec fn spec_clean_source(s: Seq<u8>) -> Seq<u8> {
    if s == spec_crates_io_registry() {
        "crates.io".spec_bytes()
    } else {
        s
    }
}

/// `spec_clean_source` lifted to an optional source.
pub open spec fn spec_clean_source_opt(o: Option<Seq<u8>>) -> Option<Seq<u8>> {
    match o {
        Some(s) => Some(spec_clean_source(s)),
        None => None,
    }
}

/// The compact id of a verbose one, where it exists.
pub open spec fn spec_canon(id: Seq<u8>, root: Seq<u8>) -> Seq<u8> {
    spec_canon_pkg_id(id, root)->0
}

/// A dependency's declared path made workspace-relative.
pub open spec fn spec_clean_dep_path(p: Seq<u8>, root: Seq<u8>) -> Seq<u8> {
    bytes::skip_leading(bytes::spec_strip_prefix(p, root)->0, '/' as u8)
}

/// A path dependency must point under the build root.
pub open spec fn spec_dep_ok(d: DepView, root: Seq<u8>) -> bool {
    match d.path {
        Some(p) => bytes::spec_strip_prefix(p, root) is Some,
        None => true,
    }
}

/// A cleaned dependency: source compacted, path made relative, everything
/// else untouched.
pub open spec fn spec_clean_dep(d: DepView, root: Seq<u8>) -> DepView {
    DepView {
        source: spec_clean_source_opt(d.source),
        path: match d.path {
            Some(p) => Some(spec_clean_dep_path(p, root)),
            None => None,
        },
        ..d
    }
}

/// Whether a dependency survives the pruning: dev-dependencies are dropped
/// from packages outside the workspace.
pub open spec fn spec_keep_dep(d: DepView, ws: bool) -> bool {
    ws || !(d.kind is Dev)
}

/// The cleaned dependency list, before sorting: the kept entries, each
/// cleaned, in declaration order.
pub open spec fn spec_clean_deps(ds: Seq<DepView>, ws: bool, root: Seq<u8>) -> Seq<DepView>
    decreases ds.len(),
{
    if ds.len() == 0 {
        Seq::empty()
    } else {
        let rest = spec_clean_deps(ds.drop_last(), ws, root);
        if spec_keep_dep(ds.last(), ws) {
            rest.push(spec_clean_dep(ds.last(), root))
        } else {
            rest
        }
    }
}

pub open spec fn spec_deps_ok(ds: Seq<DepView>, ws: bool, root: Seq<u8>) -> bool {
    forall|i: int|
        0 <= i < ds.len() && spec_keep_dep(#[trigger] ds[i], ws) ==> spec_dep_ok(ds[i], root)
}

/// Whether a target survives the pruning: outside the workspace only
/// library, procedural-macro and build-script targets are kept.
pub open spec fn spec_keep_target(t: TargetView, ws: bool) -> bool {
    ws || exists|i: int|
        0 <= i < t.kind.len() && ((#[trigger] t.kind[i]) == "lib".spec_bytes() || t.kind[i]
            == "proc-macro".spec_bytes() || t.kind[i] == "custom-build".spec_bytes())
}

/// A target's source path must lie under its manifest's directory.
pub open spec fn spec_target_ok(t: TargetView, dir: Seq<u8>) -> bool {
    bytes::spec_strip_prefix(t.src_path, dir) is Some
}

/// A cleaned target: its source path relative to the manifest directory.
pub open spec fn spec_clean_target(t: TargetView, dir: Seq<u8>) -> TargetView {
    TargetView { src_path: bytes::spec_strip_prefix(t.src_path, dir)->0, ..t }
}

/// The cleaned target list, before sorting.
pub open spec fn spec_clean_targets(ts: Seq<TargetView>, ws: bool, dir: Seq<u8>) -> Seq<TargetView>
    decreases ts.len(),
{
    if ts.len() == 0 {
        Seq::empty()
    } else {
        let rest = spec_clean_targets(ts.drop_last(), ws, dir);
        if spec_keep_target(ts.last(), ws) {
            rest.push(spec_clean_target(ts.last(), dir))
        } else {
            rest
        }
    }
}

pub open spec fn spec_targets_ok(ts: Seq<TargetView>, ws: bool, dir: Seq<u8>) -> bool {
    forall|i: int|
        0 <= i < ts.len() && spec_keep_target(#[trigger] ts[i], ws) ==> spec_target_ok(ts[i], dir)
}

/// Everything that can make cleaning one manifest fail.
pub open spec fn spec_manifest_ok(m: ManifestView, root: Seq<u8>) -> bool {
    &&& spec_canon_pkg_id(m.id, root) is Some
    &&& spec_deps_ok(m.dependencies, m.source is None, root)
    &&& spec_manifest_dir(m.manifest_path) is Some
    &&& spec_targets_ok(m.targets, m.source is None, spec_manifest_dir(m.manifest_path)->0)
}

/// How a cleaned manifest relates to the original one.
pub open spec fn spec_manifest_cleaned(o: ManifestView, n: Manifest, root: Seq<u8>) -> bool {
    let ws = o.source is None;
    let dir = spec_manifest_dir(o.manifest_path)->0;
    &&& n@.name == o.name
    &&& n@.version == o.version
    &&& n@.id == spec_canon(o.id, root)
    &&& n@.source == spec_clean_source_opt(o.source)
    &&& n@.dependencies.to_multiset() == spec_clean_deps(o.dependencies, ws, root).to_multiset()
    &&& sorted_by_le(n.dependencies@)
    &&& n@.targets.to_multiset() == spec_clean_targets(o.targets, ws, dir).to_multiset()
    &&& sorted_by_le(n.targets@)
    &&& n@.features.to_multiset() == o.features.to_multiset()
    &&& sorted_by_le(n.features@)
    &&& n@.manifest_path == o.manifest_path
    &&& n@.edition == o.edition
    &&& n@.links == o.links
    &&& n@.default_run == o.default_run
    &&& n@.rust_version == o.rust_version
}

/// How a cleaned resolve node relates to the original one: every id is
/// compacted, the activation tags are untouched.
pub open spec fn spec_node_cleaned(o: NodeView, n: Node, root: Seq<u8>) -> bool {
    &&& n@.id == spec_canon(o.id, root)
    &&& n@.deps.len() == o.deps.len()
    &&& forall|j: int|
        0 <= j < o.deps.len() ==> (#[trigger] n@.deps[j]).pkg == spec_canon(o.deps[j].pkg, root)
            && n@.deps[j].dep_kinds == o.deps[j].dep_kinds
}

pub open spec fn spec_node_ok(o: NodeView, root: Seq<u8>) -> bool {
    &&& spec_canon_pkg_id(o.id, root) is Some
    &&& forall|j: int|
        0 <= j < o.deps.len() ==> spec_canon_pkg_id((#[trigger] o.deps[j]).pkg, root) is Some
}

/// Everything that can make the cleaning pass fail.
pub open spec fn spec_metadata_ok(o: MetadataView, root: Seq<u8>) -> bool {
    &&& forall|i: int| 0 <= i < o.packages.len() ==> spec_manifest_ok(#[trigger] o.packages[i], root)
    &&& forall|i: int|
        0 <= i < o.workspace_members.len() ==> spec_canon_pkg_id(
            #[trigger] o.workspace_members[i],
            root,
        ) is Some
    &&& forall|i: int|
        0 <= i < o.workspace_default_members.len() ==> spec_canon_pkg_id(
            #[trigger] o.workspace_default_members[i],
            root,
        ) is Some
    &&& forall|i: int| 0 <= i < o.nodes.len() ==> spec_node_ok(#[trigger] o.nodes[i], root)
}

/// How the cleaned report relates to the original one.
pub open spec fn spec_metadata_cleaned(o: MetadataView, n: Metadata, root: Seq<u8>) -> bool {
    &&& n@.packages.len() == o.packages.len()
    &&& forall|i: int|
        0 <= i < o.packages.len() ==> spec_manifest_cleaned(
            o.packages[i],
            #[trigger] n.packages@[i],
            root,
        )
    &&& n@.workspace_members.to_multiset() == o.workspace_members.map_values(
        |id: Seq<u8>| spec_canon(id, root),
    ).to_multiset()
    &&& sorted_by_le(n.workspace_members@)
    &&& n@.workspace_default_members.to_multiset() == o.workspace_default_members.map_values(
        |id: Seq<u8>| spec_canon(id, root),
    ).to_multiset()
    &&& sorted_by_le(n.workspace_default_members@)
    &&& n@.nodes.len() == o.nodes.len()
    &&& forall|i: int|
        0 <= i < o.nodes.len() ==> spec_node_cleaned(o.nodes[i], #[trigger] n.resolve.nodes@[i], root)
    &&& n@.workspace_root == o.workspace_root
}

/// Compact a source string.
fn clean_source(s: Source) -> (r: Source)
    ensures
        r@ == spec_clean_source(s@),
{
    let reg = bytes::lit("registry+https://github.com/rust-lang/crates.io-index");
    if bytes::bytes_eq(s.0.as_slice(), reg.as_slice()) {
        Source::crates_io()
    } else {
        s
    }
}

/// Compact an optional source string.
fn clean_source_opt(s: Option<Source>) -> (r: Option<Source>)
    ensures
        src_view(r) == spec_clean_source_opt(src_view(s)),
{
    match s {
        Some(s) => Some(clean_source(s)),
        None => None,
    }
}

/// Compact an id in place of its verbose form.
fn clean_id(id: PkgId, ctx: &Context) -> (r: Result<PkgId, Error>)
    ensures
        match r {
            Ok(p) => spec_canon_pkg_id(id@, ctx.workspace_root@) is Some && p@ == spec_canon(
                id@,
                ctx.workspace_root@,
            ),
            Err(e) => spec_canon_pkg_id(id@, ctx.workspace_root@) is None && e.kind
                == ErrorKind::Inconsistent,
        },
{
    PkgId::try_from_cargo_pkg_id_spec(id.0.as_slice(), ctx.workspace_root.as_slice())
}

/// Clean one declared dependency.
fn clean_dep(d: ManifestDependency, ctx: &Context) -> (r: Result<ManifestDependency, Error>)
    ensures
        match r {
            Ok(n) => spec_dep_ok(d@, ctx.workspace_root@) && n@ == spec_clean_dep(
                d@,
                ctx.workspace_root@,
            ),
            Err(e) => !spec_dep_ok(d@, ctx.workspace_root@) && e.kind == ErrorKind::Inconsistent,
        },
{
    let ghost dv = d@;
    let ManifestDependency {
        name,
        source,
        req,
        kind,
        optional,
        uses_default_features,
        features,
        target,
        rename,
        registry,
        path,
    } = d;
    let source = clean_source_opt(source);
    let path = match path {
        Some(p) => {
            if !bytes::starts_with(p.as_slice(), ctx.workspace_root.as_slice()) {
                return Err(Error::from_display(
                    "a path dependency points outside the build root",
                ).with_kind(ErrorKind::Inconsistent));
            }
            let rest = bytes::copy_range(p.as_slice(), ctx.workspace_root.len(), p.len());
            proof {
                assert(rest@ =~= p@.skip(ctx.workspace_root@.len() as int));
            }
            let trimmed = bytes::trim_leading(rest.as_slice(), '/' as u8);
            proof {
                assert(dv.path == Some(p@));
                assert(bytes::spec_strip_prefix(p@, ctx.workspace_root@) is Some);
                assert(bytes::spec_strip_prefix(p@, ctx.workspace_root@)->0 == p@.skip(
                    ctx.workspace_root@.len() as int,
                ));
                assert(trimmed@ == bytes::skip_leading(rest@, '/' as u8));
                assert(trimmed@ == spec_clean_dep_path(p@, ctx.workspace_root@));
            }
            Some(trimmed)
        },
        None => None,
    };
    let out = ManifestDependency {
        name,
        source,
        req,
        kind,
        optional,
        uses_default_features,
        features,
        target,
        rename,
        registry,
        path,
    };
    proof {
        let sp = spec_clean_dep(dv, ctx.workspace_root@);
        assert(out@.name == sp.name);
        assert(out@.source == sp.source);
        assert(out@.req == sp.req);
        assert(out@.kind == sp.kind);
        assert(out@.optional == sp.optional);
        assert(out@.uses_default_features == sp.uses_default_features);
        assert(out@.features == sp.features);
        assert(out@.target == sp.target);
        assert(out@.rename == sp.rename);
        assert(out@.registry == sp.registry);
        assert(out@.path =~~= sp.path);
        assert(out@ =~~= spec_clean_dep(dv, ctx.workspace_root@));
    }
    Ok(out)
}

/// Whether a target of an external package is kept.
fn keep_target(t: &ManifestTarget) -> (r: bool)
    ensures
        r == spec_keep_target(t@, false),
{
    let mut i: usize = 0;
    while i < t.kind.len()
        invariant
            i <= t.kind@.len(),
            forall|j: int|
                0 <= j < i ==> !((#[trigger] t@.kind[j]) == "lib".spec_bytes() || t@.kind[j]
                    == "proc-macro".spec_bytes() || t@.kind[j] == "custom-build".spec_bytes()),
        decreases t.kind@.len() - i,
    {
        proof {
            assert(t@.kind[i as int] == t.kind@[i as int]@);
        }
        if bytes::bytes_eq(t.kind[i].as_slice(), bytes::lit("lib").as_slice()) || bytes::bytes_eq(
            t.kind[i].as_slice(),
            bytes::lit("proc-macro").as_slice(),
        ) || bytes::bytes_eq(t.kind[i].as_slice(), bytes::lit("custom-build").as_slice()) {
            return true;
        }
        i += 1;
    }
    false
}

/// Clean one build target.
fn clean_target(t: ManifestTarget, dir: &Vec<u8>) -> (r: Result<ManifestTarget, Error>)
    ensures
        match r {
            Ok(n) => spec_target_ok(t@, dir@) && n@ == spec_clean_target(t@, dir@),
            Err(e) => !spec_target_ok(t@, dir@) && e.kind == ErrorKind::Inconsistent,
        },
{
    let ghost tv = t@;
    let ManifestTarget { name, kind, crate_types, required_features, src_path, edition } = t;
    if !bytes::starts_with(src_path.as_slice(), dir.as_slice()) {
        return Err(Error::from_display(
            "a target source path is outside its package directory",
        ).with_kind(ErrorKind::Inconsistent));
    }
    let rel = bytes::copy_range(src_path.as_slice(), dir.len(), src_path.len());
    proof {
        assert(rel@ =~= src_path@.skip(dir@.len() as int));
    }
    let out = ManifestTarget { name, kind, crate_types, required_features, src_path: rel, edition };
    proof {
        assert(out@ =~~= spec_clean_target(tv, dir@));
    }
    Ok(out)
}

impl Manifest {
    /// Clean one manifest: compact its ids and sources, prune and order its
    /// dependency and target lists.
    pub fn clean(self, ctx: &Context) -> (r: Result<Manifest, Error>)
        ensures
            match r {
                Ok(n) => spec_manifest_ok(self@, ctx.workspace_root@) && spec_manifest_cleaned(
                    self@,
                    n,
                    ctx.workspace_root@,
                ),
                Err(e) => !spec_manifest_ok(self@, ctx.workspace_root@) && e.kind
                    == ErrorKind::Inconsistent,
            },
    {
        let ghost ov = self@;
        let ghost root = ctx.workspace_root@;
        let dir = match self.manifest_dir() {
            Ok(d) => d,
            Err(e) => {
                return Err(e);
            },
        };
        let Manifest {
            name,
            version,
            id,
            source,
            dependencies,
            targets,
            features,
            manifest_path,
            edition,
            links,
            default_run,
            rust_version,
        } = self;
        let id = match clean_id(id, ctx) {
            Ok(p) => p,
            Err(e) => {
                return Err(e);
            },
        };
        let ws = source.is_none();
        let source = clean_source_opt(source);

        // Dependencies: prune, clean, sort.
        let mut deps = dependencies;
        let mut kept: Vec<ManifestDependency> = Vec::new();
        let ghost odeps = ov.dependencies;
        proof {
            assert(deps@.map_values(|d: ManifestDependency| d@) =~= odeps.skip(0));
            assert(kept@.map_values(|d: ManifestDependency| d@) =~= spec_clean_deps(
                odeps.take(0),
                ws,
                root,
            ));
        }
        let ghost mut i: int = 0;
        while deps.len() > 0
            invariant
                0 <= i <= odeps.len(),
                ov == self@,
                root == ctx.workspace_root@,
                ws == (ov.source is None),
                odeps == ov.dependencies,
                deps@.map_values(|d: ManifestDependency| d@) == odeps.skip(i),
                deps@.len() == odeps.len() - i,
                kept@.map_values(|d: ManifestDependency| d@) == spec_clean_deps(
                    odeps.take(i),
                    ws,
                    root,
                ),
                forall|j: int|
                    0 <= j < i && spec_keep_dep(#[trigger] odeps[j], ws) ==> spec_dep_ok(
                        odeps[j],
                        root,
                    ),
            decreases deps@.len(),
        {
            let ghost pre = deps@;
            let d = deps.remove(0);
            proof {
                assert(d@ == pre.map_values(|d: ManifestDependency| d@)[0]);
                assert(odeps.skip(i)[0] == odeps[i]);
                assert(d@ == odeps[i]);
                assert(deps@.map_values(|d: ManifestDependency| d@) =~= odeps.skip(i + 1)) by {
                    assert forall|j: int| #![trigger deps@[j]] 0 <= j < deps@.len() implies deps@
                        .map_values(|d: ManifestDependency| d@)[j] == odeps.skip(i + 1)[j] by {
                        assert(deps@[j] == pre.remove(0)[j]);
                        assert(pre.remove(0)[j] == pre[j + 1]);
                        assert(pre.map_values(|d: ManifestDependency| d@)[j + 1] == pre[j + 1]@);
                        assert(odeps.skip(i)[j + 1] == odeps[i + j + 1]);
                        assert(odeps.skip(i + 1)[j] == odeps[i + j + 1]);
                    }
                }
                assert(odeps.take(i + 1).drop_last() =~= odeps.take(i));
                assert(odeps.take(i + 1).last() == odeps[i]);
            }
            if ws || !matches!(d.kind, crate::input::DepKind::Dev) {
                proof {
                    assert(spec_keep_dep(odeps[i], ws));
                }
                match clean_dep(d, ctx) {
                    Ok(c) => {
                        let ghost kept_pre = kept@;
                        kept.push(c);
                        proof {
                            assert(spec_dep_ok(odeps[i], root));
                            assert(spec_clean_deps(odeps.take(i + 1), ws, root) == spec_clean_deps(
                                odeps.take(i),
                                ws,
                                root,
                            ).push(spec_clean_dep(odeps[i], root)));
                            assert(kept@ == kept_pre.push(c));
                            assert(kept@.map_values(|d: ManifestDependency| d@) =~= kept_pre
                                .map_values(|d: ManifestDependency| d@).push(c@));
                        }
                    },
                    Err(e) => {
                        proof {
                            assert(!spec_dep_ok(odeps[i], root));
                            assert(!spec_deps_ok(ov.dependencies, ws, root));
                            assert(!spec_manifest_ok(ov, root));
                        }
                        return Err(e);
                    },
                }
            } else {
                proof {
                    assert(!spec_keep_dep(odeps[i], ws));
                    assert(spec_clean_deps(odeps.take(i + 1), ws, root) == spec_clean_deps(
                        odeps.take(i),
                        ws,
                        root,
                    ));
                }
            }
            proof {
                i = i + 1;
            }
        }
        proof {
            assert(i == odeps.len());
            assert(odeps.take(odeps.len() as int) =~= odeps);
            assert(spec_deps_ok(odeps, ws, root));
        }
        let ghost kept_before_sort = kept@;
        let dependencies = sort_by_le(kept);
        proof {
            lemma_map_values_multiset(dependencies@, kept_before_sort, |d: ManifestDependency| d@);
        }

        // Targets: prune, clean, sort.
        let mut ts = targets;
        let mut tkept: Vec<ManifestTarget> = Vec::new();
        let ghost ots = ov.targets;
        proof {
            assert(ts@.map_values(|t: ManifestTarget| t@) =~= ots.skip(0));
            assert(tkept@.map_values(|t: ManifestTarget| t@) =~= spec_clean_targets(
                ots.take(0),
                ws,
                dir@,
            ));
        }
        let ghost mut k: int = 0;
        while ts.len() > 0
            invariant
                0 <= k <= ots.len(),
                ov == self@,
                root == ctx.workspace_root@,
                ws == (ov.source is None),
                ots == ov.targets,
                dir@ == spec_manifest_dir(ov.manifest_path)->0,
                ts@.map_values(|t: ManifestTarget| t@) == ots.skip(k),
                ts@.len() == ots.len() - k,
                tkept@.map_values(|t: ManifestTarget| t@) == spec_clean_targets(
                    ots.take(k),
                    ws,
                    dir@,
                ),
                forall|j: int|
                    0 <= j < k && spec_keep_target(#[trigger] ots[j], ws) ==> spec_target_ok(
                        ots[j],
                        dir@,
                    ),
            decreases ts@.len(),
        {
            let ghost pre = ts@;
            let t = ts.remove(0);
            proof {
                assert(t@ == pre.map_values(|t: ManifestTarget| t@)[0]);
                assert(ots.skip(k)[0] == ots[k]);
                assert(t@ == ots[k]);
                assert(ts@.map_values(|t: ManifestTarget| t@) =~= ots.skip(k + 1)) by {
                    assert forall|j: int| #![trigger ts@[j]] 0 <= j < ts@.len() implies ts@
                        .map_values(|t: ManifestTarget| t@)[j] == ots.skip(k + 1)[j] by {
                        assert(ts@[j] == pre.remove(0)[j]);
                        assert(pre.remove(0)[j] == pre[j + 1]);
                        assert(pre.map_values(|t: ManifestTarget| t@)[j + 1] == pre[j + 1]@);
                        assert(ots.skip(k)[j + 1] == ots[k + j + 1]);
                        assert(ots.skip(k + 1)[j] == ots[k + j + 1]);
                    }
                }
                assert(ots.take(k + 1).drop_last() =~= ots.take(k));
                assert(ots.take(k + 1).last() == ots[k]);
            }
            let keep = if ws {
                true
            } else {
                keep_target(&t)
            };
            if keep {
                proof {
                    assert(spec_keep_target(ots[k], ws));
                }
                match clean_target(t, &dir) {
                    Ok(c) => {
                        let ghost tkept_pre = tkept@;
                        tkept.push(c);
                        proof {
                            assert(spec_target_ok(ots[k], dir@));
                            assert(spec_clean_targets(ots.take(k + 1), ws, dir@)
                                == spec_clean_targets(ots.take(k), ws, dir@).push(
                                spec_clean_target(ots[k], dir@),
                            ));
                            assert(tkept@ == tkept_pre.push(c));
                            assert(tkept@.map_values(|t: ManifestTarget| t@) =~= tkept_pre
                                .map_values(|t: ManifestTarget| t@).push(c@));
                        }
                    },
                    Err(e) => {
                        proof {
                            assert(!spec_target_ok(ots[k], dir@));
                            assert(!spec_targets_ok(ov.targets, ws, dir@));
                            assert(!spec_manifest_ok(ov, root));
                        }
                        return Err(e);
                    },
                }
            } else {
                proof {
                    assert(!spec_keep_target(ots[k], ws));
                    assert(spec_clean_targets(ots.take(k + 1), ws, dir@) == spec_clean_targets(
                        ots.take(k),
                        ws,
                        dir@,
                    ));
                }
            }
            proof {
                k = k + 1;
            }
        }
        proof {
            assert(k == ots.len());
            assert(ots.take(ots.len() as int) =~= ots);
            assert(spec_targets_ok(ots, ws, dir@));
        }
        let ghost tkept_before_sort = tkept@;
        let targets = sort_by_le(tkept);
        proof {
            lemma_map_values_multiset(targets@, tkept_before_sort, |t: ManifestTarget| t@);
        }

        // Features: order by feature name.
        let ghost feats_before_sort = features@;
        let features = sort_by_le(features);
        proof {
            lemma_map_values_multiset(
                features@,
                feats_before_sort,
                |p: (Vec<u8>, Vec<Vec<u8>>)| p.deep_view(),
            );
            assert(features.deep_view() =~= features@.map_values(
                |p: (Vec<u8>, Vec<Vec<u8>>)| p.deep_view(),
            ));
            assert(ov.features =~= feats_before_sort.map_values(
                |p: (Vec<u8>, Vec<Vec<u8>>)| p.deep_view(),
            ));
        }

        let out = Manifest {
            name,
            version,
            id,
            source,
            dependencies,
            targets,
            features,
            manifest_path,
            edition,
            links,
            default_run,
            rust_version,
        };
        proof {
            assert(out@.dependencies =~= out.dependencies@.map_values(
                |d: ManifestDependency| d@,
            ));
            assert(out@.targets =~= out.targets@.map_values(|t: ManifestTarget| t@));
            assert(spec_manifest_ok(ov, root));
            assert(spec_manifest_cleaned(ov, out, root));
        }
        Ok(out)
    }
}

impl Node {
    /// Clean one resolve node: compact its own id and its edges' ids.
    pub fn clean(self, ctx: &Context) -> (r: Result<Node, Error>)
        ensures
            match r {
                Ok(n) => spec_node_ok(self@, ctx.workspace_root@) && spec_node_cleaned(
                    self@,
                    n,
                    ctx.workspace_root@,
                ),
                Err(e) => !spec_node_ok(self@, ctx.workspace_root@) && e.kind
                    == ErrorKind::Inconsistent,
            },
    {
        let ghost ov = self@;
        let ghost root = ctx.workspace_root@;
        let Node { id, deps } = self;
        let id = match clean_id(id, ctx) {
            Ok(p) => p,
            Err(e) => {
                return Err(e);
            },
        };
        let mut rest = deps;
        let mut done: Vec<NodeDep> = Vec::new();
        let ghost odeps = ov.deps;
        proof {
            assert(rest@.map_values(|d: NodeDep| d@) =~= odeps.skip(0));
        }
        let ghost mut i: int = 0;
        while rest.len() > 0
            invariant
                0 <= i <= odeps.len(),
                ov == self@,
                root == ctx.workspace_root@,
                odeps == ov.deps,
                rest@.map_values(|d: NodeDep| d@) == odeps.skip(i),
                rest@.len() == odeps.len() - i,
                done@.len() == i,
                forall|j: int|
                    0 <= j < i ==> spec_canon_pkg_id((#[trigger] odeps[j]).pkg, root) is Some,
                forall|j: int|
                    0 <= j < i ==> ((#[trigger] done@[j])@).pkg == spec_canon(odeps[j].pkg, root)
                        && done@[j]@.dep_kinds == odeps[j].dep_kinds,
            decreases rest@.len(),
        {
            let ghost pre = rest@;
            let d = rest.remove(0);
            proof {
                assert(d@ == pre.map_values(|d: NodeDep| d@)[0]);
                assert(odeps.skip(i)[0] == odeps[i]);
                assert(d@ == odeps[i]);
                assert(rest@.map_values(|d: NodeDep| d@) =~= odeps.skip(i + 1)) by {
                    assert forall|j: int| #![trigger rest@[j]] 0 <= j < rest@.len() implies rest@
                        .map_values(|d: NodeDep| d@)[j] == odeps.skip(i + 1)[j] by {
                        assert(rest@[j] == pre.remove(0)[j]);
                        assert(pre.remove(0)[j] == pre[j + 1]);
                        assert(pre.map_values(|d: NodeDep| d@)[j + 1] == pre[j + 1]@);
                        assert(odeps.skip(i)[j + 1] == odeps[i + j + 1]);
                        assert(odeps.skip(i + 1)[j] == odeps[i + j + 1]);
                    }
                }
            }
            let NodeDep { pkg, dep_kinds } = d;
            let pkg = match clean_id(pkg, ctx) {
                Ok(p) => p,
                Err(e) => {
                    proof {
                        assert(!spec_node_ok(ov, root));
                    }
                    return Err(e);
                },
            };
            let nd = NodeDep { pkg, dep_kinds };
            proof {
                assert(nd@.pkg == spec_canon(odeps[i].pkg, root));
                assert(nd@.dep_kinds =~= odeps[i].dep_kinds);
            }
            done.push(nd);
            proof {
                i = i + 1;
            }
        }
        proof {
            assert(i == odeps.len());
        }
        let out = Node { id, deps: done };
        proof {
            assert(spec_node_ok(ov, root));
            assert(spec_node_cleaned(ov, out, root)) by {
                assert forall|j: int| #![trigger out@.deps[j]] 0 <= j < ov.deps.len() implies out@
                    .deps[j].pkg == spec_canon(ov.deps[j].pkg, root) && out@.deps[j].dep_kinds
                    == ov.deps[j].dep_kinds by {
                    assert(out@.deps[j] == done@[j]@);
                }
            }
        }
        Ok(out)
    }
}

impl Metadata {
    /// Clean the whole report.
    pub fn clean(self, ctx: &Context) -> (r: Result<Metadata, Error>)
        ensures
            match r {
                Ok(n) => spec_metadata_ok(self@, ctx.workspace_root@) && spec_metadata_cleaned(
                    self@,
                    n,
                    ctx.workspace_root@,
                ),
                Err(e) => !spec_metadata_ok(self@, ctx.workspace_root@) && e.kind
                    == ErrorKind::Inconsistent,
            },
    {
        let ghost ov = self@;
        let ghost root = ctx.workspace_root@;
        let Metadata {
            packages,
            workspace_members,
            workspace_default_members,
            resolve,
            workspace_root,
        } = self;

        let mut rest = packages;
        let mut pkgs: Vec<Manifest> = Vec::new();
        let ghost opkgs = ov.packages;
        proof {
            assert(rest@.map_values(|m: Manifest| m@) =~= opkgs.skip(0));
        }
        let ghost mut i: int = 0;
        while rest.len() > 0
            invariant
                0 <= i <= opkgs.len(),
                ov == self@,
                root == ctx.workspace_root@,
                opkgs == ov.packages,
                rest@.map_values(|m: Manifest| m@) == opkgs.skip(i),
                rest@.len() == opkgs.len() - i,
                pkgs@.len() == i,
                forall|j: int|
                    0 <= j < i ==> spec_manifest_ok(#[trigger] opkgs[j], root)
                        && spec_manifest_cleaned(opkgs[j], pkgs@[j], root),
            decreases rest@.len(),
        {
            let ghost pre = rest@;
            let m = rest.remove(0);
            proof {
                assert(m@ == pre.map_values(|m: Manifest| m@)[0]);
                assert(opkgs.skip(i)[0] == opkgs[i]);
                assert(m@ == opkgs[i]);
                assert(rest@.map_values(|m: Manifest| m@) =~= opkgs.skip(i + 1)) by {
                    assert forall|j: int| #![trigger rest@[j]] 0 <= j < rest@.len() implies rest@
                        .map_values(|m: Manifest| m@)[j] == opkgs.skip(i + 1)[j] by {
                        assert(rest@[j] == pre.remove(0)[j]);
                        assert(pre.remove(0)[j] == pre[j + 1]);
                        assert(pre.map_values(|m: Manifest| m@)[j + 1] == pre[j + 1]@);
                        assert(opkgs.skip(i)[j + 1] == opkgs[i + j + 1]);
                        assert(opkgs.skip(i + 1)[j] == opkgs[i + j + 1]);
                    }
                }
            }
            match m.clean(ctx) {
                Ok(c) => {
                    pkgs.push(c);
                },
                Err(e) => {
                    proof {
                        assert(!spec_manifest_ok(opkgs[i], root));
                        assert(!spec_metadata_ok(ov, root));
                    }
                    return Err(e);
                },
            }
            proof {
                i = i + 1;
            }
        }
        proof {
            assert(i == opkgs.len());
        }

        let ghost omem = workspace_members@;
        let members = match clean_ids(workspace_members, ctx) {
            Ok(v) => v,
            Err(e) => {
                proof {
                    assert(exists|j: int|
                        0 <= j < omem.len() && !(spec_canon_pkg_id(
                            (#[trigger] omem[j])@,
                            root,
                        ) is Some));
                    let j = choose|j: int|
                        0 <= j < omem.len() && !(spec_canon_pkg_id(
                            (#[trigger] omem[j])@,
                            root,
                        ) is Some);
                    assert(ov.workspace_members[j] == omem[j]@);
                    assert(!spec_metadata_ok(ov, root));
                }
                return Err(e);
            },
        };
        let ghost odmem = workspace_default_members@;
        let default_members = match clean_ids(workspace_default_members, ctx) {
            Ok(v) => v,
            Err(e) => {
                proof {
                    assert(exists|j: int|
                        0 <= j < odmem.len() && !(spec_canon_pkg_id(
                            (#[trigger] odmem[j])@,
                            root,
                        ) is Some));
                    let j = choose|j: int|
                        0 <= j < odmem.len() && !(spec_canon_pkg_id(
                            (#[trigger] odmem[j])@,
                            root,
                        ) is Some);
                    assert(ov.workspace_default_members[j] == odmem[j]@);
                    assert(!spec_metadata_ok(ov, root));
                }
                return Err(e);
            },
        };

        let mut nrest = resolve.nodes;
        let mut nodes: Vec<Node> = Vec::new();
        let ghost onodes = ov.nodes;
        proof {
            assert(nrest@.map_values(|n: Node| n@) =~= onodes.skip(0));
        }
        let ghost mut k: int = 0;
        while nrest.len() > 0
            invariant
                0 <= k <= onodes.len(),
                ov == self@,
                root == ctx.workspace_root@,
                onodes == ov.nodes,
                nrest@.map_values(|n: Node| n@) == onodes.skip(k),
                nrest@.len() == onodes.len() - k,
                nodes@.len() == k,
                forall|j: int|
                    0 <= j < k ==> spec_node_ok(#[trigger] onodes[j], root) && spec_node_cleaned(
                        onodes[j],
                        nodes@[j],
                        root,
                    ),
            decreases nrest@.len(),
        {
            let ghost pre = nrest@;
            let n = nrest.remove(0);
            proof {
                assert(n@ == pre.map_values(|n: Node| n@)[0]);
                assert(onodes.skip(k)[0] == onodes[k]);
                assert(n@ == onodes[k]);
                assert(nrest@.map_values(|n: Node| n@) =~= onodes.skip(k + 1)) by {
                    assert forall|j: int| #![trigger nrest@[j]] 0 <= j < nrest@.len() implies nrest@
                        .map_values(|n: Node| n@)[j] == onodes.skip(k + 1)[j] by {
                        assert(nrest@[j] == pre.remove(0)[j]);
                        assert(pre.remove(0)[j] == pre[j + 1]);
                        assert(pre.map_values(|n: Node| n@)[j + 1] == pre[j + 1]@);
                        assert(onodes.skip(k)[j + 1] == onodes[k + j + 1]);
                        assert(onodes.skip(k + 1)[j] == onodes[k + j + 1]);
                    }
                }
            }
            match n.clean(ctx) {
                Ok(c) => {
                    nodes.push(c);
                },
                Err(e) => {
                    proof {
                        assert(!spec_node_ok(onodes[k], root));
                        assert(!spec_metadata_ok(ov, root));
                    }
                    return Err(e);
                },
            }
            proof {
                k = k + 1;
            }
        }
        proof {
            assert(k == onodes.len());
        }

        let out = Metadata {
            packages: pkgs,
            workspace_members: members,
            workspace_default_members: default_members,
            resolve: crate::input::Resolve { nodes },
            workspace_root,
        };
        proof {
            assert(spec_metadata_ok(ov, root));
            assert(spec_metadata_cleaned(ov, out, root)) by {
                assert(out@.packages =~= out.packages@.map_values(|m: Manifest| m@));
                assert forall|j: int| 0 <= j < ov.packages.len() implies spec_manifest_cleaned(
                    ov.packages[j],
                    #[trigger] out.packages@[j],
                    root,
                ) by {
                    assert(out.packages@[j] == pkgs@[j]);
                }
                assert(out@.workspace_members =~= members@.map_values(|p: PkgId| p@));
                assert(out@.workspace_default_members =~= default_members@.map_values(
                    |p: PkgId| p@,
                ));
                assert(out@.nodes =~= nodes@.map_values(|n: Node| n@));
                assert forall|j: int| 0 <= j < ov.nodes.len() implies spec_node_cleaned(
                    ov.nodes[j],
                    #[trigger] out.resolve.nodes@[j],
                    root,
                ) by {
                    assert(out.resolve.nodes@[j] == nodes@[j]);
                }
            }
        }
        Ok(out)
    }
}

/// The workspace correspondence survives cleaning: where the parsed
/// report carries a source exactly on the packages outside its member
/// list, and no other member id compacts to a package's compact id, each
/// cleaned package lacks a source exactly where its id is a cleaned
/// workspace member. The second premise rules out compaction collisions,
/// under which the backward direction would fail; the graph-level
/// invariant check catches those.
pub proof fn lemma_clean_keeps_membership(o: MetadataView, n: Metadata, root: Seq<u8>, i: int)
    requires
        spec_metadata_cleaned(o, n, root),
        0 <= i < n.packages@.len(),
        forall|k: int|
            0 <= k < o.packages.len() ==> (((#[trigger] o.packages[k]).source is None)
                <==> o.workspace_members.contains(o.packages[k].id)),
        forall|j: int|
            0 <= j < o.workspace_members.len() ==> (spec_canon(
                #[trigger] o.workspace_members[j],
                root,
            ) == spec_canon(o.packages[i].id, root) ==> o.workspace_members[j] == o.packages[i].id),
    ensures
        (n.packages@[i]@.source is None) <==> n@.workspace_members.contains(n.packages@[i]@.id),
{
    broadcast use vstd::seq_lib::group_to_multiset_ensures;

    let raw = o.packages[i].id;
    let cid = spec_canon(raw, root);
    let canon_members = o.workspace_members.map_values(|id: Seq<u8>| spec_canon(id, root));
    assert(spec_manifest_cleaned(o.packages[i], n.packages@[i], root));
    assert(n.packages@[i]@.id == cid);
    assert((n.packages@[i]@.source is None) <==> (o.packages[i].source is None));
    assert((o.packages[i].source is None) <==> o.workspace_members.contains(raw));
    if o.workspace_members.contains(raw) {
        let j = choose|j: int| 0 <= j < o.workspace_members.len() && o.workspace_members[j] == raw;
        assert(canon_members[j] == cid);
        assert(canon_members.contains(cid));
        assert(n@.workspace_members.to_multiset().contains(cid));
        assert(n@.workspace_members.contains(cid));
    }
    if n@.workspace_members.contains(cid) {
        assert(n@.workspace_members.to_multiset().contains(cid));
        assert(canon_members.to_multiset().contains(cid));
        assert(canon_members.contains(cid));
        let j = choose|j: int| 0 <= j < canon_members.len() && canon_members[j] == cid;
        assert(spec_canon(o.workspace_members[j], root) == cid);
        assert(o.workspace_members[j] == raw);
        assert(o.workspace_members.contains(raw));
    }
}

/// Compact a list of ids and put it into byte order.
fn clean_ids(ids: Vec<PkgId>, ctx: &Context) -> (r: Result<Vec<PkgId>, Error>)
    ensures
        match r {
            Ok(n) => (forall|i: int|
                0 <= i < ids@.len() ==> spec_canon_pkg_id(
                    (#[trigger] ids@[i])@,
                    ctx.workspace_root@,
                ) is Some) && n@.map_values(|p: PkgId| p@).to_multiset() == ids@.map_values(
                |p: PkgId| p@,
            ).map_values(|id: Seq<u8>| spec_canon(id, ctx.workspace_root@)).to_multiset()
                && sorted_by_le(n@),
            Err(e) => !(forall|i: int|
                0 <= i < ids@.len() ==> spec_canon_pkg_id(
                    (#[trigger] ids@[i])@,
                    ctx.workspace_root@,
                ) is Some) && e.kind == ErrorKind::Inconsistent,
        },
{
    let ghost root = ctx.workspace_root@;
    let ghost oids = ids@.map_values(|p: PkgId| p@);
    let mut rest = ids;
    let mut done: Vec<PkgId> = Vec::new();
    proof {
        assert(rest@.map_values(|p: PkgId| p@) =~= oids.skip(0));
        assert(done@.map_values(|p: PkgId| p@) =~= oids.take(0).map_values(
            |id: Seq<u8>| spec_canon(id, root),
        ));
    }
    let ghost mut i: int = 0;
    while rest.len() > 0
        invariant
            0 <= i <= oids.len(),
            root == ctx.workspace_root@,
            oids == ids@.map_values(|p: PkgId| p@),
            rest@.map_values(|p: PkgId| p@) == oids.skip(i),
            rest@.len() == oids.len() - i,
            done@.len() == i,
            forall|j: int| 0 <= j < i ==> spec_canon_pkg_id(#[trigger] oids[j], root) is Some,
            done@.map_values(|p: PkgId| p@) == oids.take(i).map_values(
                |id: Seq<u8>| spec_canon(id, root),
            ),
        decreases rest@.len(),
    {
        let ghost pre = rest@;
        let p = rest.remove(0);
        proof {
            assert(p@ == pre.map_values(|p: PkgId| p@)[0]);
            assert(oids.skip(i)[0] == oids[i]);
            assert(p@ == oids[i]);
            assert(rest@.map_values(|p: PkgId| p@) =~= oids.skip(i + 1)) by {
                assert forall|j: int| #![trigger rest@[j]] 0 <= j < rest@.len() implies rest@
                    .map_values(|p: PkgId| p@)[j] == oids.skip(i + 1)[j] by {
                    assert(rest@[j] == pre.remove(0)[j]);
                    assert(pre.remove(0)[j] == pre[j + 1]);
                    assert(pre.map_values(|p: PkgId| p@)[j + 1] == pre[j + 1]@);
                    assert(oids.skip(i)[j + 1] == oids[i + j + 1]);
                    assert(oids.skip(i + 1)[j] == oids[i + j + 1]);
                }
            }
        }
        match clean_id(p, ctx) {
            Ok(c) => {
                let ghost done_pre = done@;
                done.push(c);
                proof {
                    assert(done@ == done_pre.push(c));
                    assert(done@.map_values(|p: PkgId| p@) =~= done_pre.map_values(
                        |p: PkgId| p@,
                    ).push(c@));
                    assert(oids.take(i + 1).map_values(|id: Seq<u8>| spec_canon(id, root)) =~= oids
                        .take(i).map_values(|id: Seq<u8>| spec_canon(id, root)).push(
                        spec_canon(oids[i], root),
                    ));
                }
            },
            Err(e) => {
                proof {
                    assert(!(forall|j: int|
                        0 <= j < ids@.len() ==> spec_canon_pkg_id(
                            (#[trigger] ids@[j])@,
                            root,
                        ) is Some)) by {
                        assert(ids@[i]@ == oids[i]);
                    }
                }
                return Err(e);
            },
        }
        proof {
            i = i + 1;
        }
    }
    proof {
        assert(i == oids.len());
        assert(oids.take(oids.len() as int) =~= oids);
        assert forall|j: int| 0 <= j < ids@.len() implies spec_canon_pkg_id(
            (#[trigger] ids@[j])@,
            root,
        ) is Some by {
            assert(ids@[j]@ == oids[j]);
        }
    }
    let ghost before_sort = done@;
    let sorted = sort_by_le(done);
    proof {
        lemma_map_values_multiset(sorted@, before_sort, |p: PkgId| p@);
    }
    Ok(sorted)
}

} // verus!
