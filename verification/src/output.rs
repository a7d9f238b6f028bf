//! The canonical graph: the reconciled packages with their per-edge
//! activation records, and the graph-wide invariant check.

use vstd::prelude::*;
use vstd::string::StringSliceAdditionalSpecFns;

use crate::bytes;
use crate::error::{Error, ErrorKind};
use crate::input::{DepKind, DepView, Manifest, ManifestView, NodeDepKindView, Source};
use crate::nargo::{CrateType, PkgId, TargetKind};

pub use crate::input::Platform;

verus! {

/// A content-addressing digest pinning an external package's fetched
/// contents.
#[derive(Clone, Debug, PartialEq, Eq)]
pub struct SriHash(pub Vec<u8>);

impl View for SriHash {
    type V = Seq<u8>;

    open spec fn view(&self) -> Seq<u8> {
        self.0@
    }
}

/// One activation record of an edge: the kind and target tag the resolver
/// supplied, with the feature data recovered from the manifest entry.
#[derive(Clone, Debug)]
pub struct PkgDepKind {
    pub kind: DepKind,
    pub target: Option<Platform>,
    pub optional: bool,
    pub default: bool,
    pub features: Vec<Vec<u8>>,
}

/// The abstract value of an activation record.
#[verifier::ext_equal]
pub struct PkgDepKindView {
    pub kind: DepKind,
    pub target: Option<Seq<u8>>,
    pub optional: bool,
    pub default: bool,
    pub features: Seq<Seq<u8>>,
}

impl View for PkgDepKind {
    type V = PkgDepKindView;

    open spec fn view(&self) -> PkgDepKindView {
        PkgDepKindView {
            kind: self.kind,
            target: crate::input::tgt_view(self.target),
            optional: self.optional,
            default: self.default,
            features: self.features.deep_view(),
        }
    }
}

/// One reconciled edge: the dependency's effective name and its activation
/// records in the fixed (kind, target) order.
#[derive(Clone, Debug)]
pub struct PkgDep {
    pub name: Vec<u8>,
    pub kinds: Vec<PkgDepKind>,
}

/// The abstract value of a reconciled edge.
#[verifier::ext_equal]
pub struct PkgDepView {
    pub name: Seq<u8>,
    pub kinds: Seq<PkgDepKindView>,
}

impl View for PkgDep {
    type V = PkgDepView;

    open spec fn view(&self) -> PkgDepView {
        PkgDepView { name: self.name@, kinds: self.kinds@.map_values(|k: PkgDepKind| k@) }
    }
}

/// One build target in the canonical graph, with its kind resolved.
#[derive(Clone, Debug)]
pub struct ManifestTarget {
    pub name: Vec<u8>,
    pub kind: TargetKind,
    pub crate_types: Vec<Vec<u8>>,
    pub required_features: Vec<Vec<u8>>,
    pub path: Vec<u8>,
    pub edition: Vec<u8>,
}

/// The abstract value of a canonical build target.
#[verifier::ext_equal]
pub struct OutTargetView {
    pub name: Seq<u8>,
    pub kind: TargetKind,
    pub crate_types: Seq<Seq<u8>>,
    pub required_features: Seq<Seq<u8>>,
    pub path: Seq<u8>,
    pub edition: Seq<u8>,
}

impl View for ManifestTarget {
    type V = OutTargetView;

    open spec fn view(&self) -> OutTargetView {
        OutTargetView {
            name: self.name@,
            kind: self.kind,
            crate_types: self.crate_types.deep_view(),
            required_features: self.required_features.deep_view(),
            path: self.path@,
            edition: self.edition@,
        }
    }
}

/// One package of the canonical graph.
#[derive(Clone, Debug)]
pub struct Package {
    pub name: Vec<u8>,
    pub version: Vec<u8>,
    pub source: Option<Source>,
    pub hash: Option<SriHash>,
    pub path: Option<Vec<u8>>,
    pub edition: Vec<u8>,
    pub rust_version: Option<Vec<u8>>,
    pub default_run: Option<Vec<u8>>,
    pub links: Option<Vec<u8>>,
    pub features: Vec<(Vec<u8>, Vec<Vec<u8>>)>,
    /// The reconciled edges, an ordered map keyed by dependency id.
    pub deps: Vec<(PkgId, PkgDep)>,
    pub targets: Vec<ManifestTarget>,
}

/// The abstract value of a canonical package.
#[verifier::ext_equal]
pub struct PackageView {
    pub name: Seq<u8>,
    pub version: Seq<u8>,
    pub source: Option<Seq<u8>>,
    pub hash: Option<Seq<u8>>,
    pub path: Option<Seq<u8>>,
    pub edition: Seq<u8>,
    pub rust_version: Option<Seq<u8>>,
    pub default_run: Option<Seq<u8>>,
    pub links: Option<Seq<u8>>,
    pub features: Seq<(Seq<u8>, Seq<Seq<u8>>)>,
    pub deps: Seq<(Seq<u8>, PkgDepView)>,
    pub targets: Seq<OutTargetView>,
}

/// The digest text of an optional hash.
pub open spec fn hash_view(o: Option<SriHash>) -> Option<Seq<u8>> {
    match o {
        Some(h) => Some(h@),
        None => None,
    }
}

impl View for Package {
    type V = PackageView;

    open spec fn view(&self) -> PackageView {
        PackageView {
            name: self.name@,
            version: self.version@,
            source: crate::input::src_view(self.source),
            hash: hash_view(self.hash),
            path: self.path.deep_view(),
            edition: self.edition@,
            rust_version: self.rust_version.deep_view(),
            default_run: self.default_run.deep_view(),
            links: self.links.deep_view(),
            features: self.features.deep_view(),
            deps: self.deps@.map_values(|e: (PkgId, PkgDep)| (e.0@, e.1@)),
            targets: self.targets@.map_values(|t: ManifestTarget| t@),
        }
    }
}

/// The canonical graph.
#[derive(Clone, Debug)]
pub struct Metadata {
    /// An ordered map keyed by package id.
    pub packages: Vec<(PkgId, Package)>,
    pub workspace_members: Vec<PkgId>,
    pub workspace_default_members: Vec<PkgId>,
}

/// The abstract value of the canonical graph.
#[verifier::ext_equal]
pub struct OutMetadataView {
    pub packages: Seq<(Seq<u8>, PackageView)>,
    pub workspace_members: Seq<Seq<u8>>,
    pub workspace_default_members: Seq<Seq<u8>>,
}

impl View for Metadata {
    type V = OutMetadataView;

    open spec fn view(&self) -> OutMetadataView {
        OutMetadataView {
            packages: self.packages@.map_values(|e: (PkgId, Package)| (e.0@, e.1@)),
            workspace_members: self.workspace_members@.map_values(|p: PkgId| p@),
            workspace_default_members: self.workspace_default_members@.map_values(|p: PkgId| p@),
        }
    }
}

/// The value a serializer writes for an absent boolean that defaults off.
pub fn default_false() -> (r: bool)
    ensures
        r == false,
{
    false
}

/// The value a serializer reads for an absent boolean that defaults on.
pub fn default_true() -> (r: bool)
    ensures
        r == true,
{
    true
}

/// Whether a boolean field may be omitted because it has its off default.
pub fn is_false(x: &bool) -> (r: bool)
    ensures
        r == !*x,
{
    !*x
}

/// Whether a boolean field may be omitted because it has its on default.
pub fn is_true(x: &bool) -> (r: bool)
    ensures
        r == *x,
{
    *x
}

/// Whether a list field may be omitted because it is empty.
pub fn is_empty(x: &Vec<Vec<u8>>) -> (r: bool)
    ensures
        r == (x@.len() == 0),
{
    x.len() == 0
}

impl Package {
    /// Whether the package is a workspace member: exactly the packages
    /// without a source.
    pub fn is_workspace(&self) -> (r: bool)
        ensures
            r == (self.source is None),
    {
        self.source.is_none()
    }

    /// Whether the package comes from the default registry.
    pub fn is_crates_io(&self) -> (r: bool)
        ensures
            r == (crate::input::src_view(self.source) == Some("crates.io".spec_bytes())),
    {
        match &self.source {
            Some(s) => s.is_crates_io(),
            None => false,
        }
    }

    /// The store name used when prefetching this package's contents.
    pub fn prefetch_name(&self) -> (r: Vec<u8>)
        ensures
            r@ == "crate-".spec_bytes() + self.name@ + seq!['-' as u8] + self.version@,
    {
        let mut out = bytes::lit("crate-");
        bytes::push_bytes(&mut out, self.name.as_slice());
        bytes::push_byte(&mut out, '-' as u8);
        proof {
            assert("crate-".spec_bytes() + self.name@ + seq!['-' as u8] =~= ("crate-".spec_bytes()
                + self.name@).push('-' as u8));
        }
        bytes::push_bytes(&mut out, self.version.as_slice());
        out
    }

    /// The registry address this package's contents are fetched from.
    pub fn prefetch_url(&self) -> (r: Vec<u8>)
        ensures
            r@ == "https://static.crates.io/crates/".spec_bytes() + self.name@ + seq!['/' as u8]
                + self.version@ + "/download".spec_bytes(),
    {
        let mut out = bytes::lit("https://static.crates.io/crates/");
        bytes::push_bytes(&mut out, self.name.as_slice());
        bytes::push_byte(&mut out, '/' as u8);
        proof {
            assert("https://static.crates.io/crates/".spec_bytes() + self.name@ + seq!['/' as u8]
                =~= ("https://static.crates.io/crates/".spec_bytes() + self.name@).push('/' as u8));
        }
        bytes::push_bytes(&mut out, self.version.as_slice());
        let tail = bytes::lit("/download");
        bytes::push_bytes(&mut out, tail.as_slice());
        out
    }
}



/// A source text without its lock token, lifted to an optional source.
pub open spec fn strip_locked_opt(o: Option<Seq<u8>>) -> Option<Seq<u8>> {
    match o {
        Some(s) => Some(crate::input::spec_strip_locked(s)),
        None => None,
    }
}

/// Whether a manifest entry declares the resolved dependency: same name,
/// same source up to lock tokens, and the same path for a path dependency
/// or a satisfied version requirement otherwise. Path dependencies never
/// match by version, because two of them can share a version while
/// pointing at different trees.
pub open spec fn spec_entry_matches(
    e: DepView,
    dname: Seq<u8>,
    dsrc: Option<Seq<u8>>,
    dpath: Option<Seq<u8>>,
    dver: Seq<u8>,
) -> bool {
    &&& e.name == dname
    &&& strip_locked_opt(e.source) == dsrc
    &&& (if e.path is Some {
        e.path == dpath
    } else {
        crate::vreq::req_match_of(e.req, dver) == Some(true)
    })
}

/// The candidate set of an edge: the declaring entries, in declaration
/// order.
pub open spec fn spec_candidates(
    deps: Seq<DepView>,
    dname: Seq<u8>,
    dsrc: Option<Seq<u8>>,
    dpath: Option<Seq<u8>>,
    dver: Seq<u8>,
) -> Seq<DepView>
    decreases deps.len(),
{
    if deps.len() == 0 {
        Seq::empty()
    } else {
        let rest = spec_candidates(deps.drop_last(), dname, dsrc, dpath, dver);
        if spec_entry_matches(deps.last(), dname, dsrc, dpath, dver) {
            rest.push(deps.last())
        } else {
            rest
        }
    }
}

/// Every version requirement the matching consults must be well-formed.
pub open spec fn spec_reqs_ok(
    deps: Seq<DepView>,
    dname: Seq<u8>,
    dsrc: Option<Seq<u8>>,
    dver: Seq<u8>,
) -> bool {
    forall|i: int|
        0 <= i < deps.len() && (#[trigger] deps[i]).name == dname && strip_locked_opt(
            deps[i].source,
        ) == dsrc && deps[i].path is None ==> crate::vreq::req_match_of(deps[i].req, dver) is Some
}

/// A dependency's effective name: its rename where declared, its name
/// otherwise.
pub open spec fn spec_effective_name(e: DepView) -> Seq<u8> {
    match e.rename {
        Some(r) => r,
        None => e.name,
    }
}

/// The candidates that carry one exact (kind, target) activation tag.
pub open spec fn spec_tag_candidates(
    cands: Seq<DepView>,
    kind: DepKind,
    target: Option<Seq<u8>>,
) -> Seq<DepView>
    decreases cands.len(),
{
    if cands.len() == 0 {
        Seq::empty()
    } else {
        let rest = spec_tag_candidates(cands.drop_last(), kind, target);
        if cands.last().kind == kind && cands.last().target == target {
            rest.push(cands.last())
        } else {
            rest
        }
    }
}

/// The activation record recovered from one manifest entry for one tag.
/// A dependency without a `"default"` feature key has its default flag
/// forced off, whatever the entry declared.
pub open spec fn spec_dep_kind_record(e: DepView, t: NodeDepKindView, dep_has_default: bool) -> PkgDepKindView {
    PkgDepKindView {
        kind: t.kind,
        target: t.target,
        optional: e.optional,
        default: if !dep_has_default {
            false
        } else {
            e.uses_default_features
        },
        features: e.features,
    }
}

/// When reconciling one edge succeeds: the consulted requirements parse,
/// at least one entry declares the dependency, all of them agree on the
/// effective name, and every activation tag selects exactly one entry.
pub open spec fn spec_reconcile_ok(
    deps: Seq<DepView>,
    tags: Seq<NodeDepKindView>,
    dname: Seq<u8>,
    dsrc: Option<Seq<u8>>,
    dpath: Option<Seq<u8>>,
    dver: Seq<u8>,
) -> bool {
    let cands = spec_candidates(deps, dname, dsrc, dpath, dver);
    &&& spec_reqs_ok(deps, dname, dsrc, dver)
    &&& cands.len() > 0
    &&& forall|i: int|
        0 <= i < cands.len() ==> spec_effective_name(#[trigger] cands[i]) == spec_effective_name(
            cands[0],
        )
    &&& forall|t: int|
        0 <= t < tags.len() ==> spec_tag_candidates(
            cands,
            (#[trigger] tags[t]).kind,
            tags[t].target,
        ).len() == 1
}

/// The activation records of an edge, one per tag in tag order.
pub open spec fn spec_reconciled_kinds(
    cands: Seq<DepView>,
    tags: Seq<NodeDepKindView>,
    dep_has_default: bool,
) -> Seq<PkgDepKindView> {
    tags.map_values(
        |t: NodeDepKindView|
            spec_dep_kind_record(
                spec_tag_candidates(cands, t.kind, t.target)[0],
                t,
                dep_has_default,
            ),
    )
}

/// A fresh copy of a byte string.
fn copy_bytes(v: &Vec<u8>) -> (r: Vec<u8>)
    ensures
        r@ == v@,
{
    let r = bytes::copy_range(v.as_slice(), 0, v.len());
    proof {
        assert(r@ =~= v@);
    }
    r
}

/// A fresh copy of an optional byte string.
fn copy_opt_bytes(o: &Option<Vec<u8>>) -> (r: Option<Vec<u8>>)
    ensures
        r.deep_view() == o.deep_view(),
{
    match o {
        Some(v) => Some(copy_bytes(v)),
        None => None,
    }
}

/// A fresh copy of a list of byte strings.
pub(crate) fn copy_bytes_list(v: &Vec<Vec<u8>>) -> (r: Vec<Vec<u8>>)
    ensures
        r.deep_view() == v.deep_view(),
{
    let mut out: Vec<Vec<u8>> = Vec::new();
    let mut i: usize = 0;
    while i < v.len()
        invariant
            i <= v@.len(),
            out.deep_view() == v.deep_view().take(i as int),
        decreases v@.len() - i,
    {
        let c = copy_bytes(&v[i]);
        proof {
            assert(c.deep_view() =~= c@);
            assert(v@[i as int].deep_view() =~= v@[i as int]@);
        }
        let ghost preo = out@;
        let ghost dv_pre = out.deep_view();
        let ghost cdv = c.deep_view();
        out.push(c);
        proof {
            assert(out.deep_view() =~= dv_pre.push(cdv)) by {
                assert forall|j: int| 0 <= j < out@.len() implies out.deep_view()[j] == dv_pre.push(
                    cdv,
                )[j] by {
                    if j < preo.len() {
                        assert(out@[j] == preo[j]);
                        assert(dv_pre[j] == preo[j].deep_view());
                    }
                }
            }
            assert(dv_pre.push(cdv) =~= v.deep_view().take(i + 1 as int));
        }
        i += 1;
    }
    proof {
        assert(v.deep_view().take(v@.len() as int) =~= v.deep_view());
    }
    out
}

/// A fresh copy of a feature map.
fn copy_features(v: &Vec<(Vec<u8>, Vec<Vec<u8>>)>) -> (r: Vec<(Vec<u8>, Vec<Vec<u8>>)>)
    ensures
        r.deep_view() == v.deep_view(),
{
    let mut out: Vec<(Vec<u8>, Vec<Vec<u8>>)> = Vec::new();
    let mut i: usize = 0;
    while i < v.len()
        invariant
            i <= v@.len(),
            out.deep_view() == v.deep_view().take(i as int),
        decreases v@.len() - i,
    {
        let key = copy_bytes(&v[i].0);
        let val = copy_bytes_list(&v[i].1);
        proof {
            assert(key.deep_view() =~= key@);
            assert(v@[i as int].0.deep_view() =~= v@[i as int].0@);
        }
        let ghost preo = out@;
        let ghost dv_pre = out.deep_view();
        let ghost cdv = (key.deep_view(), val.deep_view());
        out.push((key, val));
        proof {
            assert(out.deep_view() =~= dv_pre.push(cdv)) by {
                assert forall|j: int| 0 <= j < out@.len() implies out.deep_view()[j] == dv_pre.push(
                    cdv,
                )[j] by {
                    if j < preo.len() {
                        assert(out@[j] == preo[j]);
                        assert(dv_pre[j] == preo[j].deep_view());
                    }
                }
            }
            assert(dv_pre.push(cdv) =~= v.deep_view().take(i + 1 as int));
        }
        i += 1;
    }
    proof {
        assert(v.deep_view().take(v@.len() as int) =~= v.deep_view());
    }
    out
}

/// A fresh copy of an optional source.
fn copy_source(o: &Option<Source>) -> (r: Option<Source>)
    ensures
        crate::input::src_view(r) == crate::input::src_view(*o),
{
    match o {
        Some(s) => Some(Source(copy_bytes(&s.0))),
        None => None,
    }
}

/// A fresh copy of an optional target predicate.
fn copy_plat(o: &Option<Platform>) -> (r: Option<Platform>)
    ensures
        crate::input::tgt_view(r) == crate::input::tgt_view(*o),
{
    match o {
        Some(p) => Some(Platform(copy_bytes(&p.0))),
        None => None,
    }
}

/// A fresh copy of an optional hash.
fn copy_hash(o: &Option<SriHash>) -> (r: Option<SriHash>)
    ensures
        hash_view(r) == hash_view(*o),
{
    match o {
        Some(h) => Some(SriHash(copy_bytes(&h.0))),
        None => None,
    }
}

/// A fresh copy of an activation tag.
fn copy_tag(t: &crate::input::NodeDepKind) -> (r: crate::input::NodeDepKind)
    ensures
        r@ == t@,
{
    crate::input::NodeDepKind { kind: t.kind, target: copy_plat(&t.target) }
}

/// A fresh copy of a declared dependency.
fn copy_dep(d: &crate::input::ManifestDependency) -> (r: crate::input::ManifestDependency)
    ensures
        r@ == d@,
{
    let out = crate::input::ManifestDependency {
        name: copy_bytes(&d.name),
        source: copy_source(&d.source),
        req: copy_bytes(&d.req),
        kind: d.kind,
        optional: d.optional,
        uses_default_features: d.uses_default_features,
        features: copy_bytes_list(&d.features),
        target: copy_plat(&d.target),
        rename: copy_opt_bytes(&d.rename),
        registry: copy_opt_bytes(&d.registry),
        path: copy_opt_bytes(&d.path),
    };
    proof {
        assert(out@ =~~= d@);
    }
    out
}

impl PkgDepKind {
    /// Recover the activation record for one tag: exactly one candidate
    /// must carry the tag's (kind, target) pair; fewer or more is an
    /// internal inconsistency.
    pub fn from_input(
        cands: &Vec<crate::input::ManifestDependency>,
        tag: &crate::input::NodeDepKind,
        dep_has_default: bool,
    ) -> (r: Result<PkgDepKind, Error>)
        ensures
            ({
                let cv = cands@.map_values(|d: crate::input::ManifestDependency| d@);
                match r {
                    Ok(k) => spec_tag_candidates(cv, tag@.kind, tag@.target).len() == 1 && k@
                        == spec_dep_kind_record(
                        spec_tag_candidates(cv, tag@.kind, tag@.target)[0],
                        tag@,
                        dep_has_default,
                    ),
                    Err(e) => spec_tag_candidates(cv, tag@.kind, tag@.target).len() != 1 && e.kind
                        == ErrorKind::Inconsistent,
                }
            }),
    {
        let ghost cv = cands@.map_values(|d: crate::input::ManifestDependency| d@);
        let mut found: Option<usize> = None;
        let mut dup: bool = false;
        let mut i: usize = 0;
        proof {
            assert(spec_tag_candidates(cv.take(0), tag@.kind, tag@.target) =~= Seq::<
                DepView,
            >::empty());
        }
        while i < cands.len()
            invariant
                i <= cands@.len(),
                cv == cands@.map_values(|d: crate::input::ManifestDependency| d@),
                (spec_tag_candidates(cv.take(i as int), tag@.kind, tag@.target).len() == 0) <==> (
                found is None),
                dup <==> spec_tag_candidates(cv.take(i as int), tag@.kind, tag@.target).len() > 1,
                match found {
                    Some(m) => m < i && cv[m as int] == spec_tag_candidates(
                        cv.take(i as int),
                        tag@.kind,
                        tag@.target,
                    )[0] && cv[m as int].kind == tag@.kind && cv[m as int].target == tag@.target,
                    None => true,
                },
            decreases cands@.len() - i,
        {
            proof {
                assert(cv[i as int] == cands@[i as int]@);
                assert(cv.take(i + 1 as int).drop_last() =~= cv.take(i as int));
                assert(cv.take(i + 1 as int).last() == cv[i as int]);
            }
            let e = &cands[i];
            let kind_eq = e.kind.rank_exec() == tag.kind.rank_exec();
            let target_eq: bool = match (&e.target, &tag.target) {
                (Option::None, Option::None) => true,
                (Option::Some(a), Option::Some(b)) => bytes::bytes_eq(
                    a.0.as_slice(),
                    b.0.as_slice(),
                ),
                _ => false,
            };
            if kind_eq && target_eq {
                proof {
                    assert(cv[i as int].kind == tag@.kind);
                    assert(cv[i as int].target == tag@.target);
                }
                if found.is_none() {
                    found = Some(i);
                } else {
                    dup = true;
                }
            } else {
                proof {
                    assert(!(cv[i as int].kind == tag@.kind && cv[i as int].target == tag@.target));
                }
            }
            i += 1;
        }
        proof {
            assert(cv.take(cv.len() as int) =~= cv);
        }
        if dup {
            let mut e = Error::from_display(
                "several manifest dependency entries match one resolved activation tag",
            ).with_kind(ErrorKind::Inconsistent).with_detail(tag.kind.as_str().as_bytes());
            match &tag.target {
                Some(t) => {
                    e = e.with_detail(t.0.as_slice());
                },
                None => (),
            }
            return Err(e);
        }
        let m = match found {
            Some(m) => m,
            None => {
                let mut e = Error::from_display(
                    "no manifest dependency entry matches a resolved activation tag",
                ).with_kind(ErrorKind::Inconsistent).with_detail(tag.kind.as_str().as_bytes());
                match &tag.target {
                    Some(t) => {
                        e = e.with_detail(t.0.as_slice());
                    },
                    None => (),
                }
                return Err(e);
            },
        };
        let e = &cands[m];
        let default = if !dep_has_default {
            false
        } else {
            e.uses_default_features
        };
        let out = PkgDepKind {
            kind: tag.kind,
            target: copy_plat(&tag.target),
            optional: e.optional,
            default,
            features: copy_bytes_list(&e.features),
        };
        proof {
            assert(cv[m as int] == cands@[m as int]@);
            assert(out@ =~~= spec_dep_kind_record(
                spec_tag_candidates(cv, tag@.kind, tag@.target)[0],
                tag@,
                dep_has_default,
            ));
        }
        Ok(out)
    }
}

/// Whether a declared source equals a stripped source text, comparing up
/// to lock tokens.
fn source_stripped_eq(a: &Option<Source>, b: &Option<Vec<u8>>) -> (r: bool)
    ensures
        r == (strip_locked_opt(crate::input::src_view(*a)) == b.deep_view()),
{
    match (a, b) {
        (Option::None, Option::None) => {
            proof {
                assert(b.deep_view() == None::<Seq<u8>>);
            }
            true
        },
        (Option::Some(s), Option::Some(t)) => {
            proof {
                assert(b.deep_view() == Some(t@));
            }
            let stripped = s.strip_locked();
            bytes::bytes_eq(stripped.0.as_slice(), t.as_slice())
        },
        (Option::None, Option::Some(t)) => {
            proof {
                assert(b.deep_view() == Some(t@));
            }
            false
        },
        (Option::Some(_), Option::None) => {
            proof {
                assert(b.deep_view() == None::<Seq<u8>>);
            }
            false
        },
    }
}

impl PkgDep {
    /// Reconcile one resolved edge: find the manifest entries that declare
    /// the dependency, take the effective name they agree on, and recover
    /// one activation record per resolver tag, in the fixed (kind, target)
    /// order.
    ///
    /// On success the output has exactly one record per activation tag,
    /// each traceable to the single manifest entry carrying that tag.
    pub fn from_input(
        manifest: &Manifest,
        dep: &crate::input::NodeDep,
        dep_name: &[u8],
        dep_source_stripped: &Option<Vec<u8>>,
        dep_path: &Option<Vec<u8>>,
        dep_version: &[u8],
        dep_has_default: bool,
    ) -> (r: Result<PkgDep, Error>)
        ensures
            ({
                let depsv = manifest@.dependencies;
                let tagsv = dep@.dep_kinds;
                let dn = dep_name@;
                let ds = dep_source_stripped.deep_view();
                let dp = dep_path.deep_view();
                let dvr = dep_version@;
                let cands = spec_candidates(depsv, dn, ds, dp, dvr);
                match r {
                    Ok(pd) => {
                        &&& spec_reconcile_ok(depsv, tagsv, dn, ds, dp, dvr)
                        &&& pd@.name == spec_effective_name(cands[0])
                        &&& pd@.kinds.to_multiset() == spec_reconciled_kinds(
                            cands,
                            tagsv,
                            dep_has_default,
                        ).to_multiset()
                        &&& pd@.kinds.len() == tagsv.len()
                        &&& crate::order::kinds_sorted(pd@.kinds)
                    },
                    Err(e) => {
                        &&& !spec_reconcile_ok(depsv, tagsv, dn, ds, dp, dvr)
                        &&& (e.kind == ErrorKind::Parse <==> !spec_reqs_ok(depsv, dn, ds, dvr))
                        &&& (e.kind == ErrorKind::Parse || e.kind == ErrorKind::Inconsistent)
                    },
                }
            }),
    {
        let ghost depsv = manifest@.dependencies;
        let ghost tagsv = dep@.dep_kinds;
        let ghost dn = dep_name@;
        let ghost ds = dep_source_stripped.deep_view();
        let ghost dp = dep_path.deep_view();
        let ghost dvr = dep_version@;

        // The candidate set: every entry that declares this dependency.
        let mut cands: Vec<crate::input::ManifestDependency> = Vec::new();
        let mut i: usize = 0;
        proof {
            assert(spec_candidates(depsv.take(0), dn, ds, dp, dvr) =~= Seq::<DepView>::empty());
            assert(cands@.map_values(|d: crate::input::ManifestDependency| d@) =~= Seq::<
                DepView,
            >::empty());
        }
        while i < manifest.dependencies.len()
            invariant
                i <= manifest.dependencies@.len(),
                depsv == manifest@.dependencies,
                dn == dep_name@,
                ds == dep_source_stripped.deep_view(),
                dp == dep_path.deep_view(),
                dvr == dep_version@,
                cands@.map_values(|d: crate::input::ManifestDependency| d@) == spec_candidates(
                    depsv.take(i as int),
                    dn,
                    ds,
                    dp,
                    dvr,
                ),
                forall|j: int|
                    0 <= j < i && (#[trigger] depsv[j]).name == dn && strip_locked_opt(
                        depsv[j].source,
                    ) == ds && depsv[j].path is None ==> crate::vreq::req_match_of(
                        depsv[j].req,
                        dvr,
                    ) is Some,
            decreases manifest.dependencies@.len() - i,
        {
            let e = &manifest.dependencies[i];
            proof {
                assert(e@ == depsv[i as int]);
                assert(depsv.take(i + 1 as int).drop_last() =~= depsv.take(i as int));
                assert(depsv.take(i + 1 as int).last() == depsv[i as int]);
            }
            let name_ok = bytes::bytes_eq(e.name.as_slice(), dep_name);
            let src_ok = if name_ok {
                source_stripped_eq(&e.source, dep_source_stripped)
            } else {
                false
            };
            let mut matched = false;
            if name_ok && src_ok {
                match &e.path {
                    Some(p) => {
                        proof {
                            assert(depsv[i as int].path == Some(p@));
                        }
                        matched = match dep_path {
                            Some(q) => {
                                proof {
                                    assert(dp == Some(q@));
                                }
                                bytes::bytes_eq(p.as_slice(), q.as_slice())
                            },
                            None => {
                                proof {
                                    assert(dp is None);
                                }
                                false
                            },
                        };
                        proof {
                            assert(matched == (depsv[i as int].path == dp));
                        }
                    },
                    None => {
                        match crate::vreq::version_req_matches(e.req.as_slice(), dep_version) {
                            Some(m) => {
                                matched = m;
                            },
                            None => {
                                proof {
                                    assert(!spec_reqs_ok(depsv, dn, ds, dvr));
                                }
                                return Err(Error::from_display(
                                    "a consulted version requirement does not parse",
                                ).with_kind(ErrorKind::Parse));
                            },
                        }
                    },
                }
            }
            if matched {
                proof {
                    assert(spec_entry_matches(depsv[i as int], dn, ds, dp, dvr));
                }
                let ghost cands_pre = cands@;
                let c = copy_dep(e);
                cands.push(c);
                proof {
                    assert(cands@ == cands_pre.push(c));
                    assert(cands@.map_values(|d: crate::input::ManifestDependency| d@)
                        =~= cands_pre.map_values(|d: crate::input::ManifestDependency| d@).push(
                        c@,
                    ));
                }
            } else {
                proof {
                    assert(!spec_entry_matches(depsv[i as int], dn, ds, dp, dvr));
                }
            }
            i += 1;
        }
        proof {
            assert(depsv.take(depsv.len() as int) =~= depsv);
            assert(spec_reqs_ok(depsv, dn, ds, dvr));
        }
        let ghost candsv = cands@.map_values(|d: crate::input::ManifestDependency| d@);
        let ghost full_cands = spec_candidates(depsv, dn, ds, dp, dvr);
        proof {
            assert(candsv == full_cands);
        }

        if cands.len() == 0 {
            let mut e = Error::from_display(
                "no manifest dependency entry declares a resolved dependency",
            ).with_kind(ErrorKind::Inconsistent).with_detail(dep_name).with_detail(dep_version);
            let mut w: usize = 0;
            while w < manifest.dependencies.len()
                invariant
                    e.kind == ErrorKind::Inconsistent,
                decreases manifest.dependencies@.len() - w,
            {
                e = e.with_detail(manifest.dependencies[w].name.as_slice());
                w += 1;
            }
            return Err(e);
        }

        // The effective name, which every candidate must share.
        let ename: Vec<u8> = match &cands[0].rename {
            Some(rn) => copy_bytes(rn),
            None => copy_bytes(&cands[0].name),
        };
        proof {
            assert(cands@[0]@ == candsv[0]);
            assert(ename@ == spec_effective_name(candsv[0]));
        }
        let mut j: usize = 1;
        while j < cands.len()
            invariant
                1 <= j <= cands@.len() || cands@.len() == 0,
                depsv == manifest@.dependencies,
                dn == dep_name@,
                ds == dep_source_stripped.deep_view(),
                dp == dep_path.deep_view(),
                dvr == dep_version@,
                candsv == cands@.map_values(|d: crate::input::ManifestDependency| d@),
                candsv == spec_candidates(depsv, dn, ds, dp, dvr),
                spec_reqs_ok(depsv, dn, ds, dvr),
                ename@ == spec_effective_name(candsv[0]),
                forall|t: int|
                    0 <= t < j && t < candsv.len() ==> spec_effective_name(#[trigger] candsv[t])
                        == spec_effective_name(candsv[0]),
            decreases cands@.len() - j,
        {
            proof {
                assert(cands@[j as int]@ == candsv[j as int]);
            }
            let agrees = match &cands[j].rename {
                Some(rn) => {
                    proof {
                        assert(candsv[j as int].rename == Some(rn@));
                    }
                    bytes::bytes_eq(rn.as_slice(), ename.as_slice())
                },
                None => {
                    proof {
                        assert(candsv[j as int].rename is None);
                    }
                    bytes::bytes_eq(cands[j].name.as_slice(), ename.as_slice())
                },
            };
            if !agrees {
                proof {
                    assert(spec_effective_name(candsv[j as int]) != spec_effective_name(
                        candsv[0],
                    ));
                    assert(!spec_reconcile_ok(depsv, tagsv, dn, ds, dp, dvr));
                }
                return Err(Error::from_display(
                    "manifest dependency entries disagree on the effective name",
                ).with_kind(ErrorKind::Inconsistent).with_detail(dep_name));
            }
            j += 1;
        }

        // The activation tags, in the fixed (kind, target) order.
        let mut tags: Vec<crate::input::NodeDepKind> = Vec::new();
        let mut t: usize = 0;
        proof {
            assert(tags@.map_values(|k: crate::input::NodeDepKind| k@) =~= tagsv.take(0));
        }
        while t < dep.dep_kinds.len()
            invariant
                t <= dep.dep_kinds@.len(),
                tagsv == dep@.dep_kinds,
                tags@.map_values(|k: crate::input::NodeDepKind| k@) == tagsv.take(t as int),
                tags@.len() == t,
            decreases dep.dep_kinds@.len() - t,
        {
            proof {
                assert(dep.dep_kinds@[t as int]@ == tagsv[t as int]);
            }
            let ghost tags_pre = tags@;
            let c = copy_tag(&dep.dep_kinds[t]);
            tags.push(c);
            proof {
                assert(tags@ == tags_pre.push(c));
                assert(tags@.map_values(|k: crate::input::NodeDepKind| k@) =~= tagsv.take(
                    t + 1 as int,
                ));
            }
            t += 1;
        }
        proof {
            assert(tagsv.take(tagsv.len() as int) =~= tagsv);
        }
        let ghost tags_unsorted = tags@;
        let tags_sorted = crate::order::sort_by_le(tags);
        let ghost stv = tags_sorted@.map_values(|k: crate::input::NodeDepKind| k@);
        proof {
            crate::order::lemma_map_values_multiset(
                tags_sorted@,
                tags_unsorted,
                |k: crate::input::NodeDepKind| k@,
            );
            assert(stv.to_multiset() == tagsv.to_multiset());
        }

        // One record per tag.
        let ghost recf = |tv: NodeDepKindView|
            spec_dep_kind_record(
                spec_tag_candidates(candsv, tv.kind, tv.target)[0],
                tv,
                dep_has_default,
            );
        let mut kinds: Vec<PkgDepKind> = Vec::new();
        let mut w: usize = 0;
        proof {
            assert(kinds@.map_values(|k: PkgDepKind| k@) =~= stv.take(0).map_values(recf));
        }
        while w < tags_sorted.len()
            invariant
                w <= tags_sorted@.len(),
                depsv == manifest@.dependencies,
                dn == dep_name@,
                ds == dep_source_stripped.deep_view(),
                dp == dep_path.deep_view(),
                dvr == dep_version@,
                candsv == cands@.map_values(|d: crate::input::ManifestDependency| d@),
                candsv == spec_candidates(depsv, dn, ds, dp, dvr),
                spec_reqs_ok(depsv, dn, ds, dvr),
                stv == tags_sorted@.map_values(|k: crate::input::NodeDepKind| k@),
                tagsv == dep@.dep_kinds,
                stv.to_multiset() == tagsv.to_multiset(),
                recf == |tv: NodeDepKindView|
                    spec_dep_kind_record(
                        spec_tag_candidates(candsv, tv.kind, tv.target)[0],
                        tv,
                        dep_has_default,
                    ),
                kinds@.map_values(|k: PkgDepKind| k@) == stv.take(w as int).map_values(recf),
                kinds@.len() == w,
                forall|x: int|
                    0 <= x < w ==> spec_tag_candidates(
                        candsv,
                        (#[trigger] stv[x]).kind,
                        stv[x].target,
                    ).len() == 1,
            decreases tags_sorted@.len() - w,
        {
            proof {
                assert(tags_sorted@[w as int]@ == stv[w as int]);
            }
            match PkgDepKind::from_input(&cands, &tags_sorted[w], dep_has_default) {
                Ok(k) => {
                    let ghost kinds_pre = kinds@;
                    let ghost kv = k@;
                    kinds.push(k);
                    proof {
                        assert(kinds@ == kinds_pre.push(k));
                        assert(kv == recf(stv[w as int]));
                        assert(kinds@.map_values(|x: PkgDepKind| x@) =~= kinds_pre.map_values(
                            |x: PkgDepKind| x@,
                        ).push(kv));
                        assert(stv.take(w + 1 as int).drop_last() =~= stv.take(w as int));
                        assert(stv.take(w + 1 as int).last() == stv[w as int]);
                        assert(stv.take(w + 1 as int).map_values(recf) =~= stv.take(
                            w as int,
                        ).map_values(recf).push(recf(stv[w as int])));
                    }
                },
                Err(e) => {
                    proof {
                        let bad = stv[w as int];
                        assert(stv.contains(bad));
                        vstd::seq_lib::to_multiset_contains(stv, bad);
                        vstd::seq_lib::to_multiset_contains(tagsv, bad);
                        assert(tagsv.contains(bad));
                        let bi = choose|bi: int| 0 <= bi < tagsv.len() && tagsv[bi] == bad;
                        assert(spec_tag_candidates(candsv, tagsv[bi].kind, tagsv[bi].target).len()
                            != 1);
                        assert(!spec_reconcile_ok(depsv, tagsv, dn, ds, dp, dvr));
                    }
                    return Err(e);
                },
            }
            w += 1;
        }
        proof {
            assert(stv.take(stv.len() as int) =~= stv);
        }

        let out = PkgDep { name: ename, kinds };
        proof {
            // The records share each tag's key, so tag order is record order.
            assert(crate::order::kinds_sorted(out@.kinds)) by {
                assert forall|a: int, b: int| 0 <= a < b < out@.kinds.len() implies
                    crate::order::kindv_le(#[trigger] out@.kinds[a], #[trigger] out@.kinds[b]) by {
                    assert(out@.kinds[a] == stv.map_values(recf)[a]);
                    assert(out@.kinds[b] == stv.map_values(recf)[b]);
                    assert(crate::order::TotalOrdered::le(tags_sorted@[a], tags_sorted@[b]));
                    assert(tags_sorted@[a]@ == stv[a]);
                    assert(tags_sorted@[b]@ == stv[b]);
                }
            }
            // Every resolver tag selects exactly one entry.
            assert forall|x: int| 0 <= x < tagsv.len() implies spec_tag_candidates(
                candsv,
                (#[trigger] tagsv[x]).kind,
                tagsv[x].target,
            ).len() == 1 by {
                let tv = tagsv[x];
                assert(tagsv.contains(tv));
                vstd::seq_lib::to_multiset_contains(tagsv, tv);
                vstd::seq_lib::to_multiset_contains(stv, tv);
                assert(stv.contains(tv));
                let sx = choose|sx: int| 0 <= sx < stv.len() && stv[sx] == tv;
                assert(spec_tag_candidates(candsv, stv[sx].kind, stv[sx].target).len() == 1);
            }
            assert(spec_reconcile_ok(depsv, tagsv, dn, ds, dp, dvr));
            // Same records as in resolver order, as a multiset.
            crate::order::lemma_map_values_multiset(stv, tagsv, recf);
            assert(out@.kinds.to_multiset() == spec_reconciled_kinds(
                full_cands,
                tagsv,
                dep_has_default,
            ).to_multiset()) by {
                assert(out@.kinds == stv.map_values(recf));
                assert(spec_reconciled_kinds(full_cands, tagsv, dep_has_default) =~= tagsv
                    .map_values(recf));
            }
            assert(out@.kinds.len() == tagsv.len()) by {
                assert(out@.kinds == stv.map_values(recf));
                vstd::seq_lib::to_multiset_len(stv);
                vstd::seq_lib::to_multiset_len(tagsv);
            }
        }
        Ok(out)
    }
}

/// What a canonical target is made of: the resolver's kind and crate-type
/// lists must denote a known kind and known crate types.
pub open spec fn spec_out_target_ok(t: crate::input::TargetView) -> bool {
    &&& TargetKind::spec_from_cargo_kind(t.kind, t.crate_types) is Some
    &&& forall|j: int|
        0 <= j < t.crate_types.len() ==> CrateType::spec_from_str(
            #[trigger] t.crate_types[j],
        ) is Some
}

/// The canonical form of a cleaned target.
pub open spec fn spec_out_target(t: crate::input::TargetView) -> OutTargetView {
    OutTargetView {
        name: t.name,
        kind: TargetKind::spec_from_cargo_kind(t.kind, t.crate_types)->0,
        crate_types: t.crate_types,
        required_features: t.required_features,
        path: t.src_path,
        edition: t.edition,
    }
}

impl ManifestTarget {
    /// Resolve a cleaned target's kind and validate its crate types.
    pub fn from_input(t: &crate::input::ManifestTarget) -> (r: Result<ManifestTarget, Error>)
        ensures
            match r {
                Ok(o) => spec_out_target_ok(t@) && o@ == spec_out_target(t@),
                Err(e) => !spec_out_target_ok(t@) && e.kind == ErrorKind::Parse,
            },
    {
        let mut j: usize = 0;
        while j < t.crate_types.len()
            invariant
                j <= t.crate_types@.len(),
                forall|x: int|
                    0 <= x < j ==> CrateType::spec_from_str(#[trigger] t@.crate_types[x]) is Some,
            decreases t.crate_types@.len() - j,
        {
            proof {
                assert(t@.crate_types[j as int] == t.crate_types@[j as int]@);
            }
            match CrateType::from_str(t.crate_types[j].as_slice()) {
                Ok(_) => (),
                Err(e) => {
                    return Err(e);
                },
            }
            j += 1;
        }
        let kind = match TargetKind::try_from_cargo_kind(&t.kind, &t.crate_types) {
            Ok(k) => k,
            Err(e) => {
                proof {
                    assert(t@.kind =~= t.kind.deep_view());
                    assert(t@.crate_types =~= t.crate_types.deep_view());
                }
                return Err(e);
            },
        };
        proof {
            assert(t@.kind =~= t.kind.deep_view());
            assert(t@.crate_types =~= t.crate_types.deep_view());
        }
        let out = ManifestTarget {
            name: copy_bytes(&t.name),
            kind,
            crate_types: copy_bytes_list(&t.crate_types),
            required_features: copy_bytes_list(&t.required_features),
            path: copy_bytes(&t.src_path),
            edition: copy_bytes(&t.edition),
        };
        proof {
            assert(out@ =~~= spec_out_target(t@));
        }
        Ok(out)
    }
}

/// The first manifest with the given id.
pub open spec fn spec_find_manifest(ms: Seq<ManifestView>, id: Seq<u8>) -> Option<ManifestView>
    decreases ms.len(),
{
    if ms.len() == 0 {
        None
    } else if ms[0].id == id {
        Some(ms[0])
    } else {
        spec_find_manifest(ms.skip(1), id)
    }
}

/// Look a manifest up by its id.
fn find_manifest<'a>(ms: &'a Vec<Manifest>, id: &[u8]) -> (r: Option<&'a Manifest>)
    ensures
        ({
            let msv = ms@.map_values(|m: Manifest| m@);
            match r {
                Some(m) => spec_find_manifest(msv, id@) == Some(m@),
                None => spec_find_manifest(msv, id@) is None,
            }
        }),
{
    let ghost msv = ms@.map_values(|m: Manifest| m@);
    let mut i: usize = 0;
    proof {
        assert(msv.skip(0) =~= msv);
    }
    while i < ms.len()
        invariant
            i <= ms@.len(),
            msv == ms@.map_values(|m: Manifest| m@),
            spec_find_manifest(msv, id@) == spec_find_manifest(msv.skip(i as int), id@),
        decreases ms@.len() - i,
    {
        proof {
            assert(msv.skip(i as int)[0] == msv[i as int]);
            assert(msv[i as int] == ms@[i as int]@);
        }
        if bytes::bytes_eq(ms[i].id.0.as_slice(), id) {
            return Some(&ms[i]);
        }
        proof {
            assert(msv.skip(i as int).skip(1) =~= msv.skip(i + 1 as int));
        }
        i += 1;
    }
    proof {
        assert(msv.skip(msv.len() as int).len() == 0);
    }
    None
}

/// Whether a feature map has a `"default"` key.
pub open spec fn spec_has_default(fs: Seq<(Seq<u8>, Seq<Seq<u8>>)>) -> bool {
    exists|i: int| 0 <= i < fs.len() && (#[trigger] fs[i]).0 == "default".spec_bytes()
}

/// Scan a feature map for a `"default"` key.
fn has_default_feature(fs: &Vec<(Vec<u8>, Vec<Vec<u8>>)>) -> (r: bool)
    ensures
        r == spec_has_default(fs.deep_view()),
{
    let mut i: usize = 0;
    while i < fs.len()
        invariant
            i <= fs@.len(),
            forall|j: int|
                0 <= j < i ==> (#[trigger] fs.deep_view()[j]).0 != "default".spec_bytes(),
        decreases fs@.len() - i,
    {
        proof {
            assert(fs.deep_view()[i as int].0 == fs@[i as int].0@);
        }
        if bytes::bytes_eq(fs[i].0.as_slice(), bytes::lit("default").as_slice()) {
            return true;
        }
        i += 1;
    }
    false
}

/// The hash a package keeps: carried forward from the prior graph for a
/// default-registry package, absent otherwise.
pub open spec fn spec_pkg_hash(m: ManifestView, curr: Option<PackageView>) -> Option<Seq<u8>> {
    if m.source == Some("crates.io".spec_bytes()) && curr is Some {
        curr->0.hash
    } else {
        None
    }
}

/// The path a package keeps: its workspace-relative directory for a
/// workspace package, its manifest directory for a vendored external one,
/// nothing otherwise.
pub open spec fn spec_pkg_path(m: ManifestView, vendored: bool, root: Seq<u8>) -> Option<Seq<u8>> {
    if m.source is None {
        Some(crate::input::spec_relative_workspace_path(m, root)->0->0)
    } else if vendored {
        Some(bytes::skip_trailing(crate::input::spec_manifest_dir(m.manifest_path)->0, '/' as u8))
    } else {
        None
    }
}

/// The workspace-relative path handed to the edge matching, where one
/// exists.
pub open spec fn spec_dep_rel_path(dm: ManifestView, root: Seq<u8>) -> Option<Seq<u8>> {
    crate::input::spec_relative_workspace_path(dm, root)->0
}

/// When reconciling one edge can succeed.
pub open spec fn spec_edge_ok(
    m: ManifestView,
    e: crate::input::NodeDepView,
    ms: Seq<ManifestView>,
    root: Seq<u8>,
) -> bool {
    &&& spec_find_manifest(ms, e.pkg) is Some
    &&& ({
        let dm = spec_find_manifest(ms, e.pkg)->0;
        &&& crate::input::spec_relative_workspace_path(dm, root) is Some
        &&& spec_reconcile_ok(
            m.dependencies,
            e.dep_kinds,
            dm.name,
            strip_locked_opt(dm.source),
            spec_dep_rel_path(dm, root),
            dm.version,
        )
    })
}

/// How one reconciled edge relates to its inputs.
pub open spec fn spec_edge_built(
    m: ManifestView,
    e: crate::input::NodeDepView,
    ms: Seq<ManifestView>,
    root: Seq<u8>,
    out: PkgDepView,
) -> bool {
    let dm = spec_find_manifest(ms, e.pkg)->0;
    let cands = spec_candidates(
        m.dependencies,
        dm.name,
        strip_locked_opt(dm.source),
        spec_dep_rel_path(dm, root),
        dm.version,
    );
    &&& out.name == spec_effective_name(cands[0])
    &&& out.kinds.to_multiset() == spec_reconciled_kinds(
        cands,
        e.dep_kinds,
        spec_has_default(dm.features),
    ).to_multiset()
    &&& out.kinds.len() == e.dep_kinds.len()
    &&& crate::order::kinds_sorted(out.kinds)
}

/// Everything that can make assembling one package fail.
pub open spec fn spec_package_ok(
    n: crate::input::NodeView,
    ms: Seq<ManifestView>,
    curr: Option<PackageView>,
    vendored: bool,
    root: Seq<u8>,
) -> bool {
    &&& spec_find_manifest(ms, n.id) is Some
    &&& ({
        let m = spec_find_manifest(ms, n.id)->0;
        &&& (m.source == Some("crates.io".spec_bytes()) && curr is Some ==> curr->0.name == m.name
            && curr->0.version == m.version && curr->0.source == m.source)
        &&& (m.source is None ==> crate::input::spec_relative_workspace_path(m, root) is Some)
        &&& (m.source is Some && vendored ==> crate::input::spec_manifest_dir(
            m.manifest_path,
        ) is Some)
        &&& forall|i: int| 0 <= i < m.targets.len() ==> spec_out_target_ok(#[trigger] m.targets[i])
        &&& forall|j: int| 0 <= j < n.deps.len() ==> spec_edge_ok(m, #[trigger] n.deps[j], ms, root)
        &&& forall|j1: int, j2: int|
            0 <= j1 < j2 < n.deps.len() ==> (#[trigger] n.deps[j1]).pkg != (
            #[trigger] n.deps[j2]).pkg
    })
}

/// One edge is reconciled somewhere in an ordered dependency map.
pub open spec fn spec_edge_covered(
    e: crate::input::NodeDepView,
    m: ManifestView,
    ms: Seq<ManifestView>,
    root: Seq<u8>,
    outdeps: Seq<(Seq<u8>, PkgDepView)>,
) -> bool {
    exists|x: int|
        0 <= x < outdeps.len() && (#[trigger] outdeps[x]).0 == e.pkg && spec_edge_built(
            m,
            e,
            ms,
            root,
            outdeps[x].1,
        )
}

/// Every edge of the node is reconciled somewhere in the package's
/// ordered dependency map.
pub open spec fn spec_deps_cover(
    n: crate::input::NodeView,
    m: ManifestView,
    ms: Seq<ManifestView>,
    root: Seq<u8>,
    outdeps: Seq<(Seq<u8>, PkgDepView)>,
) -> bool {
    forall|j: int|
        0 <= j < n.deps.len() ==> spec_edge_covered(#[trigger] n.deps[j], m, ms, root, outdeps)
}

/// How an assembled package relates to its inputs.
pub open spec fn spec_package_built(
    n: crate::input::NodeView,
    ms: Seq<ManifestView>,
    curr: Option<PackageView>,
    vendored: bool,
    root: Seq<u8>,
    out: PackageView,
) -> bool {
    let m = spec_find_manifest(ms, n.id)->0;
    &&& out.name == m.name
    &&& out.version == m.version
    &&& out.source == m.source
    &&& out.hash == spec_pkg_hash(m, curr)
    &&& out.path == spec_pkg_path(m, vendored, root)
    &&& out.edition == m.edition
    &&& out.rust_version == m.rust_version
    &&& out.default_run == m.default_run
    &&& out.links == m.links
    &&& out.features == m.features
    &&& out.targets == m.targets.map_values(|t: crate::input::TargetView| spec_out_target(t))
    &&& out.deps.len() == n.deps.len()
    &&& crate::order::key_sorted(out.deps)
    &&& spec_deps_cover(n, m, ms, root, out.deps)
}

/// The view of an optional borrowed package.
pub open spec fn curr_view(o: Option<&Package>) -> Option<PackageView> {
    match o {
        Some(p) => Some(p@),
        None => None,
    }
}

/// Whether two optional sources carry the same text.
fn opt_source_eq(a: &Option<Source>, b: &Option<Source>) -> (r: bool)
    ensures
        r == (crate::input::src_view(*a) == crate::input::src_view(*b)),
{
    match (a, b) {
        (Option::None, Option::None) => true,
        (Option::Some(x), Option::Some(y)) => bytes::bytes_eq(x.0.as_slice(), y.0.as_slice()),
        _ => false,
    }
}

impl Package {
    /// Assemble one canonical package from its cleaned resolve node: the
    /// manifest's own data, the hash carried forward from the prior graph
    /// where identity matches, the package's path, its targets with their
    /// kinds resolved, and one reconciled record per edge, keyed and
    /// ordered by dependency id.
    pub fn from_input(
        node: &crate::input::Node,
        manifests: &Vec<Manifest>,
        curr_pkg: Option<&Package>,
        assume_vendored: bool,
        workspace_root: &[u8],
    ) -> (r: Result<Package, Error>)
        ensures
            ({
                let msv = manifests@.map_values(|m: Manifest| m@);
                match r {
                    Ok(p) => spec_package_ok(
                        node@,
                        msv,
                        curr_view(curr_pkg),
                        assume_vendored,
                        workspace_root@,
                    ) && spec_package_built(
                        node@,
                        msv,
                        curr_view(curr_pkg),
                        assume_vendored,
                        workspace_root@,
                        p@,
                    ),
                    Err(e) => !spec_package_ok(
                        node@,
                        msv,
                        curr_view(curr_pkg),
                        assume_vendored,
                        workspace_root@,
                    ) && (e.kind == ErrorKind::Parse || e.kind == ErrorKind::Inconsistent),
                }
            }),
    {
        let ghost msv = manifests@.map_values(|m: Manifest| m@);
        let ghost nv = node@;
        let ghost root = workspace_root@;
        let ghost curr = curr_view(curr_pkg);

        let manifest = match find_manifest(manifests, node.id.0.as_slice()) {
            Some(m) => m,
            None => {
                return Err(Error::from_display("a resolved package has no manifest").with_kind(
                    ErrorKind::Inconsistent,
                ).with_detail(node.id.0.as_slice()));
            },
        };
        let ghost mv = manifest@;
        proof {
            assert(spec_find_manifest(msv, nv.id) == Some(mv));
        }

        // Hash carry-forward, with the identity sanity check.
        let mut is_cio = false;
        match &manifest.source {
            Some(s) => {
                if s.is_crates_io() {
                    is_cio = true;
                }
            },
            None => (),
        }
        let hash: Option<SriHash> = if is_cio {
            match curr_pkg {
                Some(cp) => {
                    if !bytes::bytes_eq(manifest.name.as_slice(), cp.name.as_slice())
                        || !bytes::bytes_eq(manifest.version.as_slice(), cp.version.as_slice())
                        || !opt_source_eq(&manifest.source, &cp.source) {
                        return Err(Error::from_display(
                            "the prior graph names a different package under this id",
                        ).with_kind(ErrorKind::Inconsistent));
                    }
                    copy_hash(&cp.hash)
                },
                None => None,
            }
        } else {
            None
        };
        proof {
            assert(hash_view(hash) == spec_pkg_hash(mv, curr));
        }

        // The package's on-disk path.
        let path: Option<Vec<u8>> = if manifest.source.is_none() {
            match manifest.relative_workspace_path(workspace_root) {
                Ok(Some(p)) => Some(p),
                Ok(None) => {
                    proof {
                        assert(false);
                    }
                    None
                },
                Err(e) => {
                    return Err(e);
                },
            }
        } else if assume_vendored {
            match manifest.manifest_dir() {
                Ok(dir) => Some(bytes::trim_trailing(dir.as_slice(), '/' as u8)),
                Err(e) => {
                    return Err(e);
                },
            }
        } else {
            None
        };
        proof {
            assert(path.deep_view() == spec_pkg_path(mv, assume_vendored, root));
        }

        // Targets, with kinds resolved.
        let mut targets: Vec<ManifestTarget> = Vec::new();
        let mut i: usize = 0;
        proof {
            assert(targets@.map_values(|t: ManifestTarget| t@) =~= mv.targets.take(0).map_values(
                |t: crate::input::TargetView| spec_out_target(t),
            ));
        }
        while i < manifest.targets.len()
            invariant
                i <= manifest.targets@.len(),
                mv == manifest@,
                nv == node@,
                msv == manifests@.map_values(|m: Manifest| m@),
                spec_find_manifest(msv, nv.id) == Some(mv),
                targets@.map_values(|t: ManifestTarget| t@) == mv.targets.take(i as int).map_values(
                    |t: crate::input::TargetView| spec_out_target(t),
                ),
                forall|x: int| 0 <= x < i ==> spec_out_target_ok(#[trigger] mv.targets[x]),
            decreases manifest.targets@.len() - i,
        {
            proof {
                assert(manifest.targets@[i as int]@ == mv.targets[i as int]);
            }
            match ManifestTarget::from_input(&manifest.targets[i]) {
                Ok(t) => {
                    let ghost pre = targets@;
                    let ghost tv = t@;
                    targets.push(t);
                    proof {
                        assert(targets@ == pre.push(t));
                        assert(targets@.map_values(|t: ManifestTarget| t@) =~= pre.map_values(
                            |t: ManifestTarget| t@,
                        ).push(tv));
                        assert(mv.targets.take(i + 1 as int).drop_last() =~= mv.targets.take(
                            i as int,
                        ));
                        assert(mv.targets.take(i + 1 as int).last() == mv.targets[i as int]);
                        assert(mv.targets.take(i + 1 as int).map_values(
                            |t: crate::input::TargetView| spec_out_target(t),
                        ) =~= mv.targets.take(i as int).map_values(
                            |t: crate::input::TargetView| spec_out_target(t),
                        ).push(spec_out_target(mv.targets[i as int])));
                    }
                },
                Err(e) => {
                    proof {
                        assert(!spec_out_target_ok(mv.targets[i as int]));
                    }
                    return Err(e);
                },
            }
            i += 1;
        }
        proof {
            assert(mv.targets.take(mv.targets.len() as int) =~= mv.targets);
        }

        // Edge ids must be unique before they key a map.
        let mut a: usize = 0;
        while a < node.deps.len()
            invariant
                a <= node.deps@.len(),
                nv == node@,
                forall|j1: int, j2: int|
                    0 <= j1 < j2 < nv.deps.len() && j1 < a ==> (#[trigger] nv.deps[j1]).pkg != (
                    #[trigger] nv.deps[j2]).pkg,
            decreases node.deps@.len() - a,
        {
            let mut b: usize = a + 1;
            while b < node.deps.len()
                invariant
                    a < b <= node.deps@.len() || node.deps@.len() == 0,
                    a < node.deps@.len(),
                    nv == node@,
                    forall|j2: int|
                        a < j2 < b ==> (#[trigger] nv.deps[j2]).pkg != nv.deps[a as int].pkg,
                decreases node.deps@.len() - b,
            {
                proof {
                    assert(node.deps@[a as int]@ == nv.deps[a as int]);
                    assert(node.deps@[b as int]@ == nv.deps[b as int]);
                }
                if bytes::bytes_eq(
                    node.deps[a].pkg.0.as_slice(),
                    node.deps[b].pkg.0.as_slice(),
                ) {
                    return Err(Error::from_display(
                        "a package lists the same dependency id twice",
                    ).with_kind(ErrorKind::Inconsistent).with_detail(node.deps[a].pkg.0.as_slice()));
                }
                b += 1;
            }
            a += 1;
        }

        // One reconciled record per edge.
        let mut deps: Vec<(PkgId, PkgDep)> = Vec::new();
        let mut j: usize = 0;
        while j < node.deps.len()
            invariant
                j <= node.deps@.len(),
                nv == node@,
                mv == manifest@,
                msv == manifests@.map_values(|m: Manifest| m@),
                root == workspace_root@,
                spec_find_manifest(msv, nv.id) == Some(mv),
                deps@.len() == j,
                forall|x: int|
                    0 <= x < j ==> (#[trigger] deps@[x]).0@ == nv.deps[x].pkg && spec_edge_built(
                        mv,
                        nv.deps[x],
                        msv,
                        root,
                        deps@[x].1@,
                    ),
                forall|x: int| 0 <= x < j ==> spec_edge_ok(mv, #[trigger] nv.deps[x], msv, root),
            decreases node.deps@.len() - j,
        {
            let edge = &node.deps[j];
            proof {
                assert(node.deps@[j as int]@ == nv.deps[j as int]);
            }
            let dm = match find_manifest(manifests, edge.pkg.0.as_slice()) {
                Some(m) => m,
                None => {
                    proof {
                        assert(!spec_edge_ok(mv, nv.deps[j as int], msv, root));
                    }
                    return Err(Error::from_display(
                        "a resolved dependency has no manifest",
                    ).with_kind(ErrorKind::Inconsistent).with_detail(edge.pkg.0.as_slice()));
                },
            };
            let ghost dmv = dm@;
            proof {
                assert(spec_find_manifest(msv, nv.deps[j as int].pkg) == Some(dmv));
            }
            let dsrc: Option<Vec<u8>> = match &dm.source {
                Some(s) => Some(s.strip_locked().0),
                None => None,
            };
            proof {
                assert(dsrc.deep_view() == strip_locked_opt(dm@.source));
            }
            let dpath: Option<Vec<u8>> = match dm.relative_workspace_path(workspace_root) {
                Ok(p) => p,
                Err(e) => {
                    proof {
                        assert(!spec_edge_ok(mv, nv.deps[j as int], msv, root));
                    }
                    return Err(e);
                },
            };
            proof {
                assert(dpath.deep_view() == spec_dep_rel_path(dm@, root));
            }
            let hd = has_default_feature(&dm.features);
            proof {
                assert(dm.features.deep_view() =~= dm@.features);
            }
            let pd = match PkgDep::from_input(
                manifest,
                edge,
                dm.name.as_slice(),
                &dsrc,
                &dpath,
                dm.version.as_slice(),
                hd,
            ) {
                Ok(pd) => pd,
                Err(e) => {
                    proof {
                        assert(!spec_reconcile_ok(
                            mv.dependencies,
                            nv.deps[j as int].dep_kinds,
                            dmv.name,
                            strip_locked_opt(dmv.source),
                            spec_dep_rel_path(dmv, root),
                            dmv.version,
                        ));
                        assert(!spec_edge_ok(mv, nv.deps[j as int], msv, root));
                    }
                    return Err(e.with_detail(edge.pkg.0.as_slice()));
                },
            };
            let key = PkgId(copy_bytes(&edge.pkg.0));
            let ghost keyv = key@;
            proof {
                assert(keyv == nv.deps[j as int].pkg);
                assert(spec_edge_built(mv, nv.deps[j as int], msv, root, pd@));
            }
            deps.push((key, pd));
            j += 1;
        }

        // The edges keyed and ordered by dependency id.
        let ghost deps_pre = deps@;
        let deps = crate::order::sort_by_le(deps);
        proof {
            assert forall|x: int| #![trigger nv.deps[x]] 0 <= x < nv.deps.len() implies exists|y: int|
                0 <= y < deps@.len() && (#[trigger] deps@[y]).0@ == nv.deps[x].pkg
                    && spec_edge_built(mv, nv.deps[x], msv, root, deps@[y].1@) by {
                let pair = deps_pre[x];
                assert(deps_pre.contains(pair));
                vstd::seq_lib::to_multiset_contains(deps_pre, pair);
                vstd::seq_lib::to_multiset_contains(deps@, pair);
                assert(deps@.contains(pair));
                let y = choose|y: int| 0 <= y < deps@.len() && deps@[y] == pair;
                assert((deps@[y]).0@ == nv.deps[x].pkg);
            }
            assert(crate::order::key_sorted(
                deps@.map_values(|e: (PkgId, PkgDep)| (e.0@, e.1@)),
            )) by {
                let dv = deps@.map_values(|e: (PkgId, PkgDep)| (e.0@, e.1@));
                assert forall|i1: int, i2: int| #![trigger dv[i1], dv[i2]]
                    0 <= i1 < i2 < dv.len() implies crate::bytes::lex_le(dv[i1].0, dv[i2].0) by {
                    assert(crate::order::TotalOrdered::le(deps@[i1], deps@[i2]));
                }
            }
        }

        let out = Package {
            name: copy_bytes(&manifest.name),
            version: copy_bytes(&manifest.version),
            source: copy_source(&manifest.source),
            hash,
            path,
            edition: copy_bytes(&manifest.edition),
            rust_version: copy_opt_bytes(&manifest.rust_version),
            default_run: copy_opt_bytes(&manifest.default_run),
            links: copy_opt_bytes(&manifest.links),
            features: copy_features(&manifest.features),
            deps,
            targets,
        };
        proof {
            assert(out@.features =~= mv.features);
            assert(out@.targets =~= mv.targets.map_values(
                |t: crate::input::TargetView| spec_out_target(t),
            ));
            assert(spec_package_ok(nv, msv, curr, assume_vendored, root));
            let ghost odeps = out@.deps;
            assert forall|j: int| 0 <= j < nv.deps.len() implies spec_edge_covered(
                #[trigger] nv.deps[j],
                mv,
                msv,
                root,
                odeps,
            ) by {
                let y = choose|y: int|
                    0 <= y < out.deps@.len() && (#[trigger] out.deps@[y]).0@ == nv.deps[j].pkg
                        && spec_edge_built(mv, nv.deps[j], msv, root, out.deps@[y].1@);
                assert(odeps[y] == (out.deps@[y].0@, out.deps@[y].1@));
                assert(0 <= y < odeps.len() && odeps[y].0 == nv.deps[j].pkg && spec_edge_built(
                    mv,
                    nv.deps[j],
                    msv,
                    root,
                    odeps[y].1,
                ));
            }
            assert(spec_deps_cover(nv, mv, msv, root, odeps));
            assert(out@.name == mv.name);
            assert(out@.version == mv.version);
            assert(out@.source == mv.source);
            assert(out@.hash == spec_pkg_hash(mv, curr));
            assert(out@.path == spec_pkg_path(mv, assume_vendored, root));
            assert(out@.edition == mv.edition);
            assert(out@.rust_version == mv.rust_version);
            assert(out@.default_run == mv.default_run);
            assert(out@.links == mv.links);
            assert(out@.deps.len() == nv.deps.len());
            assert(crate::order::key_sorted(out@.deps));
            assert(out@.features == mv.features);
            assert(out@.targets == mv.targets.map_values(
                |t: crate::input::TargetView| spec_out_target(t),
            ));
            assert(spec_deps_cover(nv, mv, msv, root, out@.deps));
            assert(spec_package_built(nv, msv, curr, assume_vendored, root, out@));
        }
        Ok(out)
    }
}

/// The first package with the given id in an ordered package map.
pub open spec fn spec_find_package(ps: Seq<(Seq<u8>, PackageView)>, id: Seq<u8>) -> Option<
    PackageView,
>
    decreases ps.len(),
{
    if ps.len() == 0 {
        None
    } else if ps[0].0 == id {
        Some(ps[0].1)
    } else {
        spec_find_package(ps.skip(1), id)
    }
}

/// Look a package up by its id.
pub fn find_package<'a>(ps: &'a Vec<(PkgId, Package)>, id: &[u8]) -> (r: Option<&'a Package>)
    ensures
        ({
            let psv = ps@.map_values(|e: (PkgId, Package)| (e.0@, e.1@));
            match r {
                Some(p) => spec_find_package(psv, id@) == Some(p@),
                None => spec_find_package(psv, id@) is None,
            }
        }),
{
    let ghost psv = ps@.map_values(|e: (PkgId, Package)| (e.0@, e.1@));
    let mut i: usize = 0;
    proof {
        assert(psv.skip(0) =~= psv);
    }
    while i < ps.len()
        invariant
            i <= ps@.len(),
            psv == ps@.map_values(|e: (PkgId, Package)| (e.0@, e.1@)),
            spec_find_package(psv, id@) == spec_find_package(psv.skip(i as int), id@),
        decreases ps@.len() - i,
    {
        proof {
            assert(psv.skip(i as int)[0] == psv[i as int]);
            assert(psv[i as int] == (ps@[i as int].0@, ps@[i as int].1@));
        }
        if bytes::bytes_eq(ps[i].0.0.as_slice(), id) {
            return Some(&ps[i].1);
        }
        proof {
            assert(psv.skip(i as int).skip(1) =~= psv.skip(i + 1 as int));
        }
        i += 1;
    }
    proof {
        assert(psv.skip(psv.len() as int).len() == 0);
    }
    None
}

/// The prior graph's package under an id, where a prior graph was given.
pub open spec fn spec_curr_pkg(curr: Option<OutMetadataView>, id: Seq<u8>) -> Option<PackageView> {
    match curr {
        Some(c) => spec_find_package(c.packages, id),
        None => None,
    }
}

/// The view of an optional borrowed prior graph.
pub open spec fn spec_curr_meta(o: Option<&Metadata>) -> Option<OutMetadataView> {
    match o {
        Some(m) => Some(m@),
        None => None,
    }
}

/// Everything that can make assembling the graph fail.
pub open spec fn spec_graph_ok(
    nodes: Seq<crate::input::NodeView>,
    ms: Seq<ManifestView>,
    curr: Option<OutMetadataView>,
    vendored: bool,
    root: Seq<u8>,
) -> bool {
    &&& forall|i1: int, i2: int|
        0 <= i1 < i2 < nodes.len() ==> (#[trigger] nodes[i1]).id != (#[trigger] nodes[i2]).id
    &&& forall|i: int|
        0 <= i < nodes.len() ==> spec_package_ok(
            #[trigger] nodes[i],
            ms,
            spec_curr_pkg(curr, nodes[i].id),
            vendored,
            root,
        )
}

/// One node's package stands somewhere in the graph's ordered package map.
pub open spec fn spec_node_covered(
    nd: crate::input::NodeView,
    ms: Seq<ManifestView>,
    curr: Option<OutMetadataView>,
    vendored: bool,
    root: Seq<u8>,
    pkgs: Seq<(Seq<u8>, PackageView)>,
) -> bool {
    exists|x: int|
        0 <= x < pkgs.len() && (#[trigger] pkgs[x]).0 == nd.id && spec_package_built(
            nd,
            ms,
            spec_curr_pkg(curr, nd.id),
            vendored,
            root,
            pkgs[x].1,
        )
}

/// How the assembled graph relates to its inputs.
pub open spec fn spec_graph_built(
    nodes: Seq<crate::input::NodeView>,
    ms: Seq<ManifestView>,
    curr: Option<OutMetadataView>,
    vendored: bool,
    root: Seq<u8>,
    members_in: Seq<Seq<u8>>,
    defaults_in: Seq<Seq<u8>>,
    out: OutMetadataView,
) -> bool {
    &&& out.packages.len() == nodes.len()
    &&& crate::order::key_sorted(out.packages)
    &&& forall|j: int|
        0 <= j < nodes.len() ==> spec_node_covered(
            #[trigger] nodes[j],
            ms,
            curr,
            vendored,
            root,
            out.packages,
        )
    &&& out.workspace_members == members_in
    &&& out.workspace_default_members == defaults_in
}

impl Metadata {
    /// Assemble the canonical graph from the cleaned report: one package
    /// per resolve node, keyed and ordered by id, with hashes carried
    /// forward from the prior graph where identity matches.
    pub fn from_input(
        manifests: &Vec<Manifest>,
        workspace_members: Vec<PkgId>,
        workspace_default_members: Vec<PkgId>,
        resolve: crate::input::Resolve,
        current: Option<&Metadata>,
        assume_vendored: bool,
        workspace_root: &[u8],
    ) -> (r: Result<Metadata, Error>)
        ensures
            ({
                let msv = manifests@.map_values(|m: Manifest| m@);
                let nodesv = resolve.nodes@.map_values(|n: crate::input::Node| n@);
                let curr = spec_curr_meta(current);
                match r {
                    Ok(out) => spec_graph_ok(nodesv, msv, curr, assume_vendored, workspace_root@)
                        && spec_graph_built(
                        nodesv,
                        msv,
                        curr,
                        assume_vendored,
                        workspace_root@,
                        workspace_members@.map_values(|p: PkgId| p@),
                        workspace_default_members@.map_values(|p: PkgId| p@),
                        out@,
                    ),
                    Err(e) => !spec_graph_ok(nodesv, msv, curr, assume_vendored, workspace_root@)
                        && (e.kind == ErrorKind::Parse || e.kind == ErrorKind::Inconsistent),
                }
            }),
    {
        let ghost msv = manifests@.map_values(|m: Manifest| m@);
        let ghost nodesv = resolve.nodes@.map_values(|n: crate::input::Node| n@);
        let ghost curr = spec_curr_meta(current);
        let ghost root = workspace_root@;
        let nodes = &resolve.nodes;

        // Node ids must be unique before they key the package map.
        let mut a: usize = 0;
        while a < nodes.len()
            invariant
                a <= nodes@.len(),
                nodesv == nodes@.map_values(|n: crate::input::Node| n@),
                nodesv == resolve.nodes@.map_values(|n: crate::input::Node| n@),
                forall|i1: int, i2: int|
                    0 <= i1 < i2 < nodesv.len() && i1 < a ==> (#[trigger] nodesv[i1]).id != (
                    #[trigger] nodesv[i2]).id,
            decreases nodes@.len() - a,
        {
            let mut b: usize = a + 1;
            while b < nodes.len()
                invariant
                    a < b <= nodes@.len() || nodes@.len() == 0,
                    a < nodes@.len(),
                    nodesv == nodes@.map_values(|n: crate::input::Node| n@),
                    nodesv == resolve.nodes@.map_values(|n: crate::input::Node| n@),
                    forall|i2: int| a < i2 < b ==> (#[trigger] nodesv[i2]).id != nodesv[a as int].id,
                decreases nodes@.len() - b,
            {
                proof {
                    assert(nodes@[a as int]@ == nodesv[a as int]);
                    assert(nodes@[b as int]@ == nodesv[b as int]);
                }
                if bytes::bytes_eq(nodes[a].id.0.as_slice(), nodes[b].id.0.as_slice()) {
                    proof {
                        assert(nodesv[a as int].id == nodesv[b as int].id);
                        assert(!(forall|i1: int, i2: int|
                            0 <= i1 < i2 < nodesv.len() ==> (#[trigger] nodesv[i1]).id != (
                            #[trigger] nodesv[i2]).id));
                    }
                    return Err(Error::from_display(
                        "two resolved packages share one id",
                    ).with_kind(ErrorKind::Inconsistent).with_detail(nodes[a].id.0.as_slice()));
                }
                b += 1;
            }
            a += 1;
        }

        // One package per node.
        let mut pkgs: Vec<(PkgId, Package)> = Vec::new();
        let mut j: usize = 0;
        while j < nodes.len()
            invariant
                j <= nodes@.len(),
                msv == manifests@.map_values(|m: Manifest| m@),
                nodesv == nodes@.map_values(|n: crate::input::Node| n@),
                nodesv == resolve.nodes@.map_values(|n: crate::input::Node| n@),
                curr == spec_curr_meta(current),
                root == workspace_root@,
                pkgs@.len() == j,
                forall|x: int|
                    0 <= x < j ==> (#[trigger] pkgs@[x]).0@ == nodesv[x].id && spec_package_built(
                        nodesv[x],
                        msv,
                        spec_curr_pkg(curr, nodesv[x].id),
                        assume_vendored,
                        root,
                        pkgs@[x].1@,
                    ),
                forall|x: int|
                    0 <= x < j ==> spec_package_ok(
                        #[trigger] nodesv[x],
                        msv,
                        spec_curr_pkg(curr, nodesv[x].id),
                        assume_vendored,
                        root,
                    ),
            decreases nodes@.len() - j,
        {
            let node = &nodes[j];
            proof {
                assert(nodes@[j as int]@ == nodesv[j as int]);
            }
            let curr_pkg: Option<&Package> = match current {
                Some(c) => find_package(&c.packages, node.id.0.as_slice()),
                None => None,
            };
            proof {
                assert(curr_view(curr_pkg) == spec_curr_pkg(curr, nodesv[j as int].id));
            }
            let pkg = match Package::from_input(
                node,
                manifests,
                curr_pkg,
                assume_vendored,
                workspace_root,
            ) {
                Ok(p) => p,
                Err(e) => {
                    proof {
                        assert(!spec_package_ok(
                            nodesv[j as int],
                            msv,
                            spec_curr_pkg(curr, nodesv[j as int].id),
                            assume_vendored,
                            root,
                        ));
                        assert(!spec_graph_ok(nodesv, msv, curr, assume_vendored, root));
                    }
                    return Err(e.with_detail(node.id.0.as_slice()));
                },
            };
            let key = PkgId(copy_bytes(&node.id.0));
            pkgs.push((key, pkg));
            j += 1;
        }

        // The package map, ordered by id.
        let ghost pkgs_pre = pkgs@;
        let pkgs = crate::order::sort_by_le(pkgs);
        let out = Metadata { packages: pkgs, workspace_members, workspace_default_members };
        proof {
            assert forall|x: int| 0 <= x < nodesv.len() implies spec_node_covered(
                #[trigger] nodesv[x],
                msv,
                curr,
                assume_vendored,
                root,
                out@.packages,
            ) by {
                let pair = pkgs_pre[x];
                assert(pkgs_pre.contains(pair));
                vstd::seq_lib::to_multiset_contains(pkgs_pre, pair);
                vstd::seq_lib::to_multiset_contains(out.packages@, pair);
                assert(out.packages@.contains(pair));
                let y = choose|y: int| 0 <= y < out.packages@.len() && out.packages@[y] == pair;
                assert(out@.packages[y] == (out.packages@[y].0@, out.packages@[y].1@));
                assert(0 <= y < out@.packages.len() && out@.packages[y].0 == nodesv[x].id
                    && spec_package_built(
                    nodesv[x],
                    msv,
                    spec_curr_pkg(curr, nodesv[x].id),
                    assume_vendored,
                    root,
                    out@.packages[y].1,
                ));
            }
            assert(crate::order::key_sorted(out@.packages)) by {
                let dv = out@.packages;
                assert forall|i1: int, i2: int| #![trigger dv[i1], dv[i2]]
                    0 <= i1 < i2 < dv.len() implies crate::bytes::lex_le(dv[i1].0, dv[i2].0) by {
                    assert(crate::order::TotalOrdered::le(out.packages@[i1], out.packages@[i2]));
                    assert(dv[i1] == (out.packages@[i1].0@, out.packages@[i1].1@));
                    assert(dv[i2] == (out.packages@[i2].0@, out.packages@[i2].1@));
                }
            }
            assert(out@.workspace_members =~= out.workspace_members@.map_values(|p: PkgId| p@));
            
            
            assert(spec_graph_built(
                nodesv,
                msv,
                curr,
                assume_vendored,
                root,
                out.workspace_members@.map_values(|p: PkgId| p@),
                out.workspace_default_members@.map_values(|p: PkgId| p@),
                out@,
            ));
        }
        Ok(out)
    }
}

/// Adjacent strictly-ascending keys make the whole map strictly ordered.
proof fn lemma_key_lt_span<X>(s: Seq<(Seq<u8>, X)>, i: int, j: int)
    requires
        forall|k: int| 0 <= k < s.len() - 1 ==> crate::bytes::lex_lt((#[trigger] s[k]).0, s[k + 1].0),
        0 <= i < j < s.len(),
    ensures
        crate::bytes::lex_lt(s[i].0, s[j].0),
    decreases j - i,
{
    if i + 1 < j {
        lemma_key_lt_span(s, i, j - 1);
        crate::bytes::lemma_lex_le_facts(s[i].0, s[j - 1].0, s[j].0);
        if s[i].0 == s[j].0 {
            crate::bytes::lemma_lex_le_facts(s[j - 1].0, s[j].0, s[j - 1].0);
        }
    }
}

/// Whether a member list holds an id.
fn contains_id(v: &Vec<PkgId>, id: &[u8]) -> (r: bool)
    ensures
        r == v@.map_values(|p: PkgId| p@).contains(id@),
{
    let ghost vv = v@.map_values(|p: PkgId| p@);
    let mut i: usize = 0;
    while i < v.len()
        invariant
            i <= v@.len(),
            vv == v@.map_values(|p: PkgId| p@),
            forall|j: int| 0 <= j < i ==> vv[j] != id@,
        decreases v@.len() - i,
    {
        proof {
            assert(vv[i as int] == v@[i as int]@);
        }
        if bytes::bytes_eq(v[i].0.as_slice(), id) {
            assert(vv.contains(id@)) by {
                assert(vv[i as int] == id@);
            }
            return true;
        }
        i += 1;
    }
    proof {
        if vv.contains(id@) {
            let w = choose|w: int| 0 <= w < vv.len() && vv[w] == id@;
        }
    }
    false
}

/// One dependency key is well-formed in a graph: it names a package of the
/// graph, and that package exposes a library-kind target.
pub open spec fn spec_dep_wf(pkgs: Seq<(Seq<u8>, PackageView)>, depid: Seq<u8>) -> bool {
    &&& spec_find_package(pkgs, depid) is Some
    &&& exists|t: int|
        0 <= t < spec_find_package(pkgs, depid)->0.targets.len() && (#[trigger] spec_find_package(
            pkgs,
            depid,
        )->0.targets[t]).kind == TargetKind::Lib
}

/// The graph-wide invariants of a canonical graph: the package map is
/// strictly ordered by id; the default members are members; every member
/// names a package; a package lacks a source exactly where it is a member;
/// a workspace package carries a path and no hash, an external one a hash
/// or a path; and every dependency key names a package with a library
/// target.
pub open spec fn spec_wf_metadata(g: OutMetadataView) -> bool {
    &&& crate::order::key_sorted_strict(g.packages)
    &&& forall|i: int|
        0 <= i < g.workspace_default_members.len() ==> g.workspace_members.contains(
            #[trigger] g.workspace_default_members[i],
        )
    &&& forall|i: int|
        0 <= i < g.workspace_members.len() ==> spec_find_package(
            g.packages,
            #[trigger] g.workspace_members[i],
        ) is Some
    &&& forall|i: int|
        0 <= i < g.packages.len() ==> (((#[trigger] g.packages[i]).1.source is None)
            <==> g.workspace_members.contains(g.packages[i].0))
    &&& forall|i: int|
        0 <= i < g.packages.len() ==> ((#[trigger] g.packages[i]).1.source is None ==> g.packages[
            i
        ].1.hash is None && g.packages[i].1.path is Some)
    &&& forall|i: int|
        0 <= i < g.packages.len() ==> ((#[trigger] g.packages[i]).1.source is Some ==> (g.packages[
            i
        ].1.hash is Some || g.packages[i].1.path is Some))
    &&& forall|i: int, j: int|
        0 <= i < g.packages.len() && 0 <= j < (#[trigger] g.packages[i]).1.deps.len()
            ==> spec_dep_wf(g.packages, (#[trigger] g.packages[i].1.deps[j]).0)
}

impl Metadata {
    /// Check the graph-wide invariants. Succeeds exactly on the
    /// well-formed graphs; any violation is an internal inconsistency.
    pub fn assert_invariants(&self) -> (r: Result<(), Error>)
        ensures
            r is Ok <==> spec_wf_metadata(self@),
            r is Err ==> r->Err_0.kind == ErrorKind::Inconsistent,
    {
        let ghost g = self@;

        // Strictly ascending package ids.
        if self.packages.len() > 0 {
        let mut i: usize = 0;
        while i < self.packages.len() - 1
            invariant
                g == self@,
                self.packages@.len() > 0,
                i <= self.packages@.len() - 1,
                forall|k: int|
                    0 <= k < i ==> crate::bytes::lex_lt((#[trigger] g.packages[k]).0, g.packages[k
                        + 1].0),
            decreases self.packages@.len() - i,
        {
            proof {
                assert(g.packages[i as int] == (self.packages@[i as int].0@, self.packages@[
                    i as int
                ].1@));
                assert(g.packages[i + 1 as int] == (self.packages@[i + 1 as int].0@, self
                    .packages@[i + 1 as int].1@));
            }
            let le = crate::bytes::lex_le_exec(
                self.packages[i].0.0.as_slice(),
                self.packages[i + 1].0.0.as_slice(),
            );
            let eq = bytes::bytes_eq(
                self.packages[i].0.0.as_slice(),
                self.packages[i + 1].0.0.as_slice(),
            );
            if !le || eq {
                proof {
                    assert(!crate::bytes::lex_lt(g.packages[i as int].0, g.packages[i + 1].0));
                    assert(!crate::order::key_sorted_strict(g.packages));
                }
                return Err(Error::from_display(
                    "package ids are not strictly ascending",
                ).with_kind(ErrorKind::Inconsistent).with_detail(
                    self.packages[i + 1].0.0.as_slice(),
                ));
            }
            i += 1;
        }
        }
        proof {
            assert(crate::order::key_sorted_strict(g.packages)) by {
                assert forall|a: int, b: int| 0 <= a < b < g.packages.len() implies
                    crate::bytes::lex_lt((#[trigger] g.packages[a]).0, (
                #[trigger] g.packages[b]).0) by {
                    lemma_key_lt_span(g.packages, a, b);
                }
            }
        }

        // Default members are members.
        let mut d: usize = 0;
        while d < self.workspace_default_members.len()
            invariant
                g == self@,
                d <= self.workspace_default_members@.len(),
                forall|k: int|
                    0 <= k < d ==> g.workspace_members.contains(
                        #[trigger] g.workspace_default_members[k],
                    ),
            decreases self.workspace_default_members@.len() - d,
        {
            proof {
                assert(g.workspace_default_members[d as int] == self.workspace_default_members@[
                    d as int
                ]@);
            }
            if !contains_id(
                &self.workspace_members,
                self.workspace_default_members[d].0.as_slice(),
            ) {
                return Err(Error::from_display(
                    "a default workspace member is not a workspace member",
                ).with_kind(ErrorKind::Inconsistent).with_detail(
                    self.workspace_default_members[d].0.as_slice(),
                ));
            }
            d += 1;
        }

        // Members name packages.
        let mut m: usize = 0;
        while m < self.workspace_members.len()
            invariant
                g == self@,
                m <= self.workspace_members@.len(),
                forall|k: int|
                    0 <= k < m ==> spec_find_package(
                        g.packages,
                        #[trigger] g.workspace_members[k],
                    ) is Some,
            decreases self.workspace_members@.len() - m,
        {
            proof {
                assert(g.workspace_members[m as int] == self.workspace_members@[m as int]@);
            }
            match find_package(&self.packages, self.workspace_members[m].0.as_slice()) {
                Some(_) => (),
                None => {
                    return Err(Error::from_display(
                        "a workspace member has no package",
                    ).with_kind(ErrorKind::Inconsistent).with_detail(
                        self.workspace_members[m].0.as_slice(),
                    ));
                },
            }
            m += 1;
        }

        // Per-package checks.
        let mut p: usize = 0;
        while p < self.packages.len()
            invariant
                g == self@,
                p <= self.packages@.len(),
                forall|k: int|
                    0 <= k < p ==> (((#[trigger] g.packages[k]).1.source is None)
                        <==> g.workspace_members.contains(g.packages[k].0)),
                forall|k: int|
                    0 <= k < p ==> ((#[trigger] g.packages[k]).1.source is None ==> g.packages[
                        k
                    ].1.hash is None && g.packages[k].1.path is Some),
                forall|k: int|
                    0 <= k < p ==> ((#[trigger] g.packages[k]).1.source is Some ==> (g.packages[
                        k
                    ].1.hash is Some || g.packages[k].1.path is Some)),
                forall|k: int, j: int|
                    0 <= k < p && 0 <= j < (#[trigger] g.packages[k]).1.deps.len() ==> spec_dep_wf(
                        g.packages,
                        (#[trigger] g.packages[k].1.deps[j]).0,
                    ),
            decreases self.packages@.len() - p,
        {
            let pkg = &self.packages[p].1;
            proof {
                assert(g.packages[p as int] == (self.packages@[p as int].0@, self.packages@[
                    p as int
                ].1@));
            }
            let is_member = contains_id(&self.workspace_members, self.packages[p].0.0.as_slice());
            if pkg.source.is_none() != is_member {
                return Err(Error::from_display(
                    "a package lacks a source but is no workspace member, or the reverse",
                ).with_kind(ErrorKind::Inconsistent).with_detail(
                    self.packages[p].0.0.as_slice(),
                ));
            }
            if pkg.source.is_none() {
                if pkg.hash.is_some() || pkg.path.is_none() {
                    return Err(Error::from_display(
                        "a workspace package must carry a path and no hash",
                    ).with_kind(ErrorKind::Inconsistent).with_detail(
                        self.packages[p].0.0.as_slice(),
                    ));
                }
            } else {
                if pkg.hash.is_none() && pkg.path.is_none() {
                    return Err(Error::from_display(
                        "an external package carries neither hash nor path",
                    ).with_kind(ErrorKind::Inconsistent).with_detail(
                        self.packages[p].0.0.as_slice(),
                    ));
                }
            }
            // Every dependency names a package with a library target.
            let mut q: usize = 0;
            while q < pkg.deps.len()
                invariant
                    g == self@,
                    p < self.packages@.len(),
                    pkg == &self.packages@[p as int].1,
                    q <= pkg.deps@.len(),
                    g.packages[p as int].1 == self.packages@[p as int].1@,
                    forall|j: int|
                        0 <= j < q ==> spec_dep_wf(
                            g.packages,
                            (#[trigger] g.packages[p as int].1.deps[j]).0,
                        ),
                decreases pkg.deps@.len() - q,
            {
                proof {
                    assert(g.packages[p as int].1.deps[q as int] == (pkg.deps@[q as int].0@, pkg
                        .deps@[q as int].1@));
                }
                let dep_pkg = match find_package(&self.packages, pkg.deps[q].0.0.as_slice()) {
                    Some(dp) => dp,
                    None => {
                        return Err(Error::from_display(
                            "a dependency id names no package",
                        ).with_kind(ErrorKind::Inconsistent).with_detail(
                            pkg.deps[q].0.0.as_slice(),
                        ));
                    },
                };
                let mut has_lib = false;
                let mut t: usize = 0;
                while t < dep_pkg.targets.len()
                    invariant
                        t <= dep_pkg.targets@.len(),
                        has_lib ==> exists|x: int|
                            0 <= x < dep_pkg@.targets.len() && (#[trigger] dep_pkg@.targets[x]).kind
                                == TargetKind::Lib,
                        !has_lib ==> forall|x: int|
                            0 <= x < t ==> (#[trigger] dep_pkg@.targets[x]).kind != TargetKind::Lib,
                    decreases dep_pkg.targets@.len() - t,
                {
                    proof {
                        assert(dep_pkg@.targets[t as int] == dep_pkg.targets@[t as int]@);
                    }
                    if matches!(dep_pkg.targets[t].kind, TargetKind::Lib) {
                        has_lib = true;
                    }
                    t += 1;
                }
                if !has_lib {
                    proof {
                        assert(!spec_dep_wf(g.packages, g.packages[p as int].1.deps[q as int].0));
                    }
                    return Err(Error::from_display(
                        "a package is depended on but has no library target",
                    ).with_kind(ErrorKind::Inconsistent).with_detail(
                        pkg.deps[q].0.0.as_slice(),
                    ));
                }
                proof {
                    assert(spec_dep_wf(g.packages, g.packages[p as int].1.deps[q as int].0));
                }
                q += 1;
            }
            p += 1;
        }
        proof {
            assert(spec_wf_metadata(g));
        }
        Ok(())
    }
}

} // verus!
