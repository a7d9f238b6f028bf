//! The deterministic serializer: the canonical graph as a byte-stable,
//! human-readable document.
//!
//! Objects and arrays are laid out with a single-space indent; maps keep
//! their key order; small sub-objects are written on one line to bound the
//! file's size. Two equal graphs serialize to equal bytes.

use vstd::prelude::*;
use vstd::string::StringSliceAdditionalSpecFns;

use crate::bytes;
use crate::input::DepKind;
use crate::nargo::TargetKind;
use crate::output::{
    Metadata, OutMetadataView, OutTargetView, Package, PackageView, PkgDep, PkgDepKind,
    PkgDepKindView, PkgDepView,
};
use crate::target_cfg::spec_join_comma;

verus! {

/// `n` spaces.
pub open spec fn spec_spaces(n: nat) -> Seq<u8>
    decreases n,
{
    if n == 0 {
        Seq::empty()
    } else {
        spec_spaces((n - 1) as nat).push(' ' as u8)
    }
}

/// A line break followed by the indent of depth `d`.
pub open spec fn spec_nl(d: nat) -> Seq<u8> {
    seq!['\n' as u8] + spec_spaces(d)
}

/// The hexadecimal digit for a value below sixteen.
pub open spec fn spec_hex_digit(n: int) -> u8 {
    if n < 10 {
        ('0' as u8 + n) as u8
    } else {
        ('a' as u8 + (n - 10)) as u8
    }
}

/// How one byte is written inside a quoted string.
pub open spec fn spec_esc_byte(c: u8) -> Seq<u8> {
    if c == '"' as u8 {
        seq!['\\' as u8, '"' as u8]
    } else if c == '\\' as u8 {
        seq!['\\' as u8, '\\' as u8]
    } else if c == '\n' as u8 {
        seq!['\\' as u8, 'n' as u8]
    } else if c == '\r' as u8 {
        seq!['\\' as u8, 'r' as u8]
    } else if c == '\t' as u8 {
        seq!['\\' as u8, 't' as u8]
    } else if c < 0x20 {
        seq!['\\' as u8, 'u' as u8, '0' as u8, '0' as u8, spec_hex_digit(c as int / 16),
            spec_hex_digit(c as int % 16)]
    } else {
        seq![c]
    }
}

/// The body of a quoted string.
pub open spec fn spec_esc(s: Seq<u8>) -> Seq<u8>
    decreases s.len(),
{
    if s.len() == 0 {
        Seq::empty()
    } else {
        spec_esc(s.drop_last()) + spec_esc_byte(s.last())
    }
}

/// A quoted string.
pub open spec fn spec_jstr(s: Seq<u8>) -> Seq<u8> {
    seq!['"' as u8] + spec_esc(s) + seq!['"' as u8]
}

/// A compact array of quoted strings.
pub open spec fn spec_strs_compact(v: Seq<Seq<u8>>) -> Seq<u8> {
    seq!['[' as u8] + spec_join_comma(v.map_values(|s: Seq<u8>| spec_jstr(s))) + seq![']' as u8]
}

/// The fields a compact activation record carries: each default is
/// omitted.
pub open spec fn spec_kind_fields(k: PkgDepKindView) -> Seq<Seq<u8>> {
    let f0: Seq<Seq<u8>> = if k.kind is Normal {
        Seq::empty()
    } else {
        seq!["\"kind\":".spec_bytes() + spec_jstr(k.kind.spec_str_bytes())]
    };
    let f1: Seq<Seq<u8>> = match k.target {
        Some(t) => seq!["\"target\":".spec_bytes() + t],
        None => Seq::empty(),
    };
    let f2: Seq<Seq<u8>> = if k.optional {
        seq!["\"optional\":true".spec_bytes()]
    } else {
        Seq::empty()
    };
    let f3: Seq<Seq<u8>> = if !k.default {
        seq!["\"default\":false".spec_bytes()]
    } else {
        Seq::empty()
    };
    let f4: Seq<Seq<u8>> = if k.features.len() == 0 {
        Seq::empty()
    } else {
        seq!["\"features\":".spec_bytes() + spec_strs_compact(k.features)]
    };
    f0 + f1 + f2 + f3 + f4
}

/// A compact activation record.
pub open spec fn spec_kind_compact(k: PkgDepKindView) -> Seq<u8> {
    seq!['{' as u8] + spec_join_comma(spec_kind_fields(k)) + seq!['}' as u8]
}

/// A compact array of activation records.
pub open spec fn spec_kinds_compact(ks: Seq<PkgDepKindView>) -> Seq<u8> {
    seq!['[' as u8] + spec_join_comma(ks.map_values(|k: PkgDepKindView| spec_kind_compact(k)))
        + seq![']' as u8]
}

/// A compact reconciled edge.
pub open spec fn spec_dep_compact(d: PkgDepView) -> Seq<u8> {
    "{\"name\":".spec_bytes() + spec_jstr(d.name) + ",\"kinds\":".spec_bytes()
        + spec_kinds_compact(d.kinds) + seq!['}' as u8]
}

/// The record list of an expanded edge, one compact record per line.
pub open spec fn spec_kind_lines(ks: Seq<PkgDepKindView>, d: nat) -> Seq<u8>
    decreases ks.len(),
{
    if ks.len() == 0 {
        Seq::empty()
    } else {
        let rest = spec_kind_lines(ks.drop_last(), d);
        let sep: Seq<u8> = if ks.len() == 1 {
            Seq::empty()
        } else {
            seq![',' as u8]
        };
        rest + sep + spec_nl(d + 1) + spec_kind_compact(ks.last())
    }
}

/// An expanded reconciled edge, at depth `d`.
pub open spec fn spec_dep_pretty(dep: PkgDepView, d: nat) -> Seq<u8> {
    seq!['{' as u8] + spec_nl(d + 1) + "\"name\": ".spec_bytes() + spec_jstr(dep.name)
        + seq![',' as u8] + spec_nl(d + 1) + "\"kinds\": ".spec_bytes() + (
    if dep.kinds.len() == 0 {
        "[]".spec_bytes()
    } else {
        seq!['[' as u8] + spec_kind_lines(dep.kinds, d + 1) + spec_nl(d + 1) + seq![']' as u8]
    }) + spec_nl(d) + seq!['}' as u8]
}

/// How one edge is written: compact where it is short or trivial,
/// expanded otherwise.
pub open spec fn spec_dep_value(dep: PkgDepView, d: nat) -> Seq<u8> {
    let c = spec_dep_compact(dep);
    if dep.kinds.len() <= 1 || c.len() <= 140 {
        c
    } else {
        spec_dep_pretty(dep, d)
    }
}

/// The entries of the edge map, at depth `d`.
pub open spec fn spec_dep_entries(deps: Seq<(Seq<u8>, PkgDepView)>, d: nat) -> Seq<u8>
    decreases deps.len(),
{
    if deps.len() == 0 {
        Seq::empty()
    } else {
        let rest = spec_dep_entries(deps.drop_last(), d);
        let sep: Seq<u8> = if deps.len() == 1 {
            Seq::empty()
        } else {
            seq![',' as u8]
        };
        rest + sep + spec_nl(d + 1) + spec_jstr(deps.last().0) + ": ".spec_bytes() + spec_dep_value(
            deps.last().1,
            d + 1,
        )
    }
}

/// The edge map of a package, at depth `d`.
pub open spec fn spec_deps(deps: Seq<(Seq<u8>, PkgDepView)>, d: nat) -> Seq<u8> {
    if deps.len() == 0 {
        "{}".spec_bytes()
    } else {
        seq!['{' as u8] + spec_dep_entries(deps, d) + spec_nl(d) + seq!['}' as u8]
    }
}

/// The entries of the feature map, each implied list on one line.
pub open spec fn spec_feature_entries(fs: Seq<(Seq<u8>, Seq<Seq<u8>>)>, d: nat) -> Seq<u8>
    decreases fs.len(),
{
    if fs.len() == 0 {
        Seq::empty()
    } else {
        let rest = spec_feature_entries(fs.drop_last(), d);
        let sep: Seq<u8> = if fs.len() == 1 {
            Seq::empty()
        } else {
            seq![',' as u8]
        };
        rest + sep + spec_nl(d + 1) + spec_jstr(fs.last().0) + ": ".spec_bytes()
            + spec_strs_compact(fs.last().1)
    }
}

/// The feature map of a package, at depth `d`.
pub open spec fn spec_features(fs: Seq<(Seq<u8>, Seq<Seq<u8>>)>, d: nat) -> Seq<u8> {
    if fs.len() == 0 {
        "{}".spec_bytes()
    } else {
        seq!['{' as u8] + spec_feature_entries(fs, d) + spec_nl(d) + seq!['}' as u8]
    }
}

/// A compact build target.
pub open spec fn spec_target_compact(t: OutTargetView) -> Seq<u8> {
    "{\"name\":".spec_bytes() + spec_jstr(t.name) + ",\"kind\":".spec_bytes() + spec_jstr(
        t.kind.spec_str_bytes(),
    ) + ",\"crate_types\":".spec_bytes() + spec_strs_compact(t.crate_types) + (
    if t.required_features.len() == 0 {
        Seq::<u8>::empty()
    } else {
        ",\"required_features\":".spec_bytes() + spec_strs_compact(t.required_features)
    }) + ",\"path\":".spec_bytes() + spec_jstr(t.path) + ",\"edition\":".spec_bytes()
        + spec_jstr(t.edition) + seq!['}' as u8]
}

/// The target list of a package, one compact target per line.
pub open spec fn spec_target_lines(ts: Seq<OutTargetView>, d: nat) -> Seq<u8>
    decreases ts.len(),
{
    if ts.len() == 0 {
        Seq::empty()
    } else {
        let rest = spec_target_lines(ts.drop_last(), d);
        let sep: Seq<u8> = if ts.len() == 1 {
            Seq::empty()
        } else {
            seq![',' as u8]
        };
        rest + sep + spec_nl(d + 1) + spec_target_compact(ts.last())
    }
}

/// The target list of a package, at depth `d`.
pub open spec fn spec_targets(ts: Seq<OutTargetView>, d: nat) -> Seq<u8> {
    if ts.len() == 0 {
        "[]".spec_bytes()
    } else {
        seq!['[' as u8] + spec_target_lines(ts, d) + spec_nl(d) + seq![']' as u8]
    }
}

/// An optional string field, written as `,<nl>"key": "value"` when
/// present.
pub open spec fn spec_opt_field(key: Seq<u8>, v: Option<Seq<u8>>, d: nat) -> Seq<u8> {
    match v {
        Some(s) => seq![',' as u8] + spec_nl(d) + spec_jstr(key) + ": ".spec_bytes() + spec_jstr(s),
        None => Seq::empty(),
    }
}

/// A package object's opening fields: name, version and the optional
/// identity fields.
pub open spec fn spec_package_head(p: PackageView, d: nat) -> Seq<u8> {
    seq!['{' as u8] + spec_nl(d + 1) + "\"name\": ".spec_bytes() + spec_jstr(p.name)
        + seq![',' as u8] + spec_nl(d + 1) + "\"version\": ".spec_bytes() + spec_jstr(p.version)
        + spec_opt_field("source".spec_bytes(), p.source, d + 1) + spec_opt_field(
        "hash".spec_bytes(),
        p.hash,
        d + 1,
    ) + spec_opt_field("path".spec_bytes(), p.path, d + 1)
}

/// A package object's middle fields: the edition and the optional notes.
pub open spec fn spec_package_mid(p: PackageView, d: nat) -> Seq<u8> {
    seq![',' as u8] + spec_nl(d + 1) + "\"edition\": ".spec_bytes() + spec_jstr(p.edition)
        + spec_opt_field("rust_version".spec_bytes(), p.rust_version, d + 1) + spec_opt_field(
        "default_run".spec_bytes(),
        p.default_run,
        d + 1,
    ) + spec_opt_field("links".spec_bytes(), p.links, d + 1)
}

/// A package object's closing fields: features, edges and targets.
pub open spec fn spec_package_tail(p: PackageView, d: nat) -> Seq<u8> {
    seq![',' as u8] + spec_nl(d + 1) + "\"features\": ".spec_bytes() + spec_features(
        p.features,
        d + 1,
    ) + seq![',' as u8] + spec_nl(d + 1) + "\"deps\": ".spec_bytes() + spec_deps(p.deps, d + 1)
        + seq![',' as u8] + spec_nl(d + 1) + "\"targets\": ".spec_bytes() + spec_targets(
        p.targets,
        d + 1,
    ) + spec_nl(d) + seq!['}' as u8]
}

/// One package, as an object at depth `d`.
pub open spec fn spec_package(p: PackageView, d: nat) -> Seq<u8> {
    spec_package_head(p, d) + spec_package_mid(p, d) + spec_package_tail(p, d)
}

/// The entries of the package map.
pub open spec fn spec_package_entries(ps: Seq<(Seq<u8>, PackageView)>) -> Seq<u8>
    decreases ps.len(),
{
    if ps.len() == 0 {
        Seq::empty()
    } else {
        let rest = spec_package_entries(ps.drop_last());
        let sep: Seq<u8> = if ps.len() == 1 {
            Seq::empty()
        } else {
            seq![',' as u8]
        };
        rest + sep + spec_nl(2) + spec_jstr(ps.last().0) + ": ".spec_bytes() + spec_package(
            ps.last().1,
            2,
        )
    }
}

/// The package map.
pub open spec fn spec_packages(ps: Seq<(Seq<u8>, PackageView)>) -> Seq<u8> {
    if ps.len() == 0 {
        "{}".spec_bytes()
    } else {
        seq!['{' as u8] + spec_package_entries(ps) + spec_nl(1) + seq!['}' as u8]
    }
}

/// A member list, one id per line at depth `d`.
pub open spec fn spec_id_lines(ids: Seq<Seq<u8>>, d: nat) -> Seq<u8>
    decreases ids.len(),
{
    if ids.len() == 0 {
        Seq::empty()
    } else {
        let rest = spec_id_lines(ids.drop_last(), d);
        let sep: Seq<u8> = if ids.len() == 1 {
            Seq::empty()
        } else {
            seq![',' as u8]
        };
        rest + sep + spec_nl(d + 1) + spec_jstr(ids.last())
    }
}

/// A member list, as an array at depth `d`.
pub open spec fn spec_id_array(ids: Seq<Seq<u8>>, d: nat) -> Seq<u8> {
    if ids.len() == 0 {
        "[]".spec_bytes()
    } else {
        seq!['[' as u8] + spec_id_lines(ids, d) + spec_nl(d) + seq![']' as u8]
    }
}

/// The whole canonical graph as a document.
pub open spec fn spec_metadata_doc(g: OutMetadataView) -> Seq<u8> {
    seq!['{' as u8] + spec_nl(1) + "\"packages\": ".spec_bytes() + spec_packages(g.packages)
        + seq![',' as u8] + spec_nl(1) + "\"workspace_members\": ".spec_bytes() + spec_id_array(
        g.workspace_members,
        1,
    ) + seq![',' as u8] + spec_nl(1) + "\"workspace_default_members\": ".spec_bytes()
        + spec_id_array(g.workspace_default_members, 1) + spec_nl(0) + seq!['}' as u8]
}

/// Append `n` spaces.
fn push_spaces(out: &mut Vec<u8>, n: usize)
    ensures
        final(out)@ == old(out)@ + spec_spaces(n as nat),
{
    let mut i: usize = 0;
    while i < n
        invariant
            i <= n,
            out@ == old(out)@ + spec_spaces(i as nat),
        decreases n - i,
    {
        out.push(' ' as u8);
        i += 1;
    }
}

/// Append a line break and the indent of depth `d`.
fn push_nl(out: &mut Vec<u8>, d: usize)
    ensures
        final(out)@ == old(out)@ + spec_nl(d as nat),
{
    out.push('\n' as u8);
    let ghost mid = out@;
    push_spaces(out, d);
    proof {
        assert(out@ =~= old(out)@ + spec_nl(d as nat));
    }
}

/// Append one string, quoted and escaped.
fn push_jstr(out: &mut Vec<u8>, s: &[u8])
    ensures
        final(out)@ == old(out)@ + spec_jstr(s@),
{
    out.push('"' as u8);
    let ghost base = out@;
    let mut i: usize = 0;
    while i < s.len()
        invariant
            i <= s@.len(),
            out@ == base + spec_esc(s@.take(i as int)),
        decreases s.len() - i,
    {
        let c = s[i];
        if c == '"' as u8 {
            out.push('\\' as u8);
            out.push('"' as u8);
        } else if c == '\\' as u8 {
            out.push('\\' as u8);
            out.push('\\' as u8);
        } else if c == '\n' as u8 {
            out.push('\\' as u8);
            out.push('n' as u8);
        } else if c == '\r' as u8 {
            out.push('\\' as u8);
            out.push('r' as u8);
        } else if c == '\t' as u8 {
            out.push('\\' as u8);
            out.push('t' as u8);
        } else if c < 0x20 {
            out.push('\\' as u8);
            out.push('u' as u8);
            out.push('0' as u8);
            out.push('0' as u8);
            let hi = c / 16;
            let lo = c % 16;
            out.push(
                if hi < 10 {
                    '0' as u8 + hi
                } else {
                    'a' as u8 + (hi - 10)
                },
            );
            out.push(
                if lo < 10 {
                    '0' as u8 + lo
                } else {
                    'a' as u8 + (lo - 10)
                },
            );
        } else {
            out.push(c);
        }
        proof {
            assert(s@.take(i + 1 as int).drop_last() =~= s@.take(i as int));
            assert(s@.take(i + 1 as int).last() == s@[i as int]);
            assert(out@ =~= base + spec_esc(s@.take(i + 1 as int)));
        }
        i += 1;
    }
    out.push('"' as u8);
    proof {
        assert(s@.take(s@.len() as int) =~= s@);
        assert(out@ =~= old(out)@ + spec_jstr(s@));
    }
}

/// Append a compact array of quoted strings.
fn push_strs_compact(out: &mut Vec<u8>, v: &Vec<Vec<u8>>)
    ensures
        final(out)@ == old(out)@ + spec_strs_compact(v.deep_view()),
{
    let ghost vv = v.deep_view();
    out.push('[' as u8);
    let ghost base = out@;
    let mut i: usize = 0;
    proof {
        assert(vv.take(0).map_values(|s: Seq<u8>| spec_jstr(s)) =~= Seq::<Seq<u8>>::empty());
    }
    while i < v.len()
        invariant
            i <= v@.len(),
            vv == v.deep_view(),
            out@ == base + spec_join_comma(vv.take(i as int).map_values(|s: Seq<u8>| spec_jstr(s))),
        decreases v@.len() - i,
    {
        if i > 0 {
            out.push(',' as u8);
        }
        proof {
            assert(vv[i as int] == v@[i as int]@);
        }
        push_jstr(out, v[i].as_slice());
        proof {
            let f = |s: Seq<u8>| spec_jstr(s);
            let m = vv.take(i + 1 as int).map_values(f);
            assert(m.take(m.len() - 1) =~= vv.take(i as int).map_values(f));
            assert(m[m.len() - 1] == spec_jstr(vv[i as int]));
            assert(out@ =~= base + spec_join_comma(m));
        }
        i += 1;
    }
    out.push(']' as u8);
    proof {
        assert(vv.take(vv.len() as int) =~= vv);
        assert(out@ =~= old(out)@ + spec_strs_compact(vv));
    }
}

/// Append one collected field.
fn push_field(fields: &mut Vec<Vec<u8>>, f: Vec<u8>)
    ensures
        final(fields).deep_view() == old(fields).deep_view().push(f@),
{
    let ghost pre = fields@;
    let ghost dv_pre = fields.deep_view();
    let ghost fv = f@;
    fields.push(f);
    proof {
        assert(fields.deep_view() =~= dv_pre.push(fv)) by {
            assert forall|j: int| 0 <= j < fields@.len() implies fields.deep_view()[j]
                == dv_pre.push(fv)[j] by {
                if j < pre.len() {
                    assert(fields@[j] == pre[j]);
                    assert(dv_pre[j] == pre[j].deep_view());
                }
            }
        }
    }
}

/// Append a compact activation record.
#[verifier::rlimit(100)]
fn push_kind_compact(out: &mut Vec<u8>, k: &PkgDepKind)
    ensures
        final(out)@ == old(out)@ + spec_kind_compact(k@),
{
    // Collect the present fields, then join them.
    let mut fields: Vec<Vec<u8>> = Vec::new();
    if !matches!(k.kind, DepKind::Normal) {
        let mut f = bytes::lit("\"kind\":");
        push_jstr(&mut f, k.kind.as_str().as_bytes());
        push_field(&mut fields, f);
    }
    match &k.target {
        Some(t) => {
            let mut f = bytes::lit("\"target\":");
            bytes::push_bytes(&mut f, t.0.as_slice());
            push_field(&mut fields, f);
        },
        None => (),
    }
    if k.optional {
        push_field(&mut fields, bytes::lit("\"optional\":true"));
    }
    if !k.default {
        push_field(&mut fields, bytes::lit("\"default\":false"));
    }
    if k.features.len() > 0 {
        let mut f = bytes::lit("\"features\":");
        push_strs_compact(&mut f, &k.features);
        push_field(&mut fields, f);
    }
    proof {
        assert(k@.features.len() == k.features@.len());
        assert(fields.deep_view() =~= spec_kind_fields(k@));
    }
    out.push('{' as u8);
    let ghost base = out@;
    let ghost fv = fields.deep_view();
    let mut i: usize = 0;
    proof {
        assert(fv.take(0) =~= Seq::<Seq<u8>>::empty());
    }
    while i < fields.len()
        invariant
            i <= fields@.len(),
            fv == fields.deep_view(),
            out@ == base + spec_join_comma(fv.take(i as int)),
        decreases fields@.len() - i,
    {
        if i > 0 {
            out.push(',' as u8);
        }
        proof {
            assert(fv[i as int] == fields@[i as int]@);
        }
        bytes::push_bytes(out, fields[i].as_slice());
        proof {
            assert(fv.take(i + 1 as int).take(i as int) =~= fv.take(i as int));
            assert(fv.take(i + 1 as int)[i as int] == fv[i as int]);
            assert(out@ =~= base + spec_join_comma(fv.take(i + 1 as int)));
        }
        i += 1;
    }
    out.push('}' as u8);
    proof {
        assert(fv.take(fv.len() as int) =~= fv);
        assert(out@ =~= old(out)@ + spec_kind_compact(k@));
    }
}

/// Append a compact array of activation records.
#[verifier::rlimit(100)]
fn push_kinds_compact(out: &mut Vec<u8>, ks: &Vec<PkgDepKind>)
    ensures
        final(out)@ == old(out)@ + spec_kinds_compact(ks@.map_values(|k: PkgDepKind| k@)),
{
    let ghost kv = ks@.map_values(|k: PkgDepKind| k@);
    out.push('[' as u8);
    let ghost base = out@;
    let mut i: usize = 0;
    proof {
        assert(kv.take(0).map_values(|k: PkgDepKindView| spec_kind_compact(k)) =~= Seq::<
            Seq<u8>,
        >::empty());
    }
    while i < ks.len()
        invariant
            i <= ks@.len(),
            kv == ks@.map_values(|k: PkgDepKind| k@),
            out@ == base + spec_join_comma(
                kv.take(i as int).map_values(|k: PkgDepKindView| spec_kind_compact(k)),
            ),
        decreases ks@.len() - i,
    {
        if i > 0 {
            out.push(',' as u8);
        }
        proof {
            assert(kv[i as int] == ks@[i as int]@);
        }
        push_kind_compact(out, &ks[i]);
        proof {
            let f = |k: PkgDepKindView| spec_kind_compact(k);
            let m = kv.take(i + 1 as int).map_values(f);
            assert(m.take(m.len() - 1) =~= kv.take(i as int).map_values(f));
            assert(m[m.len() - 1] == spec_kind_compact(kv[i as int]));
            assert(out@ =~= base + spec_join_comma(m));
        }
        i += 1;
    }
    out.push(']' as u8);
    proof {
        assert(kv.take(kv.len() as int) =~= kv);
        assert(out@ =~= old(out)@ + spec_kinds_compact(kv));
    }
}

/// Append a compact reconciled edge.
fn push_dep_compact(out: &mut Vec<u8>, d: &PkgDep)
    ensures
        final(out)@ == old(out)@ + spec_dep_compact(d@),
{
    let head = bytes::lit("{\"name\":");
    bytes::push_bytes(out, head.as_slice());
    push_jstr(out, d.name.as_slice());
    let mid = bytes::lit(",\"kinds\":");
    bytes::push_bytes(out, mid.as_slice());
    push_kinds_compact(out, &d.kinds);
    out.push('}' as u8);
    proof {
        assert(out@ =~= old(out)@ + spec_dep_compact(d@));
    }
}

/// Append the record lines of an expanded edge.
#[verifier::rlimit(100)]
fn push_kind_lines(out: &mut Vec<u8>, ks: &Vec<PkgDepKind>, d: usize)
    requires
        d <= 8,
    ensures
        final(out)@ == old(out)@ + spec_kind_lines(ks@.map_values(|k: PkgDepKind| k@), d as nat),
{
    let ghost kv = ks@.map_values(|k: PkgDepKind| k@);
    let ghost base = out@;
    let mut i: usize = 0;
    proof {
        assert(spec_kind_lines(kv.take(0), d as nat) =~= Seq::<u8>::empty());
        assert(out@ =~= base + spec_kind_lines(kv.take(0), d as nat));
    }
    while i < ks.len()
        invariant
            i <= ks@.len(),
            d <= 8,
            kv == ks@.map_values(|k: PkgDepKind| k@),
            out@ == base + spec_kind_lines(kv.take(i as int), d as nat),
        decreases ks@.len() - i,
    {
        if i > 0 {
            out.push(',' as u8);
        }
        push_nl(out, d + 1);
        proof {
            assert(kv[i as int] == ks@[i as int]@);
        }
        push_kind_compact(out, &ks[i]);
        proof {
            assert(kv.take(i + 1 as int).drop_last() =~= kv.take(i as int));
            assert(kv.take(i + 1 as int).last() == kv[i as int]);
            assert(out@ =~= base + spec_kind_lines(kv.take(i + 1 as int), d as nat));
        }
        i += 1;
    }
    proof {
        assert(kv.take(kv.len() as int) =~= kv);
    }
}

/// Append one edge, compact where short or trivial.
#[verifier::rlimit(100)]
fn push_dep_value(out: &mut Vec<u8>, dep: &PkgDep, d: usize)
    requires
        d <= 7,
    ensures
        final(out)@ == old(out)@ + spec_dep_value(dep@, d as nat),
{
    let mut compact: Vec<u8> = Vec::new();
    push_dep_compact(&mut compact, dep);
    proof {
        assert(compact@ =~= spec_dep_compact(dep@));
    }
    if dep.kinds.len() <= 1 || compact.len() <= 140 {
        bytes::push_bytes(out, compact.as_slice());
        proof {
            assert(dep@.kinds.len() == dep.kinds@.len());
        }
        return ;
    }
    out.push('{' as u8);
    push_nl(out, d + 1);
    let h = bytes::lit("\"name\": ");
    bytes::push_bytes(out, h.as_slice());
    push_jstr(out, dep.name.as_slice());
    out.push(',' as u8);
    push_nl(out, d + 1);
    let h2 = bytes::lit("\"kinds\": ");
    bytes::push_bytes(out, h2.as_slice());
    if dep.kinds.len() == 0 {
        let e = bytes::lit("[]");
        bytes::push_bytes(out, e.as_slice());
    } else {
        out.push('[' as u8);
        push_kind_lines(out, &dep.kinds, d + 1);
        push_nl(out, d + 1);
        out.push(']' as u8);
    }
    push_nl(out, d);
    out.push('}' as u8);
    proof {
        assert(dep@.kinds.len() == dep.kinds@.len());
        assert(out@ =~= old(out)@ + spec_dep_pretty(dep@, d as nat));
    }
}

/// Append the edge map of a package.
#[verifier::rlimit(100)]
fn push_deps(out: &mut Vec<u8>, deps: &Vec<(crate::nargo::PkgId, PkgDep)>, d: usize)
    requires
        d <= 6,
    ensures
        final(out)@ == old(out)@ + spec_deps(
            deps@.map_values(|e: (crate::nargo::PkgId, PkgDep)| (e.0@, e.1@)),
            d as nat,
        ),
{
    let ghost dv = deps@.map_values(|e: (crate::nargo::PkgId, PkgDep)| (e.0@, e.1@));
    if deps.len() == 0 {
        let e = bytes::lit("{}");
        bytes::push_bytes(out, e.as_slice());
        return ;
    }
    out.push('{' as u8);
    let ghost base = out@;
    let mut i: usize = 0;
    proof {
        assert(spec_dep_entries(dv.take(0), d as nat) =~= Seq::<u8>::empty());
        assert(out@ =~= base + spec_dep_entries(dv.take(0), d as nat));
    }
    while i < deps.len()
        invariant
            i <= deps@.len(),
            d <= 6,
            dv == deps@.map_values(|e: (crate::nargo::PkgId, PkgDep)| (e.0@, e.1@)),
            out@ == base + spec_dep_entries(dv.take(i as int), d as nat),
        decreases deps@.len() - i,
    {
        if i > 0 {
            out.push(',' as u8);
        }
        push_nl(out, d + 1);
        proof {
            assert(dv[i as int] == (deps@[i as int].0@, deps@[i as int].1@));
        }
        push_jstr(out, deps[i].0.0.as_slice());
        let sep = bytes::lit(": ");
        bytes::push_bytes(out, sep.as_slice());
        push_dep_value(out, &deps[i].1, d + 1);
        proof {
            assert(dv.take(i + 1 as int).drop_last() =~= dv.take(i as int));
            assert(dv.take(i + 1 as int).last() == dv[i as int]);
            assert(out@ =~= base + spec_dep_entries(dv.take(i + 1 as int), d as nat));
        }
        i += 1;
    }
    push_nl(out, d);
    out.push('}' as u8);
    proof {
        assert(dv.take(dv.len() as int) =~= dv);
        assert(out@ =~= old(out)@ + spec_deps(dv, d as nat));
    }
}

/// Append the feature map of a package.
#[verifier::rlimit(100)]
fn push_features(out: &mut Vec<u8>, fs: &Vec<(Vec<u8>, Vec<Vec<u8>>)>, d: usize)
    requires
        d <= 6,
    ensures
        final(out)@ == old(out)@ + spec_features(fs.deep_view(), d as nat),
{
    let ghost fv = fs.deep_view();
    if fs.len() == 0 {
        let e = bytes::lit("{}");
        bytes::push_bytes(out, e.as_slice());
        return ;
    }
    out.push('{' as u8);
    let ghost base = out@;
    let mut i: usize = 0;
    proof {
        assert(spec_feature_entries(fv.take(0), d as nat) =~= Seq::<u8>::empty());
        assert(out@ =~= base + spec_feature_entries(fv.take(0), d as nat));
    }
    while i < fs.len()
        invariant
            i <= fs@.len(),
            d <= 6,
            fv == fs.deep_view(),
            out@ == base + spec_feature_entries(fv.take(i as int), d as nat),
        decreases fs@.len() - i,
    {
        if i > 0 {
            out.push(',' as u8);
        }
        push_nl(out, d + 1);
        proof {
            assert(fv[i as int] == (fs@[i as int].0@, fs@[i as int].1.deep_view()));
        }
        push_jstr(out, fs[i].0.as_slice());
        let sep = bytes::lit(": ");
        bytes::push_bytes(out, sep.as_slice());
        push_strs_compact(out, &fs[i].1);
        proof {
            assert(fv.take(i + 1 as int).drop_last() =~= fv.take(i as int));
            assert(fv.take(i + 1 as int).last() == fv[i as int]);
            assert(out@ =~= base + spec_feature_entries(fv.take(i + 1 as int), d as nat));
        }
        i += 1;
    }
    push_nl(out, d);
    out.push('}' as u8);
    proof {
        assert(fv.take(fv.len() as int) =~= fv);
        assert(out@ =~= old(out)@ + spec_features(fv, d as nat));
    }
}

/// Append one compact build target.
fn push_target_compact(out: &mut Vec<u8>, t: &crate::output::ManifestTarget)
    ensures
        final(out)@ == old(out)@ + spec_target_compact(t@),
{
    let h = bytes::lit("{\"name\":");
    bytes::push_bytes(out, h.as_slice());
    push_jstr(out, t.name.as_slice());
    let h2 = bytes::lit(",\"kind\":");
    bytes::push_bytes(out, h2.as_slice());
    push_jstr(out, t.kind.as_str().as_bytes());
    let h3 = bytes::lit(",\"crate_types\":");
    bytes::push_bytes(out, h3.as_slice());
    push_strs_compact(out, &t.crate_types);
    if t.required_features.len() > 0 {
        let h4 = bytes::lit(",\"required_features\":");
        bytes::push_bytes(out, h4.as_slice());
        push_strs_compact(out, &t.required_features);
    }
    let h5 = bytes::lit(",\"path\":");
    bytes::push_bytes(out, h5.as_slice());
    push_jstr(out, t.path.as_slice());
    let h6 = bytes::lit(",\"edition\":");
    bytes::push_bytes(out, h6.as_slice());
    push_jstr(out, t.edition.as_slice());
    out.push('}' as u8);
    proof {
        assert(out@ =~= old(out)@ + spec_target_compact(t@));
    }
}

/// Append the target list of a package.
#[verifier::rlimit(100)]
fn push_targets(out: &mut Vec<u8>, ts: &Vec<crate::output::ManifestTarget>, d: usize)
    requires
        d <= 6,
    ensures
        final(out)@ == old(out)@ + spec_targets(
            ts@.map_values(|t: crate::output::ManifestTarget| t@),
            d as nat,
        ),
{
    let ghost tv = ts@.map_values(|t: crate::output::ManifestTarget| t@);
    if ts.len() == 0 {
        let e = bytes::lit("[]");
        bytes::push_bytes(out, e.as_slice());
        return ;
    }
    out.push('[' as u8);
    let ghost base = out@;
    let mut i: usize = 0;
    proof {
        assert(spec_target_lines(tv.take(0), d as nat) =~= Seq::<u8>::empty());
        assert(out@ =~= base + spec_target_lines(tv.take(0), d as nat));
    }
    while i < ts.len()
        invariant
            i <= ts@.len(),
            d <= 6,
            tv == ts@.map_values(|t: crate::output::ManifestTarget| t@),
            out@ == base + spec_target_lines(tv.take(i as int), d as nat),
        decreases ts@.len() - i,
    {
        if i > 0 {
            out.push(',' as u8);
        }
        push_nl(out, d + 1);
        proof {
            assert(tv[i as int] == ts@[i as int]@);
        }
        push_target_compact(out, &ts[i]);
        proof {
            assert(tv.take(i + 1 as int).drop_last() =~= tv.take(i as int));
            assert(tv.take(i + 1 as int).last() == tv[i as int]);
            assert(out@ =~= base + spec_target_lines(tv.take(i + 1 as int), d as nat));
        }
        i += 1;
    }
    push_nl(out, d);
    out.push(']' as u8);
    proof {
        assert(tv.take(tv.len() as int) =~= tv);
        assert(out@ =~= old(out)@ + spec_targets(tv, d as nat));
    }
}

/// Append an optional string field with its leading comma.
fn push_opt_field(out: &mut Vec<u8>, key: &str, v: &Option<Vec<u8>>, d: usize)
    requires
        d <= 8,
    ensures
        final(out)@ == old(out)@ + spec_opt_field(key.spec_bytes(), v.deep_view(), d as nat),
{
    match v {
        Some(s) => {
            out.push(',' as u8);
            push_nl(out, d);
            push_jstr(out, key.as_bytes());
            let sep = bytes::lit(": ");
            bytes::push_bytes(out, sep.as_slice());
            push_jstr(out, s.as_slice());
            proof {
                assert(v.deep_view() == Some(s@));
                assert(out@ =~= old(out)@ + spec_opt_field(
                    key.spec_bytes(),
                    v.deep_view(),
                    d as nat,
                ));
            }
        },
        None => (),
    }
}

/// The text of a source, as a fresh byte string.
fn source_text(s: &crate::input::Source) -> (r: Vec<u8>)
    ensures
        r@ == s@,
{
    let r = bytes::copy_range(s.0.as_slice(), 0, s.0.len());
    proof {
        assert(r@ =~= s@);
    }
    r
}

/// The text of a hash, as a fresh byte string.
fn hash_text(h: &crate::output::SriHash) -> (r: Vec<u8>)
    ensures
        r@ == h@,
{
    let r = bytes::copy_range(h.0.as_slice(), 0, h.0.len());
    proof {
        assert(r@ =~= h@);
    }
    r
}

/// Append a package object's opening fields.
#[verifier::rlimit(100)]
fn push_package_head(out: &mut Vec<u8>, p: &Package, d: usize)
    requires
        d <= 4,
    ensures
        final(out)@ == old(out)@ + spec_package_head(p@, d as nat),
{
    out.push('{' as u8);
    push_nl(out, d + 1);
    let h1 = bytes::lit("\"name\": ");
    bytes::push_bytes(out, h1.as_slice());
    push_jstr(out, p.name.as_slice());
    out.push(',' as u8);
    push_nl(out, d + 1);
    let h2 = bytes::lit("\"version\": ");
    bytes::push_bytes(out, h2.as_slice());
    push_jstr(out, p.version.as_slice());
    let src: Option<Vec<u8>> = match &p.source {
        Some(s) => Some(source_text(s)),
        None => None,
    };
    push_opt_field(out, "source", &src, d + 1);
    let hash: Option<Vec<u8>> = match &p.hash {
        Some(h) => Some(hash_text(h)),
        None => None,
    };
    push_opt_field(out, "hash", &hash, d + 1);
    push_opt_field(out, "path", &p.path, d + 1);
    proof {
        assert(src.deep_view() == p@.source);
        assert(hash.deep_view() == p@.hash);
        assert(out@ =~= old(out)@ + spec_package_head(p@, d as nat));
    }
}

/// Append a package object's middle fields.
#[verifier::rlimit(100)]
fn push_package_mid(out: &mut Vec<u8>, p: &Package, d: usize)
    requires
        d <= 4,
    ensures
        final(out)@ == old(out)@ + spec_package_mid(p@, d as nat),
{
    out.push(',' as u8);
    push_nl(out, d + 1);
    let h3 = bytes::lit("\"edition\": ");
    bytes::push_bytes(out, h3.as_slice());
    push_jstr(out, p.edition.as_slice());
    push_opt_field(out, "rust_version", &p.rust_version, d + 1);
    push_opt_field(out, "default_run", &p.default_run, d + 1);
    push_opt_field(out, "links", &p.links, d + 1);
    proof {
        assert(out@ =~= old(out)@ + spec_package_mid(p@, d as nat));
    }
}

/// Append a package object's closing fields.
#[verifier::rlimit(100)]
fn push_package_tail(out: &mut Vec<u8>, p: &Package, d: usize)
    requires
        d <= 4,
    ensures
        final(out)@ == old(out)@ + spec_package_tail(p@, d as nat),
{
    let ghost dd = (d + 1) as nat;
    let ghost o = old(out)@;
    out.push(',' as u8);
    proof {
        assert(out@ =~= o + seq![',' as u8]);
    }
    let ghost p1 = seq![',' as u8];
    push_nl(out, d + 1);
    proof {
        bytes::lemma_add_assoc(o, p1, spec_nl(dd));
    }
    let ghost p2 = p1 + spec_nl(dd);
    let h4 = bytes::lit("\"features\": ");
    bytes::push_bytes(out, h4.as_slice());
    proof {
        bytes::lemma_add_assoc(o, p2, "\"features\": ".spec_bytes());
    }
    let ghost p3 = p2 + "\"features\": ".spec_bytes();
    push_features(out, &p.features, d + 1);
    proof {
        bytes::lemma_add_assoc(o, p3, spec_features(p@.features, dd));
    }
    let ghost p4 = p3 + spec_features(p@.features, dd);
    out.push(',' as u8);
    proof {
        assert(out@ =~= o + p4 + seq![',' as u8]);
        bytes::lemma_add_assoc(o, p4, seq![',' as u8]);
    }
    let ghost p5 = p4 + seq![',' as u8];
    push_nl(out, d + 1);
    proof {
        bytes::lemma_add_assoc(o, p5, spec_nl(dd));
    }
    let ghost p6 = p5 + spec_nl(dd);
    let h5 = bytes::lit("\"deps\": ");
    bytes::push_bytes(out, h5.as_slice());
    proof {
        bytes::lemma_add_assoc(o, p6, "\"deps\": ".spec_bytes());
    }
    let ghost p7 = p6 + "\"deps\": ".spec_bytes();
    push_deps(out, &p.deps, d + 1);
    proof {
        bytes::lemma_add_assoc(o, p7, spec_deps(p@.deps, dd));
    }
    let ghost p8 = p7 + spec_deps(p@.deps, dd);
    out.push(',' as u8);
    proof {
        assert(out@ =~= o + p8 + seq![',' as u8]);
        bytes::lemma_add_assoc(o, p8, seq![',' as u8]);
    }
    let ghost p9 = p8 + seq![',' as u8];
    push_nl(out, d + 1);
    proof {
        bytes::lemma_add_assoc(o, p9, spec_nl(dd));
    }
    let ghost p10 = p9 + spec_nl(dd);
    let h6 = bytes::lit("\"targets\": ");
    bytes::push_bytes(out, h6.as_slice());
    proof {
        bytes::lemma_add_assoc(o, p10, "\"targets\": ".spec_bytes());
    }
    let ghost p11 = p10 + "\"targets\": ".spec_bytes();
    push_targets(out, &p.targets, d + 1);
    proof {
        bytes::lemma_add_assoc(o, p11, spec_targets(p@.targets, dd));
    }
    let ghost p12 = p11 + spec_targets(p@.targets, dd);
    push_nl(out, d);
    proof {
        bytes::lemma_add_assoc(o, p12, spec_nl(d as nat));
    }
    let ghost p13 = p12 + spec_nl(d as nat);
    out.push('}' as u8);
    proof {
        assert(out@ =~= o + p13 + seq!['}' as u8]);
        bytes::lemma_add_assoc(o, p13, seq!['}' as u8]);
        assert(out@ == o + spec_package_tail(p@, d as nat));
    }
}

/// Append one package.
fn push_package(out: &mut Vec<u8>, p: &Package, d: usize)
    requires
        d <= 4,
    ensures
        final(out)@ == old(out)@ + spec_package(p@, d as nat),
{
    push_package_head(out, p, d);
    push_package_mid(out, p, d);
    push_package_tail(out, p, d);
    proof {
        bytes::lemma_add_assoc(
            old(out)@,
            spec_package_head(p@, d as nat),
            spec_package_mid(p@, d as nat),
        );
        bytes::lemma_add_assoc(
            old(out)@,
            spec_package_head(p@, d as nat) + spec_package_mid(p@, d as nat),
            spec_package_tail(p@, d as nat),
        );
        assert(out@ == old(out)@ + spec_package(p@, d as nat));
    }
}

/// Append the package map.
#[verifier::rlimit(100)]
fn push_packages(out: &mut Vec<u8>, ps: &Vec<(crate::nargo::PkgId, Package)>)
    ensures
        final(out)@ == old(out)@ + spec_packages(
            ps@.map_values(|e: (crate::nargo::PkgId, Package)| (e.0@, e.1@)),
        ),
{
    let ghost pv = ps@.map_values(|e: (crate::nargo::PkgId, Package)| (e.0@, e.1@));
    if ps.len() == 0 {
        let e = bytes::lit("{}");
        bytes::push_bytes(out, e.as_slice());
        return ;
    }
    out.push('{' as u8);
    let ghost base = out@;
    let mut i: usize = 0;
    proof {
        assert(spec_package_entries(pv.take(0)) =~= Seq::<u8>::empty());
        assert(out@ =~= base + spec_package_entries(pv.take(0)));
    }
    while i < ps.len()
        invariant
            i <= ps@.len(),
            pv == ps@.map_values(|e: (crate::nargo::PkgId, Package)| (e.0@, e.1@)),
            out@ == base + spec_package_entries(pv.take(i as int)),
        decreases ps@.len() - i,
    {
        if i > 0 {
            out.push(',' as u8);
        }
        push_nl(out, 2);
        proof {
            assert(pv[i as int] == (ps@[i as int].0@, ps@[i as int].1@));
        }
        push_jstr(out, ps[i].0.0.as_slice());
        let sep = bytes::lit(": ");
        bytes::push_bytes(out, sep.as_slice());
        push_package(out, &ps[i].1, 2);
        proof {
            assert(pv.take(i + 1 as int).drop_last() =~= pv.take(i as int));
            assert(pv.take(i + 1 as int).last() == pv[i as int]);
            assert(out@ =~= base + spec_package_entries(pv.take(i + 1 as int)));
        }
        i += 1;
    }
    push_nl(out, 1);
    out.push('}' as u8);
    proof {
        assert(pv.take(pv.len() as int) =~= pv);
        assert(out@ =~= old(out)@ + spec_packages(pv));
    }
}

/// Append a member list.
fn push_id_array(out: &mut Vec<u8>, ids: &Vec<crate::nargo::PkgId>, d: usize)
    requires
        d <= 6,
    ensures
        final(out)@ == old(out)@ + spec_id_array(
            ids@.map_values(|p: crate::nargo::PkgId| p@),
            d as nat,
        ),
{
    let ghost iv = ids@.map_values(|p: crate::nargo::PkgId| p@);
    if ids.len() == 0 {
        let e = bytes::lit("[]");
        bytes::push_bytes(out, e.as_slice());
        return ;
    }
    out.push('[' as u8);
    let ghost base = out@;
    let mut i: usize = 0;
    proof {
        assert(spec_id_lines(iv.take(0), d as nat) =~= Seq::<u8>::empty());
        assert(out@ =~= base + spec_id_lines(iv.take(0), d as nat));
    }
    while i < ids.len()
        invariant
            i <= ids@.len(),
            d <= 6,
            iv == ids@.map_values(|p: crate::nargo::PkgId| p@),
            out@ == base + spec_id_lines(iv.take(i as int), d as nat),
        decreases ids@.len() - i,
    {
        if i > 0 {
            out.push(',' as u8);
        }
        push_nl(out, d + 1);
        proof {
            assert(iv[i as int] == ids@[i as int]@);
        }
        push_jstr(out, ids[i].0.as_slice());
        proof {
            assert(iv.take(i + 1 as int).drop_last() =~= iv.take(i as int));
            assert(iv.take(i + 1 as int).last() == iv[i as int]);
            assert(out@ =~= base + spec_id_lines(iv.take(i + 1 as int), d as nat));
        }
        i += 1;
    }
    push_nl(out, d);
    out.push(']' as u8);
    proof {
        assert(iv.take(iv.len() as int) =~= iv);
        assert(out@ =~= old(out)@ + spec_id_array(iv, d as nat));
    }
}

/// Byte determinism: the document is a pure function of the graph's
/// abstract value, so two runs that assemble equal graphs write identical
/// bytes, and a check-mode comparison against either output succeeds. The
/// builder pins the assembled graph up to the order of sorted ties among
/// manifest entries sharing their whole sort key, which the resolver
/// never produces.
pub proof fn lemma_serialize_deterministic(a: Metadata, b: Metadata)
    requires
        a@ == b@,
    ensures
        spec_metadata_doc(a@) == spec_metadata_doc(b@),
{
}

/// One string, quoted and escaped, as a fresh vector.
pub(crate) fn jstr_bytes(s: &[u8]) -> (r: Vec<u8>)
    ensures
        r@ == spec_jstr(s@),
{
    let mut out: Vec<u8> = Vec::new();
    push_jstr(&mut out, s);
    proof {
        assert(out@ =~= spec_jstr(s@));
    }
    out
}

impl Metadata {
    /// Serialize the canonical graph: byte-identical output for equal
    /// graphs, whatever order the resolver's report came in.
    pub fn serialize_pretty(&self) -> (r: Vec<u8>)
        ensures
            r@ == spec_metadata_doc(self@),
    {
        let mut out: Vec<u8> = Vec::new();
        out.push('{' as u8);
        push_nl(&mut out, 1);
        let h1 = bytes::lit("\"packages\": ");
        bytes::push_bytes(&mut out, h1.as_slice());
        push_packages(&mut out, &self.packages);
        out.push(',' as u8);
        push_nl(&mut out, 1);
        let h2 = bytes::lit("\"workspace_members\": ");
        bytes::push_bytes(&mut out, h2.as_slice());
        push_id_array(&mut out, &self.workspace_members, 1);
        out.push(',' as u8);
        push_nl(&mut out, 1);
        let h3 = bytes::lit("\"workspace_default_members\": ");
        bytes::push_bytes(&mut out, h3.as_slice());
        push_id_array(&mut out, &self.workspace_default_members, 1);
        push_nl(&mut out, 0);
        out.push('}' as u8);
        proof {
            assert(out@ =~= spec_metadata_doc(self@));
        }
        out
    }
}

} // verus!
