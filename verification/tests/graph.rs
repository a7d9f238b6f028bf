use nargo::clean::Context;
use nargo::error::ErrorKind;
use nargo::input::{
    DepKind, Manifest, ManifestDependency, ManifestTarget, Metadata, Node, NodeDep, NodeDepKind,
    Resolve, Source,
};
use nargo::nargo::PkgId;
use nargo::output;
use nargo::run::build_graph;

fn b(s: &str) -> Vec<u8> {
    s.as_bytes().to_vec()
}

fn bb(v: &[&str]) -> Vec<Vec<u8>> {
    v.iter().map(|s| b(s)).collect()
}

const REGISTRY: &str = "registry+https://github.com/rust-lang/crates.io-index";

fn beta_dep(kind: DepKind, req: &str) -> ManifestDependency {
    ManifestDependency {
        name: b("beta"),
        source: Some(Source(b(REGISTRY))),
        req: b(req),
        kind,
        optional: false,
        uses_default_features: true,
        features: bb(&["extra"]),
        target: None,
        rename: None,
        registry: None,
        path: None,
    }
}

fn lib_target(dir: &str) -> ManifestTarget {
    ManifestTarget {
        name: b("lib"),
        kind: bb(&["lib"]),
        crate_types: bb(&["lib"]),
        required_features: vec![],
        src_path: b(&format!("{dir}/src/lib.rs")),
        edition: b("2021"),
    }
}

fn bin_target(dir: &str) -> ManifestTarget {
    ManifestTarget {
        name: b("alpha"),
        kind: bb(&["bin"]),
        crate_types: bb(&["bin"]),
        required_features: vec![],
        src_path: b(&format!("{dir}/src/main.rs")),
        edition: b("2021"),
    }
}

fn alpha_manifest(deps: Vec<ManifestDependency>, targets: Vec<ManifestTarget>) -> Manifest {
    Manifest {
        name: b("alpha"),
        version: b("0.1.0"),
        id: PkgId(b("path+file:///ws/crates/alpha#0.1.0")),
        source: None,
        dependencies: deps,
        targets,
        features: vec![(b("std"), bb(&[]))],
        manifest_path: b("/ws/crates/alpha/Cargo.toml"),
        edition: b("2021"),
        links: None,
        default_run: None,
        rust_version: None,
    }
}

fn beta_manifest() -> Manifest {
    Manifest {
        name: b("beta"),
        version: b("1.2.3"),
        id: PkgId(b(&format!("{REGISTRY}#beta@1.2.3"))),
        source: Some(Source(b(REGISTRY))),
        dependencies: vec![],
        // No "default" feature key: every edge to beta must come out with
        // its default flag forced off.
        features: vec![(b("extra"), bb(&[]))],
        targets: vec![lib_target("/reg/beta-1.2.3")],
        manifest_path: b("/reg/beta-1.2.3/Cargo.toml"),
        edition: b("2021"),
        links: None,
        default_run: None,
        rust_version: None,
    }
}

fn sample_input(reversed: bool, req: &str) -> Metadata {
    let mut alpha_deps = vec![beta_dep(DepKind::Normal, req), beta_dep(DepKind::Build, req)];
    let mut alpha_targets = vec![bin_target("/ws/crates/alpha"), lib_target("/ws/crates/alpha")];
    let mut packages = vec![
        alpha_manifest(alpha_deps.clone(), alpha_targets.clone()),
        beta_manifest(),
    ];
    if reversed {
        alpha_deps.reverse();
        alpha_targets.reverse();
        packages = vec![beta_manifest(), alpha_manifest(alpha_deps, alpha_targets)];
    }
    let alpha_node = Node {
        id: PkgId(b("path+file:///ws/crates/alpha#0.1.0")),
        deps: vec![NodeDep {
            pkg: PkgId(b(&format!("{REGISTRY}#beta@1.2.3"))),
            dep_kinds: vec![
                NodeDepKind { kind: DepKind::Build, target: None },
                NodeDepKind { kind: DepKind::Normal, target: None },
            ],
        }],
    };
    let beta_node = Node {
        id: PkgId(b(&format!("{REGISTRY}#beta@1.2.3"))),
        deps: vec![],
    };
    let nodes = if reversed {
        vec![beta_node, alpha_node]
    } else {
        vec![alpha_node, beta_node]
    };
    Metadata {
        packages,
        workspace_members: vec![PkgId(b("path+file:///ws/crates/alpha#0.1.0"))],
        workspace_default_members: vec![PkgId(b("path+file:///ws/crates/alpha#0.1.0"))],
        resolve: Resolve { nodes },
        workspace_root: b("/ws"),
    }
}

fn built_graph(reversed: bool) -> output::Metadata {
    let g = build_graph(sample_input(reversed, "^1.2"), None, false).unwrap();
    let ids = g.needs_prefetch();
    assert_eq!(ids.len(), 1);
    assert_eq!(ids[0].0, b("beta@1.2.3"));
    let g = g
        .set_prefetched_hash(b"beta@1.2.3", b("sha256-0000"))
        .unwrap();
    g.assert_invariants().unwrap();
    g
}

#[test]
fn local_path_id_compacts_to_the_package_name() {
    let r = PkgId::try_from_cargo_pkg_id_spec(b"path+file:///root/crates/age#0.10.0", b"/root");
    assert_eq!(r.unwrap(), PkgId(b("age")));
}

#[test]
fn registry_id_compacts_to_name_and_version() {
    let raw = format!("{REGISTRY}#aes-gcm@0.10.3");
    let r = PkgId::try_from_cargo_pkg_id_spec(raw.as_bytes(), b"/root");
    assert_eq!(r.unwrap(), PkgId(b("aes-gcm@0.10.3")));
}

#[test]
fn vcs_id_passes_through_unchanged() {
    let raw = "git+http://github.com/dtolnay/semver?branch=master#a6425e6f41ddc81c6d6dd60c68248e0f0ef046c7";
    let r = PkgId::try_from_cargo_pkg_id_spec(raw.as_bytes(), b"/root");
    assert_eq!(r.unwrap(), PkgId(b(raw)));
}

#[test]
fn edge_with_two_tags_gets_two_records_in_sorted_order() {
    let g = built_graph(false);
    let alpha = &g.packages.iter().find(|e| e.0 .0 == b("alpha")).unwrap().1;
    assert_eq!(alpha.deps.len(), 1);
    let (dep_id, dep) = &alpha.deps[0];
    assert_eq!(dep_id.0, b("beta@1.2.3"));
    assert_eq!(dep.name, b("beta"));
    assert_eq!(dep.kinds.len(), 2);
    assert_eq!(dep.kinds[0].kind, DepKind::Normal);
    assert_eq!(dep.kinds[1].kind, DepKind::Build);
    assert_eq!(dep.kinds[0].features, bb(&["extra"]));
}

#[test]
fn missing_default_feature_forces_the_flag_off() {
    let g = built_graph(false);
    let alpha = &g.packages.iter().find(|e| e.0 .0 == b("alpha")).unwrap().1;
    let dep = &alpha.deps[0].1;
    // The manifest entry declared uses_default_features = true, but beta
    // has no "default" feature.
    assert_eq!(dep.kinds[0].default, false);
    assert_eq!(dep.kinds[1].default, false);
    assert_eq!(dep.kinds[0].optional, false);
}

#[test]
fn two_input_orders_serialize_to_identical_bytes() {
    let a = built_graph(false).serialize_pretty();
    let c = built_graph(true).serialize_pretty();
    assert_eq!(a, c);
    assert!(built_graph(false).matches_serialized(&c));
}

#[test]
fn serialized_graph_reads_back_and_reserializes_identically() {
    let g = built_graph(false);
    let once = g.serialize_pretty();
    let g2 = output::Metadata::deserialize(&once, None).expect("the graph's own bytes read back");
    let twice = g2.serialize_pretty();
    assert_eq!(once, twice);
}

#[test]
fn an_authentic_candidate_is_always_accepted() {
    let g = built_graph(false);
    let once = g.serialize_pretty();
    let g2 = output::Metadata::deserialize(&once, Some(g.clone()))
        .expect("an authentic candidate is owed acceptance");
    assert_eq!(g2.serialize_pretty(), once);
}

#[test]
fn a_wrong_candidate_falls_back_to_the_reader() {
    let g = built_graph(false);
    let once = g.serialize_pretty();
    let mut other = built_graph(false);
    other.workspace_default_members.clear();
    let g2 = output::Metadata::deserialize(&once, Some(other)).expect("the reader still accepts");
    assert_eq!(g2.serialize_pretty(), once);
    assert!(output::Metadata::deserialize(b"not a graph", Some(g)).is_none());
}

#[test]
fn unmatched_version_requirement_is_an_inconsistency() {
    let e = build_graph(sample_input(false, "^2.0"), None, false).unwrap_err();
    assert_eq!(e.kind, ErrorKind::Inconsistent);
}

#[test]
fn malformed_version_requirement_is_a_parse_error() {
    let e = build_graph(sample_input(false, "not a req"), None, false).unwrap_err();
    assert_eq!(e.kind, ErrorKind::Parse);
}

#[test]
fn hash_carries_forward_from_the_prior_graph() {
    let prior = built_graph(false);
    let g = build_graph(sample_input(false, "^1.2"), Some(&prior), false).unwrap();
    assert_eq!(g.needs_prefetch().len(), 0);
    g.assert_invariants().unwrap();
    let beta = &g.packages.iter().find(|e| e.0 .0 == b("beta@1.2.3")).unwrap().1;
    assert_eq!(beta.hash.as_ref().unwrap().0, b("sha256-0000"));
}

#[test]
fn missing_library_target_fails_the_invariants() {
    let mut g = built_graph(false);
    for entry in g.packages.iter_mut() {
        if entry.0 .0 == b("beta@1.2.3") {
            entry.1.targets = vec![];
        }
    }
    assert_eq!(g.assert_invariants().unwrap_err().kind, ErrorKind::Inconsistent);
}

#[test]
fn dev_dependencies_of_external_packages_are_pruned() {
    let mut input = sample_input(false, "^1.2");
    for m in input.packages.iter_mut() {
        if m.name == b("beta") {
            m.dependencies.push(ManifestDependency {
                name: b("gamma"),
                source: Some(Source(b(REGISTRY))),
                req: b("^1"),
                kind: DepKind::Dev,
                optional: false,
                uses_default_features: true,
                features: vec![],
                target: None,
                rename: None,
                registry: None,
                path: None,
            });
        }
    }
    let ctx = Context { workspace_root: b("/ws") };
    let cleaned = input.clean(&ctx).unwrap();
    let beta = cleaned.packages.iter().find(|m| m.name == b("beta")).unwrap();
    assert!(beta.dependencies.is_empty());
    let alpha = cleaned.packages.iter().find(|m| m.name == b("alpha")).unwrap();
    assert_eq!(alpha.id, PkgId(b("alpha")));
    assert_eq!(alpha.source, None);
    assert_eq!(
        alpha.targets[0].kind,
        bb(&["bin"])
    );
}

#[test]
fn cleaned_graph_has_sources_exactly_on_non_members() {
    let ctx = Context { workspace_root: b("/ws") };
    let cleaned = sample_input(false, "^1.2").clean(&ctx).unwrap();
    for m in cleaned.packages.iter() {
        let is_member = cleaned.workspace_members.contains(&m.id);
        assert_eq!(m.source.is_none(), is_member);
    }
    let g = built_graph(false);
    for (id, p) in g.packages.iter() {
        let is_member = g.workspace_members.contains(id);
        assert_eq!(p.source.is_none(), is_member);
    }
}
