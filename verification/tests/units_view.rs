use nargo::resolve::{FeatFor, Unit, UnitGraph, UnitTarget};

fn b(s: &str) -> Vec<u8> {
    s.as_bytes().to_vec()
}

fn unit(pkg: &str, platform: Option<&str>, mode: &str, kinds: &[&str], feats: &[&str]) -> Unit {
    Unit {
        pkg_id: b(pkg),
        target: UnitTarget { kind: kinds.iter().map(|k| b(k)).collect() },
        platform: platform.map(|p| b(p)),
        mode: b(mode),
        features: feats.iter().map(|f| b(f)).collect(),
    }
}

#[test]
fn unit_graph_rows_are_grouped_and_ordered() {
    let host = b"x86_64-unknown-linux-gnu";
    let g = UnitGraph {
        version: 1,
        units: vec![
            unit(
                "registry+https://github.com/rust-lang/crates.io-index#zeta@1.0.0",
                Some("x86_64-unknown-linux-gnu"),
                "build",
                &["lib"],
                &["b", "a", "b"],
            ),
            unit("path+file:///ws/crates/alpha#0.1.0", None, "build", &["lib"], &[]),
            unit("path+file:///ws/crates/alpha#0.1.0", None, "run-custom-build", &["lib"], &["x"]),
            unit("path+file:///ws/crates/alpha#0.1.0", None, "build", &["custom-build"], &["x"]),
        ],
    };
    let rows = g.build_resolve_features(host, b"/ws").unwrap();
    assert_eq!(rows.len(), 2);
    assert_eq!(rows[0].id.0, b("alpha"));
    assert_eq!(rows[0].feat_for, FeatFor::Build);
    assert!(rows[0].activation.feats.is_empty());
    assert_eq!(rows[1].id.0, b("zeta@1.0.0"));
    assert_eq!(rows[1].feat_for, FeatFor::Normal);
    assert_eq!(rows[1].activation.feats, vec![b("a"), b("b")]);

    let map = g.build_pkg_id_map(b"/ws").unwrap();
    assert_eq!(map.len(), 4);
    assert_eq!(map[1].1 .0, b("alpha"));
}

#[test]
fn conflicting_activations_are_rejected() {
    let g = UnitGraph {
        version: 1,
        units: vec![
            unit("path+file:///ws/crates/alpha#0.1.0", None, "build", &["lib"], &["a"]),
            unit("path+file:///ws/crates/alpha#0.1.0", None, "build", &["bin"], &["z"]),
        ],
    };
    let e = g.build_resolve_features(b"host", b"/ws").unwrap_err();
    assert_eq!(e.kind, nargo::error::ErrorKind::Inconsistent);
}

#[test]
fn foreign_target_triples_are_rejected() {
    let g = UnitGraph {
        version: 1,
        units: vec![unit(
            "path+file:///ws/crates/alpha#0.1.0",
            Some("aarch64-unknown-linux-gnu"),
            "build",
            &["lib"],
            &[],
        )],
    };
    let e = g.build_resolve_features(b"x86_64-unknown-linux-gnu", b"/ws").unwrap_err();
    assert_eq!(e.kind, nargo::error::ErrorKind::Inconsistent);
}
