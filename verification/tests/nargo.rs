use nargo::nargo::{CrateType, PkgId, TargetKind};
use nargo::nargo::TargetKind::{Bench, Bin, CustomBuild, ExampleBin, ExampleLib, Lib, Test};

fn ok(expected: &str, id: &str) {
    let workspace_root = "/nix/store/6y9xxx3m6a1gs9807i2ywz9fhp6f8dm9-source";
    let id_clean =
        PkgId::try_from_cargo_pkg_id_spec(id.as_bytes(), workspace_root.as_bytes());
    assert_eq!(id_clean.unwrap(), PkgId(expected.as_bytes().to_vec()));
}

#[test]
fn pkg_id_try_from_cargo_pkg_id_spec() {
    ok("age", "path+file:///nix/store/6y9xxx3m6a1gs9807i2ywz9fhp6f8dm9-source/age#0.10.0");
    ok("age", "path+file:///nix/store/6y9xxx3m6a1gs9807i2ywz9fhp6f8dm9-source/crates/age#0.10.0");
    ok("dependencies", "path+file:///nix/store/6y9xxx3m6a1gs9807i2ywz9fhp6f8dm9-source#dependencies@0.0.0");
    ok("dependencies", "path+file:///nix/store/6y9xxx3m6a1gs9807i2ywz9fhp6f8dm9-source/other-path#dependencies@0.0.0");
    ok("aes-gcm@0.10.3", "registry+https://github.com/rust-lang/crates.io-index#aes-gcm@0.10.3");
    let id = "git+http://github.com/dtolnay/semver?branch=master#a6425e6f41ddc81c6d6dd60c68248e0f0ef046c7";
    ok(id, id);
}

#[test]
fn pkg_id_outside_the_root_is_rejected() {
    let r = PkgId::try_from_cargo_pkg_id_spec(
        b"path+file:///elsewhere/age#0.10.0",
        b"/nix/store/6y9xxx3m6a1gs9807i2ywz9fhp6f8dm9-source",
    );
    assert_eq!(r.unwrap_err().kind, nargo::error::ErrorKind::Inconsistent);
}

fn split(s: &str) -> Vec<Vec<u8>> {
    s.split(',').map(|p| p.as_bytes().to_vec()).collect()
}

#[test]
fn target_kind_from_cargo() {
    let cases = [
        ("lib", "lib", Lib),
        ("cdylib", "cdylib", Lib),
        ("lib,cdylib,staticlib", "lib,cdylib,staticlib", Lib),
        ("bin", "bin", Bin),
        ("test", "bin", Test),
        ("bench", "bin", Bench),
        ("example", "bin", ExampleBin),
        ("example", "lib", ExampleLib),
        ("example", "cdylib", ExampleLib),
        ("example", "lib,cdylib,staticlib", ExampleLib),
        ("custom-build", "bin", CustomBuild),
    ];
    for (kinds_str, crate_types_str, expected) in cases {
        let kinds = split(kinds_str);
        let crate_types = split(crate_types_str);
        let actual = TargetKind::try_from_cargo_kind(&kinds, &crate_types).unwrap();
        assert_eq!(
            actual, expected,
            "kind: {kinds_str}, crate_type: {crate_types_str}"
        );
    }
}

#[test]
fn target_kind_roundtrip() {
    let kinds = vec![Lib, Bin, Test, Bench, ExampleBin, ExampleLib, CustomBuild];
    let kinds_ser = kinds
        .iter()
        .map(|k| k.as_str().to_owned())
        .collect::<Vec<_>>();
    let kinds_ser_de = kinds_ser
        .iter()
        .map(|k| TargetKind::from_str(k.as_bytes()).unwrap())
        .collect::<Vec<_>>();
    let kinds_ser_de_ser = kinds_ser_de
        .iter()
        .map(|k| k.as_str().to_owned())
        .collect::<Vec<_>>();
    assert_eq!(kinds, kinds_ser_de);
    assert_eq!(kinds_ser, kinds_ser_de_ser);
}

#[test]
fn crate_type_predicates() {
    assert!(CrateType::Bin.can_lto());
    assert!(!CrateType::Rlib.can_lto());
    assert!(CrateType::Rlib.is_linkable());
    assert!(!CrateType::Staticlib.is_linkable());
    assert!(CrateType::ProcMacro.is_dynamic());
    assert!(!CrateType::Lib.is_dynamic());
    assert!(!CrateType::Lib.requires_upstream_objects());
    assert!(CrateType::Cdylib.requires_upstream_objects());
    assert_eq!(CrateType::from_str(b"proc-macro").unwrap(), CrateType::ProcMacro);
    assert!(CrateType::from_str(b"other").is_err());
}
