use nargo::semver::Version;

fn display(v: &Version) -> Vec<u8> {
    let mut out = Vec::new();
    out.extend_from_slice(&v.major);
    out.push(b'.');
    out.extend_from_slice(&v.minor);
    out.push(b'.');
    out.extend_from_slice(&v.patch);
    if let Some(pre) = &v.pre {
        out.push(b'-');
        out.extend_from_slice(pre);
    }
    if let Some(build) = &v.build {
        out.push(b'+');
        out.extend_from_slice(build);
    }
    out
}

fn version(s: &str) -> Version {
    let version =
        Version::from_str(s.as_bytes()).expect("this version should parse");
    assert_eq!(version.original, s.as_bytes().to_vec());
    assert_eq!(version.original, display(&version));
    version
}

fn version_err(s: &str) {
    Version::from_str(s.as_bytes()).expect_err("this version should not parse");
}

fn version_new(
    major: &str,
    minor: &str,
    patch: &str,
    pre: Option<&str>,
    build: Option<&str>,
) -> Version {
    let mut original = format!("{major}.{minor}.{patch}");
    if let Some(p) = pre {
        original.push('-');
        original.push_str(p);
    }
    if let Some(b) = build {
        original.push('+');
        original.push_str(b);
    }
    Version {
        original: original.into_bytes(),
        major: major.as_bytes().to_vec(),
        minor: minor.as_bytes().to_vec(),
        patch: patch.as_bytes().to_vec(),
        pre: pre.map(|p| p.as_bytes().to_vec()),
        build: build.map(|b| b.as_bytes().to_vec()),
    }
}

#[test]
fn parse() {
    version_err("");
    version_err("  ");
    version_err("1");
    version_err("1.2");
    version_err("1.2.");
    version_err("1..4");
    version_err("1.2.3-");
    version_err("a.b.c");
    version_err("1.2.3 abc");
    version_err("1.2.3++");
    version_err("07");
    version_err("07.01.1");
    version_err("7.01.1");
    version_err("7.1.01");

    assert_eq!(version("1.2.3"), version_new("1", "2", "3", None, None));
    assert_eq!(
        version("1.2.3-alpha1"),
        version_new("1", "2", "3", Some("alpha1"), None)
    );
    assert_eq!(
        version("1.2.3+build5"),
        version_new("1", "2", "3", None, Some("build5"))
    );
    assert_eq!(
        version("1.2.3-alpha1+build5"),
        version_new("1", "2", "3", Some("alpha1"), Some("build5"))
    );
    assert_eq!(
        version("1.2.3-0a.alpha1.9+05build.7.3aedf"),
        version_new("1", "2", "3", Some("0a.alpha1.9"), Some("05build.7.3aedf"))
    );
    assert_eq!(
        version("0.4.0-beta.1+0851523"),
        version_new("0", "4", "0", Some("beta.1"), Some("0851523"))
    );
    assert_eq!(
        version("1.1.0-beta-10"),
        version_new("1", "1", "0", Some("beta-10"), None)
    );
}
