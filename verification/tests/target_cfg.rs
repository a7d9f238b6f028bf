use nargo::target_cfg::RustcTargetCfg;

const CFGS_X86_64_LINUX: &str = r#"
debug_assertions
panic="unwind"
target_abi=""
target_arch="x86_64"
target_endian="little"
target_env="gnu"
target_family="unix"
target_feature="fxsr"
target_feature="sse"
target_feature="sse2"
target_has_atomic="16"
target_has_atomic="32"
target_has_atomic="64"
target_has_atomic="8"
target_has_atomic="ptr"
target_os="linux"
target_pointer_width="64"
target_vendor="unknown"
unix
"#;

#[test]
fn iter_cfgs() {
    let output = RustcTargetCfg {
        output: CFGS_X86_64_LINUX.as_bytes().to_vec(),
    };
    let cfgs = output.iter_cfgs().unwrap();
    let actual = cfgs
        .iter()
        .map(|cfg| {
            (
                String::from_utf8(cfg.key.clone()).unwrap(),
                cfg.value
                    .as_ref()
                    .map(|v| String::from_utf8(v.clone()).unwrap()),
            )
        })
        .collect::<Vec<_>>();
    let expected = vec![
        ("debug_assertions".to_owned(), None),
        ("panic".to_owned(), Some("unwind".to_owned())),
        ("target_abi".to_owned(), Some("".to_owned())),
        ("target_arch".to_owned(), Some("x86_64".to_owned())),
        ("target_endian".to_owned(), Some("little".to_owned())),
        ("target_env".to_owned(), Some("gnu".to_owned())),
        ("target_family".to_owned(), Some("unix".to_owned())),
        ("target_feature".to_owned(), Some("fxsr".to_owned())),
        ("target_feature".to_owned(), Some("sse".to_owned())),
        ("target_feature".to_owned(), Some("sse2".to_owned())),
        ("target_has_atomic".to_owned(), Some("16".to_owned())),
        ("target_has_atomic".to_owned(), Some("32".to_owned())),
        ("target_has_atomic".to_owned(), Some("64".to_owned())),
        ("target_has_atomic".to_owned(), Some("8".to_owned())),
        ("target_has_atomic".to_owned(), Some("ptr".to_owned())),
        ("target_os".to_owned(), Some("linux".to_owned())),
        ("target_pointer_width".to_owned(), Some("64".to_owned())),
        ("target_vendor".to_owned(), Some("unknown".to_owned())),
        ("unix".to_owned(), None),
    ];
    assert_eq!(actual, expected);
}

#[test]
fn env_cfgs() {
    let output = RustcTargetCfg {
        output: CFGS_X86_64_LINUX.as_bytes().to_vec(),
    };
    let envs = output.env_cfgs().unwrap();
    let actual = envs
        .iter()
        .map(|(key, value)| {
            (
                String::from_utf8(key.clone()).unwrap(),
                String::from_utf8(value.clone()).unwrap(),
            )
        })
        .collect::<Vec<_>>();

    let expected = vec![
        ("CARGO_CFG_TARGET_ABI".to_owned(), "".to_owned()),
        ("CARGO_CFG_TARGET_ARCH".to_owned(), "x86_64".to_owned()),
        ("CARGO_CFG_TARGET_ENDIAN".to_owned(), "little".to_owned()),
        ("CARGO_CFG_TARGET_ENV".to_owned(), "gnu".to_owned()),
        ("CARGO_CFG_TARGET_FAMILY".to_owned(), "unix".to_owned()),
        ("CARGO_CFG_TARGET_FEATURE".to_owned(), "fxsr,sse,sse2".to_owned()),
        ("CARGO_CFG_TARGET_HAS_ATOMIC".to_owned(), "16,32,64,8,ptr".to_owned()),
        ("CARGO_CFG_TARGET_OS".to_owned(), "linux".to_owned()),
        ("CARGO_CFG_TARGET_POINTER_WIDTH".to_owned(), "64".to_owned()),
        ("CARGO_CFG_TARGET_VENDOR".to_owned(), "unknown".to_owned()),
        ("CARGO_CFG_UNIX".to_owned(), "".to_owned()),
    ];

    assert_eq!(actual, expected);
}

#[test]
fn cfg_value_without_quotes_is_rejected() {
    let output = RustcTargetCfg {
        output: b"target_os=linux\n".to_vec(),
    };
    assert_eq!(
        output.iter_cfgs().unwrap_err().kind,
        nargo::error::ErrorKind::Parse
    );
}
