use nargo::shell::escape;

fn esc(s: &str) -> Vec<u8> {
    escape(s.as_bytes())
}

#[test]
fn test_escape() {
    assert_eq!(
        esc("abcdefghijklmnopqrstuvwxyzABCDEFGHIJKLMNOPQRSTUVWXYZ0123456789-_=/,.+"),
        b"abcdefghijklmnopqrstuvwxyzABCDEFGHIJKLMNOPQRSTUVWXYZ0123456789-_=/,.+".to_vec()
    );
    assert_eq!(esc("--aaa=bbb-ccc"), b"--aaa=bbb-ccc".to_vec());
    assert_eq!(
        esc("linker=gcc -L/foo -Wl,bar"),
        br#"'linker=gcc -L/foo -Wl,bar'"#.to_vec()
    );
    assert_eq!(
        esc(r#"--features="default""#),
        br#"'--features="default"'"#.to_vec()
    );
    assert_eq!(esc(r#"'!\$`\\\n "#), br#"''\'''\!'\$`\\\n '"#.to_vec());
    assert_eq!(esc(""), br#"''"#.to_vec());
}
