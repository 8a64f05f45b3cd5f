use herdr_tab_title::host::{environment_hostname, home_directory, local_hostname};

#[test]
fn home_depends_on_the_platform() {
    let user = Some("C:\\Users\\me".to_string());
    let home = Some("/home/me".to_string());
    assert_eq!(home_directory(true, user.clone(), home.clone()), user);
    assert_eq!(home_directory(false, user.clone(), home.clone()), home);
    assert_eq!(home_directory(true, None, home.clone()), home);
    assert_eq!(home_directory(false, user.clone(), None), user);
    assert_eq!(home_directory(false, None, None), None);
}

#[test]
fn blank_names_do_not_count() {
    let name = |s: &str| Some(s.to_string());
    assert_eq!(environment_hostname(true, name(" A "), name("b")), name("A"));
    assert_eq!(environment_hostname(false, name("A"), name("b\n")), name("b"));
    assert_eq!(environment_hostname(false, name("A"), name("  ")), name("A"));
    assert_eq!(environment_hostname(true, None, None), None);
}

#[test]
fn system_name_comes_before_the_environment() {
    let name = |s: &str| Some(s.to_string());
    let mut buffer = [0u8; 16];
    buffer[..6].copy_from_slice("höst ".as_bytes());
    buffer[10] = b'x';
    assert_eq!(local_hostname(Some(&buffer), name("env")), name("höst"));
    assert_eq!(local_hostname(Some(b"full"), name("env")), name("full"));
    assert_eq!(local_hostname(Some(b"\xff\xfe\0"), name("env")), name("env"));
    assert_eq!(local_hostname(Some(b" \0"), name("env")), name("env"));
    assert_eq!(local_hostname(None, name("env")), name("env"));
    assert_eq!(local_hostname(Some(b"\0"), None), None);
}
