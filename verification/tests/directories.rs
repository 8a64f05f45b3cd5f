use herdr_tab_title::directory::{
    directory_label, directory_label_with_home, is_comparable, is_home_prefix,
    normalize_path_for_comparison, relative_home_path,
};

#[test]
fn directory_label_uses_last_path_component() {
    assert_eq!(directory_label("/home/me/project", 1), "project");
    assert_eq!(directory_label("/home/me/project/", 1), "project");
    assert_eq!(directory_label("/", 1), "/");
}

#[test]
fn directory_label_uses_requested_tail_components() {
    assert_eq!(directory_label("/home/me/project", 2), "me/project");
    assert_eq!(directory_label("/home/me/project", 99), "home/me/project");
    assert_eq!(directory_label("C:\\Users\\me\\project", 2), "me/project");
}

#[test]
fn directory_label_can_shorten_home_path() {
    assert_eq!(
        directory_label_with_home("/home/me/project/src", 2, Some("/home/me"), false,),
        "~/project/src"
    );
    assert_eq!(
        directory_label_with_home("/home/medium/project", 2, Some("/home/me"), false),
        "medium/project"
    );
    assert_eq!(
        directory_label_with_home("C:\\Users\\Me\\project", 2, Some("c:/users/me"), true),
        "~/project"
    );
}

#[test]
fn home_itself_is_a_tilde() {
    assert_eq!(directory_label_with_home("/home/me", 2, Some("/home/me/"), false), "~");
    assert_eq!(directory_label_with_home("/home/me//", 1, Some("/home/me"), false), "~");
    assert_eq!(directory_label_with_home("/home/me", 1, None, false), "me");
}

#[test]
fn root_can_be_home() {
    assert_eq!(directory_label_with_home("/", 1, Some("/"), false), "~");
    assert_eq!(directory_label_with_home("/etc/ssh", 2, Some("/"), false), "~/etc/ssh");
}

#[test]
fn depth_zero_shows_one_component() {
    assert_eq!(directory_label("/home/me", 0), "me");
    assert_eq!(directory_label("", 3), "/");
    assert_eq!(directory_label("\\\\", 3), "/");
    assert_eq!(directory_label("a//b\\c", 2), "b/c");
}

#[test]
fn trailing_separators_do_not_count() {
    for path in ["/home/me", "C:\\Users", "x"] {
        assert_eq!(directory_label(&format!("{path}/"), 2), directory_label(path, 2));
        assert_eq!(directory_label(&format!("{path}\\"), 2), directory_label(path, 2));
    }
}

#[test]
fn paths_are_normalized_for_comparison() {
    assert_eq!(normalize_path_for_comparison("C:\\Users\\me\\"), "C:/Users/me");
    assert_eq!(normalize_path_for_comparison("///"), "/");
    assert_eq!(normalize_path_for_comparison(""), "");
}

#[test]
fn relative_paths_are_the_rest_below_home() {
    assert_eq!(relative_home_path("/h/a/b", "/h", false), Some("a/b".into()));
    assert_eq!(relative_home_path("/h", "/h", false), Some("".into()));
    assert_eq!(relative_home_path("/H/a", "/h", false), None);
    assert_eq!(relative_home_path("/H/a", "/h", true), Some("a".into()));
}

#[test]
fn prefixes_are_compared_by_bytes() {
    assert!(is_home_prefix("/h/a", "/h/", false));
    assert!(!is_home_prefix("/h", "/h/", false));
    assert!(is_home_prefix("/É/a", "/É/", true));
    assert!(!is_comparable("/abé", "/ab"));
    assert!(is_comparable("/é", "/home/me"));
    assert!(is_comparable("/éa/b", "/é"));
}
