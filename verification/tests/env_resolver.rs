use easy_term::env_resolver::{merge_overrides, overrides, path_from_shell_output};

#[test]
fn merge_overrides_with_no_base_path_only_includes_extra_vars() {
    let extra = vec![("NODE_ENV".to_string(), "development".to_string())];

    let result = merge_overrides(None, &extra);

    assert_eq!(result, vec![("NODE_ENV".to_string(), "development".to_string())]);
}

#[test]
fn merge_overrides_puts_the_base_path_first_then_extra_vars() {
    let extra = vec![("FOO".to_string(), "bar".to_string())];

    let result = merge_overrides(Some("/usr/bin:/bin"), &extra);

    assert_eq!(result[0], ("PATH".to_string(), "/usr/bin:/bin".to_string()));
    assert!(result.contains(&("FOO".to_string(), "bar".to_string())));
    assert_eq!(result.len(), 2);
}

#[test]
fn merge_overrides_with_nothing_at_all_is_empty() {
    assert!(merge_overrides(None, &Vec::new()).is_empty());
}

#[test]
fn overrides_use_the_resolved_path_when_there_is_one() {
    let path = "/opt/homebrew/bin:/usr/bin".to_string();
    let extra = vec![("A".to_string(), "1".to_string())];
    assert_eq!(
        overrides(Some(&path), &extra),
        vec![("PATH".to_string(), path.clone()), ("A".to_string(), "1".to_string())]
    );
    assert_eq!(overrides(None, &extra), extra);
}

#[test]
fn the_shell_path_is_the_trimmed_output_of_a_successful_shell() {
    assert_eq!(path_from_shell_output(true, b"  /usr/bin:/bin\n"), Some("/usr/bin:/bin".to_string()));
    assert_eq!(path_from_shell_output(false, b"/usr/bin"), None);
    assert_eq!(path_from_shell_output(true, b" \n\t"), None);
    assert_eq!(path_from_shell_output(true, &[0x2f, 0xff]), None);
}
