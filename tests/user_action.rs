use avis_imgv::user_action::{format_exec_string, get_command_args};

#[test]
fn get_command_args_returns_correct_args() {
    let cmd = "mkdir /this/is/a/path";
    let args = get_command_args(cmd);
    assert_eq!(args, vec!["mkdir", "/this/is/a/path"])
}

#[test]
fn get_command_args_with_string_returns_correct_args() {
    let cmd = "bash -c 'mkdir /this/is/a/path && cp file /this/is/a/path'";
    let args = get_command_args(cmd);
    assert_eq!(
        args,
        vec![
            "bash",
            "-c",
            "mkdir /this/is/a/path && cp file /this/is/a/path"
        ]
    )
}

#[test]
fn format_exec_string_placeholders() {
    let path = "/tmp/foo/bar.txt";

    // Test {} -> full path
    let formatted = format_exec_string("cmd {}", path).unwrap();
    assert_eq!(
        formatted, "cmd /tmp/foo/bar.txt",
        "Should replace {{}} with full path"
    );

    // Test {.} -> path without extension
    let formatted = format_exec_string("cmd {.} hardship", path).unwrap();
    assert_eq!(
        formatted, "cmd /tmp/foo/bar hardship",
        "Should replace {{.}} with path without extension"
    );

    // Test {//} -> parent dir
    let formatted = format_exec_string("cmd {//}", path).unwrap();
    assert_eq!(
        formatted, "cmd /tmp/foo",
        "Should replace {{//}} with parent dir"
    );

    // Test {/} -> filename
    let formatted = format_exec_string("cmd {/}", path).unwrap();
    assert_eq!(
        formatted, "cmd bar.txt",
        "Should replace {{/}} with filename"
    );

    // Test {/.} -> filename without extension
    let formatted = format_exec_string("cmd {/.}", path).unwrap();
    assert_eq!(
        formatted, "cmd bar",
        "Should replace {{/.}} with filename without extension"
    );

    // Test {.//} -> grandparent directory
    let formatted = format_exec_string("cmd {.//}", path).unwrap();
    assert_eq!(
        formatted, "cmd /tmp",
        "Should replace {{.//}} with grandparent directory"
    );
}

#[test]
fn placeholder_without_value_fails() {
    assert_eq!(format_exec_string("open {//}", "/"), None);
    assert_eq!(format_exec_string("echo hi", "/").unwrap(), "echo hi");
}

#[test]
fn command_args_keep_empty_pieces_between_spaces() {
    assert_eq!(get_command_args("a  b "), vec!["a", "", "b"]);
    assert!(get_command_args("").is_empty());
}
