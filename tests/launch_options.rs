use steam_shortcuts::launch_options::fix_launch_options;

#[test]
fn test_launch_options_fixer() {
    let launch_options = "run --branch=stable --arch=x86_64 --command=boxy-svg --file-forwarding com.boxy_svg.BoxySVG @@ %f @@";
    let result = fix_launch_options(launch_options.to_string());
    println!("{}", &result);
    assert_eq!(
        r#""run" "--branch=stable" "--arch=x86_64" "--command=boxy-svg" "--file-forwarding" "com.boxy_svg.BoxySVG" "@@" "@@""#,
        result.as_str()
    )
}

#[test]
fn empty_input_gives_empty_output() {
    assert_eq!(fix_launch_options(String::new()), "");
}

#[test]
fn only_placeholder_gives_empty_output() {
    assert_eq!(fix_launch_options("%f".to_string()), "");
}

#[test]
fn placeholder_between_tokens_is_dropped() {
    assert_eq!(
        fix_launch_options("com.boxy_svg.BoxySVG @@ %f @@".to_string()),
        r#""com.boxy_svg.BoxySVG" "@@" "@@""#
    );
}

#[test]
fn quoted_token_keeps_its_spaces() {
    assert_eq!(
        fix_launch_options(r#"run "a b" c"#.to_string()),
        r#""run" "a b" "c""#
    );
}

#[test]
fn trailing_space_flushes_from_last_start() {
    assert_eq!(fix_launch_options("ab ".to_string()), r#""ab" "ab ""#);
}

#[test]
fn escape_drops_backslash_and_next_character() {
    assert_eq!(fix_launch_options(r"a\ b c".to_string()), r#""ab" "c""#);
}

#[test]
fn trailing_backslash_is_dropped() {
    assert_eq!(fix_launch_options("ab\\".to_string()), r#""ab""#);
}
