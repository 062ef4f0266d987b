use cleanroom::context::BuildContext;
use cleanroom::printer::Headline;
use cleanroom::protocol::{new_command_prefix, parse_stdout};

fn test_parse_stdout(
    input: &str,
    command_prefix: &str,
    expect_handled: bool,
    expect_error: bool,
) -> BuildContext {
    let ctx = cleanroom::context::ContextBuilder::new_test().build("/usr/bin/cleanroom");
    let mut ctx = ctx.test_system();

    ctx.set("FOO", "bar", false, false).unwrap();
    ctx.set("BAR", "foo", false, false).unwrap();

    let mut current_headline: Option<Headline> = None;

    assert_eq!(
        parse_stdout(input, command_prefix, &mut ctx, &mut current_headline),
        expect_handled
    );

    assert_eq!(ctx.printer.error_count() != 0, expect_error);

    ctx
}

#[test]
fn test_parse_stdout_invalid_command() {
    let _ = test_parse_stdout("PFX: XXXX FOO=baz", "PFX: ", true, true);
}

#[test]
fn test_parse_stdout_not_a_command() {
    let _ = test_parse_stdout("SET FOO=baz", "PFX: ", false, false);
}

#[test]
fn test_parse_stdout_set_overwrite_ok() {
    let ctx = test_parse_stdout("PFX: SET FOO=baz", "PFX: ", true, false);

    assert_eq!(ctx.get("FOO"), Some("baz".to_string()));
}

#[test]
fn test_parse_stdout_quoted_set_overwrite_ok() {
    let ctx = test_parse_stdout("PFX: SET \"FOO\"=\"baz\"", "PFX: ", true, false);

    assert_eq!(ctx.get("FOO"), Some("baz".to_string()));
}

#[test]
fn test_parse_stdout_set_add_ok() {
    let ctx = test_parse_stdout("PFX: SET BAZ=baz", "PFX: ", true, false);

    assert_eq!(ctx.get("BAZ"), Some("baz".to_string()));
}

#[test]
fn test_parse_stdout_quoted_set_add_ok() {
    let ctx = test_parse_stdout("PFX: SET \"BAZ\"=\"baz\"", "PFX: ", true, false);

    assert_eq!(ctx.get("BAZ"), Some("baz".to_string()));
}

#[test]
fn test_parse_stdout_set_invalid_name() {
    let ctx = test_parse_stdout("PFX: SET foo=baz", "PFX: ", true, true);

    assert_eq!(ctx.get("FOO"), Some("bar".to_string()));
}

#[test]
fn test_parse_stdout_set_no_equal() {
    let _ = test_parse_stdout("PFX: SET FOOBAR", "PFX: ", true, true);
}

#[test]
fn test_parse_stdout_set_ro_then_overwrite_fails() {
    let mut ctx = test_parse_stdout("PFX: SET_RO LOCKED=v1", "PFX: ", true, false);
    assert_eq!(ctx.get("LOCKED"), Some("v1".to_string()));

    let mut current: Option<Headline> = None;
    assert!(parse_stdout("PFX: SET LOCKED=v2", "PFX: ", &mut ctx, &mut current));
    assert_eq!(ctx.printer.error_count(), 1);
    assert_eq!(ctx.get("LOCKED"), Some("v1".to_string()));
}

#[test]
fn test_parse_stdout_set_twice_is_idempotent() {
    let mut ctx = test_parse_stdout("PFX: SET NAME=VALUE", "PFX: ", true, false);
    assert_eq!(ctx.get("NAME"), Some("VALUE".to_string()));
    let entries_once: Vec<_> = ctx.iter();

    let mut current: Option<Headline> = None;
    assert!(parse_stdout("PFX: SET NAME=VALUE", "PFX: ", &mut ctx, &mut current));
    assert_eq!(ctx.printer.error_count(), 0);
    assert_eq!(ctx.get("NAME"), Some("VALUE".to_string()));
    let entries_twice: Vec<_> = ctx.iter();
    assert_eq!(entries_once, entries_twice);
}

#[test]
fn test_parse_stdout_add_dependency() {
    let mut ctx = test_parse_stdout("PFX: ADD_DEPENDENCY PKG=build_pkg", "PFX: ", true, false);

    let deps = ctx.take_dependencies();
    assert_eq!(deps.len(), 1);
    assert_eq!(deps[0].0.as_str(), "PKG");
    assert_eq!(deps[0].1.as_str(), "build_pkg");
    assert_eq!(ctx.take_dependencies().len(), 0);
}

#[test]
fn test_parse_stdout_add_dependency_duplicate() {
    let mut ctx = test_parse_stdout("PFX: ADD_DEPENDENCY PKG=build_pkg", "PFX: ", true, false);

    let mut current: Option<Headline> = None;
    assert!(parse_stdout(
        "PFX: ADD_DEPENDENCY PKG=other_cmd",
        "PFX: ",
        &mut ctx,
        &mut current
    ));
    assert_eq!(ctx.printer.error_count(), 1);
    assert_eq!(ctx.take_dependencies().len(), 1);
}

#[test]
fn test_parse_stdout_status_push_pop() {
    let ctx = cleanroom::context::ContextBuilder::new_test().build("/usr/bin/cleanroom");
    let mut ctx = ctx.test_system();
    let mut current: Option<Headline> = None;

    assert!(parse_stdout("PFX: STATUS building", "PFX: ", &mut ctx, &mut current));
    assert!(current.is_some());
    assert!(parse_stdout("PFX: PUSH step one", "PFX: ", &mut ctx, &mut current));
    assert!(parse_stdout("PFX: POP", "PFX: ", &mut ctx, &mut current));
    assert_eq!(ctx.printer.error_count(), 0);
}

#[test]
fn test_command_prefix_shape() {
    let (uuid, prefix) = new_command_prefix();
    assert_eq!(uuid.chars().count(), 36);
    assert_eq!(prefix, format!("{uuid}: "));
    assert!(prefix.ends_with(": "));

    let (other, _) = new_command_prefix();
    assert_ne!(uuid, other);
}
