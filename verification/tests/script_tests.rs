use std::collections::HashSet;

use cleanroom::names::CommandName;
use cleanroom::phases::Phases;
use cleanroom::printer::{LogLevel, Printer};
use cleanroom::registry::{CommandManagerBuilder, CommandToml, RawInput};
use cleanroom::script::{create_script, escape, Section};

fn shell_escape(input: &str, expected: &str) {
    let result = escape(input);

    assert_eq!(&result, expected);
}

#[test]
fn test_shell_escape_unchanged() {
    shell_escape(
        r#"foobar 1, 2, 3, 4, XYZ # bar foo"#,
        r#"foobar 1, 2, 3, 4, XYZ # bar foo"#,
    );
}

#[test]
fn test_shell_escape_quoted_double_quotes() {
    shell_escape(r#"foo "b\"a\"z" bar"#, r#"foo \"b\\\"a\\\"z\" bar"#);
}

#[test]
fn test_phase_names() {
    let mut known_names = HashSet::new();
    for p in Phases::iter() {
        let pn = p.name().to_string();

        assert!(known_names.insert(pn.clone()));
        assert!(pn.chars().all(|c| c.is_ascii_lowercase() || c == '_'));
    }
    assert_eq!(known_names.len(), 6);
}

#[test]
fn test_phase_order() {
    assert_eq!(
        Phases::iter(),
        vec![
            Phases::Prepare,
            Phases::Install,
            Phases::Polish,
            Phases::Test,
            Phases::BuildArtifacts,
            Phases::TestArtifacts,
        ]
    );
}

#[test]
fn test_section_markers_and_final_newline() {
    let mut section = Section::new("demo");
    section.push_str("echo hi");
    assert_eq!(section.extract(), "### <demo>\necho hi\n### </demo>\n\n");

    let empty = Section::new("empty");
    assert_eq!(empty.extract(), "### <empty>\n### </empty>\n\n");
}

#[test]
fn test_section_strips_shebang() {
    let mut section = Section::new("s");
    section.push_str("#!/bin/sh\necho body\n");
    assert_eq!(section.extract(), "### <s>\necho body\n### </s>\n\n");

    let mut usr = Section::new("s");
    usr.push_str("#!/usr/bin/sh\necho other\n");
    assert_eq!(usr.extract(), "### <s>\necho other\n### </s>\n\n");
}

fn demo_context() -> cleanroom::context::Context {
    let mut builder = CommandManagerBuilder::new();
    let name = CommandName::parse_value("greet").unwrap();
    let data = CommandToml {
        help: Some("say hello".to_string()),
        inputs: vec![
            RawInput::Basic("WHO".to_string()),
            RawInput::Full {
                name: "LOUD".to_string(),
                help: Some("shout".to_string()),
                optional: true,
            },
        ],
        script: "echo \"hello ${WHO}\"".to_string(),
    };
    builder
        .add_command_definition(&name, &data, "<builtin>", "raw toml here")
        .unwrap();
    let commands = builder.build();
    let printer = Printer::new(&LogLevel::Off, false);
    let base = cleanroom::context::ContextBuilder::new(printer, commands);
    let base = base.timestamp("20240101.1200".to_string()).unwrap();
    base.build("/usr/bin/cleanroom")
}

#[test]
fn test_create_script_layout() {
    let ctx = demo_context().test_system();
    let start = CommandName::parse_value("greet").unwrap();
    let script = create_script(&ctx, &start);

    assert!(script.starts_with("#!/bin/sh -e\n### <header>\n"));
    assert!(script.contains("PHASE_PREPARE=\"prepare\"\nreadonly PHASE_PREPARE\n"));
    assert!(script.contains("PHASE_TEST_ARTIFACTS=\"test_artifacts\"\nreadonly PHASE_TEST_ARTIFACTS\n"));
    assert!(script.contains("greet() {\n    push_status \"greet\"\n"));
    assert!(script.contains("    WHO=\"${1}\"; shift\n"));
    assert!(script.contains("    LOUD=\"${1}\"; shift || true\n"));
    assert!(script.contains("echo \"hello ${WHO}\"\n    pop_status\n}\n"));
    assert!(script.contains("TIMESTAMP=\"20240101.1200\"\nreadonly TIMESTAMP\n"));
    // internal variables never surface in the emitted environment
    assert!(!script.contains("BUSYBOX_BINARY="));
    assert!(!script.contains("MY_BINARY="));
    assert!(script.contains("### <command>\ngreet\n### </command>\n\n"));
    assert!(script.ends_with("### </footer>\n\n"));
}

#[test]
fn test_create_script_escapes_values() {
    let ctx = demo_context();
    let mut build = ctx.test_system();
    build
        .set("TRICKY", "a \"quoted\" \\ value", false, false)
        .unwrap();
    let start = CommandName::parse_value("greet").unwrap();
    let script = create_script(&build, &start);
    assert!(script.contains("TRICKY=\"a \\\"quoted\\\" \\\\ value\"\n"));
}
