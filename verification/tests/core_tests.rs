use cleanroom::bindings::{Binding, RunEnvironment};
use cleanroom::context::ContextBuilder;
use cleanroom::errors::Error;
use cleanroom::names::{
    validate_command_name, validate_variable_name, CommandName, VariableName,
};
use cleanroom::phases::Phases;
use cleanroom::plan::{create_runner, run_outcome, runtime_arguments, Command};
use cleanroom::printer::{LogLevel, Printer};
use cleanroom::registry::{CommandManagerBuilder, CommandToml, RawInput};

fn root_context() -> cleanroom::context::Context {
    ContextBuilder::new_test()
        .timestamp("20240101.1200".to_string())
        .unwrap()
        .version("v1".to_string())
        .unwrap()
        .build("/usr/bin/cleanroom")
}

#[test]
fn test_validate_command_name_cases() {
    assert!(validate_command_name("install_pkg"));
    assert!(validate_command_name("_hidden"));
    assert!(validate_command_name("a2b"));
    assert!(!validate_command_name(""));
    assert!(!validate_command_name("2abc"));
    assert!(!validate_command_name("Upper"));
    assert!(!validate_command_name("has space"));
    assert!(!validate_command_name("has-dash"));
}

#[test]
fn test_validate_variable_name_cases() {
    assert!(validate_variable_name("FOO"));
    assert!(validate_variable_name("_PRIVATE"));
    assert!(validate_variable_name("A2B"));
    assert!(!validate_variable_name(""));
    assert!(!validate_variable_name("2FOO"));
    assert!(!validate_variable_name("lower"));
    assert!(!validate_variable_name("WITH SPACE"));
}

#[test]
fn test_name_parse_value_errors() {
    assert!(CommandName::parse_value("good_name").is_ok());
    assert!(matches!(
        CommandName::parse_value("BAD"),
        Err(Error::InvalidName { .. })
    ));
    assert!(VariableName::parse_value("GOOD").is_ok());
    assert!(matches!(
        VariableName::parse_value("bad"),
        Err(Error::InvalidName { .. })
    ));
}

#[test]
fn test_context_seeding_and_getters() {
    let ctx = root_context();
    assert_eq!(ctx.timestamp(), "20240101.1200");
    assert_eq!(ctx.version(), "v1");
    assert_eq!(ctx.get("TIMESTAMP"), Some("20240101.1200".to_string()));
    assert_eq!(ctx.get("MISSING"), None);
}

#[test]
fn test_context_version_defaults_to_timestamp() {
    let ctx = ContextBuilder::new_test()
        .timestamp("20240101.1200".to_string())
        .unwrap()
        .build("/usr/bin/cleanroom");
    assert_eq!(ctx.version(), "20240101.1200");
}

#[test]
fn test_context_builder_rejects_blank_inputs() {
    assert!(matches!(
        ContextBuilder::new_test().timestamp("   ".to_string()),
        Err(Error::InvalidEnv { .. })
    ));
    assert!(matches!(
        ContextBuilder::new_test().version("".to_string()),
        Err(Error::InvalidEnv { .. })
    ));
}

#[test]
fn test_context_builder_trims_inputs() {
    let ctx = ContextBuilder::new_test()
        .timestamp("  20240101.1200  ".to_string())
        .unwrap()
        .build("/usr/bin/cleanroom");
    assert_eq!(ctx.timestamp(), "20240101.1200");
}

#[test]
fn test_default_timestamp_comes_from_clock() {
    let ctx = ContextBuilder::new_test().build("/usr/bin/cleanroom");
    assert!(!ctx.timestamp().is_empty());
}

#[test]
fn test_set_rejects_invalid_and_read_only() {
    let mut ctx = root_context();
    assert!(matches!(
        ctx.set("lower", "x", false, false),
        Err(Error::InvalidName { .. })
    ));
    assert!(matches!(
        ctx.set("TIMESTAMP", "other", false, false),
        Err(Error::ReadOnlyViolation { .. })
    ));
    assert_eq!(ctx.timestamp(), "20240101.1200");

    ctx.set("FREE", "1", false, false).unwrap();
    ctx.set("FREE", "2", false, false).unwrap();
    assert_eq!(ctx.get("FREE"), Some("2".to_string()));

    ctx.set("SEALED", "x", true, false).unwrap();
    assert!(matches!(
        ctx.set("SEALED", "y", false, false),
        Err(Error::ReadOnlyViolation { .. })
    ));
}

#[test]
fn test_build_context_variables_and_iter_order() {
    let ctx = root_context();
    let mut build = ctx.test_system();
    assert_eq!(build.work_directory(), "/foo/work");
    assert_eq!(build.artifacts_directory(), "/foo/artifacts");
    assert_eq!(build.root_directory(), "/foo/work/XXXX/root_fs");
    assert_eq!(build.busybox_binary(), "/usr/bin/busybox");
    assert_eq!(build.my_binary(), "/usr/bin/cleanroom");
    assert_eq!(build.scratch_directory(), "/foo/work/XXXX");
    assert_eq!(build.timestamp(), "20240101.1200");
    assert_eq!(build.version(), "v1");

    build.set("ZETA", "z", false, false).unwrap();
    build.set("ALPHA", "a", false, false).unwrap();
    let names: Vec<String> = build.iter().into_iter().map(|e| e.name).collect();
    let mut sorted = names.clone();
    sorted.sort();
    assert_eq!(names, sorted);
    assert!(names.contains(&"ALPHA".to_string()));
    assert!(names.iter().position(|n| n == "ALPHA") < names.iter().position(|n| n == "ZETA"));
}

#[test]
fn test_dependent_context_inherits_and_rebases() {
    let ctx = root_context();
    let mut build = ctx.test_system();
    build.set("LOCAL", "not inherited", false, false).unwrap();
    let name = VariableName::parse_value("PKG").unwrap();
    let dep = build.create_dependent_context("/foo/artifacts", &name, "/foo/work/XXXX/pkg");

    assert_eq!(dep.work_directory(), "/foo/work/XXXX");
    assert_eq!(dep.root_directory(), "/foo/work/XXXX/pkg/root_fs");
    assert_eq!(dep.artifacts_directory(), "/foo/artifacts/deps/PKG");
    assert_eq!(dep.timestamp(), "20240101.1200");
    assert_eq!(dep.busybox_binary(), "/usr/bin/busybox");
    assert_eq!(dep.get("LOCAL"), None);
}

#[test]
fn test_add_dependency_duplicate_is_refused() {
    let ctx = root_context();
    let mut build = ctx.test_system();
    let key = VariableName::parse_value("PKG").unwrap();
    let cmd = CommandName::parse_value("build_pkg").unwrap();
    build.add_dependency(key.clone(), cmd.clone()).unwrap();
    assert!(matches!(
        build.add_dependency(key, cmd),
        Err(Error::DuplicateDependency { .. })
    ));
}

#[test]
fn test_registry_overwrite_chain() {
    let mut builder = CommandManagerBuilder::new();
    let name = CommandName::parse_value("c").unwrap();
    let data = CommandToml { help: None, inputs: vec![], script: "true".to_string() };
    builder.add_command_definition(&name, &data, "D1/c.toml", "one").unwrap();
    builder.add_command_definition(&name, &data, "D2/c.toml", "two").unwrap();
    builder.add_command_definition(&name, &data, "D3/c.toml", "three").unwrap();
    let manager = builder.build();
    let cmd = manager.command(&name).unwrap();
    assert_eq!(
        cmd.overwrote_definition_in(),
        &vec!["D1/c.toml".to_string(), "D2/c.toml".to_string()]
    );
    assert_eq!(cmd.source_location(), "D3/c.toml");
    assert_eq!(cmd.dump_source(), "three");
}

#[test]
fn test_registry_rejects_bad_input_name() {
    let mut builder = CommandManagerBuilder::new();
    let name = CommandName::parse_value("c").unwrap();
    let data = CommandToml {
        help: None,
        inputs: vec![RawInput::Basic("not_upper".to_string())],
        script: "true".to_string(),
    };
    assert!(matches!(
        builder.add_command_definition(&name, &data, "D1/c.toml", "one"),
        Err(Error::InvalidName { .. })
    ));
}

#[test]
fn test_registry_lookup_and_listing() {
    let mut builder = CommandManagerBuilder::new();
    let name = CommandName::parse_value("greet").unwrap();
    let data = CommandToml {
        help: Some("say hello".to_string()),
        inputs: vec![
            RawInput::Basic("WHO".to_string()),
            RawInput::Full {
                name: "LOUD".to_string(),
                help: Some("shout".to_string()),
                optional: true,
            },
        ],
        script: "echo hi".to_string(),
    };
    builder.add_command_definition(&name, &data, "<builtin>", "raw").unwrap();
    let manager = builder.build();
    assert!(!manager.is_empty());

    let missing = CommandName::parse_value("nope").unwrap();
    assert!(matches!(
        manager.command(&missing),
        Err(Error::CommandNotFound { .. })
    ));

    assert_eq!(manager.list_commands(false), "  greet:\tsay hello\n");
    assert_eq!(
        manager.show_command(&name).unwrap(),
        "    say hello\n\n  inputs:\n    WHO\n    LOUD:\tshout\n\n"
    );
    assert_eq!(
        manager.list_commands(true),
        "greet:\n    say hello\n\n  inputs:\n    WHO\n    LOUD:\tshout\n\n"
    );
}

#[test]
fn test_binding_parse_and_canonical_round_trip() {
    let rw = Binding::parse("rw:/src:/dst").unwrap();
    assert_eq!(rw, Binding::rw("/src", "/dst"));
    assert_eq!(rw.canonical(), "rw:/src:/dst");

    let overlay = Binding::parse("overlay:/a:/b:/target").unwrap();
    assert_eq!(
        overlay,
        Binding::overlay(&vec!["/a".to_string(), "/b".to_string()], "/target")
    );
    assert_eq!(overlay.canonical(), "overlay:/a:/b:/target");

    for spec in [
        "rw:/src:/dst",
        "ro:/src:/dst",
        "tmpfs:/t",
        "inaccessible:/gone",
        "overlay:/a:/b:/target",
        "overlay_ro:/a:/target",
    ] {
        let parsed = Binding::parse(spec).unwrap();
        assert_eq!(Binding::parse(&parsed.canonical()).unwrap(), parsed);
    }
}

#[test]
fn test_binding_parse_arity_errors() {
    for bad in ["rw:/only", "rw:/a:/b:/c", "ro:/only", "tmpfs", "tmpfs:/a:/b", "inaccessible",
        "overlay:/only", "overlay_ro:/only", "bogus:/a:/b", ""] {
        assert!(
            matches!(Binding::parse(bad), Err(Error::InvalidBindingSpec { .. })),
            "{bad} should not parse"
        );
    }
}

#[test]
fn test_run_environment_selection() {
    assert_eq!(
        RunEnvironment::new(&Some("/dir".to_string()), &None).unwrap(),
        RunEnvironment::Directory("/dir".to_string())
    );
    assert_eq!(
        RunEnvironment::new(&None, &Some("/img".to_string())).unwrap(),
        RunEnvironment::Image("/img".to_string())
    );
    assert!(matches!(
        RunEnvironment::new(&None, &None),
        Err(Error::RunEnvironment { .. })
    ));
    assert!(matches!(
        RunEnvironment::new(&Some("/dir".to_string()), &Some("/img".to_string())),
        Err(Error::RunEnvironment { .. })
    ));
}

#[test]
fn test_plan_test_artifacts_phase() {
    let ctx = root_context();
    let build = ctx.test_system();
    let plan = create_runner(&build, &Phases::TestArtifacts, &vec![]).unwrap();

    assert!(plan.in_bootstrap);
    assert_eq!(
        plan.environment_root,
        RunEnvironment::Directory("/tmp/bootstrap_dir".to_string())
    );
    assert_eq!(
        plan.bindings,
        vec![
            Binding::ro("/usr/bin/cleanroom", "/tmp/clrm/agent"),
            Binding::ro("/usr/bin/busybox", "/tmp/clrm/busybox"),
            Binding::ro("/foo/work/XXXX/script.sh", "/tmp/clrm/script.sh"),
            Binding::rw("/foo/artifacts", "/tmp/clrm/artifacts_fs"),
        ]
    );
    assert_eq!(
        plan.environment,
        vec![
            ("CLRM_CONTAINER".to_string(), "bootstrap".to_string()),
            ("PHASE_IS_NETWORKED".to_string(), "0".to_string()),
            ("ARTIFACTS_FS".to_string(), "/tmp/clrm/artifacts_fs".to_string()),
            ("CURRENT_PHASE".to_string(), "test_artifacts".to_string()),
        ]
    );
    assert!(!plan.enable_network);
    assert!(!plan.enable_private_users);
}

#[test]
fn test_plan_install_phase_mounts_root() {
    let ctx = root_context();
    let build = ctx.test_system();
    let plan = create_runner(&build, &Phases::Install, &vec![]).unwrap();

    assert!(plan.in_bootstrap);
    assert_eq!(
        plan.bindings[0],
        Binding::rw("/foo/work/XXXX/root_fs", "/tmp/clrm/root_fs")
    );
    assert!(plan
        .environment
        .contains(&("ROOT_FS".to_string(), "/tmp/clrm/root_fs".to_string())));
    assert!(!plan
        .environment
        .iter()
        .any(|(k, _)| k == "ARTIFACTS_FS"));
}

#[test]
fn test_plan_prepare_phase_runs_in_target_root() {
    let ctx = root_context();
    let build = ctx.test_system();
    let plan = create_runner(&build, &Phases::Prepare, &vec![]).unwrap();

    assert!(!plan.in_bootstrap);
    assert_eq!(
        plan.environment_root,
        RunEnvironment::Directory("/foo/work/XXXX/root_fs".to_string())
    );
    assert!(plan
        .environment
        .contains(&("ROOT_FS".to_string(), "/".to_string())));
}

#[test]
fn test_plan_extra_bindings() {
    let ctx = root_context();
    let build = ctx.test_system();
    let plan =
        create_runner(&build, &Phases::Prepare, &vec!["tmpfs:/scratch".to_string()]).unwrap();
    assert!(plan.bindings.contains(&Binding::tmpfs("/scratch")));

    assert!(matches!(
        create_runner(&build, &Phases::Prepare, &vec!["broken".to_string()]),
        Err(Error::InvalidBindingSpec { .. })
    ));
}

#[test]
fn test_runtime_arguments_exact() {
    let ctx = root_context();
    let build = ctx.test_system();
    let plan = create_runner(&build, &Phases::TestArtifacts, &vec![]).unwrap();

    let mut command = Command::new("/tmp/clrm/agent");
    command.arg("build-agent");
    command.arg("--command-prefix=PFX");
    command.arg("test_artifacts");

    let args = runtime_arguments(&plan, &command, "1000");
    assert_eq!(
        args,
        vec![
            "--quiet".to_string(),
            "--volatile=yes".to_string(),
            "--settings=off".to_string(),
            "--register=off".to_string(),
            "--resolv-conf=off".to_string(),
            "--timezone=off".to_string(),
            "--link-journal=no".to_string(),
            "--console=pipe".to_string(),
            "--uuid=0bf95bb771364ef997e1df5eb3b26422".to_string(),
            "--private-network".to_string(),
            "--setenv=CLRM_CONTAINER=bootstrap".to_string(),
            "--setenv=PHASE_IS_NETWORKED=0".to_string(),
            "--setenv=ARTIFACTS_FS=/tmp/clrm/artifacts_fs".to_string(),
            "--setenv=CURRENT_PHASE=test_artifacts".to_string(),
            "--bind-ro=/usr/bin/cleanroom:/tmp/clrm/agent".to_string(),
            "--bind-ro=/usr/bin/busybox:/tmp/clrm/busybox".to_string(),
            "--bind-ro=/foo/work/XXXX/script.sh:/tmp/clrm/script.sh".to_string(),
            "--bind=/foo/artifacts:/tmp/clrm/artifacts_fs".to_string(),
            "--directory=/tmp/bootstrap_dir".to_string(),
            "/tmp/clrm/agent".to_string(),
            "build-agent".to_string(),
            "--command-prefix=PFX".to_string(),
            "test_artifacts".to_string(),
        ]
    );
}

#[test]
fn test_command_env_replaces_existing_key() {
    let mut command = Command::new("/bin/true");
    command.env("A", "1");
    command.env("B", "2");
    command.env("A", "3");
    assert_eq!(
        command.environment,
        vec![
            ("A".to_string(), "3".to_string()),
            ("B".to_string(), "2".to_string()),
        ]
    );
    command.env_clear();
    assert!(command.environment.is_empty());
}

#[test]
fn test_run_outcome() {
    let args = vec!["--quiet".to_string()];
    assert!(run_outcome("/usr/bin/nspawn", &args, Some(0), 0).is_ok());
    assert!(run_outcome("/usr/bin/nspawn", &args, Some(1), 1).is_ok());
    match run_outcome("/usr/bin/nspawn", &args, Some(1), 0) {
        Err(Error::CommandFailed { executable, args: failed_args, status, .. }) => {
            assert_eq!(executable, "/usr/bin/nspawn");
            assert_eq!(failed_args, args);
            assert_eq!(status, Some(1));
        }
        other => panic!("unexpected outcome: {other:?}"),
    }
    assert!(matches!(
        run_outcome("/usr/bin/nspawn", &args, None, 0),
        Err(Error::CommandFailed { status: None, .. })
    ));
}

#[test]
fn test_registry_lists_in_name_order() {
    let mut builder = CommandManagerBuilder::new();
    let data = CommandToml { help: None, inputs: vec![], script: "true".to_string() };
    for name in ["zeta", "alpha", "middle"] {
        let name = CommandName::parse_value(name).unwrap();
        builder.add_command_definition(&name, &data, "<builtin>", "raw").unwrap();
    }
    let manager = builder.build();
    let names: Vec<String> =
        manager.commands().iter().map(|(n, _)| n.as_str().to_string()).collect();
    assert_eq!(names, vec!["alpha", "middle", "zeta"]);
    assert_eq!(
        manager.list_commands(false),
        "  alpha:\tno help\n  middle:\tno help\n  zeta:\tno help\n"
    );
}

#[test]
fn test_registry_keeps_optional_flag() {
    let mut builder = CommandManagerBuilder::new();
    let name = CommandName::parse_value("c").unwrap();
    let data = CommandToml {
        help: None,
        inputs: vec![
            RawInput::Basic("REQUIRED".to_string()),
            RawInput::Full { name: "MAYBE".to_string(), help: None, optional: true },
        ],
        script: "true".to_string(),
    };
    builder.add_command_definition(&name, &data, "<builtin>", "raw").unwrap();
    let manager = builder.build();
    let cmd = manager.command(&name).unwrap();
    let flags: Vec<bool> = cmd.inputs().iter().map(|i| i.optional()).collect();
    assert_eq!(flags, vec![false, true]);
}

#[test]
fn test_networked_phases_are_normalized() {
    let ctx = root_context();
    let build = ctx.create_build_context(
        "/foo/work",
        "/foo/artifacts",
        "/usr/bin/busybox",
        "/foo/work/XXXX",
        RunEnvironment::Directory("/tmp/bootstrap_dir".to_string()),
        vec![Phases::TestArtifacts, Phases::Install, Phases::Install],
        vec![],
    );
    assert_eq!(build.networked_phases, vec![Phases::Install, Phases::TestArtifacts]);
    assert!(build.wants_network(&Phases::Install));
    assert!(build.wants_network(&Phases::TestArtifacts));
    assert!(!build.wants_network(&Phases::Prepare));

    let plan = create_runner(&build, &Phases::Install, &vec![]).unwrap();
    assert!(plan.enable_network);
    assert!(plan
        .environment
        .contains(&("PHASE_IS_NETWORKED".to_string(), "1".to_string())));
}

#[test]
fn test_printer_headline_and_status_stacks() {
    let mut p = Printer::new(&LogLevel::Info, false);
    let (headline, lines) = p.push_headline("outer", false);
    assert_eq!(headline.message, "outer");
    assert_eq!(lines, vec!["------- outer".to_string()]);
    let (_quiet, lines) = p.push_headline("inner", true);
    assert!(lines.is_empty());
    p.pop_headline();
    p.pop_headline();

    p.push_status("working");
    p.pop_status();
    p.pop_status();
    assert_eq!(p.error_count(), 0);
}

#[test]
fn test_plan_describe_flags() {
    let ctx = root_context();
    let build = ctx.test_system();
    let plan = create_runner(&build, &Phases::BuildArtifacts, &vec![]).unwrap();
    assert_eq!(plan.describe(), "BOOTSTRAP,no net,ARTIFACTS");
}

#[test]
fn test_printer_counts_and_formats() {
    let mut p = Printer::new(&LogLevel::Warn, false);
    assert_eq!(p.error_count(), 0);
    let lines = p.error("boom\ntwice");
    assert_eq!(p.error_count(), 1);
    assert_eq!(lines, vec![" ERROR: boom".to_string(), " ERROR: twice".to_string()]);
    assert!(!p.exit_requested());

    let silent = Printer::new(&LogLevel::Off, false);
    assert!(silent.print_formatted("  X  :", "anything").is_empty());

    let chatty = Printer::new(&LogLevel::Trace, false);
    assert_eq!(chatty.trace("t"), vec!["TRACE : t".to_string()]);
    assert!(p.trace("t").is_empty());
}
