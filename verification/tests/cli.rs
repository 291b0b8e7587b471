use postgrest::cli::{
    after_step, check_executable, handle_cli, install_service, manager_error, program_of_query,
    program_of_unit, report_update, restart_service, same_file, service_label, uninstall_service,
    unit_path, updater_enabled, Args, CliAction, Progress, ServiceStep, SERVICE_LABEL,
};
use postgrest::updater::Outcome;
use service_manager::ServiceLabel;

fn args(daemon: bool, disable: bool, update: bool, no_update: bool) -> Args {
    Args { daemon, disable, update, no_update }
}

#[test]
fn options_have_an_order() {
    assert!(matches!(handle_cli(&args(true, true, true, true)), CliAction::Update));
    assert!(matches!(
        handle_cli(&args(true, true, false, true)),
        CliAction::Install { no_update: true }
    ));
    assert!(matches!(
        handle_cli(&args(true, false, false, false)),
        CliAction::Install { no_update: false }
    ));
    assert!(matches!(handle_cli(&args(false, true, false, false)), CliAction::Uninstall));
    assert!(matches!(handle_cli(&args(false, false, false, true)), CliAction::Serve));
    assert!(!updater_enabled(&args(false, false, false, true)));
    assert!(updater_enabled(&args(false, false, false, false)));
}

#[test]
fn the_service_keeps_its_options() {
    let steps = install_service("/bin/p", true, false);
    assert_eq!(steps.len(), 2);
    match &steps[0] {
        ServiceStep::Install { label, program, args, autostart } => {
            assert_eq!(label.application, "postgrest-server");
            assert_eq!(*program, "/bin/p");
            assert_eq!(args, &["--no-update"]);
            assert!(autostart);
        }
        _ => panic!("no installation"),
    }
    match &steps[1] {
        ServiceStep::Start { label } => assert_eq!(label.application, "postgrest-server"),
        _ => panic!("no start"),
    }
    match &install_service("/bin/p", false, false)[0] {
        ServiceStep::Install { args, .. } => assert!(args.is_empty()),
        _ => panic!("no installation"),
    }
}

#[test]
fn windows_is_told_to_restart_the_service() {
    let steps = install_service("p.exe", false, true);
    assert_eq!(steps.len(), 3);
    match &steps[1] {
        ServiceStep::Configure { args } => assert_eq!(
            args,
            &[
                "failure",
                "postgrest-server",
                "reset=",
                "86400",
                "actions=",
                "restart/5000/restart/5000/restart/5000"
            ]
        ),
        _ => panic!("no restart policy"),
    }
    assert!(matches!(steps[2], ServiceStep::Start { .. }));
}

#[test]
fn a_service_is_stopped_before_it_is_removed_or_restarted() {
    let steps: Vec<ServiceStep<()>> = uninstall_service();
    assert_eq!(steps.len(), 2);
    assert!(matches!(steps[0], ServiceStep::StopIfRunning { .. }));
    assert!(matches!(steps[1], ServiceStep::Uninstall { .. }));
    let steps: Vec<ServiceStep<()>> = restart_service();
    assert_eq!(steps.len(), 2);
    assert!(matches!(steps[0], ServiceStep::StopIfRunning { .. }));
    assert!(matches!(steps[1], ServiceStep::Start { .. }));
}

#[test]
fn a_plan_ends_with_its_first_failure() {
    let steps = install_service("/bin/p", false, false);
    assert!(matches!(after_step(&steps, 0, Err("no")), Progress::Finished(Err("no"))));
    assert!(matches!(after_step::<_, ()>(&steps, 0, Ok(())), Progress::Next(1)));
    assert!(matches!(after_step(&steps, 1, Err("no")), Progress::Finished(Err("no"))));
    assert!(matches!(after_step::<_, ()>(&steps, 1, Ok(())), Progress::Finished(Ok(()))));
    let steps: Vec<ServiceStep<()>> = restart_service();
    assert!(matches!(after_step(&steps, 0, Err("not running")), Progress::Next(1)));
    assert!(matches!(after_step(&steps, 1, Err("no")), Progress::Finished(Err("no"))));
}

#[test]
fn the_label_is_all_application() {
    let parts = service_label();
    assert_eq!(parts.qualifier, None);
    assert_eq!(parts.organization, None);
    assert_eq!(parts.application, "postgrest-server");
    let label: ServiceLabel = SERVICE_LABEL.parse().unwrap();
    assert_eq!(label.application, parts.application);
    assert_eq!(manager_error("none"), "Failed to detect a supported service manager: none");
}

#[test]
fn the_unit_names_the_executable() {
    assert_eq!(unit_path(), "/etc/systemd/system/postgrest-server.service");
    let unit = "[Unit]\nDescription=x\n[Service]\nExecStart=/opt/PostgREST --no-update\nExecStart=/no\n";
    assert_eq!(program_of_unit(unit), Some("/opt/PostgREST".to_string()));
    assert_eq!(program_of_unit("ExecStart= \t/a\r\n"), Some("/a".to_string()));
    assert_eq!(program_of_unit("ExecStart=  \nExecStart=/b"), None);
    assert_eq!(program_of_unit(" ExecStart=/a\n"), None);
    assert_eq!(program_of_unit(""), None);
}

#[test]
fn the_service_manager_names_the_executable() {
    let answer = |path: &str| format!("SERVICE\r\n        BINARY_PATH_NAME   : {}\r\n  X : y\r\n", path);
    assert_eq!(
        program_of_query(&answer("\"C:\\Program Files\\p.exe\" --no-update")),
        Some("C:\\Program Files\\p.exe".to_string())
    );
    assert_eq!(
        program_of_query(&answer("C:\\my tools\\p.exe --no-update")),
        Some("C:\\my tools\\p.exe".to_string())
    );
    assert_eq!(program_of_query(&answer("C:\\p.exe")), Some("C:\\p.exe".to_string()));
    assert_eq!(program_of_query("BINARY_PATH_NAME C\n"), None);
    assert_eq!(program_of_query("nothing"), None);
}

#[test]
fn paths_are_compared() {
    let p = |s: &str| Some(s.as_bytes().to_vec());
    assert!(same_file(&p("/a/b"), &p("/a/b"), false));
    assert!(!same_file(&p("/a/b"), &p("/a/B"), false));
    assert!(same_file(&p("C:\\X.exe"), &p("c:\\x.EXE"), true));
    assert!(!same_file(&p("C:\\X"), &p("C:\\XY"), true));
    assert!(!same_file(&None, &None, false));
    assert!(!same_file(&p("/a"), &None, true));
}

#[test]
fn an_update_needs_the_executable_of_the_service() {
    assert_eq!(check_executable(&None, false), Ok(()));
    assert_eq!(check_executable(&Some("/a".to_string()), true), Ok(()));
    assert_eq!(
        check_executable(&Some("/a".to_string()), false),
        Err("the service runs /a; run --update with that executable".to_string())
    );
}

#[test]
fn an_update_is_reported() {
    let r = report_update(Outcome::UpToDate((0, 1, 0)), true);
    assert_eq!(r.line, "Up to date: running v0.1.0, latest release v0.1.0.");
    assert!(!r.restart);
    let r = report_update(Outcome::Installed((0, 2, 0)), true);
    assert_eq!(r.line, "Installed v0.2.0 over v0.1.0.");
    assert!(r.restart);
    assert!(!report_update(Outcome::Installed((0, 2, 0)), false).restart);
}
