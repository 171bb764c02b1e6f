use dns_ai::launch::{
    after_removal, is_quiet, launch, opening, parameters, removal_box, remove_args, report_nonce,
    run_self, run_self_detached, AfterRemoval, Launch, Opening, Outcome, RemovalPhase, Removing, Run,
    USAGE,
};
use dns_ai::service::Control;
use dns_ai::text::split;

fn args(list: &[&str]) -> Vec<String> {
    list.iter().map(|s| s.to_string()).collect()
}

#[test]
fn a_double_click_shows_the_window_and_a_logon_does_not() {
    assert!(matches!(launch(&args(&["dns-ai"])), Launch::Window { show: true, act: None }));
    assert!(matches!(launch(&args(&[])), Launch::Window { show: true, act: None }));
    assert!(matches!(launch(&args(&["dns-ai", "--tray"])), Launch::Window { show: false, act: None }));
    assert!(matches!(launch(&args(&["dns-ai", "--enable"])), Launch::Window { show: true, act: Some(true) }));
    assert!(matches!(launch(&args(&["dns-ai", "--disable"])), Launch::Window { show: true, act: Some(false) }));
}

#[test]
fn every_verb_is_known() {
    assert!(matches!(launch(&args(&["x", "service"])), Launch::Service));
    assert!(matches!(launch(&args(&["x", "setup"])), Launch::Setup));
    assert!(matches!(launch(&args(&["x", "remove", "--quiet"])), Launch::Remove));
    assert!(matches!(launch(&args(&["x", "install"])), Launch::Install));
    assert!(matches!(launch(&args(&["x", "uninstall"])), Launch::Uninstall));
    assert!(matches!(launch(&args(&["x", "start"])), Launch::Control(Control::Start)));
    assert!(matches!(launch(&args(&["x", "stop"])), Launch::Control(Control::Stop)));
    assert!(matches!(launch(&args(&["x", "restart"])), Launch::Control(Control::Restart)));
    assert!(matches!(launch(&args(&["x", "run-console"])), Launch::RunConsole));
    assert!(matches!(launch(&args(&["x", "probe"])), Launch::Probe));
    for help in ["-h", "--help", "help"] {
        assert!(matches!(launch(&args(&["x", help])), Launch::Help));
    }
    match launch(&args(&["x", "instal"])) {
        Launch::Unknown(other) => assert_eq!(other, "instal"),
        other => panic!("{other:?}"),
    }
    assert!(USAGE.starts_with("DNS-AI — защищённый DNS для Windows\n\n"));
}

#[test]
fn a_diagnosis_has_a_name_and_a_type_of_its_own() {
    match launch(&args(&["x", "test-doh"])) {
        Launch::TestDoh { name, qtype } => assert_eq!((name.as_str(), qtype.as_str()), ("proto.dns-ai.ru", "TXT")),
        other => panic!("{other:?}"),
    }
    match launch(&args(&["x", "test-doh", "example.com", "A"])) {
        Launch::TestDoh { name, qtype } => assert_eq!((name.as_str(), qtype.as_str()), ("example.com", "A")),
        other => panic!("{other:?}"),
    }
}

#[test]
fn a_second_window_raises_the_first() {
    assert_eq!(opening(true, false, true), Opening::Open);
    assert_eq!(opening(true, true, false), Opening::Open);
    assert_eq!(opening(true, false, false), Opening::Signal);
    assert_eq!(opening(false, false, false), Opening::Silence);
}

#[test]
fn the_value_of_the_report_stands_behind_its_switch() {
    assert_eq!(report_nonce(&args(&["x", "install", "--report", "ab-12"])).as_deref(), Some("ab-12"));
    assert_eq!(report_nonce(&args(&["x", "install", "--report"])), None);
    assert_eq!(report_nonce(&args(&["x", "install"])), None);
    assert_eq!(report_nonce(&args(&["x", "--report", "a", "--report", "b"])).as_deref(), Some("a"));
}

#[test]
fn a_removal_passes_on_that_it_is_quiet_and_nothing_else() {
    assert!(is_quiet(&args(&["x", "remove", "--quiet"])) && !is_quiet(&args(&["x", "remove"])));
    assert_eq!(remove_args(true), vec!["remove", "--quiet"]);
    assert_eq!(remove_args(false), vec!["remove"]);
    assert_eq!(after_removal(Outcome::Declined), AfterRemoval::Cancelled);
    assert_eq!(after_removal(Outcome::Exited(0)), AfterRemoval::ForgetAutostart);
    assert_eq!(after_removal(Outcome::Exited(7)), AfterRemoval::Exit(7));
}

#[test]
fn a_removal_that_nobody_watches_shows_a_box() {
    let done = Ok(args(&["a", "b"]));
    let failed = Err("denied".to_string());
    assert_eq!(removal_box(&done, false, false, false).as_deref(), Some("a\nb"));
    assert_eq!(
        removal_box(&failed, false, false, false).as_deref(),
        Some("Не удалось удалить DNS-AI.\n\ndenied")
    );
    assert!(removal_box(&done, true, false, false).is_none());
    assert!(removal_box(&done, false, true, false).is_none());
    assert!(removal_box(&done, false, false, true).is_none());
}

#[test]
fn arguments_without_spaces_arrive() {
    let sent = args(&["install", "--report", "1a2b-3c"]);
    assert_eq!(parameters(&sent), "install --report 1a2b-3c");
    assert_eq!(split(&parameters(&sent), &vec![' ']), sent);
}

#[test]
fn a_refusal_is_no_failure() {
    assert_eq!(run_self(Run::NotStarted(1223)), Ok(Outcome::Declined));
    assert_eq!(
        run_self(Run::NotStarted(5)).unwrap_err(),
        "не удалось запустить с правами администратора (код 5)"
    );
    assert_eq!(
        run_self(Run::NoProcess).unwrap_err(),
        "Windows не вернула дескриптор запущенного процесса"
    );
    assert_eq!(run_self(Run::TimedOut).unwrap_err(), "операция не завершилась за 180 с");
    assert_eq!(run_self(Run::NoCode).unwrap_err(), "не удалось прочитать код завершения");
    assert_eq!(run_self(Run::Ended(3)), Ok(Outcome::Exited(3)));
    assert_eq!(run_self_detached(None), Ok(Outcome::Exited(0)));
    assert_eq!(run_self_detached(Some(1223)), Ok(Outcome::Declined));
    assert!(run_self_detached(Some(2)).is_err());
}

#[test]
fn a_removal_without_rights_asks_for_them_and_cleans_up_after() {
    let mut r = Removing::begin(&args(&["dns-ai", "remove", "--quiet"]), false, false);
    assert_eq!((r.phase, r.quiet), (RemovalPhase::Elevate, true));
    r.elevated(Ok(Outcome::Exited(0)));
    assert_eq!(r.phase, RemovalPhase::Forget);
    r.forgotten();
    assert_eq!(r.phase, RemovalPhase::Over);

    let mut r = Removing::begin(&args(&["dns-ai", "remove"]), false, false);
    r.elevated(Ok(Outcome::Declined));
    assert_eq!((r.phase, r.after), (RemovalPhase::Over, Some(AfterRemoval::Cancelled)));

    let mut r = Removing::begin(&args(&["dns-ai", "remove"]), false, false);
    r.elevated(Ok(Outcome::Exited(7)));
    assert_eq!((r.phase, r.after), (RemovalPhase::Over, Some(AfterRemoval::Exit(7))));

    let mut r = Removing::begin(&args(&["dns-ai", "remove"]), false, false);
    r.elevated(Err("нет".to_string()));
    assert_eq!((r.phase, r.outcome), (RemovalPhase::Over, Some(Err("нет".to_string()))));
}

#[test]
fn the_report_is_there_before_its_folder_goes() {
    let mut r = Removing::begin(&args(&["dns-ai", "remove", "--report", "ab"]), false, true);
    assert_eq!((r.phase, r.nonce.as_deref()), (RemovalPhase::Remove, Some("ab")));
    r.removed(Ok(args(&["DNS-AI удалён."])));
    assert_eq!((r.phase, r.text.is_none()), (RemovalPhase::Report, true));
    r.reported();
    assert_eq!(r.phase, RemovalPhase::Schedule);
    r.scheduled();
    assert_eq!(r.phase, RemovalPhase::Over);
}

#[test]
fn a_removal_that_failed_keeps_the_data() {
    let mut r = Removing::begin(&args(&["dns-ai", "remove"]), false, true);
    r.removed(Err("занято".to_string()));
    assert_eq!(r.phase, RemovalPhase::Tell);
    assert_eq!(r.text.as_deref(), Some("Не удалось удалить DNS-AI.\n\nзанято"));
    r.told();
    assert_eq!(r.phase, RemovalPhase::Over);

    let mut r = Removing::begin(&args(&["dns-ai", "remove"]), true, true);
    r.removed(Ok(args(&["DNS-AI удалён."])));
    assert_eq!((r.phase, r.text.is_none()), (RemovalPhase::Schedule, true));
}
