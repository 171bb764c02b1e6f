use dns_ai::autostart::{reconcile, target_exe, value, RunKey};
use dns_ai::config::Settings;
use dns_ai::ipc::{pipe_step, PipeStep, Response, Status};
use dns_ai::logging::{log_line, now, rolls, LocalTime};
use dns_ai::paths::{
    acl_steps, backup_file, data_dir, endpoints_file, in_program_files, is_portable, join_path,
    last_action_file, link_refused, machine_folder, portable_dir, prepare_dir, program_data_dir,
    service_log, settings_file, DirPlan, PreparePhase, Preparing,
};
use dns_ai::report::{new_nonce, ActionReport};
use dns_ai::text::{clip, join, same_ignoring_case, split, trim, wide};

#[test]
fn a_name_joins_a_folder() {
    assert_eq!(join_path(r"C:\a", "b"), r"C:\a\b");
    assert_eq!(join_path("C:\\a\\", "b"), r"C:\a\b");
    assert_eq!(join_path("C:", "b"), "C:b");
    assert_eq!(join_path("", "b"), "b");
}

#[test]
fn the_program_keeps_its_files_beside_itself() {
    let bases = vec![r"C:\Program Files".to_string()];
    assert!(in_program_files(r"c:\PROGRAM files\DNS-AI", &bases));
    assert!(!in_program_files(r"D:\Tools", &bases));
    assert!(in_program_files(r"C:\Program FilesX", &bases));
    assert_eq!(machine_folder(Some("ПК-1 дома")), "ПК-1_дома");
    assert_eq!(machine_folder(None), "this-pc");
    assert_eq!(machine_folder(Some("")), "this-pc");
    assert_eq!(portable_dir(Some(r"D:\Tools"), false, "PC").as_deref(), Some(r"D:\Tools\config\PC"));
    assert!(portable_dir(Some(r"C:\Program Files\DNS-AI"), true, "PC").is_none());
    assert!(portable_dir(None, false, "PC").is_none());
    assert_eq!(program_data_dir(None), r"C:\ProgramData\DNS-AI");
    assert_eq!(data_dir(Some("p".into()), true, "s".into()), "p");
    assert_eq!(data_dir(Some("p".into()), false, "s".into()), "s");
    assert_eq!(data_dir(None, true, "s".into()), "s");
    assert!(is_portable(Some("p"), "p") && !is_portable(Some("p"), "s") && !is_portable(None, "s"));
}

#[test]
fn the_files_have_their_names() {
    assert_eq!(settings_file("d"), r"d\settings.json");
    assert_eq!(backup_file("d"), r"d\dns-backup.json");
    assert_eq!(endpoints_file("d"), r"d\endpoints.json");
    assert_eq!(service_log("d"), r"d\service.log");
    assert_eq!(last_action_file("d"), r"d\last-action.json");
}

#[test]
fn the_shared_folder_is_hardened_and_never_a_link() {
    assert_eq!(prepare_dir(true, true, false), DirPlan::Use { create: true, harden: false });
    assert_eq!(prepare_dir(false, true, true), DirPlan::Refuse);
    assert_eq!(prepare_dir(false, false, true), DirPlan::Use { create: false, harden: true });
    assert_eq!(link_refused("d"), "d is a link rather than a real folder; refusing to use it");
    let steps = acl_steps();
    assert_eq!(steps.len(), 3);
    assert_eq!(steps[0].what, "take ownership");
    assert_eq!(steps[0].args, vec!["/setowner", "*S-1-5-32-544", "/T", "/C"]);
    assert_eq!(steps[2].args.last().unwrap(), "*S-1-5-32-545:(OI)(CI)RX");
}

#[test]
fn the_run_key_follows_the_setting() {
    assert_eq!(value("x"), "\"x\" --tray");
    assert!(matches!(reconcile(true, Some("\"x\" --tray"), "x"), RunKey::Keep));
    match reconcile(true, Some("\"old\" --tray"), "x") {
        RunKey::Write(v) => assert_eq!(v, "\"x\" --tray"),
        other => panic!("{other:?}"),
    }
    assert!(matches!(reconcile(true, None, "x"), RunKey::Write(_)));
    assert!(matches!(reconcile(false, Some("y"), "x"), RunKey::Remove));
    assert!(matches!(reconcile(false, None, "x"), RunKey::Keep));
    assert_eq!(target_exe("i".into(), true, None), Ok("i".into()));
    assert_eq!(target_exe("i".into(), false, Some("r".into())), Ok("r".into()));
    assert_eq!(target_exe("i".into(), false, None), Err("cannot determine our own path".into()));
}

#[test]
fn a_report_answers_its_own_question_alone() {
    let done = ActionReport::from_outcome("install", "n", &Ok(vec!["a".into()]));
    assert!(done.ok && done.error.is_none() && done.lines == vec!["a"]);
    assert!(done.answering("other").is_none());
    let failed = ActionReport::from_outcome("install", "n", &Err("e".into()));
    let own = failed.answering("n").unwrap();
    assert!(!own.ok && own.lines.is_empty() && own.error.as_deref() == Some("e"));
    assert_eq!(new_nonce(0x1a2b, 0xff), "1a2b-ff");
    assert_ne!(new_nonce(1, 0x23), new_nonce(0x12, 3));
}

#[test]
fn a_line_of_the_log() {
    let t = LocalTime { year: 2024, month: 3, day: 5, hour: 7, minute: 8, second: 9, milliseconds: 4 };
    assert_eq!(now(&t), "2024-03-05 07:08:09.004");
    assert_eq!(log_line(&t, "INFO", "stub", "up"), "2024-03-05 07:08:09.004 INFO  stub: up\r\n");
    assert!(!rolls(2 * 1024 * 1024) && rolls(2 * 1024 * 1024 + 1));
}

#[test]
fn responses_carry_the_state() {
    let ok = Response::ok(Status::default());
    assert!(ok.ok && ok.status.is_some());
    let failed = Response::after(Err("e".into()), Status::default());
    assert!(!failed.ok && failed.status.is_some() && failed.error.as_deref() == Some("e"));
    assert!(Response::after(Ok(()), Status::default()).ok);
    let bad = Response::unreadable("at line 1");
    assert_eq!(bad.error.as_deref(), Some("некорректный запрос: at line 1"));
    assert_eq!(Status::default().settings, Settings::default());
}

#[test]
fn a_busy_pipe_is_tried_again() {
    assert_eq!(pipe_step(1, Some(231)), PipeStep::Retry);
    assert_eq!(pipe_step(10, Some(231)), PipeStep::Busy);
    assert_eq!(pipe_step(1, Some(2)), PipeStep::Silent);
    assert_eq!(pipe_step(1, None), PipeStep::Silent);
    assert_eq!(PipeStep::Busy.message(), Some("служба занята"));
    assert_eq!(PipeStep::Silent.message(), Some("служба DNS-AI не отвечает"));
    assert_eq!(PipeStep::Retry.message(), None);
}

#[test]
fn texts_are_cut_joined_and_written_wide() {
    assert_eq!(trim("\u{a0} a b\r\n"), "a b");
    assert!(same_ignoring_case("AbC", "aBc") && !same_ignoring_case("Я", "я"));
    let parts = split("a,b;;c", &vec![',', ';']);
    assert_eq!(parts, vec!["a", "b", "", "c"]);
    assert_eq!(join(&parts, "+"), "a+b++c");
    let mut t = "яяя".to_string();
    clip(&mut t, 5);
    assert_eq!(t, "яя");
    assert_eq!(wide("a😀"), vec![0x61, 0xd83d, 0xde00, 0]);
}

#[test]
fn a_failed_permission_is_warned_of_and_the_next_is_set() {
    let mut p = Preparing::begin("D", false, false, false);
    assert_eq!(p.phase, PreparePhase::Create);
    p.created(Ok(()));
    assert_eq!(p.phase, PreparePhase::Harden);
    assert_eq!(p.step().what, "take ownership");
    assert_eq!(p.hardened(Ok((true, "".into()))), None);
    assert_eq!(p.step().what, "drop planted ACEs");
    assert_eq!(
        p.hardened(Ok((false, "(exit Some(5)): denied".into()))).unwrap(),
        "icacls could not drop planted ACEs on D (exit Some(5)): denied"
    );
    assert_eq!(p.step().what, "apply our DACL");
    assert_eq!(p.hardened(Ok((true, "".into()))), None);
    assert_eq!((p.phase, p.taken), (PreparePhase::Over, 3));
    assert!(p.outcome().is_ok());
}

#[test]
fn a_folder_that_cannot_be_prepared_is_not_used() {
    let link = Preparing::begin("D", false, true, true);
    assert_eq!(
        link.outcome().unwrap_err(),
        "D is a link rather than a real folder; refusing to use it"
    );
    let mut p = Preparing::begin("D", true, false, false);
    p.created(Err("denied".into()));
    assert_eq!(p.outcome().unwrap_err(), "cannot create D: denied");
    let mut p = Preparing::begin("D", false, false, true);
    assert_eq!(p.hardened(Err("absent".into())), None);
    assert_eq!((p.phase, p.taken), (PreparePhase::Over, 0));
    assert_eq!(p.outcome().unwrap_err(), "cannot run icacls: absent");
    let p = Preparing::begin("D", true, true, true);
    assert_eq!((p.phase, p.taken), (PreparePhase::Over, 0));
    assert!(p.outcome().is_ok());
}
