use dns_ai::config::{Mode, Settings};
use dns_ai::ipc::{AdapterView, Request, Response, Status};
use dns_ai::launch::{launch, report_nonce, Launch, Outcome};
use dns_ai::report::ActionReport;
use dns_ai::service::Installed;
use dns_ai::tray::{
    act_argument, adapter_rows, ask, asks_again, chooses_local, editable, elevated, elevated_args,
    endpoint_rows, first_requests, handed_over, interval, resolver_missing, service_trouble,
    stale_registration, state_word, tells_installed, tooltip, worker_wait, Effect, Errand, ErrandPhase,
    Job, MenuItem,
    Output, Reply, Switch, Tone, Tray, TrayAction, Verb, Work,
};

fn status(enabled: bool) -> Status {
    Status { enabled, ..Default::default() }
}

#[test]
fn the_state_is_asked_for_less_often_while_nobody_looks() {
    assert_eq!((interval(true), interval(false)), (2_000, 20_000));
    assert_eq!((worker_wait(100), worker_wait(2_000)), (500, 2_000));
}

#[test]
fn the_menu_follows_the_state() {
    let mut t = Tray::new(true, true, true);
    assert_eq!(t.refresh_tray(), vec![Effect::Icon(false)]);
    t.answered(Reply::Answered(status(true)), false);
    assert_eq!(t.refresh_tray(), vec![Effect::Icon(true), Effect::Label(TrayAction::Disable)]);
    assert!(t.refresh_tray().is_empty());
    assert_eq!(t.menu(MenuItem::Action), vec![Effect::Send(Job::Ipc(Request::Disable))]);
    assert!(t.busy);
    t.answered(Reply::Unreachable("gone".into()), false);
    assert_eq!(t.tray_action(), TrayAction::Unavailable);
    t.answered(Reply::Installed(Installed::Stopped, None), false);
    assert_eq!(t.tray_action(), TrayAction::Start);
    t.refresh_tray();
    assert_eq!(
        t.menu(MenuItem::Action),
        vec![
            Effect::Send(Job::Elevated(Verb::Start)),
            Effect::Show(true),
            Effect::Send(Job::Ipc(Request::Status)),
        ]
    );
    t.answered(Reply::Installed(Installed::Stopped, Some("x".into())), false);
    assert_eq!(t.tray_action(), TrayAction::Unavailable);
    assert!(!TrayAction::Unavailable.clickable() && TrayAction::Start.clickable());
    assert_eq!(TrayAction::Enable.label(), "Включить защиту");
}

#[test]
fn without_rights_a_click_goes_to_another_copy() {
    let mut t = Tray::new(true, true, false);
    assert!(!t.can_change());
    assert_eq!(t.toggle(), Job::Elevate { enable: true });
    assert_eq!(t.working, Some(Work::Rights));
    assert_eq!(t.menu(MenuItem::Action), vec![Effect::Send(Job::Elevate { enable: true })]);
    let args = vec!["dns-ai".to_string(), act_argument(false).to_string()];
    assert!(matches!(launch(&args), Launch::Window { show: true, act: Some(false) }));
    assert_eq!(first_requests(Some(false)), vec![Request::Status, Request::Disable]);
    assert_eq!(first_requests(Some(true)), vec![Request::Status, Request::Enable]);
    assert_eq!(first_requests(None), vec![Request::Status]);
}

#[test]
fn a_service_needs_no_rights_of_the_window() {
    let mut t = Tray::new(true, false, false);
    assert_eq!(t.toggle(), Job::Ipc(Request::Enable));
    t.answered(Reply::Answered(status(true)), true);
    assert_eq!(t.toggle(), Job::Ipc(Request::Disable));
}

#[test]
fn the_window_hides_until_the_program_is_to_end() {
    let mut t = Tray::new(true, true, true);
    assert_eq!(t.close_requested(), vec![Effect::CancelClose, Effect::Show(false)]);
    assert!(!t.visible);
    assert_eq!(t.menu(MenuItem::Open), vec![Effect::Show(true), Effect::Send(Job::Ipc(Request::Status))]);
    assert_eq!(t.menu(MenuItem::Quit), vec![Effect::Close]);
    assert!(t.close_requested().is_empty());
}

#[test]
fn a_failed_command_stays_on_screen() {
    let mut t = Tray::new(true, true, true);
    t.answered(Reply::Failed("netsh".into(), Some(status(true))), false);
    assert!(t.enabled());
    t.answered(Reply::Answered(status(false)), false);
    assert_eq!(t.error.as_deref(), Some("netsh"));
    t.send(Request::Enable);
    assert!(t.error.is_none());
}

#[test]
fn the_run_key_is_brought_into_agreement_once() {
    let mut t = Tray::new(true, true, true);
    let s = status(false);
    assert_eq!(t.to_reconcile(&s), Some(s.settings.autostart_tray));
    t.answered(Reply::Answered(status(false)), true);
    assert_eq!(t.to_reconcile(&s), None);
    t.answered(Reply::Backend(false), false);
    assert_eq!(t.to_reconcile(&s), Some(true));
    assert!(!t.local);
}

#[test]
fn a_handover_closes_the_window() {
    let mut t = Tray::new(true, true, false);
    assert!(t.answered(Reply::HandedOver, false));
    assert!(t.quitting);
}

#[test]
fn one_mode_is_always_on() {
    let mut t = Tray::new(true, true, true);
    let s = status(false);
    assert!(t.choose_mode(&s, Mode::Stub).is_none());
    match t.choose_mode(&s, Mode::Native) {
        Some(Job::Ipc(Request::SetSettings { settings })) => assert_eq!(settings.mode, Mode::Native),
        other => panic!("{other:?}"),
    }
    assert_eq!(t.shown_mode(&s), Mode::Native);
    assert!(t.choose_mode(&s, Mode::Native).is_none());
    let mut done = status(false);
    done.settings.mode = Mode::Native;
    t.answered(Reply::Answered(done), false);
    assert!(t.pending_mode.is_none());
}

#[test]
fn a_switch_leaves_the_others_alone() {
    let mut t = Tray::new(true, false, false);
    t.answered(Reply::Answered(status(false)), false);
    let mut s = status(false);
    s.service_autostart = true;
    s.settings.service_autostart = false;
    assert!(editable(&s).service_autostart);
    let expect = Settings { ipv6: !s.settings.ipv6, service_autostart: true, ..s.settings };
    assert_eq!(t.flip(&s, Switch::Ipv6), Job::Ipc(Request::SetSettings { settings: expect }));
    let expect = Settings { service_autostart: false, ..s.settings };
    assert_eq!(t.flip(&s, Switch::ServiceAutostart), Job::Ipc(Request::SetSettings { settings: expect }));
    assert_eq!(t.switch_live(&s, Switch::Ipv6), Some(false), "busy");
}

#[test]
fn switches_that_reach_the_machine_need_rights_while_protection_is_on() {
    let mut t = Tray::new(true, true, false);
    t.answered(Reply::Answered(status(true)), false);
    assert_eq!(t.switch_live(&status(true), Switch::Ipv6), Some(false));
    assert_eq!(t.switch_live(&status(false), Switch::VpnAdapters), Some(true));
    assert_eq!(t.switch_live(&status(true), Switch::TrayAutostart), Some(true));
    assert_eq!(t.switch_live(&status(true), Switch::ServiceAutostart), None);
    assert!(!t.live(&status(true)) && t.live(&status(false)));
    let modern = Status { native_supported: true, ..status(false) };
    assert!(t.mode_live(&modern, Mode::Native) && t.mode_live(&modern, Mode::Stub));
    assert!(!t.mode_live(&status(false), Mode::Native) && t.mode_live(&status(false), Mode::Stub));
    let guarded = Status { native_supported: true, ..status(true) };
    assert!(!t.mode_live(&guarded, Mode::Native) && !t.mode_live(&guarded, Mode::Stub));
    assert_eq!(t.service_offer(), Verb::Install);
}

#[test]
fn what_the_window_says() {
    assert_eq!(tooltip(true), "DNS-AI — защита включена");
    assert_eq!(tooltip(false), "DNS-AI — защита выключена");
    assert_eq!(state_word(true, true), ("нет службы", Tone::Danger));
    assert_eq!(state_word(false, true), ("включено", Tone::Good));
    assert_eq!(state_word(false, false), ("выключено", Tone::Quiet));
    assert_eq!(Verb::Uninstall.title(), "Удаление службы");
    assert_eq!(Work::Service(Verb::Restart).title(), "Перезапуск");
    let mut s = status(true);
    assert!(resolver_missing(&s));
    s.stub_running = true;
    assert!(!resolver_missing(&s));
}

#[test]
fn what_may_help_with_a_service_that_is_silent() {
    let stopped = service_trouble(None, Some(&Installed::Stopped));
    assert_eq!((stopped.headline.as_str(), stopped.remedy), ("Служба остановлена", Some(Verb::Start)));
    let silent = service_trouble(None, Some(&Installed::Running));
    assert_eq!(silent.remedy, Some(Verb::Restart));
    let moving = service_trouble(None, Some(&Installed::Other("запускается")));
    assert_eq!((moving.headline.as_str(), moving.remedy), ("Служба запускается", None));
    let unknown = service_trouble(None, Some(&Installed::Unknown("e".into())));
    assert_eq!(unknown.hint, "e");
    let missing = "C:\\gone.exe".to_string();
    let stale = service_trouble(Some(&missing), Some(&Installed::Running));
    assert_eq!(stale.headline, "Служба указывает на исчезнувший файл");
    assert!(stale.hint.starts_with("Зарегистрировано: C:\\gone.exe\n"));
    assert_eq!(service_trouble(None, None).headline, "Проверяю службу…");
}

#[test]
fn rows_that_can_be_copied() {
    let mut s = status(true);
    s.adapters = vec![AdapterView {
        alias: "Ethernet".into(),
        index: 1,
        current_v4: "127.0.0.1".into(),
        current_v6: "::1".into(),
    }];
    let rows: Vec<(String, String)> = adapter_rows(&s).into_iter().map(|r| (r.key, r.value)).collect();
    assert_eq!(rows, vec![("Ethernet".into(), "127.0.0.1".into()), ("IPv6".into(), "::1".into())]);
    s.settings.ipv6 = false;
    assert_eq!(adapter_rows(&s).len(), 1);
    let all = endpoint_rows();
    assert_eq!(all.len(), 6);
    assert_eq!((all[0].key.as_str(), all[0].value.as_str()), ("IPv4", "192.144.59.14"));
    assert_eq!((all[3].key.as_str(), all[3].value.as_str()), ("IPv6", "2a0a:2b41:0:500d::53"));
    assert_eq!(all[4].value, "https://dns.dns-ai.ru/dns-query");
    assert_eq!(all[5].value, "dns.dns-ai.ru");
}

#[test]
fn answers_and_silence() {
    assert!(matches!(ask(Ok(Response::ok(status(true)))), Reply::Answered(_)));
    match ask(Ok(Response { ok: true, error: None, status: None })) {
        Reply::Failed(e, None) => assert_eq!(e, "ответ без состояния"),
        other => panic!("{other:?}"),
    }
    match ask(Ok(Response { ok: false, error: None, status: None })) {
        Reply::Failed(e, None) => assert_eq!(e, "неизвестная ошибка"),
        other => panic!("{other:?}"),
    }
    assert!(matches!(ask(Ok(Response::err("e".into()))), Reply::Failed(_, None)));
    let silent = ask(Err("pipe".into()));
    assert!(asks_again(&silent, 9) && !asks_again(&silent, 10));
    assert!(!asks_again(&Reply::HandedOver, 0));
    assert!(tells_installed(&vec![Reply::Backend(true), silent]));
    assert!(!tells_installed(&vec![Reply::Backend(true)]));
    assert!(chooses_local(&Installed::No) && !chooses_local(&Installed::Stopped));
    assert_eq!(stale_registration(Some("x".into()), false).as_deref(), Some("x"));
    assert!(stale_registration(Some("x".into()), true).is_none());
}

fn lines(r: Reply) -> (bool, Vec<String>) {
    match r {
        Reply::Output(Output { ok, lines, .. }) => (ok, lines),
        other => panic!("{other:?}"),
    }
}

#[test]
fn a_copy_that_does_not_start_leaves_this_one() {
    assert!(matches!(handed_over(Ok(Outcome::Exited(0))), Reply::HandedOver));
    assert_eq!(
        lines(handed_over(Ok(Outcome::Declined))),
        (false, vec!["Отменено. Без них программа не может менять настройки DNS.".to_string()])
    );
    assert_eq!(lines(handed_over(Err("e".into()))), (false, vec!["e".to_string()]));
}

#[test]
fn what_a_verb_left_behind() {
    let args = elevated_args(Verb::Install, "1-2");
    assert_eq!(args, vec!["install", "--report", "1-2"]);
    let mut full = vec!["dns-ai".to_string()];
    full.extend(args);
    assert_eq!(report_nonce(&full).as_deref(), Some("1-2"));

    let report = ActionReport::from_outcome("install", "1-2", &Err("denied".into()));
    let out = elevated(Verb::Install, Ok(Outcome::Exited(1)), Some(report), "log");
    assert_eq!((out.title.as_str(), out.ok, out.lines), ("Установка службы", false, vec!["denied".to_string()]));
    let out = elevated(Verb::Install, Ok(Outcome::Exited(0)), None, "log");
    assert!(out.ok);
    assert_eq!(
        out.lines,
        vec!["Процесс завершился с кодом 0, но отчёт не записан.", "Журнал: log"]
    );
    let out = elevated(Verb::Install, Ok(Outcome::Declined), None, "log");
    assert_eq!(out.lines, vec!["Отменено. Без прав администратора службой управлять нельзя."]);
    let out = elevated(Verb::Install, Err("e".into()), None, "log");
    assert_eq!((out.ok, out.lines), (false, vec!["e".to_string()]));
}

#[test]
fn an_errand_asks_and_looks_only_where_nobody_answers() {
    let mut e = Errand::begin(Job::Ipc(Request::Enable));
    assert_eq!((e.phase, e.request()), (ErrandPhase::Ask, Request::Enable));
    e.answered(Ok(Response::ok(status(true))));
    assert_eq!(e.phase, ErrandPhase::Over);
    assert!(matches!(e.replies[..], [Reply::Answered(_)]));

    let mut e = Errand::begin(Job::Ipc(Request::Status));
    e.answered(Err("молчит".into()));
    assert_eq!(e.phase, ErrandPhase::Look);
    e.looked(Installed::Stopped, Some("C:\\x.exe".into()), false);
    assert_eq!(e.phase, ErrandPhase::Over);
    match &e.replies[..] {
        [Reply::Unreachable(why), Reply::Installed(Installed::Stopped, Some(file))] => {
            assert_eq!((why.as_str(), file.as_str()), ("молчит", "C:\\x.exe"));
        }
        other => panic!("{other:?}"),
    }
}

#[test]
fn a_claim_is_given_up_first_and_taken_back_where_nothing_started() {
    let mut e = Errand::begin(Job::Elevate { enable: true });
    assert_eq!(e.phase, ErrandPhase::Release);
    e.released();
    assert_eq!(e.phase, ErrandPhase::Start);
    e.started(Ok(Outcome::Declined));
    assert_eq!(e.phase, ErrandPhase::Claim);
    e.claimed();
    assert_eq!(e.phase, ErrandPhase::Over);
    assert!(matches!(e.replies[..], [Reply::Output(_)]));

    let mut e = Errand::begin(Job::Elevate { enable: false });
    e.released();
    e.started(Ok(Outcome::Exited(0)));
    assert_eq!(e.phase, ErrandPhase::Over);
    assert!(matches!(e.replies[..], [Reply::HandedOver]));
}

#[test]
fn a_service_that_was_just_started_gets_time_to_answer() {
    let mut e = Errand::begin(Job::Elevated(Verb::Install));
    assert_eq!(e.phase, ErrandPhase::Shutdown);
    e.shut_down();
    e.ran(Ok(Outcome::Exited(0)), None, "C:\\log");
    e.chosen(false);
    assert_eq!(e.request(), Request::Status);
    for n in 1..=10 {
        e.answered(Err("молчит".into()));
        assert_eq!((e.phase, e.attempts), (ErrandPhase::Pause, n));
        e.paused();
    }
    e.answered(Err("молчит".into()));
    assert_eq!(e.phase, ErrandPhase::Look);
    e.looked(Installed::Running, Some("C:\\x.exe".into()), true);
    assert!(matches!(
        e.replies[..],
        [
            Reply::Output(_),
            Reply::Backend(false),
            Reply::Unreachable(_),
            Reply::Installed(Installed::Running, None)
        ]
    ));
}
