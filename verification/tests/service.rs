use dns_ai::config::Settings;
use dns_ai::dnsmsg::{build_query, summarize, TYPE_A};
use dns_ai::netif::{select_adapters, Adapter, DnsState};
use dns_ai::service::{
    describe_state, doh_question, doh_report, exe_from_launch_command, probe_report, query_installed,
    registered_exe, restart_delays, restores, set_start_type, start_type_change, start_type_for,
    start_type_is_auto,
    stop_for_upgrade, stops_for_removal, stops_for_upgrade, uninstall, wait_for_stop, Control,
    ControlPhase, Controlling, Install, InstallPhase, Installed, Removal, Seen, ServiceState,
    StartChange, StartType, Stopping, Wait,
};

#[test]
fn launch_command_yields_the_executable_not_the_command_line() {
    // What the SCM actually stores for us, spaces and all.
    assert_eq!(
        exe_from_launch_command(r#""C:\Program Files\DNS-AI\dns-ai.exe" service"#),
        r"C:\Program Files\DNS-AI\dns-ai.exe"
    );
    // The unquoted form the SCM allows when nothing needs quoting.
    assert_eq!(
        exe_from_launch_command(r"C:\tools\dns-ai.exe service"),
        r"C:\tools\dns-ai.exe"
    );
    // A bare path, which is what a hand-written registration can look like.
    assert_eq!(
        exe_from_launch_command(r"C:\tools\dns-ai.exe"),
        r"C:\tools\dns-ai.exe"
    );
}

#[test]
fn the_registry_is_read_where_the_manager_is_silent() {
    assert_eq!(registered_exe(Some("a service"), Some("b service")).as_deref(), Some("a"));
    assert_eq!(registered_exe(None, Some("b service")).as_deref(), Some("b"));
    assert!(registered_exe(None, None).is_none());
}

#[test]
fn a_service_that_is_not_registered_is_told_from_one_that_cannot_be_asked_for() {
    assert!(matches!(query_installed(Seen::Closed(Some(1060), "x".into())), Installed::No));
    assert!(matches!(query_installed(Seen::Closed(Some(5), "x".into())), Installed::Unknown(_)));
    assert!(matches!(query_installed(Seen::Fault("x".into())), Installed::Unknown(_)));
    assert!(matches!(query_installed(Seen::State(ServiceState::Stopped)), Installed::Stopped));
    assert!(matches!(query_installed(Seen::State(ServiceState::Running)), Installed::Running));
    assert!(matches!(query_installed(Seen::State(ServiceState::StartPending)), Installed::Other("запускается")));
    assert!(matches!(query_installed(Seen::State(ServiceState::StopPending)), Installed::Other("останавливается")));
    assert!(matches!(query_installed(Seen::State(ServiceState::Paused)), Installed::Other("переходное состояние")));
}

#[test]
fn how_the_service_starts() {
    assert!(start_type_is_auto(Some(StartType::Auto)) && start_type_is_auto(Some(StartType::Boot)));
    assert!(!start_type_is_auto(Some(StartType::OnDemand)) && !start_type_is_auto(None));
    let mut s = Settings::default();
    s.service_autostart = true;
    assert_eq!(start_type_for(&s), StartType::Auto);
    s.service_autostart = false;
    assert_eq!(start_type_for(&s), StartType::OnDemand);
    assert_eq!(restart_delays(), vec![5, 15, 60]);
    assert!(set_start_type(StartChange::Changed).is_ok());
    assert_eq!(
        set_start_type(StartChange::NoManager("e".into())).unwrap_err(),
        "не удалось открыть менеджер служб: e"
    );
    assert_eq!(
        set_start_type(StartChange::NoService("e".into())).unwrap_err(),
        "не удалось открыть службу для изменения настроек запуска: e"
    );
    assert_eq!(
        set_start_type(StartChange::Refused("e".into())).unwrap_err(),
        "не удалось изменить тип запуска службы: e"
    );
}

#[test]
fn a_registration_from_nothing() {
    let mut i = Install::begin(Ok(()), "exe", "log");
    i.opened(Err((Some(1060), "absent".into())));
    assert_eq!(i.phase, InstallPhase::Create);
    i.registered(Ok(()));
    i.described(Ok(()));
    i.recovery_set(Err("no".into()));
    i.queried(Ok(ServiceState::Stopped));
    assert_eq!(i.phase, InstallPhase::Start);
    i.started(Ok(()));
    assert_eq!(
        i.outcome().unwrap(),
        vec![
            "Служба «DNS-AI — защищённый DNS» установлена.",
            "предупреждение: не заданы действия при сбое: no",
            "Служба запущена.",
            "Файл: exe",
            "Журнал: log",
        ]
    );
}

#[test]
fn a_registration_that_was_there_is_renewed() {
    let mut i = Install::begin(Ok(()), "exe", "log");
    i.opened(Ok(()));
    assert_eq!(i.phase, InstallPhase::Change);
    i.registered(Ok(()));
    i.described(Ok(()));
    i.recovery_set(Ok(()));
    i.queried(Ok(ServiceState::Running));
    assert_eq!(
        i.outcome().unwrap(),
        vec!["Регистрация службы обновлена.", "Служба уже работает.", "Файл: exe", "Журнал: log"]
    );
}

#[test]
fn every_step_of_a_registration_can_fail() {
    let begun = Install::begin(Err("denied".into()), "exe", "log");
    assert_eq!(
        begun.outcome().unwrap_err(),
        "не удалось открыть менеджер служб — нужны права администратора: denied"
    );
    let mut i = Install::begin(Ok(()), "exe", "log");
    i.opened(Err((Some(5), "denied".into())));
    assert_eq!(i.outcome().unwrap_err(), "не удалось открыть службу: denied");
    let mut j = Install::begin(Ok(()), "exe", "log");
    j.opened(Err((Some(1060), "absent".into())));
    j.registered(Err("denied".into()));
    assert_eq!(j.outcome().unwrap_err(), "не удалось создать службу: denied");
}

#[test]
fn a_service_has_half_a_minute_to_stop() {
    assert!(matches!(wait_for_stop(0, ServiceState::StopPending), Wait::Again));
    assert!(matches!(wait_for_stop(0, ServiceState::Stopped), Wait::Done));
    assert!(matches!(wait_for_stop(30_000, ServiceState::StopPending), Wait::TimedOut));
}

#[test]
fn a_running_service_is_stopped_before_it_is_replaced_or_removed() {
    assert!(stops_for_upgrade(Some(ServiceState::Running)));
    assert!(!stops_for_upgrade(Some(ServiceState::Stopped)) && !stops_for_upgrade(None));
    assert!(stops_for_removal(&Ok(ServiceState::Running)) && stops_for_removal(&Err("x".into())));
    assert!(!stops_for_removal(&Ok(ServiceState::Stopped)));
    assert_eq!(
        stop_for_upgrade(&Stopping::NotStopped("e".into())),
        vec![
            "Останавливаю прежнюю службу (настройки DNS возвращаются)...",
            "предупреждение: не удалось остановить службу: e",
        ]
    );
}

#[test]
fn a_removal_of_the_service_puts_the_settings_back() {
    let removal = Removal::Tried {
        state: Ok(ServiceState::Running),
        stopping: Some(Stopping::Stopped),
        deleted: Ok(()),
    };
    assert!(restores(&removal, true) && !restores(&removal, false));
    let done = uninstall(&removal, &Some(Ok(vec![])), "path").unwrap();
    assert!(done.record_goes && done.flush);
    assert_eq!(
        done.lines,
        vec![
            "Останавливаю службу (настройки DNS возвращаются)...",
            "Служба удалена.",
            "Найдена резервная копия настроек DNS — восстанавливаю.",
            "Настройки DNS восстановлены.",
        ]
    );
    let done = uninstall(
        &Removal::NotRegistered("absent".into()),
        &Some(Ok(vec!["Wi-Fi".into()])),
        "path",
    )
    .unwrap();
    assert!(!done.record_goes && done.flush);
    assert_eq!(
        done.lines,
        vec![
            "Служба не зарегистрирована (absent); продолжаю.",
            "Найдена резервная копия настроек DNS — восстанавливаю.",
            "ВОССТАНОВЛЕНО НЕ ВСЁ. Резервная копия сохранена:",
            "  - Wi-Fi",
            "  файл: path",
        ]
    );
    let absent = Removal::NotRegistered("x".into());
    let done = uninstall(&absent, &Some(Err("e".into())), "path").unwrap();
    assert!(!done.record_goes && !done.flush);
    assert!(done.lines.len() == 5 && done.lines[2] == "Не удалось восстановить настройки: e");
    let done = uninstall(&absent, &None, "path").unwrap();
    assert!(!done.record_goes && !done.flush && done.lines.len() == 1);
}

#[test]
fn a_closed_service_manager_fails_the_removal_of_the_service() {
    let closed = Removal::NoManager("denied".into());
    assert!(!restores(&closed, true));
    assert_eq!(
        uninstall(&closed, &None, "path").unwrap_err(),
        "не удалось открыть менеджер служб — нужны права администратора: denied"
    );
}

#[test]
fn a_restart_stops_waits_and_starts() {
    let mut c = Controlling::begin(Control::Restart, Ok(()), Ok(()));
    assert_eq!(c.phase, ControlPhase::Query);
    c.queried(Ok(ServiceState::Running));
    assert_eq!(c.phase, ControlPhase::Stop);
    c.told_to_stop(Ok(()));
    assert_eq!(c.phase, ControlPhase::Wait);
    c.waited(Ok(()));
    assert_eq!(c.phase, ControlPhase::Start);
    c.started(Ok(()));
    let lines = c.outcome().unwrap();
    assert_eq!(lines.last().unwrap(), "Служба запущена заново.");
}

#[test]
fn a_start_only_starts() {
    let mut c = Controlling::begin(Control::Start, Ok(()), Ok(()));
    assert_eq!(c.phase, ControlPhase::Start);
    c.started(Err("denied".into()));
    assert_eq!(c.outcome().unwrap_err(), "denied");
}

#[test]
fn settings_in_a_report() {
    assert_eq!(describe_state(&DnsState::Dhcp), "автоматически (DHCP)");
    assert_eq!(describe_state(&DnsState::Static(vec![])), "вручную, пусто");
    assert_eq!(
        describe_state(&DnsState::Static(vec!["1.1.1.1".into(), "8.8.8.8".into()])),
        "вручную: 1.1.1.1, 8.8.8.8"
    );
}

#[test]
fn a_probe_tells_what_would_be_done() {
    let mut other = adapter(2, "Ethernet 2");
    other.gateway_v4 = false;
    let selection = select_adapters(&vec![adapter(1, "Ethernet"), other], false);
    let states = vec![(DnsState::Dhcp, DnsState::Static(vec!["::1".into()]))];
    assert_eq!(
        probe_report(&Settings::default(), &selection, &states, true),
        vec![
            "Настройки: IPv6=true, VPN-адаптеры=false",
            "Резолвер: https://dns.dns-ai.ru/dns-query -> [192.144.59.14, 186.246.49.127]",
            "",
            "Будут настроены (1):",
            "  [1] Ethernet",
            "      Intel",
            "      IPv4: автоматически (DHCP)",
            "      IPv6: вручную: ::1",
            "",
            "Пропущены (1):",
            "  Ethernet 2 — нет шлюза по умолчанию",
            "",
            "Резервная копия: есть",
        ]
    );
}

fn adapter(index: u32, alias: &str) -> Adapter {
    Adapter {
        index,
        ipv6_index: index,
        guid: "{g}".to_string(),
        alias: alias.to_string(),
        description: "Intel".to_string(),
        if_type: 6,
        up: true,
        gateway_v4: true,
        gateway_v6: false,
    }
}

#[test]
fn a_diagnosis_asks_one_question() {
    let q = doh_question("example.com", "a", 0x12_3456).unwrap();
    assert_eq!(q, build_query("example.com", TYPE_A, 0x3456).unwrap());
    assert_eq!(
        doh_question("example.com", "MX", 0).unwrap_err(),
        "неизвестный тип записи «MX» (A, AAAA, CNAME, TXT)"
    );
    assert!(doh_question("a..b", "A", 0).is_err());
}

#[test]
fn a_diagnosis_tells_what_came_back() {
    let mut m = build_query("example.com", TYPE_A, 1).unwrap();
    m[2] = 0x81;
    m[3] = 0x80;
    m[7] = 1;
    m.extend_from_slice(&[0xc0, 0x0c, 0, 1, 0, 1, 0, 0, 0, 60, 0, 4, 93, 184, 216, 34]);
    let (lines, ok) = doh_report("example.com", "A", &Ok((12, m.clone()))).unwrap();
    assert!(ok);
    assert_eq!(lines[0], "Запрос: example.com A -> https://dns.dns-ai.ru/dns-query");
    assert_eq!(lines[3], "Ответ за 12 мс: NOERROR (0), записей: 1");
    assert!(lines[4].contains("93.184.216.34"));
    m[3] = 0x85;
    let (lines, ok) = doh_report("example.com", "A", &Ok((12, m))).unwrap();
    assert!(!ok && lines.iter().any(|l| l.starts_with("REFUSED")));
    let (lines, ok) = doh_report("example.com", "A", &Err("timeout".into())).unwrap();
    assert!(!ok && lines[3] == "НЕ УДАЛОСЬ: timeout");
    let (lines, ok) = doh_report("example.com", "A", &Ok((1, vec![0; 3]))).unwrap();
    let fault = summarize(&[0; 3]).unwrap_err().message();
    assert!(!ok && lines.len() == 4);
    assert_eq!(lines[3], format!("Ответ за 1 мс не удалось разобрать: {fault}"));
}

#[test]
fn a_question_that_cannot_be_asked_is_the_only_error_of_a_diagnosis() {
    let nothing = Err("timeout".to_string());
    assert_eq!(
        doh_report("example.com", "MX", &nothing).unwrap_err(),
        "неизвестный тип записи «MX» (A, AAAA, CNAME, TXT)"
    );
    assert_eq!(
        doh_report("a..b", "A", &nothing).unwrap_err(),
        doh_question("a..b", "A", 0).unwrap_err()
    );
}

#[test]
fn the_start_of_the_service_is_changed_only_where_it_differs() {
    assert_eq!(start_type_change(true, false), Some(true));
    assert_eq!(start_type_change(false, true), Some(false));
    assert_eq!(start_type_change(true, true), None);
    assert_eq!(start_type_change(false, false), None);
}
