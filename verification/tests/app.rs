use dns_ai::app::{
    describe, no_backup, record_may_go, restore_plan, warning_after, App, Enabling, Phase, RestoreStep, Resume, NO_ADAPTER,
};
use dns_ai::backup::{AdapterBackup, DnsBackup};
use dns_ai::config::{Mode, Settings};
use dns_ai::endpoints::Endpoints;
use dns_ai::netif::{Adapter, DnsState, Family};

fn adapter(index: u32, alias: &str) -> Adapter {
    Adapter {
        index,
        ipv6_index: index + 100,
        guid: format!("{{{alias}}}"),
        alias: alias.to_string(),
        description: "Intel".to_string(),
        if_type: 6,
        up: true,
        gateway_v4: true,
        gateway_v6: false,
    }
}

fn settings(mode: Mode) -> Settings {
    let mut s = Settings::default();
    s.mode = mode;
    s
}

#[test]
fn the_local_resolver_runs_before_anything_points_at_it() {
    let mut app = App::new(settings(Mode::Stub));
    let mut m = Enabling::begin(&app.settings, false, 19_045).unwrap();
    assert_eq!(m.phase, Phase::Resolver);
    m.resolver_started(Ok(()));
    assert_eq!(m.phase, Phase::List);
    m.adapters_listed(Ok(vec![adapter(1, "Ethernet"), adapter(2, "Wi-Fi")]));
    assert_eq!(m.phase, Phase::Read);
    let record = m.states_read(
        vec![
            (DnsState::Static(vec!["1.1.1.1".into()]), DnsState::Dhcp),
            (DnsState::Dhcp, DnsState::Dhcp),
        ],
        None,
        &Endpoints::default(),
        5,
    );
    assert_eq!((record.created_unix, record.adapters.len()), (5, 2));
    assert_eq!(m.phase, Phase::Save);
    m.backup_saved(Ok(()));
    for i in 0..2 {
        assert_eq!(m.phase, Phase::SetV4(i));
        m.v4_set(Ok(()));
        assert_eq!(m.phase, Phase::SetV6(i));
        m.v6_set();
    }
    assert_eq!(m.phase, Phase::Flush);
    m.flushed(&mut app);
    assert_eq!(m.phase, Phase::Keep);
    m.kept();
    assert_eq!(m.phase, Phase::Over);
    assert!(m.outcome().is_ok());
    assert!(app.enabled && app.settings.enabled && m.resolver_up);
}

#[test]
fn what_fails_on_the_way_is_undone() {
    let app = App::new(settings(Mode::Stub));
    let mut m = Enabling::begin(&app.settings, true, 19_045).unwrap();
    assert_eq!(m.phase, Phase::List);
    m.adapters_listed(Ok(vec![adapter(1, "Ethernet")]));
    m.states_read(vec![(DnsState::Dhcp, DnsState::Dhcp)], None, &Endpoints::default(), 5);
    m.backup_saved(Ok(()));
    m.v4_set(Err("denied".into()));
    assert_eq!(m.phase, Phase::RollBack);
    m.rolled_back();
    assert_eq!(m.phase, Phase::FlushBack);
    let mut same = App::new(settings(Mode::Stub));
    m.flushed(&mut same);
    assert_eq!(m.phase, Phase::Over);
    assert!(m.undone && m.outcome().is_err());
    assert!(!same.enabled);
}

#[test]
fn nothing_is_written_without_a_record() {
    let mut m = Enabling::begin(&settings(Mode::Stub), true, 19_045).unwrap();
    m.adapters_listed(Ok(vec![adapter(1, "Ethernet")]));
    m.states_read(vec![(DnsState::Dhcp, DnsState::Dhcp)], None, &Endpoints::default(), 5);
    m.backup_saved(Err("disk full".into()));
    assert_eq!(m.phase, Phase::Over);
    assert!(!m.recorded && m.configured == 0);
    assert!(m.outcome().unwrap_err().contains("disk full"));
}

#[test]
fn there_has_to_be_an_adapter() {
    let mut m = Enabling::begin(&settings(Mode::Stub), true, 19_045).unwrap();
    m.adapters_listed(Ok(vec![]));
    assert_eq!(m.outcome().unwrap_err(), NO_ADAPTER);
}

#[test]
fn the_native_mode_needs_windows_11_and_a_template_for_every_server() {
    let early = Enabling::begin(&settings(Mode::Native), false, 19_045).unwrap_err();
    assert_eq!(
        early,
        "этой Windows (сборка 19045) нужен встроенный DoH-клиент, а он появился только в Windows 11. Выберите режим локального резолвера."
    );
    let mut m = Enabling::begin(&settings(Mode::Native), false, 22_000).unwrap();
    assert_eq!(m.server(), "192.144.59.14");
    m.template_found(Some(true));
    assert_eq!(m.server(), "186.246.49.127");
    m.template_found(Some(false));
    assert_eq!(m.phase, Phase::Register);
    m.template_registered(Ok(()));
    assert_eq!(m.server(), "2a0d:8480:0:67c::14");
    m.template_found(None);
    m.template_registered(Err("denied".into()));
    assert_eq!(
        m.outcome().unwrap_err(),
        "не удалось зарегистрировать DoH-шаблон для 2a0d:8480:0:67c::14: denied"
    );
    assert_eq!(m.added, vec!["186.246.49.127"]);
}

#[test]
fn a_registered_template_is_owed_to_the_record() {
    let mut s = settings(Mode::Native);
    s.ipv6 = false;
    let mut app = App::new(s);
    let mut m = Enabling::begin(&s, false, 22_000).unwrap();
    m.template_found(Some(false));
    m.template_registered(Ok(()));
    m.template_found(Some(true));
    m.adapters_listed(Ok(vec![adapter(1, "Ethernet")]));
    let record = m.states_read(vec![(DnsState::Dhcp, DnsState::Dhcp)], None, &Endpoints::default(), 5);
    m.backup_saved(Ok(()));
    m.v4_set(Ok(()));
    m.v6_set();
    m.flushed(&mut app);
    m.kept();
    assert_eq!(m.phase, Phase::Owe);
    let kept = m.owe(Some(record)).unwrap();
    assert_eq!(kept.doh_added, vec!["192.144.59.14"]);
    assert_eq!(m.phase, Phase::Over);
    assert!(m.outcome().is_ok());
}

#[test]
fn a_restoration_takes_every_step() {
    let backup = DnsBackup {
        created_unix: 1,
        adapters: vec![
            AdapterBackup {
                index: 9,
                ipv6_index: 109,
                guid: "{Ethernet}".into(),
                alias: "Ethernet".into(),
                v4: DnsState::Static(vec!["1.1.1.1".into()]),
                v6: DnsState::Dhcp,
            },
            AdapterBackup {
                index: 8,
                ipv6_index: 108,
                guid: "{gone}".into(),
                alias: "USB".into(),
                v4: DnsState::Dhcp,
                v6: DnsState::Dhcp,
            },
        ],
        doh_added: vec!["192.144.59.14".into()],
    };
    let plan = restore_plan(&backup, &vec![adapter(1, "Ethernet")]);
    let applied: Vec<(u32, Family)> = plan
        .iter()
        .filter_map(|s| match s {
            RestoreStep::Apply { alias, index, family, .. } if alias == "Ethernet" => Some((*index, *family)),
            _ => None,
        })
        .collect();
    assert_eq!(applied, vec![(1, Family::V4), (1, Family::V6)]);
    assert!(plan.iter().any(|s| matches!(s, RestoreStep::RemoveTemplate(t) if t == "192.144.59.14")));
    let first = plan.iter().find(|s| matches!(s, RestoreStep::Apply { .. })).unwrap();
    assert_eq!(
        warning_after(first, Some("denied")).as_deref(),
        Some("Ethernet: IPv4 не восстановлен (denied)")
    );
    assert!(warning_after(first, None).is_none());
    let template = RestoreStep::RemoveTemplate("1.1.1.1".into());
    assert_eq!(
        warning_after(&template, Some("denied")).as_deref(),
        Some("DoH-шаблон для 1.1.1.1 не удалён (denied)")
    );
    assert!(no_backup("path").contains("path"));
}

#[test]
fn what_a_start_does() {
    let mut on = settings(Mode::Stub);
    on.enabled = true;
    let app = App::new(on);
    assert_eq!(app.resume(true, true), Resume::Enable);
    assert_eq!(app.resume(false, true), Resume::StartResolver);
    on.mode = Mode::Native;
    assert_eq!(App::new(on).resume(false, true), Resume::MarkEnabled);
    let off = App::new(settings(Mode::Stub));
    assert_eq!(off.resume(true, true), Resume::Restore);
    assert_eq!(off.resume(true, false), Resume::Nothing);
    assert_eq!(off.resume(false, true), Resume::LeaveBackup);
    assert_eq!(off.resume(false, false), Resume::Nothing);
    assert_eq!(off.restore_on_start(true), Resume::Restore);
    let mut resumed = App::new(on);
    resumed.resumed(true);
    assert!(resumed.enabled && resumed.stub_running);
    let mut started = App::new(on);
    started.resolver_started();
    assert!(started.stub_running && !started.enabled);
}

#[test]
fn the_record_goes_only_after_everything_was_put_back() {
    let mut app = App { settings: settings(Mode::Stub), stub_running: true, enabled: true };
    app.settings.enabled = true;
    assert_eq!(app.disable(Ok(vec![])), (true, Ok(())));
    assert!(!app.enabled && !app.stub_running && !app.settings.enabled);
    let mut app = App { settings: settings(Mode::Stub), stub_running: true, enabled: true };
    assert_eq!(app.disable(Ok(vec!["w".into()])), (false, Ok(())));
    let mut app = App { settings: settings(Mode::Stub), stub_running: true, enabled: true };
    assert_eq!(app.disable(Err("e".into())), (false, Err("e".into())));
}

#[test]
fn closing_the_window_changes_nothing_but_the_resolver() {
    let mut app = App { settings: settings(Mode::Stub), stub_running: true, enabled: true };
    app.settings.enabled = true;
    app.release();
    assert!(app.enabled && app.settings.enabled && !app.stub_running);
    assert!(app.on_stop());
    assert!(app.settings.enabled);
}

#[test]
fn only_some_settings_take_a_cycle() {
    let mut app = App { settings: settings(Mode::Stub), stub_running: true, enabled: true };
    app.settings.enabled = true;
    let mut new = app.settings;
    new.autostart_tray = !new.autostart_tray;
    new.enabled = false;
    assert!(!app.needs_cycle(&new));
    app.set_settings(&new);
    assert!(app.settings.enabled, "that is not for the settings to say");
    assert_eq!(app.settings.autostart_tray, new.autostart_tray);
    new.ipv6 = !new.ipv6;
    assert!(app.needs_cycle(&new));
}

#[test]
fn a_status_shows_what_the_adapters_have() {
    let app = App::new(settings(Mode::Stub));
    let s = app.status(
        &vec![adapter(1, "Ethernet")],
        &vec![(DnsState::Static(vec!["1.1.1.1".into(), "8.8.8.8".into()]), DnsState::Dhcp)],
        22_000,
        true,
        "1.0",
    );
    assert_eq!(s.adapters[0].current_v4, "1.1.1.1, 8.8.8.8");
    assert_eq!(s.adapters[0].current_v6, "автоматически (DHCP)");
    assert!(s.native_supported && s.service_autostart);
    assert_eq!(s.service_version, "1.0");
    assert_eq!(describe(&DnsState::Static(vec![])), "вручную, пусто");
}

#[test]
fn a_restoration_with_a_warning_keeps_the_record() {
    assert!(record_may_go(&Ok(vec![])));
    assert!(!record_may_go(&Ok(vec!["Wi-Fi".into()])));
    assert!(!record_may_go(&Err("unreadable".into())));
}
