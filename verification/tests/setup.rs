use dns_ai::setup::{
    aside_path, aside_step, check, claim_instance, com_fault, delete_now_or_at_reboot, install_dir, install_exe,
    placement, queued, release_instance, remove_arp_entry, remove_data_files, remove_program,
    remove_program_files, remove_shortcut, same_file, schedule_data_dir_removal, shortcut_path, sweeps,
    write_arp_entry, write_shortcut, ArpData, AsideStep, Clearing, ClearingPhase, DataPlan, Emptying,
    EmptyingPhase, Gone, Instance, PlacePhase, Placed, Placement, Placing, Setup, SetupPhase, EXE,
    FOLDER,
};

#[test]
fn same_file_ignores_case_when_neither_path_exists() {
    assert!(same_file(
        r"C:\Program Files\DNS-AI\dns-ai.exe",
        r"c:\program files\dns-ai\DNS-AI.EXE",
        None,
        None
    ));
    assert!(!same_file(
        r"C:\Program Files\DNS-AI\dns-ai.exe",
        r"C:\Users\someone\Downloads\dns-ai.exe",
        None,
        None
    ));
}

#[test]
fn what_two_paths_resolve_to_decides() {
    assert!(same_file("a", "b", Some(r"\\?\C:\x"), Some(r"\\?\C:\x")));
    assert!(!same_file("a", "a", Some(r"\\?\C:\x"), Some(r"\\?\C:\y")));
    assert!(same_file("a", "A", Some(r"\\?\C:\x"), None));
}

#[test]
fn the_install_location_is_below_program_files() {
    assert_eq!(install_dir(Some(r"D:\Programs")), r"D:\Programs\DNS-AI");
    assert_eq!(install_dir(None), r"C:\Program Files\DNS-AI");
    assert!(install_dir(None).ends_with(FOLDER));
    assert_eq!(install_exe(None), r"C:\Program Files\DNS-AI\dns-ai.exe");
    assert!(install_exe(None).ends_with(EXE));
    assert_eq!(shortcut_path(r"C:\Menu"), r"C:\Menu\DNS-AI.lnk");
}

#[test]
fn a_copy_is_told_from_the_installed_one() {
    assert_eq!(placement("x".into(), true, true), Placement::Installed);
    assert_eq!(placement("x".into(), false, true), Placement::Elsewhere { installed: "x".into() });
    assert_eq!(placement("x".into(), false, false), Placement::NotInstalled);
}

#[test]
fn the_aside_name_is_numbered_from_the_second_on() {
    assert_eq!(aside_path(r"C:\d", 0).unwrap(), r"C:\d\dns-ai.exe.old");
    assert_eq!(aside_path(r"C:\d", 1).unwrap(), r"C:\d\dns-ai.exe.old1");
    assert_eq!(aside_path(r"C:\d", 9).unwrap(), r"C:\d\dns-ai.exe.old9");
    assert!(aside_path(r"C:\d", 10).is_none());
}

#[test]
fn the_installed_copy_is_left_alone() {
    let p = Placing::begin(r"C:\d", true);
    assert_eq!(p.phase, PlacePhase::Over);
    let placed = p.outcome().unwrap();
    assert_eq!((placed.exe.as_str(), placed.copied), (r"C:\d\dns-ai.exe", false));
}

#[test]
fn an_upgrade_moves_the_old_file_aside_and_deletes_it_last() {
    let mut p = Placing::begin(r"C:\d", false);
    p.folder_made(Ok(true));
    assert_eq!(p.phase, PlacePhase::Name);
    p.named(Some(r"C:\d\dns-ai.exe.old".into()));
    assert_eq!(p.phase, PlacePhase::Rename);
    p.renamed(Ok(()));
    assert_eq!(p.phase, PlacePhase::Copy);
    p.copied(Ok(()));
    assert_eq!(p.phase, PlacePhase::Discard);
    p.discarded(false);
    let placed = p.outcome().unwrap();
    assert!(placed.copied);
    assert_eq!(
        placed.warnings,
        vec![r"предыдущая версия ещё выполняется и исчезнет после перезагрузки: C:\d\dns-ai.exe.old"]
    );
}

#[test]
fn a_copy_that_fails_puts_the_old_file_back() {
    let mut p = Placing::begin(r"C:\d", false);
    p.folder_made(Ok(true));
    p.named(Some("aside".into()));
    p.renamed(Ok(()));
    p.copied(Err("denied".into()));
    assert_eq!(p.phase, PlacePhase::PutBack);
    p.put_back(true);
    assert!(p.aside.is_none());
    assert_eq!(
        p.outcome().unwrap_err(),
        r"не удалось скопировать программу в C:\d\dns-ai.exe (файл занят?): denied"
    );
}

#[test]
fn a_file_that_cannot_be_put_back_is_named() {
    let mut p = Placing::begin(r"C:\d", false);
    p.folder_made(Ok(true));
    p.named(Some("aside".into()));
    p.renamed(Ok(()));
    p.copied(Err("denied".into()));
    p.put_back(false);
    assert_eq!(p.warnings, vec!["прежняя версия осталась под именем aside"]);
}

#[test]
fn a_file_that_cannot_make_room_is_copied_over() {
    let mut p = Placing::begin(r"C:\d", false);
    p.folder_made(Ok(true));
    p.named(None);
    assert_eq!(p.phase, PlacePhase::Copy);
    p.copied(Ok(()));
    assert_eq!(p.outcome().unwrap().warnings, vec!["не нашлось свободного имени для прежнего файла"]);

    let mut q = Placing::begin(r"C:\d", false);
    q.folder_made(Ok(true));
    q.named(Some("aside".into()));
    q.renamed(Err("busy".into()));
    q.copied(Ok(()));
    assert_eq!(q.outcome().unwrap().warnings, vec!["не удалось отодвинуть прежний файл: busy"]);
}

#[test]
fn without_a_folder_nothing_is_placed() {
    let mut p = Placing::begin(r"C:\d", false);
    p.folder_made(Err("denied".into()));
    assert_eq!(p.outcome().unwrap_err(), r"не удалось создать C:\d: denied");
}

#[test]
fn com_results_are_written_with_eight_digits() {
    assert_eq!(com_fault("x", -2147467259), "x (COM 0x80004005)");
    assert_eq!(com_fault("x", 1), "x (COM 0x00000001)");
    assert!(check("SetPath", 1).is_ok());
    assert_eq!(check("SetPath", -2147024891).unwrap_err(), "SetPath не удался (COM 0x80070005)");
}

#[test]
fn the_shortcut_shows_the_window() {
    let s = write_shortcut(Ok(r"C:\Menu".into()), r"C:\d\dns-ai.exe").unwrap();
    assert_eq!(s.path, r"C:\Menu\DNS-AI.lnk");
    assert_eq!(s.target, r"C:\d\dns-ai.exe");
    assert_eq!(s.description, "DNS-AI — защищённый DNS");
    assert_eq!(write_shortcut(Err("no menu".into()), "x").unwrap_err(), "no menu");
}

#[test]
fn the_row_in_the_list_of_programs() {
    let row = write_arp_entry(r"C:\d\dns-ai.exe", r"C:\d", "1.2.3", Some(10 * 1024 + 1));
    let text = |name: &str| match &row.iter().find(|v| v.name == name).unwrap().data {
        ArpData::Text(t) => t.clone(),
        ArpData::Number(n) => format!("{n}"),
    };
    assert_eq!(row.len(), 12);
    assert_eq!(text("DisplayVersion"), "1.2.3");
    assert_eq!(text("InstallLocation"), r"C:\d");
    assert_eq!(text("DisplayIcon"), r"C:\d\dns-ai.exe,0");
    assert_eq!(text("UninstallString"), r#""C:\d\dns-ai.exe" remove"#);
    assert_eq!(text("QuietUninstallString"), r#""C:\d\dns-ai.exe" remove --quiet"#);
    assert_eq!(text("NoModify"), "1");
    assert_eq!(text("EstimatedSize"), "10");
    assert_eq!(write_arp_entry("x", "y", "z", None).len(), 11);
}

#[test]
fn what_was_not_there_counts_as_removed() {
    assert!(remove_arp_entry(Gone::Removed).is_ok() && remove_arp_entry(Gone::Absent).is_ok());
    assert_eq!(
        remove_arp_entry(Gone::Failed("denied".into())).unwrap_err(),
        "не удалось удалить запись из списка программ: denied"
    );
    assert!(remove_shortcut("x", Gone::Absent).is_ok());
    assert_eq!(
        remove_shortcut(r"C:\x.lnk", Gone::Failed("denied".into())).unwrap_err(),
        r"не удалось удалить C:\x.lnk: denied"
    );
    assert!(delete_now_or_at_reboot(false, false) && delete_now_or_at_reboot(true, true));
    assert!(!delete_now_or_at_reboot(true, false));
}

#[test]
fn a_busy_file_is_queued_under_the_name_it_was_moved_to() {
    assert_eq!(queued("p".into(), Some("a".into()), true), "a");
    assert_eq!(queued("p".into(), Some("a".into()), false), "p");
    assert_eq!(queued("p".into(), None, false), "p");
}

#[test]
fn what_is_said_of_the_programs_files() {
    assert!(remove_program_files(false, 0, true).is_empty());
    assert_eq!(remove_program_files(true, 0, true), vec!["Файлы программы удалены."]);
    let later = vec!["Файл программы сейчас выполняется — он исчезнет после перезагрузки."];
    assert_eq!(remove_program_files(true, 1, true), later);
    assert_eq!(remove_program_files(true, 0, false), later);
}

#[test]
fn a_removal_keeps_the_record_and_never_follows_a_link() {
    match remove_data_files("D", true, Some(false), true) {
        DataPlan::Leave(Some(t)) => {
            assert_eq!(t, "Резервная копия настроек DNS осталась — папка D сохранена.")
        }
        other => panic!("{other:?}"),
    }
    match remove_data_files("D", true, Some(true), false) {
        DataPlan::Leave(Some(t)) => assert_eq!(t, "D — это ссылка, а не папка; ничего в ней не тронуто."),
        other => panic!("{other:?}"),
    }
    assert!(matches!(remove_data_files("D", true, Some(false), false), DataPlan::Sweep));
    assert!(matches!(remove_data_files("D", true, None, false), DataPlan::Leave(None)));
    assert!(matches!(remove_data_files("D", false, Some(false), false), DataPlan::Leave(None)));
    assert!(sweeps("D/settings.json", "D/last-action.json"));
    assert!(!sweeps("D/last-action.json", "D/last-action.json"));
    assert_eq!(schedule_data_dir_removal("D", "D/r", true, Some(false), false), vec!["D/r", "D"]);
    assert!(schedule_data_dir_removal("D", "D/r", true, Some(false), true).is_empty());
    assert!(schedule_data_dir_removal("D", "D/r", true, Some(true), false).is_empty());
    assert!(schedule_data_dir_removal("D", "D/r", false, None, false).is_empty());
}

#[test]
fn an_installation_step_by_step() {
    let mut s = Setup::begin(Some(false));
    assert_eq!(s.phase, SetupPhase::Stop);
    s.stopped(vec!["stopped".into()]);
    s.placed(
        Ok(Placed { exe: r"C:\d\dns-ai.exe".into(), copied: true, warnings: vec!["w".into()] }),
        Err("unknown".into()),
    );
    s.located(true);
    s.shortcut(Ok(()));
    s.entry(Err("denied".into()));
    assert_eq!(s.phase, SetupPhase::Register);
    s.registered(Ok(vec!["registered".into()]));
    assert_eq!(
        s.outcome().unwrap(),
        vec![
            "stopped",
            "w",
            r"Программа установлена: C:\d\dns-ai.exe",
            "Ярлык в меню «Пуск» создан.",
            "Предупреждение: запись в списке программ не создана: denied",
            "registered",
        ]
    );
}

#[test]
fn a_program_that_cannot_be_placed_is_registered_where_it_is() {
    let mut s = Setup::begin(Some(true));
    assert_eq!(s.phase, SetupPhase::Place);
    s.placed(Err("busy".into()), Ok(r"C:\Downloads\dns-ai.exe".into()));
    s.located(false);
    assert_eq!(s.phase, SetupPhase::Register);
    assert_eq!(s.exe.as_deref(), Some(r"C:\Downloads\dns-ai.exe"));
    s.registered(Err("no rights".into()));
    assert_eq!(s.outcome().unwrap_err(), "no rights");

    let mut t = Setup::begin(None);
    assert_eq!(t.phase, SetupPhase::Stop);
    t.stopped(vec![]);
    t.placed(Err("busy".into()), Err("lost".into()));
    assert_eq!(
        t.outcome().unwrap_err(),
        "не удалось определить путь к собственному файлу: lost"
    );
}

#[test]
fn a_failed_shortcut_is_only_said() {
    let mut s = Setup::begin(Some(true));
    s.placed(Ok(Placed { exe: "x".into(), copied: false, warnings: vec![] }), Ok("x".into()));
    s.located(true);
    s.shortcut(Err("no menu".into()));
    s.entry(Ok(()));
    s.registered(Ok(vec![]));
    assert_eq!(s.outcome().unwrap(), vec!["Предупреждение: ярлык не создан: no menu"]);
}

#[test]
fn a_removal_says_what_stayed() {
    let said = remove_program(
        Ok(vec!["service".into()]),
        Err("lnk".into()),
        Err("row".into()),
        vec!["data".into()],
        vec!["files".into()],
    );
    assert_eq!(
        said.unwrap(),
        vec!["service", "Предупреждение: lnk", "Предупреждение: row", "data", "files", "DNS-AI удалён."]
    );
    assert_eq!(
        remove_program(Ok(vec![]), Ok(()), Ok(()), vec![], vec![]).unwrap(),
        vec!["DNS-AI удалён."]
    );
    assert_eq!(
        remove_program(Err("closed".into()), Ok(()), Ok(()), vec![], vec!["files".into()]).unwrap_err(),
        "closed"
    );
}

#[test]
fn a_removal_that_fails_at_the_service_touches_nothing_else() {
    let mut c = Clearing::begin();
    assert_eq!(c.phase, ClearingPhase::Service);
    c.uninstalled(Err("closed".into()));
    assert_eq!(c.phase, ClearingPhase::Over);
    assert_eq!(c.outcome().unwrap_err(), "closed");
}

#[test]
fn a_removal_step_by_step() {
    let mut c = Clearing::begin();
    c.uninstalled(Ok(vec!["service".into()]));
    assert_eq!(c.phase, ClearingPhase::Shortcut);
    c.shortcut(Err("lnk".into()));
    assert_eq!(c.phase, ClearingPhase::Entry);
    c.entry(Ok(()));
    assert_eq!(c.phase, ClearingPhase::Data);
    c.data(vec![]);
    assert_eq!(c.phase, ClearingPhase::Files);
    c.files(vec!["files".into()]);
    assert_eq!(c.phase, ClearingPhase::Over);
    assert_eq!(
        c.outcome().unwrap(),
        vec!["service", "Предупреждение: lnk", "files", "DNS-AI удалён."]
    );
}

#[test]
fn files_go_before_their_folder() {
    let mut m = Emptying::begin("D".into(), true, vec!["D/a".into(), "D/b".into(), "D/c".into()]);
    assert_eq!((m.phase, m.file()), (EmptyingPhase::File, "D/a"));
    m.removed(true);
    assert_eq!((m.phase, m.file()), (EmptyingPhase::File, "D/b"));
    m.removed(false);
    assert_eq!((m.phase, m.file()), (EmptyingPhase::Aside, "D/b"));
    m.moved(Some("D/b.old".into()), true);
    assert_eq!((m.phase, m.file()), (EmptyingPhase::File, "D/c"));
    m.removed(false);
    m.moved(None, false);
    assert_eq!(m.phase, EmptyingPhase::Folder);
    m.folder(false);
    assert_eq!(m.phase, EmptyingPhase::Over);
    assert_eq!(m.queue, vec!["D/b.old", "D/c", "D"]);
    assert_eq!(m.outcome(), remove_program_files(true, 2, false));

    let mut m = Emptying::begin("D".into(), true, vec![]);
    assert_eq!(m.phase, EmptyingPhase::Folder);
    m.folder(true);
    assert!(m.queue.is_empty());
    assert_eq!(m.outcome(), vec!["Файлы программы удалены."]);

    let m = Emptying::begin("D".into(), false, vec![]);
    assert_eq!(m.phase, EmptyingPhase::Over);
    assert!(m.outcome().is_empty());
}

#[test]
fn one_window_has_the_claim_until_it_gives_it_up() {
    let mut i = Instance::new();
    assert_eq!(claim_instance(&mut i, Some(8), true), (false, Some(8)));
    assert_eq!(i.held, None);
    assert_eq!(claim_instance(&mut i, Some(12), false), (true, None));
    assert_eq!(i.held, Some(12));
    assert_eq!(release_instance(&mut i), Some(12));
    assert_eq!(release_instance(&mut i), None);
    assert_eq!(claim_instance(&mut i, None, false), (true, None));
}

#[test]
fn the_first_name_that_is_free_or_comes_free_is_taken() {
    assert_eq!(aside_step(0, false, false), AsideStep::Take);
    assert_eq!(aside_step(3, true, true), AsideStep::Take);
    assert_eq!(aside_step(0, true, false), AsideStep::Next(1));
    assert_eq!(aside_step(8, true, false), AsideStep::Next(9));
    assert_eq!(aside_step(9, true, false), AsideStep::Exhausted);
    assert_eq!(aside_step(9, false, false), AsideStep::Take);
}
