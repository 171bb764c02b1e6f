//! The Windows service: registering it, removing it, starting and stopping it, and the two reports
//! that change nothing.

use vstd::prelude::*;

use crate::app::record_may_go;
use crate::config::{resolver_ips_text, Settings, DOH_URL};
use crate::dnsmsg::{build_query, qtype_from_str, rcode_name, summarize};
use crate::netif::{AdapterSelection, DnsState};
use crate::text::{chars_of, join, push_decimal, split, text_of, trim};
#[allow(unused_imports)]
use crate::app::{all_restored, because};
#[allow(unused_imports)]
use crate::config::{built_in_v4, v4_forms};
#[allow(unused_imports)]
use crate::dnsmsg::{
    answer_section, be16, label_fault, labels_of, qtype, query, rcode_text, record_line,
    record_lines,
};
#[allow(unused_imports)]
use crate::netif::{Adapter, SkippedAdapter, StateView};
#[allow(unused_imports)]
use crate::text::{
    decimal, joined, law_separators_part_pieces, law_trimming_takes_the_ends_off,
    lemma_first_piece, lemma_pieces_not_empty, pieces, texts, texts_push, trimmed, trimmed_back,
    trimmed_front, white,
};

verus! {

pub const SERVICE_NAME: &'static str = "DnsAiClient";

pub const DISPLAY_NAME: &'static str = "DNS-AI — защищённый DNS";

pub const DESCRIPTION: &'static str =
    "Локальный шифрующий DNS-резолвер DNS-AI: принимает запросы на 127.0.0.1 и передаёт их на dns.dns-ai.ru по DoH. Управляет настройками DNS сетевых адаптеров и восстанавливает их при остановке.";

/// The error code of a service that is not registered.
pub const ERROR_SERVICE_DOES_NOT_EXIST: i32 = 1060;

/// After so many milliseconds a service that does not stop is given up.
pub const STOP_TIMEOUT_MS: u64 = 30_000;

/// What is to be done with the service.
#[derive(Clone, Copy, Debug, PartialEq, Eq, Structural)]
pub enum Control {
    Start,
    Stop,
    Restart,
}

/// The states that a service can be in.
#[derive(Clone, Copy, Debug, PartialEq, Eq, Structural)]
pub enum ServiceState {
    Stopped,
    StartPending,
    StopPending,
    Running,
    ContinuePending,
    PausePending,
    Paused,
}

/// What was seen of the service.
#[derive(Debug)]
pub enum Seen {
    /// The question could not be asked.
    Fault(String),
    /// The service could not be opened, and why.
    Closed(Option<i32>, String),
    State(ServiceState),
}

/// Whether the service exists on this machine.
#[derive(Debug)]
pub enum Installed {
    No,
    Stopped,
    Running,
    /// Between two states, with the word to show.
    Other(&'static str),
    /// The question could not be asked.
    Unknown(String),
}

/// Tells whether the service exists. That it is not registered is told apart from every other
/// failure.
pub fn query_installed(seen: Seen) -> (r: Installed)
    ensures
        match seen {
            Seen::Fault(e) => r == Installed::Unknown(e),
            Seen::Closed(code, e) => if code == Some(ERROR_SERVICE_DOES_NOT_EXIST) {
                r is No
            } else {
                r == Installed::Unknown(e)
            },
            Seen::State(ServiceState::Stopped) => r is Stopped,
            Seen::State(ServiceState::Running) => r is Running,
            Seen::State(ServiceState::StartPending) => r is Other && r->Other_0@ == "запускается"@,
            Seen::State(ServiceState::StopPending) => r is Other && r->Other_0@
                == "останавливается"@,
            Seen::State(_) => r is Other && r->Other_0@ == "переходное состояние"@,
        },
{
    match seen {
        Seen::Fault(e) => Installed::Unknown(e),
        Seen::Closed(code, e) => {
            if not_registered(code) {
                Installed::No
            } else {
                Installed::Unknown(e)
            }
        },
        Seen::State(s) => match s {
            ServiceState::Stopped => Installed::Stopped,
            ServiceState::Running => Installed::Running,
            ServiceState::StartPending => Installed::Other("запускается"),
            ServiceState::StopPending => Installed::Other("останавливается"),
            _ => Installed::Other("переходное состояние"),
        },
    }
}

fn not_registered(code: Option<i32>) -> (r: bool)
    ensures
        r == (code == Some(ERROR_SERVICE_DOES_NOT_EXIST)),
{
    match code {
        Some(c) => c == ERROR_SERVICE_DOES_NOT_EXIST,
        None => false,
    }
}

/// How a service is registered to start.
#[derive(Clone, Copy, Debug, PartialEq, Eq, Structural)]
pub enum StartType {
    Auto,
    OnDemand,
    Disabled,
    System,
    Boot,
}

/// Whether the service starts with Windows. Where that cannot be read, it does not.
pub fn start_type_is_auto(read: Option<StartType>) -> (r: bool)
    ensures
        r == (read == Some(StartType::Auto) || read == Some(StartType::System) || read == Some(
            StartType::Boot,
        )),
{
    match read {
        Some(t) => t == StartType::Auto || t == StartType::System || t == StartType::Boot,
        None => false,
    }
}

/// How the service is to be registered to start.
pub fn start_type_for(settings: &Settings) -> (r: StartType)
    ensures
        r == (if settings.service_autostart {
            StartType::Auto
        } else {
            StartType::OnDemand
        }),
{
    if settings.service_autostart {
        StartType::Auto
    } else {
        StartType::OnDemand
    }
}

/// How an attempt to change how the service starts ended.
#[derive(Debug)]
pub enum StartChange {
    Changed,
    /// The service manager could not be opened.
    NoManager(String),
    /// The service could not be opened.
    NoService(String),
    /// The registration could not be changed.
    Refused(String),
}

/// What the start of the service has to be changed to, if it is not as wanted.
pub fn start_type_change(wanted: bool, auto: bool) -> (r: Option<bool>)
    ensures
        r == (if wanted != auto {
            Some(wanted)
        } else {
            None
        }),
{
    if wanted != auto {
        Some(wanted)
    } else {
        None
    }
}

/// Tells whether the service now starts as it is to.
pub fn set_start_type(attempt: StartChange) -> (r: Result<(), String>)
    ensures
        match attempt {
            StartChange::Changed => r is Ok,
            StartChange::NoManager(e) => r is Err && r->Err_0@ == because(
                "не удалось открыть менеджер служб"@,
                e@,
            ),
            StartChange::NoService(e) => r is Err && r->Err_0@ == because(
                "не удалось открыть службу для изменения настроек запуска"@,
                e@,
            ),
            StartChange::Refused(e) => r is Err && r->Err_0@ == because(
                "не удалось изменить тип запуска службы"@,
                e@,
            ),
        },
{
    match attempt {
        StartChange::Changed => Ok(()),
        StartChange::NoManager(e) => Err(caused("не удалось открыть менеджер служб", e.as_str())),
        StartChange::NoService(e) => Err(
            caused("не удалось открыть службу для изменения настроек запуска", e.as_str()),
        ),
        StartChange::Refused(e) => Err(
            caused("не удалось изменить тип запуска службы", e.as_str()),
        ),
    }
}

/// After how many seconds Windows starts a service again that died, the first, second and third time.
pub fn restart_delays() -> (r: Vec<u64>)
    ensures
        r@ == seq![5u64, 15, 60],
{
    let mut v: Vec<u64> = Vec::new();
    v.push(5);
    v.push(15);
    v.push(60);
    assert(v@ =~= seq![5u64, 15, 60]);
    v
}

pub(crate) fn say(lines: &mut Vec<String>, text: String)
    ensures
        texts(final(lines)@) == texts(old(lines)@).push(text@),
{
    let ghost before = lines@;
    lines.push(text);
    proof {
        texts_push(before, text);
    }
}

pub(crate) fn two(a: &str, b: &str) -> (r: String)
    ensures
        r@ == a@ + b@,
{
    let mut t = a.to_owned();
    t.append(b);
    t
}

pub(crate) fn three(a: &str, b: &str, c: &str) -> (r: String)
    ensures
        r@ == a@ + b@ + c@,
{
    let mut t = a.to_owned();
    t.append(b);
    t.append(c);
    t
}

pub(crate) fn caused(what: &str, cause: &str) -> (r: String)
    ensures
        r@ == because(what@, cause@),
{
    three(what, ": ", cause)
}

/// What is said where the service manager does not let this process in.
pub const NO_MANAGER: &'static str =
    "не удалось открыть менеджер служб — нужны права администратора";

/// How far a registration has come.
#[derive(Clone, Copy, Debug, PartialEq, Eq, Structural)]
pub enum InstallPhase {
    /// The service is to be opened.
    Open,
    /// Its registration is to be changed.
    Change,
    /// It is to be created.
    Create,
    /// It is to be described.
    Describe,
    /// What Windows does after it died is to be set.
    Recover,
    /// Its state is to be asked for.
    Query,
    /// It is to be started.
    Start,
    Over,
}

/// The registration of the service. One that is registered already is registered anew.
#[derive(Debug)]
pub struct Install {
    pub phase: InstallPhase,
    /// The executable, and the log.
    pub exe: String,
    pub log: String,
    pub lines: Vec<String>,
    pub error: Option<String>,
}

impl Install {
    /// Starts a registration.
    pub fn begin(manager: Result<(), String>, exe: &str, log: &str) -> (r: Install)
        ensures
            r.exe@ == exe@,
            r.log@ == log@,
            texts(r.lines@) == Seq::<Seq<char>>::empty(),
            match manager {
                Ok(_) => r.phase == InstallPhase::Open && r.error is None,
                Err(e) => r.phase == InstallPhase::Over && r.error is Some && r.error->0@
                    == because(NO_MANAGER@, e@),
            },
    {
        let lines: Vec<String> = Vec::new();
        assert(texts(lines@) =~= Seq::<Seq<char>>::empty());
        match manager {
            Ok(_) => Install {
                phase: InstallPhase::Open,
                exe: exe.to_owned(),
                log: log.to_owned(),
                lines,
                error: None,
            },
            Err(e) => Install {
                phase: InstallPhase::Over,
                exe: exe.to_owned(),
                log: log.to_owned(),
                lines,
                error: Some(caused(NO_MANAGER, e.as_str())),
            },
        }
    }

    /// Whether everything but the phase, the lines and the error is as it was.
    pub open spec fn same_task(&self, other: &Install) -> bool {
        self.exe == other.exe && self.log == other.log
    }

    fn fail(&mut self, e: String)
        ensures
            *final(self) == (Install {
                phase: InstallPhase::Over,
                error: Some(e),
                ..*old(self)
            }),
    {
        self.error = Some(e);
        self.phase = InstallPhase::Over;
    }

    fn finish(&mut self)
        ensures
            final(self).same_task(&*old(self)),
            final(self).phase == InstallPhase::Over,
            final(self).error == old(self).error,
            texts(final(self).lines@) == texts(old(self).lines@).push(
                "Файл: "@ + old(self).exe@,
            ).push("Журнал: "@ + old(self).log@),
    {
        say(&mut self.lines, two("Файл: ", self.exe.as_str()));
        say(&mut self.lines, two("Журнал: ", self.log.as_str()));
        self.phase = InstallPhase::Over;
    }

    /// The service was opened; or it could not be, with this code.
    pub fn opened(&mut self, result: Result<(), (Option<i32>, String)>)
        requires
            old(self).phase == InstallPhase::Open,
            old(self).error is None,
        ensures
            match result {
                Ok(_) => *final(self) == (Install { phase: InstallPhase::Change, ..*old(self) }),
                Err((code, e)) => if code == Some(ERROR_SERVICE_DOES_NOT_EXIST) {
                    *final(self) == (Install { phase: InstallPhase::Create, ..*old(self) })
                } else {
                    &&& final(self).phase == InstallPhase::Over
                    &&& final(self).lines == old(self).lines
                    &&& final(self).same_task(&*old(self))
                    &&& final(self).error is Some
                    &&& final(self).error->0@ == because("не удалось открыть службу"@, e@)
                },
            },
    {
        match result {
            Ok(_) => {
                self.phase = InstallPhase::Change;
            },
            Err((code, e)) => {
                if not_registered(code) {
                    self.phase = InstallPhase::Create;
                } else {
                    self.fail(caused("не удалось открыть службу", e.as_str()));
                }
            },
        }
    }

    /// The registration was changed or the service created, as `phase` said; or it could not be.
    pub fn registered(&mut self, result: Result<(), String>)
        requires
            old(self).phase == InstallPhase::Change || old(self).phase == InstallPhase::Create,
            old(self).error is None,
        ensures
            final(self).same_task(&*old(self)),
            match result {
                Ok(_) => {
                    &&& final(self).phase == InstallPhase::Describe
                    &&& final(self).error is None
                    &&& texts(final(self).lines@) == texts(old(self).lines@).push(
                        if old(self).phase == InstallPhase::Change {
                            "Регистрация службы обновлена."@
                        } else {
                            "Служба «"@ + DISPLAY_NAME@ + "» установлена."@
                        },
                    )
                },
                Err(e) => {
                    &&& final(self).phase == InstallPhase::Over
                    &&& final(self).lines == old(self).lines
                    &&& final(self).error is Some
                    &&& final(self).error->0@ == because(
                        if old(self).phase == InstallPhase::Change {
                            "не удалось обновить регистрацию службы"@
                        } else {
                            "не удалось создать службу"@
                        },
                        e@,
                    )
                },
            },
    {
        let changing: bool = self.phase == InstallPhase::Change;
        match result {
            Ok(_) => {
                if changing {
                    say(&mut self.lines, "Регистрация службы обновлена.".to_owned());
                } else {
                    say(&mut self.lines, three("Служба «", DISPLAY_NAME, "» установлена."));
                }
                self.phase = InstallPhase::Describe;
            },
            Err(e) => {
                if changing {
                    self.fail(caused("не удалось обновить регистрацию службы", e.as_str()));
                } else {
                    self.fail(caused("не удалось создать службу", e.as_str()));
                }
            },
        }
    }

    /// The service was described, or could not be.
    pub fn described(&mut self, result: Result<(), String>)
        requires
            old(self).phase == InstallPhase::Describe,
            old(self).error is None,
        ensures
            match result {
                Ok(_) => *final(self) == (Install { phase: InstallPhase::Recover, ..*old(self) }),
                Err(e) => *final(self) == (Install {
                    phase: InstallPhase::Over,
                    error: Some(e),
                    ..*old(self)
                }),
            },
    {
        match result {
            Ok(_) => {
                self.phase = InstallPhase::Recover;
            },
            Err(e) => {
                self.fail(e);
            },
        }
    }

    /// What Windows does after the service died was set; that it could not be is only said.
    pub fn recovery_set(&mut self, result: Result<(), String>)
        requires
            old(self).phase == InstallPhase::Recover,
            old(self).error is None,
        ensures
            final(self).same_task(&*old(self)),
            final(self).phase == InstallPhase::Query,
            final(self).error is None,
            texts(final(self).lines@) == (match result {
                Ok(_) => texts(old(self).lines@),
                Err(e) => texts(old(self).lines@).push(
                    "предупреждение: не заданы действия при сбое: "@ + e@,
                ),
            }),
    {
        if let Err(e) = result {
            say(
                &mut self.lines,
                two("предупреждение: не заданы действия при сбое: ", e.as_str()),
            );
        }
        self.phase = InstallPhase::Query;
    }

    /// The state of the service was asked for. One that runs or is about to is not started.
    pub fn queried(&mut self, result: Result<ServiceState, String>)
        requires
            old(self).phase == InstallPhase::Query,
            old(self).error is None,
        ensures
            final(self).same_task(&*old(self)),
            match result {
                Ok(ServiceState::Running) => final(self).phase == InstallPhase::Over
                    && final(self).error is None && texts(final(self).lines@) == texts(
                    old(self).lines@,
                ).push("Служба уже работает."@).push("Файл: "@ + old(self).exe@).push(
                    "Журнал: "@ + old(self).log@,
                ),
                Ok(ServiceState::StartPending) => final(self).phase == InstallPhase::Over
                    && final(self).error is None && texts(final(self).lines@) == texts(
                    old(self).lines@,
                ).push("Служба запускается."@).push("Файл: "@ + old(self).exe@).push(
                    "Журнал: "@ + old(self).log@,
                ),
                Ok(_) => *final(self) == (Install { phase: InstallPhase::Start, ..*old(self) }),
                Err(e) => *final(self) == (Install {
                    phase: InstallPhase::Over,
                    error: Some(e),
                    ..*old(self)
                }),
            },
    {
        match result {
            Ok(ServiceState::Running) => {
                say(&mut self.lines, "Служба уже работает.".to_owned());
                self.finish();
            },
            Ok(ServiceState::StartPending) => {
                say(&mut self.lines, "Служба запускается.".to_owned());
                self.finish();
            },
            Ok(_) => {
                self.phase = InstallPhase::Start;
            },
            Err(e) => {
                self.fail(e);
            },
        }
    }

    /// The service was started, or could not be.
    pub fn started(&mut self, result: Result<(), String>)
        requires
            old(self).phase == InstallPhase::Start,
            old(self).error is None,
        ensures
            final(self).same_task(&*old(self)),
            match result {
                Ok(_) => final(self).phase == InstallPhase::Over && final(self).error is None
                    && texts(final(self).lines@) == texts(old(self).lines@).push(
                    "Служба запущена."@,
                ).push("Файл: "@ + old(self).exe@).push("Журнал: "@ + old(self).log@),
                Err(e) => *final(self) == (Install {
                    phase: InstallPhase::Over,
                    error: Some(e),
                    ..*old(self)
                }),
            },
    {
        match result {
            Ok(_) => {
                say(&mut self.lines, "Служба запущена.".to_owned());
                self.finish();
            },
            Err(e) => {
                self.fail(e);
            },
        }
    }

    /// What came of it: the lines, or the error alone.
    pub fn outcome(self) -> (r: Result<Vec<String>, String>)
        ensures
            match self.error {
                None => r == Ok::<Vec<String>, String>(self.lines),
                Some(e) => r == Err::<Vec<String>, String>(e),
            },
    {
        match self.error {
            None => Ok(self.lines),
            Some(e) => Err(e),
        }
    }
}

/// What to do while a service is stopping.
#[derive(Clone, Copy, Debug, PartialEq, Eq, Structural)]
pub enum Wait {
    Done,
    Again,
    TimedOut,
}

/// What is said of a service that does not stop.
pub const STOP_TIMED_OUT: &'static str = "служба не остановилась за 30 секунд";

/// What to do after so many milliseconds, with the service in this state.
pub fn wait_for_stop(elapsed_ms: u64, state: ServiceState) -> (r: Wait)
    ensures
        r == (if elapsed_ms >= STOP_TIMEOUT_MS {
            Wait::TimedOut
        } else if state == ServiceState::Stopped {
            Wait::Done
        } else {
            Wait::Again
        }),
{
    if elapsed_ms >= STOP_TIMEOUT_MS {
        Wait::TimedOut
    } else if state == ServiceState::Stopped {
        Wait::Done
    } else {
        Wait::Again
    }
}

/// The executable in a service's launch command: what stands in the quotes it starts with, or what
/// stands before the first space.
pub open spec fn launched(cmd: Seq<char>) -> Seq<char> {
    let t = trimmed(cmd);
    if t.len() > 0 && t[0] == '"' {
        pieces(t.skip(1), seq!['"'])[0]
    } else {
        pieces(t, seq![' '])[0]
    }
}

fn first_piece(s: &str, sep: char) -> (r: String)
    ensures
        r@ == pieces(s@, seq![sep])[0],
{
    let mut seps: Vec<char> = Vec::new();
    seps.push(sep);
    assert(seps@ =~= seq![sep]);
    let parts: Vec<String> = split(s, &seps);
    proof {
        lemma_pieces_not_empty(s@, seq![sep]);
        assert(texts(parts@).len() == parts@.len());
        assert(texts(parts@)[0] == parts@[0]@);
    }
    parts[0].clone()
}

/// Takes the executable out of a service's launch command.
pub fn exe_from_launch_command(cmd: &str) -> (r: String)
    ensures
        r@ == launched(cmd@),
{
    let t = trim(cmd);
    let c: Vec<char> = chars_of(t.as_str());
    if c.len() > 0 && c[0] == '"' {
        let rest = text_of(&c, 1, c.len());
        assert(rest@ =~= t@.skip(1));
        return first_piece(rest.as_str(), '"');
    }
    first_piece(t.as_str(), ' ')
}

proof fn lemma_trim_keeps_front(s: Seq<char>, rest: Seq<char>) -> (kept: Seq<char>)
    requires
        s.len() > 0,
        !white(s.last()),
    ensures
        trimmed_back(s + rest) == s + kept,
    decreases rest.len(),
{
    if rest.len() == 0 {
        assert(s + rest =~= s);
        rest
    } else {
        let whole = s + rest;
        assert(whole.drop_last() =~= s + rest.drop_last());
        if white(rest.last()) {
            lemma_trim_keeps_front(s, rest.drop_last())
        } else {
            rest
        }
    }
}

/// A path in quotes is read back out of a launch command, whatever stands behind it.
pub proof fn law_quoted_path_is_read_back(exe: Seq<char>, rest: Seq<char>)
    requires
        !exe.contains('"'),
    ensures
        launched(seq!['"'] + exe + seq!['"'] + rest) == exe,
{
    let quoted = seq!['"'] + exe + seq!['"'];
    let cmd = quoted + rest;
    assert(cmd[0] == '"');
    assert(trimmed_front(cmd) == cmd);
    let kept = lemma_trim_keeps_front(quoted, rest);
    assert((quoted + kept).skip(1) =~= exe.push('"') + kept);
    lemma_first_piece(exe, '"', kept);
}

/// The executable that the service is registered with, whether it exists or not: as the service
/// manager says, or as the registry does.
pub fn registered_exe(manager: Option<&str>, registry: Option<&str>) -> (r: Option<String>)
    ensures
        match r {
            Some(exe) => exe@ == launched(
                if manager is Some {
                    manager->0@
                } else {
                    registry->0@
                },
            ) && (manager is Some || registry is Some),
            None => manager is None && registry is None,
        },
{
    match manager {
        Some(cmd) => Some(exe_from_launch_command(cmd)),
        None => match registry {
            Some(cmd) => Some(exe_from_launch_command(cmd)),
            None => None,
        },
    }
}

/// What came of stopping the service.
#[derive(Debug)]
pub enum Stopping {
    Stopped,
    /// It could not be told to.
    NotStopped(String),
    /// It was told to, but did not come to rest.
    NotGone(String),
}

/// Whether a service in this state has to be stopped before its executable is replaced.
pub fn stops_for_upgrade(state: Option<ServiceState>) -> (r: bool)
    ensures
        r == (state is Some && state != Some(ServiceState::Stopped)),
{
    match state {
        Some(s) => s != ServiceState::Stopped,
        None => false,
    }
}

/// What is said of the old service that was stopped, or could not be, before its executable is
/// replaced.
pub fn stop_for_upgrade(stopping: &Stopping) -> (r: Vec<String>)
    ensures
        texts(r@) == (match stopping {
            Stopping::Stopped => seq![
                "Останавливаю прежнюю службу (настройки DNS возвращаются)..."@,
            ],
            Stopping::NotStopped(e) => seq![
                "Останавливаю прежнюю службу (настройки DNS возвращаются)..."@,
                "предупреждение: не удалось остановить службу: "@ + e@,
            ],
            Stopping::NotGone(e) => seq![
                "Останавливаю прежнюю службу (настройки DNS возвращаются)..."@,
                "предупреждение: "@ + e@,
            ],
        }),
{
    let mut out: Vec<String> = Vec::new();
    assert(texts(out@) =~= Seq::<Seq<char>>::empty());
    say(&mut out, "Останавливаю прежнюю службу (настройки DNS возвращаются)...".to_owned());
    match stopping {
        Stopping::Stopped => {},
        Stopping::NotStopped(e) => {
            say(&mut out, two("предупреждение: не удалось остановить службу: ", e.as_str()));
        },
        Stopping::NotGone(e) => {
            say(&mut out, two("предупреждение: ", e.as_str()));
        },
    }
    out
}

/// What came of removing the service.
#[derive(Debug)]
pub enum Removal {
    /// The service manager did not let this process in.
    NoManager(String),
    NotRegistered(String),
    Tried {
        state: Result<ServiceState, String>,
        stopping: Option<Stopping>,
        deleted: Result<(), String>,
    },
}

/// Whether the service has to be stopped before it is removed: also where its state is unknown.
pub open spec fn seems_running(state: Result<ServiceState, String>) -> bool {
    match state {
        Ok(s) => s != ServiceState::Stopped,
        Err(_) => true,
    }
}

/// Whether the service has to be stopped before it is removed.
pub fn stops_for_removal(state: &Result<ServiceState, String>) -> (r: bool)
    ensures
        r == seems_running(*state),
{
    match state {
        Ok(s) => *s != ServiceState::Stopped,
        Err(_) => true,
    }
}

/// What is said of a service that was removed, or could not be. Every failure but a closed service
/// manager is said and stepped over.
pub open spec fn removal_lines(removal: Removal) -> Seq<Seq<char>> {
    match removal {
        Removal::NoManager(_) => Seq::empty(),
        Removal::NotRegistered(e) => seq!["Служба не зарегистрирована ("@ + e@ + "); продолжаю."@],
        Removal::Tried { state, stopping, deleted } => {
            let asked = match state {
                Ok(_) => Seq::empty(),
                Err(e) => seq!["Не удалось узнать состояние службы: "@ + e@],
            };
            let stopped = if seems_running(state) {
                seq!["Останавливаю службу (настройки DNS возвращаются)..."@] + (match stopping {
                    Some(Stopping::NotStopped(e)) => seq![
                        "Предупреждение: не удалось остановить службу: "@ + e@,
                    ],
                    Some(Stopping::NotGone(e)) => seq!["Предупреждение: "@ + e@],
                    _ => Seq::empty(),
                })
            } else {
                Seq::empty()
            };
            let gone = match deleted {
                Ok(_) => seq!["Служба удалена."@],
                Err(e) => seq!["Предупреждение: не удалось удалить службу: "@ + e@],
            };
            asked + stopped + gone
        },
    }
}

/// The warnings of a restoration, each on a line of its own.
pub open spec fn bulleted(warnings: Seq<Seq<char>>) -> Seq<Seq<char>> {
    Seq::new(warnings.len(), |i: int| "  - "@ + warnings[i])
}

/// The command that resets every adapter by hand.
pub const RESET_ALL: &'static str =
    "  Get-NetAdapter | Where-Object Status -eq Up | ForEach-Object { Set-DnsClientServerAddress -InterfaceIndex $_.ifIndex -ResetServerAddresses }";

/// What is said of the settings that were put back, where there was a record of them.
pub open spec fn restore_lines(
    restored: Option<Result<Vec<String>, String>>,
    path: Seq<char>,
) -> Seq<Seq<char>> {
    match restored {
        None => Seq::empty(),
        Some(r) => seq!["Найдена резервная копия настроек DNS — восстанавливаю."@] + (match r {
            Ok(warnings) => if warnings@.len() == 0 {
                seq!["Настройки DNS восстановлены."@]
            } else {
                seq!["ВОССТАНОВЛЕНО НЕ ВСЁ. Резервная копия сохранена:"@] + bulleted(
                    texts(warnings@),
                ) + seq!["  файл: "@ + path]
            },
            Err(e) => seq![
                "Не удалось восстановить настройки: "@ + e@,
                "Аварийный сброс всех адаптеров на автоматический DNS:"@,
                RESET_ALL@,
            ],
        }),
    }
}

fn say_removal(out: &mut Vec<String>, removal: &Removal)
    ensures
        texts(final(out)@) == texts(old(out)@) + removal_lines(*removal),
{
    let ghost start = texts(out@);
    match removal {
        Removal::NoManager(_) => {},
        Removal::NotRegistered(e) => {
            say(out, three("Служба не зарегистрирована (", e.as_str(), "); продолжаю."));
        },
        Removal::Tried { state, stopping, deleted } => {
            if let Err(e) = state {
                say(out, two("Не удалось узнать состояние службы: ", e.as_str()));
            }
            if stops_for_removal(state) {
                say(out, "Останавливаю службу (настройки DNS возвращаются)...".to_owned());
                match stopping {
                    Some(Stopping::NotStopped(e)) => {
                        say(
                            out,
                            two("Предупреждение: не удалось остановить службу: ", e.as_str()),
                        );
                    },
                    Some(Stopping::NotGone(e)) => {
                        say(out, two("Предупреждение: ", e.as_str()));
                    },
                    _ => {},
                }
            }
            match deleted {
                Ok(_) => {
                    say(out, "Служба удалена.".to_owned());
                },
                Err(e) => {
                    say(out, two("Предупреждение: не удалось удалить службу: ", e.as_str()));
                },
            }
        },
    }
    assert(texts(out@) =~= start + removal_lines(*removal));
}

/// Whether recorded settings are put back once the removal of the service has come to an end: whatever
/// came of it, unless the service manager is closed.
pub fn restores(removal: &Removal, backup: bool) -> (r: bool)
    ensures
        r == (removal !is NoManager && backup),
{
    match removal {
        Removal::NoManager(_) => false,
        _ => backup,
    }
}

/// What a removal of the service comes to.
#[derive(Debug)]
pub struct Uninstalled {
    /// What is said of it.
    pub lines: Vec<String>,
    /// Whether the machine forgets the names it has resolved.
    pub flush: bool,
    /// Whether the record of the settings may go.
    pub record_goes: bool,
}

/// Says what came of putting the settings back, where there was a record of them.
fn say_restored(
    out: &mut Vec<String>,
    restored: &Option<Result<Vec<String>, String>>,
    backup_path: &str,
)
    ensures
        texts(final(out)@) == texts(old(out)@) + restore_lines(*restored, backup_path@),
{
    let ghost start = texts(out@);
    if let Some(result) = restored {
        say(out, "Найдена резервная копия настроек DNS — восстанавливаю.".to_owned());
        match result {
            Ok(warnings) => {
                if warnings.len() == 0 {
                    say(out, "Настройки DNS восстановлены.".to_owned());
                } else {
                    say(out, "ВОССТАНОВЛЕНО НЕ ВСЁ. Резервная копия сохранена:".to_owned());
                    let ghost before = texts(out@);
                    let ghost all = bulleted(texts(warnings@));
                    let mut i: usize = 0;
                    assert(before + all.take(0) =~= before);
                    while i < warnings.len()
                        invariant
                            i <= warnings@.len(),
                            all == bulleted(texts(warnings@)),
                            texts(out@) == before + all.take(i as int),
                        decreases warnings@.len() - i,
                    {
                        say(out, two("  - ", warnings[i].as_str()));
                        i += 1;
                        assert(all.take(i as int) =~= all.take(i - 1).push(all[i - 1]));
                        assert(texts(out@) =~= before + all.take(i as int));
                    }
                    assert(all.take(i as int) =~= all);
                    say(out, two("  файл: ", backup_path));
                }
            },
            Err(e) => {
                say(out, two("Не удалось восстановить настройки: ", e.as_str()));
                say(out, "Аварийный сброс всех адаптеров на автоматический DNS:".to_owned());
                say(out, RESET_ALL.to_owned());
            },
        }
    }
    assert(texts(out@) =~= start + restore_lines(*restored, backup_path@));
}

/// Removes the service and puts the settings back, as far as either was possible. A closed service
/// manager is an error. Resolved names are forgotten after every restoration that ran, whole or not;
/// the record may go only after everything was put back.
pub fn uninstall(
    removal: &Removal,
    restored: &Option<Result<Vec<String>, String>>,
    backup_path: &str,
) -> (r: Result<Uninstalled, String>)
    ensures
        match r {
            Ok(u) => {
                &&& removal !is NoManager
                &&& texts(u.lines@) == removal_lines(*removal) + restore_lines(
                    *restored,
                    backup_path@,
                )
                &&& u.flush == (restored matches Some(Ok(_)))
                &&& u.record_goes == (restored matches Some(result) && all_restored(*result))
            },
            Err(e) => removal matches Removal::NoManager(cause) && e@ == because(
                NO_MANAGER@,
                cause@,
            ),
        },
{
    if let Removal::NoManager(cause) = removal {
        return Err(caused(NO_MANAGER, cause.as_str()));
    }
    let mut out: Vec<String> = Vec::new();
    assert(texts(out@) =~= Seq::<Seq<char>>::empty());
    say_removal(&mut out, removal);
    assert(texts(out@) =~= removal_lines(*removal));
    say_restored(&mut out, restored, backup_path);
    let (flush, record_goes): (bool, bool) = match restored {
        Some(result) => (result.is_ok(), record_may_go(result)),
        None => (false, false),
    };
    Ok(Uninstalled { lines: out, flush, record_goes })
}

/// How far starting, stopping or restarting has come.
#[derive(Clone, Copy, Debug, PartialEq, Eq, Structural)]
pub enum ControlPhase {
    /// The state of the service is to be asked for.
    Query,
    /// It is to be told to stop.
    Stop,
    /// Its coming to rest is to be waited for.
    Wait,
    /// It is to be started.
    Start,
    Over,
}

/// Starting, stopping or restarting the service.
#[derive(Debug)]
pub struct Controlling {
    pub what: Control,
    pub phase: ControlPhase,
    pub lines: Vec<String>,
    pub error: Option<String>,
}

impl Controlling {
    /// What holds at every step.
    pub open spec fn wf(&self) -> bool {
        match self.phase {
            ControlPhase::Query | ControlPhase::Stop | ControlPhase::Wait => self.what
                != Control::Start && self.error is None,
            ControlPhase::Start => self.what != Control::Stop && self.error is None,
            ControlPhase::Over => true,
        }
    }

    /// Starts it. The service manager has to let this process in, and the service has to be
    /// registered.
    pub fn begin(what: Control, manager: Result<(), String>, opened: Result<(), String>) -> (r:
        Controlling)
        ensures
            r.wf(),
            r.what == what,
            texts(r.lines@) == Seq::<Seq<char>>::empty(),
            match (manager, opened) {
                (Err(e), _) => r.phase == ControlPhase::Over && r.error is Some && r.error->0@
                    == because(NO_MANAGER@, e@),
                (Ok(_), Err(e)) => r.phase == ControlPhase::Over && r.error is Some && r.error->0@
                    == because("служба не зарегистрирована"@, e@),
                (Ok(_), Ok(_)) => r.error is None && r.phase == (if what == Control::Start {
                    ControlPhase::Start
                } else {
                    ControlPhase::Query
                }),
            },
    {
        let lines: Vec<String> = Vec::new();
        assert(texts(lines@) =~= Seq::<Seq<char>>::empty());
        if let Err(e) = manager {
            return Controlling {
                what,
                phase: ControlPhase::Over,
                lines,
                error: Some(caused(NO_MANAGER, e.as_str())),
            };
        }
        if let Err(e) = opened {
            return Controlling {
                what,
                phase: ControlPhase::Over,
                lines,
                error: Some(caused("служба не зарегистрирована", e.as_str())),
            };
        }
        let phase: ControlPhase = if what == Control::Start {
            ControlPhase::Start
        } else {
            ControlPhase::Query
        };
        Controlling { what, phase, lines, error: None }
    }

    fn fail(&mut self, e: String)
        ensures
            final(self).wf(),
            *final(self) == (Controlling {
                phase: ControlPhase::Over,
                error: Some(e),
                ..*old(self)
            }),
    {
        self.error = Some(e);
        self.phase = ControlPhase::Over;
    }

    /// Where to go once the service is at rest.
    pub open spec fn after_stop(&self) -> ControlPhase {
        if self.what == Control::Restart {
            ControlPhase::Start
        } else {
            ControlPhase::Over
        }
    }

    fn at_rest(&mut self, line: String)
        requires
            old(self).what != Control::Start,
            old(self).error is None,
        ensures
            final(self).wf(),
            final(self).what == old(self).what,
            final(self).error is None,
            final(self).phase == old(self).after_stop(),
            texts(final(self).lines@) == texts(old(self).lines@).push(line@),
    {
        say(&mut self.lines, line);
        self.phase = if self.what == Control::Restart {
            ControlPhase::Start
        } else {
            ControlPhase::Over
        };
    }

    /// The state of the service was asked for. One that is at rest is not told to stop.
    pub fn queried(&mut self, result: Result<ServiceState, String>)
        requires
            old(self).wf(),
            old(self).phase == ControlPhase::Query,
        ensures
            final(self).wf(),
            match result {
                Ok(ServiceState::Stopped) => {
                    &&& final(self).what == old(self).what
                    &&& final(self).error is None
                    &&& final(self).phase == old(self).after_stop()
                    &&& texts(final(self).lines@) == texts(old(self).lines@).push(
                        "Служба уже остановлена."@,
                    )
                },
                Ok(_) => *final(self) == (Controlling { phase: ControlPhase::Stop, ..*old(self) }),
                Err(e) => *final(self) == (Controlling {
                    phase: ControlPhase::Over,
                    error: Some(e),
                    ..*old(self)
                }),
            },
    {
        match result {
            Ok(ServiceState::Stopped) => {
                self.at_rest("Служба уже остановлена.".to_owned());
            },
            Ok(_) => {
                self.phase = ControlPhase::Stop;
            },
            Err(e) => {
                self.fail(e);
            },
        }
    }

    /// The service was told to stop, or could not be.
    pub fn told_to_stop(&mut self, result: Result<(), String>)
        requires
            old(self).wf(),
            old(self).phase == ControlPhase::Stop,
        ensures
            final(self).wf(),
            match result {
                Ok(_) => *final(self) == (Controlling { phase: ControlPhase::Wait, ..*old(self) }),
                Err(e) => *final(self) == (Controlling {
                    phase: ControlPhase::Over,
                    error: Some(e),
                    ..*old(self)
                }),
            },
    {
        match result {
            Ok(_) => {
                self.phase = ControlPhase::Wait;
            },
            Err(e) => {
                self.fail(e);
            },
        }
    }

    /// The service came to rest, or did not.
    pub fn waited(&mut self, result: Result<(), String>)
        requires
            old(self).wf(),
            old(self).phase == ControlPhase::Wait,
        ensures
            final(self).wf(),
            match result {
                Ok(_) => {
                    &&& final(self).what == old(self).what
                    &&& final(self).error is None
                    &&& final(self).phase == old(self).after_stop()
                    &&& texts(final(self).lines@) == texts(old(self).lines@).push(
                        "Служба остановлена."@,
                    )
                },
                Err(e) => *final(self) == (Controlling {
                    phase: ControlPhase::Over,
                    error: Some(e),
                    ..*old(self)
                }),
            },
    {
        match result {
            Ok(_) => {
                self.at_rest("Служба остановлена.".to_owned());
            },
            Err(e) => {
                self.fail(e);
            },
        }
    }

    /// The service was started, or could not be.
    pub fn started(&mut self, result: Result<(), String>)
        requires
            old(self).wf(),
            old(self).phase == ControlPhase::Start,
        ensures
            final(self).wf(),
            final(self).phase == ControlPhase::Over,
            final(self).what == old(self).what,
            match result {
                Ok(_) => final(self).error is None && texts(final(self).lines@) == texts(
                    old(self).lines@,
                ).push(
                    if old(self).what == Control::Restart {
                        "Служба запущена заново."@
                    } else {
                        "Служба запущена."@
                    },
                ),
                Err(e) => final(self).error == Some(e) && final(self).lines == old(self).lines,
            },
    {
        match result {
            Ok(_) => {
                if self.what == Control::Restart {
                    say(&mut self.lines, "Служба запущена заново.".to_owned());
                } else {
                    say(&mut self.lines, "Служба запущена.".to_owned());
                }
                self.phase = ControlPhase::Over;
            },
            Err(e) => {
                self.fail(e);
            },
        }
    }

    /// What came of it: the lines, or the error alone.
    pub fn outcome(self) -> (r: Result<Vec<String>, String>)
        ensures
            match self.error {
                None => r == Ok::<Vec<String>, String>(self.lines),
                Some(e) => r == Err::<Vec<String>, String>(e),
            },
    {
        match self.error {
            None => Ok(self.lines),
            Some(e) => Err(e),
        }
    }
}

/// What a setting is called in a report.
pub open spec fn setting_text(s: StateView) -> Seq<char> {
    match s {
        StateView::Dhcp => "автоматически (DHCP)"@,
        StateView::Static(list) => if list.len() == 0 {
            "вручную, пусто"@
        } else {
            "вручную: "@ + joined(list, ", "@)
        },
    }
}

/// Describes a setting in a report.
pub fn describe_state(state: &DnsState) -> (r: String)
    ensures
        r@ == setting_text(state@),
{
    match state {
        DnsState::Dhcp => "автоматически (DHCP)".to_owned(),
        DnsState::Static(list) => {
            assert(texts(list@).len() == list@.len());
            if list.len() == 0 {
                "вручную, пусто".to_owned()
            } else {
                two("вручную: ", join(list, ", ").as_str())
            }
        },
    }
}

/// Yes or no, as a report writes it.
pub open spec fn truth(b: bool) -> Seq<char> {
    if b {
        "true"@
    } else {
        "false"@
    }
}

fn truth_text(b: bool) -> (r: &'static str)
    ensures
        r@ == truth(b),
{
    if b {
        "true"
    } else {
        "false"
    }
}

/// The built-in IPv4 addresses as a list in brackets.
pub open spec fn built_in_list() -> Seq<char> {
    "["@ + joined(v4_forms(built_in_v4()), ", "@) + "]"@
}

fn built_in_text() -> (r: String)
    ensures
        r@ == built_in_list(),
{
    three("[", join(&resolver_ips_text(), ", ").as_str(), "]")
}

/// What a report says of one adapter that would be configured.
pub open spec fn adapter_lines(a: Adapter, v4: StateView, v6: StateView) -> Seq<Seq<char>> {
    seq![
        "  ["@ + decimal(a.index as nat) + "] "@ + a.alias@,
        "      "@ + a.description@,
        "      IPv4: "@ + setting_text(v4),
        "      IPv6: "@ + setting_text(v6),
    ]
}

/// What a report says of the adapters that would be configured.
pub open spec fn chosen_lines(chosen: Seq<Adapter>, states: Seq<(DnsState, DnsState)>) -> Seq<
    Seq<char>,
>
    decreases chosen.len(),
{
    if chosen.len() == 0 {
        Seq::empty()
    } else {
        let n = chosen.len() - 1;
        chosen_lines(chosen.drop_last(), states) + adapter_lines(
            chosen.last(),
            states[n].0@,
            states[n].1@,
        )
    }
}

/// What a report says of the adapters that would be left alone.
pub open spec fn skipped_lines(skipped: Seq<SkippedAdapter>) -> Seq<Seq<char>> {
    Seq::new(skipped.len(), |i: int| "  "@ + skipped[i].alias@ + " — "@ + skipped[i].reason@)
}

/// The report on what would be done.
pub open spec fn probe_lines(
    settings: Settings,
    selection: AdapterSelection,
    states: Seq<(DnsState, DnsState)>,
    backup: bool,
) -> Seq<Seq<char>> {
    seq![
        "Настройки: IPv6="@ + truth(settings.ipv6) + ", VPN-адаптеры="@ + truth(
            settings.include_vpn_adapters,
        ),
        "Резолвер: "@ + DOH_URL@ + " -> "@ + built_in_list(),
        ""@,
        "Будут настроены ("@ + decimal(selection.chosen@.len()) + "):"@,
    ] + chosen_lines(selection.chosen@, states) + (if selection.chosen@.len() == 0 {
        seq!["  (ни одного — включать защиту сейчас нельзя)"@]
    } else {
        Seq::empty()
    }) + seq![""@, "Пропущены ("@ + decimal(selection.skipped@.len()) + "):"@] + skipped_lines(
        selection.skipped@,
    ) + seq![
        ""@,
        "Резервная копия: "@ + (if backup {
            "есть"@
        } else {
            "нет"@
        }),
    ]
}

fn counted(a: &str, n: usize, b: &str) -> (r: String)
    ensures
        r@ == a@ + decimal(n as nat) + b@,
{
    let mut t = a.to_owned();
    push_decimal(&mut t, n as u64);
    t.append(b);
    t
}

fn say_adapter(out: &mut Vec<String>, a: &Adapter, v4: &DnsState, v6: &DnsState)
    ensures
        texts(final(out)@) == texts(old(out)@) + adapter_lines(*a, v4@, v6@),
{
    let ghost start = texts(out@);
    let mut head = "  [".to_owned();
    push_decimal(&mut head, a.index as u64);
    head.append("] ");
    head.append(a.alias.as_str());
    say(out, head);
    say(out, two("      ", a.description.as_str()));
    say(out, two("      IPv4: ", describe_state(v4).as_str()));
    say(out, two("      IPv6: ", describe_state(v6).as_str()));
    assert(texts(out@) =~= start + adapter_lines(*a, v4@, v6@));
}

/// Reports what would be done, and what the machine looks like now. Nothing is changed.
pub fn probe_report(
    settings: &Settings,
    selection: &AdapterSelection,
    states: &Vec<(DnsState, DnsState)>,
    backup: bool,
) -> (r: Vec<String>)
    requires
        states@.len() == selection.chosen@.len(),
    ensures
        texts(r@) == probe_lines(*settings, *selection, states@, backup),
{
    let ghost chosen = selection.chosen@;
    let ghost skipped = selection.skipped@;
    let mut out: Vec<String> = Vec::new();
    assert(texts(out@) =~= Seq::<Seq<char>>::empty());
    let mut head = "Настройки: IPv6=".to_owned();
    head.append(truth_text(settings.ipv6));
    head.append(", VPN-адаптеры=");
    head.append(truth_text(settings.include_vpn_adapters));
    say(&mut out, head);
    let mut resolver = "Резолвер: ".to_owned();
    resolver.append(DOH_URL);
    resolver.append(" -> ");
    resolver.append(built_in_text().as_str());
    say(&mut out, resolver);
    say(&mut out, "".to_owned());
    say(&mut out, counted("Будут настроены (", selection.chosen.len(), "):"));
    let ghost first = texts(out@);
    let mut i: usize = 0;
    assert(first + chosen_lines(chosen.take(0), states@) =~= first);
    while i < selection.chosen.len()
        invariant
            i <= selection.chosen@.len(),
            states@.len() == selection.chosen@.len(),
            chosen == selection.chosen@,
            texts(out@) == first + chosen_lines(chosen.take(i as int), states@),
        decreases selection.chosen@.len() - i,
    {
        let ghost before = chosen_lines(chosen.take(i as int), states@);
        say_adapter(&mut out, &selection.chosen[i], &states[i].0, &states[i].1);
        proof {
            let more = adapter_lines(chosen[i as int], states@[i as int].0@, states@[i as int].1@);
            assert(chosen.take(i + 1).drop_last() =~= chosen.take(i as int));
            assert((first + before) + more =~= first + (before + more));
        }
        i += 1;
    }
    assert(chosen.take(i as int) =~= chosen);
    if selection.chosen.len() == 0 {
        say(&mut out, "  (ни одного — включать защиту сейчас нельзя)".to_owned());
    }
    let ghost middle = first + chosen_lines(chosen, states@) + (if chosen.len() == 0 {
        seq!["  (ни одного — включать защиту сейчас нельзя)"@]
    } else {
        Seq::empty()
    });
    assert(texts(out@) =~= middle);
    say(&mut out, "".to_owned());
    say(&mut out, counted("Пропущены (", selection.skipped.len(), "):"));
    let ghost before = texts(out@);
    let ghost all = skipped_lines(skipped);
    let mut k: usize = 0;
    assert(before + all.take(0) =~= before);
    while k < selection.skipped.len()
        invariant
            k <= selection.skipped@.len(),
            skipped == selection.skipped@,
            all == skipped_lines(skipped),
            texts(out@) == before + all.take(k as int),
        decreases selection.skipped@.len() - k,
    {
        let mut line = "  ".to_owned();
        line.append(selection.skipped[k].alias.as_str());
        line.append(" — ");
        line.append(selection.skipped[k].reason.as_str());
        say(&mut out, line);
        k += 1;
        assert(all.take(k as int) =~= all.take(k - 1).push(all[k - 1]));
        assert(texts(out@) =~= before + all.take(k as int));
    }
    assert(all.take(k as int) =~= all);
    say(&mut out, "".to_owned());
    say(
        &mut out,
        two(
            "Резервная копия: ",
            if backup {
                "есть"
            } else {
                "нет"
            },
        ),
    );
    assert(texts(out@) =~= probe_lines(*settings, *selection, states@, backup));
    out
}

/// Why a question cannot be asked at all: its record type has to be known, and its name one that can
/// be asked for.
pub open spec fn unaskable(name: Seq<char>, qtype_text: Seq<char>) -> Option<Seq<char>> {
    if qtype(qtype_text) is None {
        Some("неизвестный тип записи «"@ + qtype_text + "» (A, AAAA, CNAME, TXT)"@)
    } else {
        match label_fault(labels_of(name)) {
            Some(fault) => Some(fault.says(name)),
            None => None,
        }
    }
}

/// The query for a diagnosis, where one can be asked. The identifier only has to differ between runs.
pub fn doh_question(name: &str, qtype_text: &str, nanos: u32) -> (r: Result<Vec<u8>, String>)
    ensures
        match r {
            Ok(m) => unaskable(name@, qtype_text@) is None && m@ == query(
                name@,
                qtype(qtype_text@)->0,
                (nanos % 65536) as u16,
            ),
            Err(e) => unaskable(name@, qtype_text@) == Some(e@),
        },
{
    let t: u16 = match qtype_from_str(qtype_text) {
        Some(t) => t,
        None => return Err(
            three("неизвестный тип записи «", qtype_text, "» (A, AAAA, CNAME, TXT)"),
        ),
    };
    match build_query(name, t, (nanos % 65536) as u16) {
        Ok(m) => Ok(m),
        Err(e) => Err(e.message(name)),
    }
}

/// What a diagnosis starts with.
pub open spec fn doh_head(name: Seq<char>, qtype_text: Seq<char>) -> Seq<Seq<char>> {
    seq![
        "Запрос: "@ + name + " "@ + qtype_text + " -> "@ + DOH_URL@,
        "Адреса узлов: "@ + built_in_list(),
        ""@,
    ]
}

/// What a diagnosis says where nothing answered. That the query came from elsewhere stands first: it
/// looks like a broken node, and is none.
pub open spec fn doh_failure(e: Seq<char>) -> Seq<Seq<char>> {
    seq![
        "НЕ УДАЛОСЬ: "@ + e,
        ""@,
        "Что это обычно значит:"@,
        "  - запрос ушёл НЕ из России/Беларуси -> узел молча отбрасывает пакет. Выключите"@,
        "    VPN на этой машине (или на хосте, если это виртуалка) и повторите"@,
        "  - таймаут или отказ соединения -> узел недоступен, или 443/tcp закрыт в этой сети"@,
        "  - ошибка проверки сертификата  -> перехват TLS (корпоративный прокси, антивирус)"@,
    ]
}

/// The lines on the records of an answer, set in.
pub open spec fn set_in(lines: Seq<Seq<char>>) -> Seq<Seq<char>> {
    Seq::new(lines.len(), |i: int| "  "@ + lines[i])
}

/// What a diagnosis says of an answer.
pub open spec fn doh_answer(m: Seq<u8>, ms: u64) -> Seq<Seq<char>> {
    let rcode = (m[3] % 16) as u8;
    seq![
        "Ответ за "@ + decimal(ms as nat) + " мс: "@ + rcode_text(rcode) + " ("@ + decimal(
            rcode as nat,
        ) + "), записей: "@ + decimal(be16(m, 6) as nat),
    ] + set_in(record_lines(m, answer_section(m)->Ok_0)) + (if rcode == 5 {
        seq![
            ""@,
            "REFUSED — узел ответил, но отказал этому источнику."@,
            "Почти всегда это значит, что запрос вышел не из России или Беларуси:"@,
            "выключите VPN на этой машине (или на хосте, если это виртуалка)."@,
        ]
    } else {
        Seq::empty()
    })
}

/// Whether an answer can be read and is a success.
pub open spec fn answers_well(m: Seq<u8>) -> bool {
    answer_section(m) is Ok && m[3] % 16 == 0
}

/// What a diagnosis says of what came back.
pub open spec fn doh_outcome(reply: Result<(u64, Vec<u8>), String>) -> Seq<Seq<char>> {
    match reply {
        Err(e) => doh_failure(e@),
        Ok((ms, m)) => match answer_section(m@) {
            Ok(_) => doh_answer(m@, ms),
            Err(fault) => seq![
                "Ответ за "@ + decimal(ms as nat) + " мс не удалось разобрать: "@ + fault.says(),
            ],
        },
    }
}

fn say_failure(out: &mut Vec<String>, e: &str)
    ensures
        texts(final(out)@) == texts(old(out)@) + doh_failure(e@),
{
    let ghost start = texts(out@);
    say(out, two("НЕ УДАЛОСЬ: ", e));
    say(out, "".to_owned());
    say(out, "Что это обычно значит:".to_owned());
    say(
        out,
        "  - запрос ушёл НЕ из России/Беларуси -> узел молча отбрасывает пакет. Выключите".to_owned(),
    );
    say(out, "    VPN на этой машине (или на хосте, если это виртуалка) и повторите".to_owned());
    say(
        out,
        "  - таймаут или отказ соединения -> узел недоступен, или 443/tcp закрыт в этой сети".to_owned(),
    );
    say(
        out,
        "  - ошибка проверки сертификата  -> перехват TLS (корпоративный прокси, антивирус)".to_owned(),
    );
    assert(texts(out@) =~= start + doh_failure(e@));
}

/// Reports on a diagnosis: what was asked, and what came back after how long. That nothing came, or a
/// refusal, or an answer that cannot be read, is a result too, and is told by the flag; the error is
/// for a question that cannot be asked at all.
pub fn doh_report(name: &str, qtype_text: &str, reply: &Result<(u64, Vec<u8>), String>) -> (r: Result<
    (Vec<String>, bool),
    String,
>)
    ensures
        match r {
            Ok((lines, ok)) => {
                &&& unaskable(name@, qtype_text@) is None
                &&& texts(lines@) == doh_head(name@, qtype_text@) + doh_outcome(*reply)
                &&& ok == (reply matches Ok((_, m)) && answers_well(m@))
            },
            Err(e) => unaskable(name@, qtype_text@) == Some(e@),
        },
{
    if let Err(e) = doh_question(name, qtype_text, 0) {
        return Err(e);
    }
    let mut out: Vec<String> = Vec::new();
    assert(texts(out@) =~= Seq::<Seq<char>>::empty());
    let mut head = "Запрос: ".to_owned();
    head.append(name);
    head.append(" ");
    head.append(qtype_text);
    head.append(" -> ");
    head.append(DOH_URL);
    say(&mut out, head);
    say(&mut out, two("Адреса узлов: ", built_in_text().as_str()));
    say(&mut out, "".to_owned());
    let ghost start = doh_head(name@, qtype_text@);
    assert(texts(out@) =~= start);
    match reply {
        Err(e) => {
            say_failure(&mut out, e.as_str());
            Ok((out, false))
        },
        Ok((ms, m)) => {
            let summary = match summarize(m.as_slice()) {
                Ok(s) => s,
                Err(e) => {
                    let mut line = "Ответ за ".to_owned();
                    push_decimal(&mut line, *ms);
                    line.append(" мс не удалось разобрать: ");
                    line.append(e.message().as_str());
                    say(&mut out, line);
                    assert(texts(out@) =~= start + doh_outcome(*reply));
                    return Ok((out, false));
                },
            };
            let ghost lines = record_lines(m@, answer_section(m@)->Ok_0);
            let mut line = "Ответ за ".to_owned();
            push_decimal(&mut line, *ms);
            line.append(" мс: ");
            line.append(rcode_name(summary.rcode));
            line.append(" (");
            push_decimal(&mut line, summary.rcode as u64);
            line.append("), записей: ");
            push_decimal(&mut line, summary.answer_count as u64);
            say(&mut out, line);
            let ghost before = texts(out@);
            let ghost all = set_in(lines);
            let mut i: usize = 0;
            assert(before + all.take(0) =~= before);
            while i < summary.answers.len()
                invariant
                    i <= summary.answers@.len(),
                    lines == texts(summary.answers@),
                    all == set_in(lines),
                    texts(out@) == before + all.take(i as int),
                decreases summary.answers@.len() - i,
            {
                say(&mut out, two("  ", summary.answers[i].as_str()));
                i += 1;
                assert(all.take(i as int) =~= all.take(i - 1).push(all[i - 1]));
                assert(texts(out@) =~= before + all.take(i as int));
            }
            assert(all.take(i as int) =~= all);
            if summary.rcode == 5 {
                say(&mut out, "".to_owned());
                say(
                    &mut out,
                    "REFUSED — узел ответил, но отказал этому источнику.".to_owned(),
                );
                say(
                    &mut out,
                    "Почти всегда это значит, что запрос вышел не из России или Беларуси:".to_owned(),
                );
                say(
                    &mut out,
                    "выключите VPN на этой машине (или на хосте, если это виртуалка).".to_owned(),
                );
            }
            assert(texts(out@) =~= start + doh_answer(m@, *ms));
            Ok((out, summary.rcode == 0))
        },
    }
}

/// The program that a command without quotation marks starts is its first word.
pub proof fn law_unquoted_path_is_the_first_word(word: Seq<char>, rest: Seq<char>, end: Seq<char>)
    requires
        word.len() > 0,
        word[0] != '"',
        forall|i: int| 0 <= i < word.len() ==> !white(#[trigger] word[i]),
        rest.len() > 0 && !white(rest[rest.len() - 1]),
        forall|i: int| 0 <= i < end.len() ==> white(#[trigger] end[i]),
    ensures
        launched(word + end) == word,
        launched(end + word + seq![' '] + rest + end) == word,
{
    let none = Seq::<char>::empty();
    let seps = seq![' '];
    assert(seps[0] == ' ');
    assert(white(' '));
    assert forall|i: int| 0 <= i < word.len() implies !seps.contains(#[trigger] word[i]) by {
        assert(!white(word[i]));
    }
    assert(!white(word[0]) && !white(word[word.len() - 1]));
    law_separators_part_pieces(word, ' ', rest, seps);
    law_trimming_takes_the_ends_off(none, word, end);
    assert(none + word + end =~= word + end);
    let core = word.push(' ') + rest;
    assert(core[0] == word[0]);
    assert(core[core.len() - 1] == rest[rest.len() - 1]);
    law_trimming_takes_the_ends_off(end, core, end);
    assert(end + word + seq![' '] + rest + end =~= end + core + end);
    assert((pieces(word, seps) + pieces(rest, seps))[0] == word);
}

/// A service counts as running unless it is known to have stopped; where its state cannot be learned, it
/// is stopped as if it ran.
pub proof fn law_what_counts_as_running(s: ServiceState, e: String)
    ensures
        seems_running(Ok::<ServiceState, String>(s)) <==> s != ServiceState::Stopped,
        seems_running(Err::<ServiceState, String>(e)),
{
}

/// What is said of a removal: nothing where the service manager could not be reached, one line where
/// there was no service, and otherwise whether it was stopped, and at the end whether it was deleted.
pub proof fn law_what_a_removal_says(
    e: String,
    state: ServiceState,
    stopping: Option<Stopping>,
    deleted: Result<(), String>,
)
    ensures
        removal_lines(Removal::NoManager(e)).len() == 0,
        removal_lines(Removal::NotRegistered(e)) == seq![
            "Служба не зарегистрирована ("@ + e@ + "); продолжаю."@,
        ],
        ({
            let lines = removal_lines(Removal::Tried { state: Ok(state), stopping, deleted });
            &&& lines.len() > 0
            &&& deleted is Ok ==> lines.last() == "Служба удалена."@
            &&& deleted matches Err(why) ==> lines.last()
                == "Предупреждение: не удалось удалить службу: "@ + why@
            &&& state == ServiceState::Stopped ==> lines.len() == 1
            &&& state != ServiceState::Stopped ==> lines.len() >= 2 && lines[0]
                == "Останавливаю службу (настройки DNS возвращаются)..."@
        }),
        ({
            let lines = removal_lines(Removal::Tried { state: Err(e), stopping, deleted });
            &&& lines.len() >= 3
            &&& lines[0] == "Не удалось узнать состояние службы: "@ + e@
            &&& lines[1] == "Останавливаю службу (настройки DNS возвращаются)..."@
        }),
{
}

/// What is said of a restoration: nothing where there was no record; a success only where there was no
/// warning; otherwise every warning in its order, and where the record is kept; and where it failed, the
/// cause and the command that resets every adapter.
pub proof fn law_what_a_restoration_says(warnings: Vec<String>, e: String, path: Seq<char>, i: int)
    ensures
        restore_lines(None, path).len() == 0,
        warnings@.len() == 0 ==> restore_lines(Some(Ok(warnings)), path) == seq![
            "Найдена резервная копия настроек DNS — восстанавливаю."@,
            "Настройки DNS восстановлены."@,
        ],
        warnings@.len() > 0 ==> {
            let lines = restore_lines(Some(Ok(warnings)), path);
            &&& lines.len() == warnings@.len() + 3
            &&& lines[0] == "Найдена резервная копия настроек DNS — восстанавливаю."@
            &&& lines[1] == "ВОССТАНОВЛЕНО НЕ ВСЁ. Резервная копия сохранена:"@
            &&& 0 <= i < warnings@.len() ==> lines[2 + i] == "  - "@ + warnings@[i]@
            &&& lines.last() == "  файл: "@ + path
        },
        restore_lines(Some(Err(e)), path).len() == 4,
        restore_lines(Some(Err(e)), path)[1] == "Не удалось восстановить настройки: "@ + e@,
        restore_lines(Some(Err(e)), path)[3] == RESET_ALL@,
{
    let done = restore_lines(Some(Ok(warnings)), path);
    if warnings@.len() == 0 {
        assert(done =~= seq![
            "Найдена резервная копия настроек DNS — восстанавливаю."@,
            "Настройки DNS восстановлены."@,
        ]);
    } else {
        assert(texts(warnings@).len() == warnings@.len());
    }
}

/// A setting in words: automatic, empty, or the servers with commas between them.
pub proof fn law_settings_in_words(list: Seq<Seq<char>>)
    ensures
        setting_text(StateView::Dhcp) == "автоматически (DHCP)"@,
        list.len() == 0 ==> setting_text(StateView::Static(list)) == "вручную, пусто"@,
        list.len() > 0 ==> setting_text(StateView::Static(list)) == "вручную: "@ + joined(
            list,
            ", "@,
        ),
{
}

/// Each adapter that is configured takes four lines, in the order of the adapters: its index and name,
/// what it is, and its own settings of IPv4 and IPv6.
pub proof fn law_four_lines_for_an_adapter(
    chosen: Seq<Adapter>,
    states: Seq<(DnsState, DnsState)>,
    i: int,
)
    requires
        0 <= i < chosen.len(),
    ensures
        chosen_lines(chosen, states).len() == 4 * chosen.len(),
        chosen_lines(chosen, states)[4 * i] == "  ["@ + decimal(chosen[i].index as nat) + "] "@
            + chosen[i].alias@,
        chosen_lines(chosen, states)[4 * i + 1] == "      "@ + chosen[i].description@,
        chosen_lines(chosen, states)[4 * i + 2] == "      IPv4: "@ + setting_text(states[i].0@),
        chosen_lines(chosen, states)[4 * i + 3] == "      IPv6: "@ + setting_text(states[i].1@),
    decreases chosen.len(),
{
    let front = chosen.drop_last();
    if chosen.len() > 1 {
        law_four_lines_for_an_adapter(front, states, if i < chosen.len() - 1 {
            i
        } else {
            0
        });
    } else {
        assert(front =~= Seq::<Adapter>::empty());
        assert(chosen_lines(front, states).len() == 0);
    }
    if i < chosen.len() - 1 {
        assert(front[i] == chosen[i]);
    }
}

/// Each adapter that is passed over takes one line, with its name and the reason, in their order.
pub proof fn law_a_line_for_each_skipped(skipped: Seq<SkippedAdapter>, i: int)
    requires
        0 <= i < skipped.len(),
    ensures
        skipped_lines(skipped).len() == skipped.len(),
        skipped_lines(skipped)[i] == "  "@ + skipped[i].alias@ + " — "@ + skipped[i].reason@,
{
}

/// What can be asked for: a type that is known and a name that can be sent; the type is looked at first.
pub proof fn law_what_can_be_asked(name: Seq<char>, t: Seq<char>)
    ensures
        unaskable(name, t) is None <==> qtype(t) is Some && label_fault(labels_of(name)) is None,
        qtype(t) is None ==> unaskable(name, t) == Some(
            "неизвестный тип записи «"@ + t + "» (A, AAAA, CNAME, TXT)"@,
        ),
        qtype(t) is Some ==> (label_fault(labels_of(name)) matches Some(fault) ==> unaskable(name, t)
            == Some(fault.says(name))),
{
}

/// An answer is a good one exactly where it can be read and its response code is zero; a line of what is
/// said of it gives the code and the number of records, and a line each record.
pub proof fn law_what_an_answer_says(m: Seq<u8>, ms: u64, i: int)
    requires
        answer_section(m) is Ok,
        m.len() >= 12,
    ensures
        answers_well(m) <==> m[3] % 16 == 0,
        doh_answer(m, ms)[0] == "Ответ за "@ + decimal(ms as nat) + " мс: "@ + rcode_text(
            (m[3] % 16) as u8,
        ) + " ("@ + decimal((m[3] % 16) as nat) + "), записей: "@ + decimal(
            (m[6] * 256 + m[7]) as nat,
        ),
        0 <= i < answer_section(m)->Ok_0.len() ==> doh_answer(m, ms)[1 + i] == "  "@ + record_line(
            m,
            answer_section(m)->Ok_0[i],
        ),
        m[3] % 16 != 5 ==> doh_answer(m, ms).len() == 1 + answer_section(m)->Ok_0.len(),
        m[3] % 16 == 5 ==> doh_answer(m, ms).len() == 5 + answer_section(m)->Ok_0.len(),
{
    assert(record_lines(m, answer_section(m)->Ok_0).len() == answer_section(m)->Ok_0.len());
}

/// What a probe says: the settings, where the resolver is, how many adapters are configured and which,
/// how many are passed over and which, and whether there is a record.
pub proof fn law_what_a_probe_says(
    settings: Settings,
    selection: AdapterSelection,
    states: Seq<(DnsState, DnsState)>,
    backup: bool,
    i: int,
)
    ensures
        ({
            let lines = probe_lines(settings, selection, states, backup);
            let n = selection.chosen@.len() as int;
            let k = selection.skipped@.len() as int;
            let gap = if n == 0 {
                1int
            } else {
                0
            };
            &&& lines.len() == 4 + 4 * n + gap + 2 + k + 2
            &&& lines[0] == "Настройки: IPv6="@ + truth(settings.ipv6) + ", VPN-адаптеры="@ + truth(
                settings.include_vpn_adapters,
            )
            &&& lines[1] == "Резолвер: "@ + DOH_URL@ + " -> "@ + built_in_list()
            &&& lines[3] == "Будут настроены ("@ + decimal(n as nat) + "):"@
            &&& 0 <= i < 4 * n ==> lines[4 + i] == chosen_lines(selection.chosen@, states)[i]
            &&& n == 0 ==> lines[4] == "  (ни одного — включать защиту сейчас нельзя)"@
            &&& lines[4 + 4 * n + gap + 1] == "Пропущены ("@ + decimal(k as nat) + "):"@
            &&& 0 <= i < k ==> lines[4 + 4 * n + gap + 2 + i] == skipped_lines(
                selection.skipped@,
            )[i]
            &&& backup ==> lines.last() == "Резервная копия: "@ + "есть"@
            &&& !backup ==> lines.last() == "Резервная копия: "@ + "нет"@
        }),
        truth(true) == "true"@,
        truth(false) == "false"@,
        built_in_list() == "["@ + joined(v4_forms(built_in_v4()), ", "@) + "]"@,
{
    let n = selection.chosen@.len() as int;
    if n > 0 {
        law_four_lines_for_an_adapter(selection.chosen@, states, 0);
    } else {
        assert(chosen_lines(selection.chosen@, states).len() == 0);
    }
}

/// What is said before a question is asked and where it got no answer.
pub proof fn law_what_a_question_says(name: Seq<char>, t: Seq<char>, e: Seq<char>, ms: u64, m: Vec<u8>, s: String)
    ensures
        doh_head(name, t)[0] == "Запрос: "@ + name + " "@ + t + " -> "@ + DOH_URL@,
        doh_head(name, t)[1] == "Адреса узлов: "@ + built_in_list(),
        doh_head(name, t).len() == 3,
        doh_failure(e)[0] == "НЕ УДАЛОСЬ: "@ + e,
        doh_failure(e).len() == 7,
        doh_outcome(Err(s)) == doh_failure(s@),
        answer_section(m@) is Ok ==> doh_outcome(Ok((ms, m))) == doh_answer(m@, ms),
        answer_section(m@) matches Err(fault) ==> doh_outcome(Ok((ms, m))) == seq![
            "Ответ за "@ + decimal(ms as nat) + " мс не удалось разобрать: "@ + fault.says(),
        ],
        answer_section(m@) is Err ==> !answers_well(m@),
{
}

/// The names and limits that the service is known by.
pub proof fn law_the_service_by_its_names()
    ensures
        SERVICE_NAME@ == "DnsAiClient"@,
        DISPLAY_NAME@ == "DNS-AI — защищённый DNS"@,
        ERROR_SERVICE_DOES_NOT_EXIST == 1060,
        STOP_TIMEOUT_MS == 30_000,
        STOP_TIMED_OUT@ == "служба не остановилась за 30 секунд"@,
        NO_MANAGER@ == "не удалось открыть менеджер служб — нужны права администратора"@,
{
}

/// A stop never starts the service, a start never stops it, and a restart starts it once it stopped.
pub proof fn law_controls_do_what_they_name(c: Controlling)
    requires
        c.wf(),
    ensures
        c.what == Control::Restart ==> c.after_stop() == ControlPhase::Start,
        c.what != Control::Restart ==> c.after_stop() == ControlPhase::Over,
        c.what == Control::Stop ==> c.phase != ControlPhase::Start,
        c.what == Control::Start ==> c.phase == ControlPhase::Start || c.phase
            == ControlPhase::Over,
        c.phase != ControlPhase::Over ==> c.error is None,
{
}

/// What is said where the resolver could not be asked, line by line.
pub proof fn law_a_failed_question_in_words(e: Seq<char>)
    ensures
        doh_failure(e) == seq![
            "НЕ УДАЛОСЬ: "@ + e,
            ""@,
            "Что это обычно значит:"@,
            "  - запрос ушёл НЕ из России/Беларуси -> узел молча отбрасывает пакет. Выключите"@,
            "    VPN на этой машине (или на хосте, если это виртуалка) и повторите"@,
            "  - таймаут или отказ соединения -> узел недоступен, или 443/tcp закрыт в этой сети"@,
            "  - ошибка проверки сертификата  -> перехват TLS (корпоративный прокси, антивирус)"@,
        ],
{
}

} // verus!
