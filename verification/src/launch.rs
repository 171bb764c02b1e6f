//! What a command line asks for, and a run of the program with administrator rights.

use vstd::prelude::*;

use crate::service::{two, Control};
use crate::text::{join, push_decimal, same_text};
#[allow(unused_imports)]
use crate::text::{decimal, joined, law_split_undoes_join, pieces, texts, texts_push};

verus! {

/// What the help says.
pub const USAGE: &'static str =
    "DNS-AI — защищённый DNS для Windows\n\nПрограмма портативная: просто запустите её, настройки лягут в папку config рядом.\nВсё нужное есть в окне; команды ниже — для служебных задач.\n\n  dns-ai                     окно и значок в трее\n  dns-ai --tray              то же, но свёрнуто (используется при входе в систему)\n  dns-ai install             зарегистрировать службу по текущему пути файла\n  dns-ai uninstall           остановить, вернуть DNS, удалить службу\n  dns-ai start|stop|restart  управление службой\n  dns-ai run-console         резолвер в консоли, журнал в stderr\n  dns-ai probe               ТОЛЬКО ЧТЕНИЕ: адаптеры и их текущий DNS\n  dns-ai test-doh [имя] [тип]  ТОЛЬКО ЧТЕНИЕ: один DoH-запрос к резолверу\n  dns-ai setup|remove        установка в Program Files — больше не нужна, оставлена\n                             для машин, где она уже выполнялась";

/// What a command line asks for.
#[derive(Debug)]
pub enum Launch {
    /// The window. `act` is the click of the window that started this one, if one did; where none
    /// did, there may be only one window.
    Window { show: bool, act: Option<bool> },
    /// The service itself.
    Service,
    Setup,
    Remove,
    Install,
    Uninstall,
    Control(Control),
    RunConsole,
    Probe,
    /// One question to the resolver.
    TestDoh { name: String, qtype: String },
    Help,
    Unknown(String),
}

/// The argument at a place, or else a text.
pub open spec fn argument(args: Seq<Seq<char>>, i: int, fallback: Seq<char>) -> Seq<char> {
    if i < args.len() {
        args[i]
    } else {
        fallback
    }
}

/// Whether a launch is what a command line asks for. The first argument is the program's own name.
pub open spec fn asked(args: Seq<Seq<char>>, r: Launch) -> bool {
    let verb = argument(args, 1, ""@);
    match r {
        Launch::Window { show, act } => {
            ||| verb == "--enable"@ && show && act == Some(true)
            ||| verb == "--disable"@ && show && act == Some(false)
            ||| verb == ""@ && show && act is None
            ||| verb == "--tray"@ && !show && act is None
        },
        Launch::Service => verb == "service"@,
        Launch::Setup => verb == "setup"@,
        Launch::Remove => verb == "remove"@,
        Launch::Install => verb == "install"@,
        Launch::Uninstall => verb == "uninstall"@,
        Launch::Control(Control::Start) => verb == "start"@,
        Launch::Control(Control::Stop) => verb == "stop"@,
        Launch::Control(Control::Restart) => verb == "restart"@,
        Launch::RunConsole => verb == "run-console"@,
        Launch::Probe => verb == "probe"@,
        Launch::TestDoh { name, qtype } => verb == "test-doh"@ && name@ == argument(
            args,
            2,
            "proto.dns-ai.ru"@,
        ) && qtype@ == argument(args, 3, "TXT"@),
        Launch::Help => verb == "-h"@ || verb == "--help"@ || verb == "help"@,
        Launch::Unknown(other) => other@ == verb && !known(verb),
    }
}

/// Whether an argument is one that the program knows.
pub open spec fn known(verb: Seq<char>) -> bool {
    ||| verb == ""@
    ||| verb == "--tray"@
    ||| verb == "--enable"@
    ||| verb == "--disable"@
    ||| verb == "service"@
    ||| verb == "setup"@
    ||| verb == "remove"@
    ||| verb == "install"@
    ||| verb == "uninstall"@
    ||| verb == "start"@
    ||| verb == "stop"@
    ||| verb == "restart"@
    ||| verb == "run-console"@
    ||| verb == "probe"@
    ||| verb == "test-doh"@
    ||| verb == "-h"@
    ||| verb == "--help"@
    ||| verb == "help"@
}

fn argument_or(args: &Vec<String>, i: usize, fallback: &str) -> (r: String)
    ensures
        r@ == argument(texts(args@), i as int, fallback@),
{
    if i < args.len() {
        args[i].clone()
    } else {
        fallback.to_owned()
    }
}

/// Tells what a command line asks for. The first argument is the program's own name.
pub fn launch(args: &Vec<String>) -> (r: Launch)
    ensures
        asked(texts(args@), r),
{
    let first = argument_or(args, 1, "");
    let verb: &str = first.as_str();
    if same_text(verb, "--enable") {
        return Launch::Window { show: true, act: Some(true) };
    }
    if same_text(verb, "--disable") {
        return Launch::Window { show: true, act: Some(false) };
    }
    if same_text(verb, "") {
        return Launch::Window { show: true, act: None };
    }
    if same_text(verb, "--tray") {
        return Launch::Window { show: false, act: None };
    }
    if same_text(verb, "service") {
        return Launch::Service;
    }
    if same_text(verb, "setup") {
        return Launch::Setup;
    }
    if same_text(verb, "remove") {
        return Launch::Remove;
    }
    if same_text(verb, "install") {
        return Launch::Install;
    }
    if same_text(verb, "uninstall") {
        return Launch::Uninstall;
    }
    if same_text(verb, "start") {
        return Launch::Control(Control::Start);
    }
    if same_text(verb, "stop") {
        return Launch::Control(Control::Stop);
    }
    if same_text(verb, "restart") {
        return Launch::Control(Control::Restart);
    }
    if same_text(verb, "run-console") {
        return Launch::RunConsole;
    }
    if same_text(verb, "probe") {
        return Launch::Probe;
    }
    if same_text(verb, "test-doh") {
        return Launch::TestDoh {
            name: argument_or(args, 2, "proto.dns-ai.ru"),
            qtype: argument_or(args, 3, "TXT"),
        };
    }
    if same_text(verb, "-h") || same_text(verb, "--help") || same_text(verb, "help") {
        return Launch::Help;
    }
    Launch::Unknown(first)
}

/// How a window comes up.
#[derive(Clone, Copy, Debug, PartialEq, Eq, Structural)]
pub enum Opening {
    Open,
    /// The window that is there is asked to show itself.
    Signal,
    /// Nothing happens.
    Silence,
}

/// Decides how a window comes up that no other window started. There is one in a session, but a copy
/// from elsewhere than the installed one is exempt, and does not ask. `claimed` tells whether the
/// claim was won, where it was made. Only a window that somebody asked to see raises the one that is
/// there.
pub fn opening(show: bool, other_copy: bool, claimed: bool) -> (r: Opening)
    ensures
        r == (if other_copy || claimed {
            Opening::Open
        } else if show {
            Opening::Signal
        } else {
            Opening::Silence
        }),
{
    if other_copy || claimed {
        Opening::Open
    } else if show {
        Opening::Signal
    } else {
        Opening::Silence
    }
}

/// The place of the first argument that is `what`, from `i` on.
pub open spec fn place_of(args: Seq<Seq<char>>, what: Seq<char>, i: int) -> int
    decreases (if i < args.len() {
        args.len() - i
    } else {
        0
    }),
{
    if i >= args.len() || args[i] == what {
        i
    } else {
        place_of(args, what, i + 1)
    }
}

/// The value by which the window that asked knows its report: what stands behind the first
/// `--report`.
pub open spec fn nonce_in(args: Seq<Seq<char>>) -> Option<Seq<char>> {
    let i = place_of(args, "--report"@, 0);
    if i + 1 < args.len() {
        Some(args[i + 1])
    } else {
        None
    }
}

/// The value by which the window that asked knows its report, if one asked.
pub fn report_nonce(args: &Vec<String>) -> (r: Option<String>)
    ensures
        match r {
            Some(n) => nonce_in(texts(args@)) == Some(n@),
            None => nonce_in(texts(args@)) is None,
        },
{
    let mut i: usize = 0;
    while i < args.len()
        invariant
            i <= args@.len(),
            place_of(texts(args@), "--report"@, 0) == place_of(texts(args@), "--report"@, i as int),
        decreases args@.len() - i,
    {
        assert(texts(args@)[i as int] == args@[i as int]@);
        if same_text(args[i].as_str(), "--report") {
            if args.len() - i > 1 {
                assert(texts(args@)[i + 1] == args@[i + 1]@);
                return Some(args[i + 1].clone());
            }
            return None;
        }
        i += 1;
    }
    None
}

/// Whether a removal is to say nothing.
pub fn is_quiet(args: &Vec<String>) -> (r: bool)
    ensures
        r == texts(args@).contains("--quiet"@),
{
    let mut i: usize = 0;
    while i < args.len()
        invariant
            i <= args@.len(),
            forall|k: int| 0 <= k < i ==> texts(args@)[k] != "--quiet"@,
        decreases args@.len() - i,
    {
        assert(texts(args@)[i as int] == args@[i as int]@);
        if same_text(args[i].as_str(), "--quiet") {
            return true;
        }
        i += 1;
    }
    false
}

/// The arguments that a removal without administrator rights starts itself with. Nothing is passed
/// on but that it is to be quiet.
pub fn remove_args(quiet: bool) -> (r: Vec<String>)
    ensures
        texts(r@) == (if quiet {
            seq!["remove"@, "--quiet"@]
        } else {
            seq!["remove"@]
        }),
{
    broadcast use texts_push;

    let mut v: Vec<String> = Vec::new();
    v.push("remove".to_owned());
    if quiet {
        v.push("--quiet".to_owned());
        assert(texts(v@) =~= seq!["remove"@, "--quiet"@]);
    } else {
        assert(texts(v@) =~= seq!["remove"@]);
    }
    v
}

/// What became of a run with administrator rights.
#[derive(Clone, Copy, Debug, PartialEq, Eq, Structural)]
pub enum Outcome {
    /// It ran to its end. Zero means that it did what it was to do.
    Exited(u32),
    /// The question for the rights was answered with no.
    Declined,
}

/// What a removal without administrator rights does once the one with them has ended.
#[derive(Clone, Copy, Debug, PartialEq, Eq, Structural)]
pub enum AfterRemoval {
    /// It says that it was cancelled, and fails.
    Cancelled,
    /// It takes the program out of this user's Run key.
    ForgetAutostart,
    /// It ends as the other one did.
    Exit(u32),
}

/// What a removal that was cancelled says.
pub const REMOVAL_CANCELLED: &'static str =
    "Отменено: без прав администратора удалить программу нельзя.";

/// Decides what a removal without administrator rights does once the one with them has ended.
pub fn after_removal(outcome: Outcome) -> (r: AfterRemoval)
    ensures
        r == (match outcome {
            Outcome::Declined => AfterRemoval::Cancelled,
            Outcome::Exited(0) => AfterRemoval::ForgetAutostart,
            Outcome::Exited(code) => AfterRemoval::Exit(code),
        }),
{
    match outcome {
        Outcome::Declined => AfterRemoval::Cancelled,
        Outcome::Exited(code) => if code == 0 {
            AfterRemoval::ForgetAutostart
        } else {
            AfterRemoval::Exit(code)
        },
    }
}

/// The box that tells somebody how a removal ended: none where the window that asked does, where
/// there is a console to write to, or where it is to be quiet.
pub fn removal_box(
    outcome: &Result<Vec<String>, String>,
    asked_by_window: bool,
    has_console: bool,
    quiet: bool,
) -> (r: Option<String>)
    ensures
        match r {
            None => asked_by_window || has_console || quiet,
            Some(text) => !asked_by_window && !has_console && !quiet && text@ == box_text(*outcome),
        },
{
    if asked_by_window || has_console || quiet {
        return None;
    }
    match outcome {
        Ok(lines) => Some(join(lines, "\n")),
        Err(e) => Some(two("Не удалось удалить DNS-AI.\n\n", e.as_str())),
    }
}

/// How far a removal of the program has come.
#[derive(Clone, Copy, Debug, PartialEq, Eq, Structural)]
pub enum RemovalPhase {
    /// The removal is to be started once more, with administrator rights.
    Elevate,
    /// The program is to be taken out of this user's Run key.
    Forget,
    /// The program is to be removed.
    Remove,
    /// The report is to be left for the window that asked.
    Report,
    /// The box with `text` is to be shown.
    Tell,
    /// The data folder is to be left to Windows for when it starts again.
    Schedule,
    Over,
}

/// The removal of the program, as a command.
#[derive(Debug)]
pub struct Removing {
    pub phase: RemovalPhase,
    pub quiet: bool,
    pub has_console: bool,
    /// The value by which the window that asked knows its report.
    pub nonce: Option<String>,
    /// What is to be done after the removal with administrator rights that was started.
    pub after: Option<AfterRemoval>,
    /// How the removal ended, where it was this process that removed, or that could not start one.
    pub outcome: Option<Result<Vec<String>, String>>,
    pub text: Option<String>,
}

/// What comes once everybody who waits has been told.
pub open spec fn last_step(outcome: Option<Result<Vec<String>, String>>) -> RemovalPhase {
    if outcome is Some && outcome->0 is Ok {
        RemovalPhase::Schedule
    } else {
        RemovalPhase::Over
    }
}

/// What the box says.
pub open spec fn box_text(outcome: Result<Vec<String>, String>) -> Seq<char> {
    match outcome {
        Ok(lines) => joined(texts(lines@), "\n"@),
        Err(e) => "Не удалось удалить DNS-AI.\n\n"@ + e@,
    }
}

impl Removing {
    /// What holds at every step. The folder that holds the report goes only after a removal that
    /// succeeded.
    pub open spec fn wf(&self) -> bool {
        match self.phase {
            RemovalPhase::Elevate | RemovalPhase::Remove => self.outcome is None
                && self.after is None && self.text is None,
            RemovalPhase::Forget => self.outcome is None && self.after == Some(
                AfterRemoval::ForgetAutostart,
            ),
            RemovalPhase::Report => self.outcome is Some && self.after is None && self.nonce is Some
                && self.text is None,
            RemovalPhase::Tell => self.outcome is Some && self.after is None && self.nonce is None
                && self.text is Some,
            RemovalPhase::Schedule => self.outcome is Some && self.outcome->0 is Ok
                && self.after is None,
            RemovalPhase::Over => self.outcome is Some != self.after is Some,
        }
    }

    /// The removal after a step that changes nothing but how far it has come.
    pub open spec fn moved_on(&self, before: Removing, phase: RemovalPhase) -> bool {
        self.wf() && *self == (Removing { phase, ..before })
    }

    /// Starts a removal. Without administrator rights it starts itself once more, with them.
    pub fn begin(args: &Vec<String>, has_console: bool, elevated: bool) -> (r: Removing)
        ensures
            r.wf(),
            r.phase == (if elevated {
                RemovalPhase::Remove
            } else {
                RemovalPhase::Elevate
            }),
            r.quiet == texts(args@).contains("--quiet"@),
            r.has_console == has_console,
            match r.nonce {
                Some(n) => nonce_in(texts(args@)) == Some(n@),
                None => nonce_in(texts(args@)) is None,
            },
    {
        let phase: RemovalPhase = if elevated {
            RemovalPhase::Remove
        } else {
            RemovalPhase::Elevate
        };
        Removing {
            phase,
            quiet: is_quiet(args),
            has_console,
            nonce: report_nonce(args),
            after: None,
            outcome: None,
            text: None,
        }
    }

    /// The removal with administrator rights ended, or could not be started.
    pub fn elevated(&mut self, run: Result<Outcome, String>)
        requires
            old(self).wf(),
            old(self).phase == RemovalPhase::Elevate,
        ensures
            final(self).wf(),
            match run {
                Err(e) => *final(self) == (Removing {
                    phase: RemovalPhase::Over,
                    outcome: Some(Err(e)),
                    ..*old(self)
                }),
                Ok(Outcome::Declined) => *final(self) == (Removing {
                    phase: RemovalPhase::Over,
                    after: Some(AfterRemoval::Cancelled),
                    ..*old(self)
                }),
                Ok(Outcome::Exited(code)) => *final(self) == (if code == 0 {
                    Removing {
                        phase: RemovalPhase::Forget,
                        after: Some(AfterRemoval::ForgetAutostart),
                        ..*old(self)
                    }
                } else {
                    Removing {
                        phase: RemovalPhase::Over,
                        after: Some(AfterRemoval::Exit(code)),
                        ..*old(self)
                    }
                }),
            },
    {
        match run {
            Err(e) => {
                self.outcome = Some(Err(e));
                self.phase = RemovalPhase::Over;
            },
            Ok(o) => {
                let after: AfterRemoval = after_removal(o);
                self.after = Some(after);
                self.phase = match after {
                    AfterRemoval::ForgetAutostart => RemovalPhase::Forget,
                    _ => RemovalPhase::Over,
                };
            },
        }
    }

    /// The program was taken out of this user's Run key.
    pub fn forgotten(&mut self)
        requires
            old(self).wf(),
            old(self).phase == RemovalPhase::Forget,
        ensures
            final(self).moved_on(*old(self), RemovalPhase::Over),
    {
        self.phase = RemovalPhase::Over;
    }

    fn last_phase(&self) -> (r: RemovalPhase)
        ensures
            r == last_step(self.outcome),
    {
        match &self.outcome {
            Some(Ok(_)) => RemovalPhase::Schedule,
            _ => RemovalPhase::Over,
        }
    }

    /// The program was removed, or could not be. A window that asked gets a report. Where nobody asked
    /// and nobody watches there is a box.
    pub fn removed(&mut self, outcome: Result<Vec<String>, String>)
        requires
            old(self).wf(),
            old(self).phase == RemovalPhase::Remove,
        ensures
            final(self).wf(),
            final(self).outcome == Some(outcome),
            ({
                let shown = old(self).nonce is None && !old(self).has_console && !old(self).quiet;
                &&& final(self).phase == (if old(self).nonce is Some {
                    RemovalPhase::Report
                } else if shown {
                    RemovalPhase::Tell
                } else {
                    last_step(Some(outcome))
                })
                &&& final(self).text is Some == shown
                &&& shown ==> final(self).text->0@ == box_text(outcome)
            }),
            *final(self) == (Removing {
                phase: final(self).phase,
                outcome: Some(outcome),
                text: final(self).text,
                ..*old(self)
            }),
    {
        self.text = removal_box(&outcome, self.nonce.is_some(), self.has_console, self.quiet);
        self.outcome = Some(outcome);
        self.phase = if self.nonce.is_some() {
            RemovalPhase::Report
        } else if self.text.is_some() {
            RemovalPhase::Tell
        } else {
            self.last_phase()
        };
    }

    /// The report is there.
    pub fn reported(&mut self)
        requires
            old(self).wf(),
            old(self).phase == RemovalPhase::Report,
        ensures
            final(self).moved_on(*old(self), last_step(old(self).outcome)),
    {
        self.phase = self.last_phase();
    }

    /// The box was shown.
    pub fn told(&mut self)
        requires
            old(self).wf(),
            old(self).phase == RemovalPhase::Tell,
        ensures
            final(self).moved_on(*old(self), last_step(old(self).outcome)),
    {
        self.phase = self.last_phase();
    }

    /// The data folder was left to Windows.
    pub fn scheduled(&mut self)
        requires
            old(self).wf(),
            old(self).phase == RemovalPhase::Schedule,
        ensures
            final(self).moved_on(*old(self), RemovalPhase::Over),
    {
        self.phase = RemovalPhase::Over;
    }
}

/// What Windows says of a question that was answered with no.
pub const ERROR_CANCELLED: u32 = 1223;

/// After so many milliseconds a run with administrator rights is given up.
pub const WAIT_MS: u32 = 180_000;

/// The arguments of a run with administrator rights, as one text.
pub fn parameters(args: &Vec<String>) -> (r: String)
    ensures
        r@ == joined(texts(args@), seq![' ']),
{
    proof {
        reveal_strlit(" ");
        assert(" "@ =~= seq![' ']);
    }
    join(args, " ")
}

/// Arguments without spaces arrive as they were given, though nothing quotes them.
pub proof fn law_arguments_arrive(args: Seq<Seq<char>>)
    requires
        args.len() > 0,
        forall|i: int| 0 <= i < args.len() ==> !(#[trigger] args[i]).contains(' '),
    ensures
        pieces(joined(args, seq![' ']), seq![' ']) == args,
{
    law_split_undoes_join(args, ' ');
}

/// How a run with administrator rights went.
#[derive(Clone, Copy, Debug, PartialEq, Eq, Structural)]
pub enum Run {
    /// It did not start, with this code.
    NotStarted(u32),
    /// There is no process to wait for.
    NoProcess,
    /// It did not end in time.
    TimedOut,
    /// It ended, but how is not known.
    NoCode,
    Ended(u32),
}

/// What a run that did not start is reported as.
pub open spec fn not_started(code: u32) -> Seq<char> {
    "не удалось запустить с правами администратора (код "@ + decimal(code as nat) + ")"@
}

fn not_started_text(code: u32) -> (r: String)
    ensures
        r@ == not_started(code),
{
    let mut t = "не удалось запустить с правами администратора (код ".to_owned();
    push_decimal(&mut t, code as u64);
    t.append(")");
    t
}

/// Tells what became of a run with administrator rights. That the question was answered with no is
/// a decision and not a failure.
pub fn run_self(run: Run) -> (r: Result<Outcome, String>)
    ensures
        match run {
            Run::NotStarted(code) => if code == ERROR_CANCELLED {
                r == Ok::<Outcome, String>(Outcome::Declined)
            } else {
                r is Err && r->Err_0@ == not_started(code)
            },
            Run::NoProcess => r is Err && r->Err_0@
                == "Windows не вернула дескриптор запущенного процесса"@,
            Run::TimedOut => r is Err && r->Err_0@ == "операция не завершилась за "@ + decimal(
                (WAIT_MS / 1000) as nat,
            ) + " с"@,
            Run::NoCode => r is Err && r->Err_0@ == "не удалось прочитать код завершения"@,
            Run::Ended(code) => r == Ok::<Outcome, String>(Outcome::Exited(code)),
        },
{
    match run {
        Run::NotStarted(code) => if code == ERROR_CANCELLED {
            Ok(Outcome::Declined)
        } else {
            Err(not_started_text(code))
        },
        Run::NoProcess => Err("Windows не вернула дескриптор запущенного процесса".to_owned()),
        Run::TimedOut => {
            let mut t = "операция не завершилась за ".to_owned();
            push_decimal(&mut t, (WAIT_MS / 1000) as u64);
            t.append(" с");
            Err(t)
        },
        Run::NoCode => Err("не удалось прочитать код завершения".to_owned()),
        Run::Ended(code) => Ok(Outcome::Exited(code)),
    }
}

/// Tells what became of the start of another copy with administrator rights, which is not waited
/// for. `failed` is the code where it did not start.
pub fn run_self_detached(failed: Option<u32>) -> (r: Result<Outcome, String>)
    ensures
        match failed {
            None => r == Ok::<Outcome, String>(Outcome::Exited(0)),
            Some(code) => if code == ERROR_CANCELLED {
                r == Ok::<Outcome, String>(Outcome::Declined)
            } else {
                r is Err && r->Err_0@ == not_started(code)
            },
        },
{
    match failed {
        None => Ok(Outcome::Exited(0)),
        Some(code) => run_self(Run::NotStarted(code)),
    }
}

/// Each verb starts what it is for and nothing else; without one the window opens; and what is no verb
/// is said to be unknown.
pub proof fn law_verbs_start_what_they_name(args: Seq<Seq<char>>, r: Launch)
    requires
        asked(args, r),
    ensures
        args.len() < 2 ==> r == (Launch::Window { show: true, act: None }),
        args.len() >= 2 ==> {
            &&& args[1] == ""@ ==> r == (Launch::Window { show: true, act: None })
            &&& args[1] == "--tray"@ ==> r == (Launch::Window { show: false, act: None })
            &&& args[1] == "--enable"@ ==> r == (Launch::Window { show: true, act: Some(true) })
            &&& args[1] == "--disable"@ ==> r == (Launch::Window { show: true, act: Some(false) })
            &&& args[1] == "service"@ ==> r is Service
            &&& args[1] == "setup"@ ==> r is Setup
            &&& args[1] == "remove"@ ==> r is Remove
            &&& args[1] == "install"@ ==> r is Install
            &&& args[1] == "uninstall"@ ==> r is Uninstall
            &&& args[1] == "start"@ ==> r == Launch::Control(Control::Start)
            &&& args[1] == "stop"@ ==> r == Launch::Control(Control::Stop)
            &&& args[1] == "restart"@ ==> r == Launch::Control(Control::Restart)
            &&& args[1] == "run-console"@ ==> r is RunConsole
            &&& args[1] == "probe"@ ==> r is Probe
            &&& args[1] == "-h"@ || args[1] == "--help"@ || args[1] == "help"@ ==> r is Help
            &&& args[1] == "test-doh"@ ==> (r matches Launch::TestDoh { name, qtype } && name@ == (
            if args.len() > 2 {
                args[2]
            } else {
                "proto.dns-ai.ru"@
            }) && qtype@ == (if args.len() > 3 {
                args[3]
            } else {
                "TXT"@
            }))
            &&& r matches Launch::Unknown(other) ==> other@ == args[1]
        },
{
    reveal_strlit("--enable");
    reveal_strlit("--disable");
    reveal_strlit("");
    reveal_strlit("--tray");
    reveal_strlit("service");
    reveal_strlit("setup");
    reveal_strlit("remove");
    reveal_strlit("install");
    reveal_strlit("uninstall");
    reveal_strlit("start");
    reveal_strlit("stop");
    reveal_strlit("restart");
    reveal_strlit("run-console");
    reveal_strlit("probe");
    reveal_strlit("test-doh");
    reveal_strlit("-h");
    reveal_strlit("--help");
    reveal_strlit("help");
    assert(""@.len() == 0 && "-h"@.len() == 2 && "help"@.len() == 4 && "stop"@.len() == 4);
    assert("setup"@.len() == 5 && "start"@.len() == 5 && "probe"@.len() == 5);
    assert("--tray"@.len() == 6 && "--help"@.len() == 6 && "remove"@.len() == 6);
    assert("service"@.len() == 7 && "install"@.len() == 7 && "restart"@.len() == 7);
    assert("--enable"@.len() == 8 && "test-doh"@.len() == 8 && "uninstall"@.len() == 9);
    assert("--disable"@.len() == 9 && "run-console"@.len() == 11);
    assert("--enable"@[0] == '-' && "--disable"@[0] == '-' && "--tray"@[0] == '-');
    assert("--tray"@[2] == 't' && "--help"@[2] == 'h');
    assert("--help"@[0] == '-' && "-h"@[0] == '-' && "help"@[0] == 'h');
    assert("service"@[0] == 's' && "stop"@[0] == 's' && "install"@[0] == 'i');
    assert("setup"@[1] == 'e' && "start"@[1] == 't' && "probe"@[1] == 'r');
    assert("remove"@[0] == 'r' && "restart"@[0] == 'r' && "run-console"@[0] == 'r');
    assert("uninstall"@[0] == 'u' && "test-doh"@[0] == 't');
}

proof fn lemma_place_is(args: Seq<Seq<char>>, what: Seq<char>, i: int, k: int)
    requires
        0 <= i <= k <= args.len(),
        forall|j: int| i <= j < k ==> #[trigger] args[j] != what,
        k < args.len() ==> args[k] == what,
    ensures
        place_of(args, what, i) == k,
    decreases k - i,
{
    if i < k {
        lemma_place_is(args, what, i + 1, k);
    }
}

/// The value that a report is to carry is the argument behind the first that asks for one; there is none
/// where nothing asks, or nothing stands behind it.
pub proof fn law_the_value_behind_the_request(args: Seq<Seq<char>>, k: int)
    requires
        0 <= k <= args.len(),
        forall|j: int| 0 <= j < k ==> #[trigger] args[j] != "--report"@,
        k < args.len() ==> args[k] == "--report"@,
    ensures
        k + 1 < args.len() ==> nonce_in(args) == Some(args[k + 1]),
        k + 1 >= args.len() ==> nonce_in(args) is None,
{
    lemma_place_is(args, "--report"@, 0, k);
}

/// What the last box says: the lines one below the other, or that nothing was removed and why.
pub proof fn law_what_the_last_box_says(lines: Vec<String>, e: String)
    ensures
        box_text(Ok(lines)) == joined(texts(lines@), "\n"@),
        box_text(Err(e)) == "Не удалось удалить DNS-AI.\n\n"@ + e@,
        last_step(Some(Ok(lines))) == RemovalPhase::Schedule,
        last_step(Some(Err(e))) == RemovalPhase::Over,
        last_step(None) == RemovalPhase::Over,
        ERROR_CANCELLED == 1223,
        WAIT_MS == 180_000,
{
}

/// What is said where a start with administrator rights failed.
pub proof fn law_a_failed_start_in_words(code: u32)
    ensures
        not_started(code) == "не удалось запустить с правами администратора (код "@ + decimal(
            code as nat,
        ) + ")"@,
        REMOVAL_CANCELLED@ == "Отменено: без прав администратора удалить программу нельзя."@,
{
}

} // verus!
