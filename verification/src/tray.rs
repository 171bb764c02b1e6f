//! The window and the icon in the notification area: what they know, what they show, and what a click
//! asks for.

use vstd::prelude::*;

use crate::config::{
    resolver_ips_text, resolver_ipv6_text, Mode, Settings, DOH_URL, DOT_DOQ_HOST,
};
use crate::ipc::{AdapterView, Request, Response, Status};
use crate::launch::Outcome;
use crate::report::ActionReport;
use crate::service::{say, three, two, Installed};
use crate::text::push_decimal;
#[allow(unused_imports)]
use crate::config::{built_in_v4, built_in_v6, v4_forms, v6_forms};
#[allow(unused_imports)]
use crate::launch::{asked, nonce_in, place_of, Launch};
#[allow(unused_imports)]
use crate::text::{decimal, texts, texts_push};

verus! {

/// How often the state is asked for while the window is on screen, and while it is not, in
/// milliseconds.
pub const POLL_VISIBLE_MS: u64 = 2_000;

pub const POLL_HIDDEN_MS: u64 = 20_000;

/// How long to wait before the state is asked for, in milliseconds.
pub fn interval(visible: bool) -> (r: u64)
    ensures
        r == (if visible {
            POLL_VISIBLE_MS
        } else {
            POLL_HIDDEN_MS
        }),
{
    if visible {
        POLL_VISIBLE_MS
    } else {
        POLL_HIDDEN_MS
    }
}

/// How long the worker waits for something to do, in milliseconds: never less than half a second.
pub fn worker_wait(poll_ms: u64) -> (r: u64)
    ensures
        r == (if poll_ms < 500 {
            500
        } else {
            poll_ms
        }),
{
    if poll_ms < 500 {
        500
    } else {
        poll_ms
    }
}

/// What can be done with the service, each with administrator rights.
#[derive(Clone, Copy, Debug, PartialEq, Eq, Structural)]
pub enum Verb {
    Install,
    Uninstall,
    Start,
    Restart,
}

/// The argument that asks for a verb.
pub open spec fn verb_word(v: Verb) -> Seq<char> {
    match v {
        Verb::Install => "install"@,
        Verb::Uninstall => "uninstall"@,
        Verb::Start => "start"@,
        Verb::Restart => "restart"@,
    }
}

/// What a verb is called while it runs.
pub open spec fn verb_title(v: Verb) -> Seq<char> {
    match v {
        Verb::Install => "Установка службы"@,
        Verb::Uninstall => "Удаление службы"@,
        Verb::Start => "Запуск"@,
        Verb::Restart => "Перезапуск"@,
    }
}

impl Verb {
    /// The argument that asks for it.
    pub fn word(&self) -> (r: &'static str)
        ensures
            r@ == verb_word(*self),
    {
        match self {
            Verb::Install => "install",
            Verb::Uninstall => "uninstall",
            Verb::Start => "start",
            Verb::Restart => "restart",
        }
    }

    /// What it is called while it runs.
    pub fn title(&self) -> (r: &'static str)
        ensures
            r@ == verb_title(*self),
    {
        match self {
            Verb::Install => "Установка службы",
            Verb::Uninstall => "Удаление службы",
            Verb::Start => "Запуск",
            Verb::Restart => "Перезапуск",
        }
    }
}

/// What the worker can be asked to do.
#[derive(Clone, Copy, Debug, PartialEq, Eq, Structural)]
pub enum Job {
    Ipc(Request),
    /// Something about the service.
    Elevated(Verb),
    /// The program starts another copy of itself with administrator rights, and hands over to it.
    Elevate { enable: bool },
}

/// What goes on while the worker is busy.
#[derive(Clone, Copy, Debug, PartialEq, Eq, Structural)]
pub enum Work {
    Service(Verb),
    Rights,
}

impl Work {
    /// What it is called.
    pub fn title(&self) -> (r: &'static str)
        ensures
            r@ == (match *self {
                Work::Service(v) => verb_title(v),
                Work::Rights => "Запрос прав администратора"@,
            }),
    {
        match self {
            Work::Service(v) => v.title(),
            Work::Rights => "Запрос прав администратора",
        }
    }
}

/// What the first item of the icon's menu means.
#[derive(Clone, Copy, Debug, PartialEq, Eq, Structural)]
pub enum TrayAction {
    Enable,
    Disable,
    Start,
    /// A service is registered and does not answer.
    Unavailable,
}

impl TrayAction {
    /// What the item says.
    pub fn label(self) -> (r: &'static str)
        ensures
            r@ == (match self {
                TrayAction::Enable => "Включить защиту"@,
                TrayAction::Disable => "Выключить защиту"@,
                TrayAction::Start => "Запустить службу"@,
                TrayAction::Unavailable => "Служба не отвечает"@,
            }),
    {
        match self {
            TrayAction::Enable => "Включить защиту",
            TrayAction::Disable => "Выключить защиту",
            TrayAction::Start => "Запустить службу",
            TrayAction::Unavailable => "Служба не отвечает",
        }
    }

    /// Whether it can be clicked.
    pub fn clickable(self) -> (r: bool)
        ensures
            r == (self != TrayAction::Unavailable),
    {
        self != TrayAction::Unavailable
    }
}

/// The items of the icon's menu.
#[derive(Clone, Copy, Debug, PartialEq, Eq, Structural)]
pub enum MenuItem {
    Action,
    Open,
    Quit,
}

/// What is to be done outside.
#[derive(Clone, Copy, Debug, PartialEq, Eq, Structural)]
pub enum Effect {
    /// The worker gets something to do.
    Send(Job),
    /// The window is shown or hidden.
    Show(bool),
    Close,
    /// The window stays, though it was asked to close.
    CancelClose,
    /// The icon gets the look of protection that is on or off.
    Icon(bool),
    /// The first item of the menu changes.
    Label(TrayAction),
}

/// What an action with administrator rights has to say on screen.
#[derive(Debug)]
pub struct Output {
    pub title: String,
    pub ok: bool,
    pub lines: Vec<String>,
}

/// What the worker answers.
#[derive(Debug)]
pub enum Reply {
    Answered(Status),
    Failed(String, Option<Status>),
    /// A service is registered and does not answer.
    Unreachable(String),
    /// Whether the service exists, and the file it is registered with where that is gone.
    Installed(Installed, Option<String>),
    /// Whether this process now does the work itself.
    Backend(bool),
    /// Another copy is starting, and this one is done.
    HandedOver,
    Output(Output),
}

/// What the window knows.
#[derive(Debug)]
pub struct Tray {
    /// Whether this process does the work itself, there being no service.
    pub local: bool,
    /// Whether this process has administrator rights.
    pub elevated: bool,
    pub status: Option<Status>,
    /// Why the last command failed.
    pub error: Option<String>,
    /// Why the service cannot be reached.
    pub offline: Option<String>,
    pub installed: Option<Installed>,
    /// The file that the service is registered with, where that is gone.
    pub stale: Option<String>,
    /// The mode that was asked for, until the answer catches up.
    pub pending_mode: Option<Mode>,
    /// What the Run key was last brought into agreement with.
    pub autostart_synced: Option<bool>,
    pub output: Option<Output>,
    pub busy: bool,
    pub working: Option<Work>,
    pub visible: bool,
    pub quitting: bool,
    pub icon_state: Option<bool>,
    pub action: TrayAction,
}

/// What the worker is asked to do as soon as there is a window: how things are, and then what the
/// click meant that this window was started for.
pub open spec fn first_requests_for(act: Option<bool>) -> Seq<Request> {
    match act {
        Some(true) => seq![Request::Status, Request::Enable],
        Some(false) => seq![Request::Status, Request::Disable],
        None => seq![Request::Status],
    }
}

/// What the worker is asked to do as soon as there is a window.
pub fn first_requests(act: Option<bool>) -> (r: Vec<Request>)
    ensures
        r@ == first_requests_for(act),
{
    let mut v: Vec<Request> = Vec::new();
    v.push(Request::Status);
    if let Some(enable) = act {
        if enable {
            v.push(Request::Enable);
        } else {
            v.push(Request::Disable);
        }
    }
    assert(v@ =~= first_requests_for(act));
    v
}

/// The argument of a copy that is started with administrator rights.
pub open spec fn act_word(enable: bool) -> Seq<char> {
    if enable {
        "--enable"@
    } else {
        "--disable"@
    }
}

/// The argument of a copy that is started with administrator rights: the click that it is started
/// for.
pub fn act_argument(enable: bool) -> (r: &'static str)
    ensures
        r@ == act_word(enable),
{
    if enable {
        "--enable"
    } else {
        "--disable"
    }
}

/// The click that a copy with administrator rights is started for arrives in it, and is the next
/// thing that it does.
pub proof fn law_the_click_survives(exe: Seq<char>, enable: bool, r: Launch)
    requires
        asked(seq![exe, act_word(enable)], r),
    ensures
        r == (Launch::Window { show: true, act: Some(enable) }),
        first_requests_for(Some(enable)) == seq![
            Request::Status,
            if enable {
                Request::Enable
            } else {
                Request::Disable
            },
        ],
{
    reveal_strlit("--enable");
    reveal_strlit("--disable");
    reveal_strlit("");
    reveal_strlit("--tray");
    reveal_strlit("service");
    reveal_strlit("setup");
    reveal_strlit("remove");
    reveal_strlit("install");
    reveal_strlit("uninstall");
    reveal_strlit("start");
    reveal_strlit("stop");
    reveal_strlit("restart");
    reveal_strlit("run-console");
    reveal_strlit("probe");
    reveal_strlit("test-doh");
    reveal_strlit("-h");
    reveal_strlit("--help");
    reveal_strlit("help");
    let args = seq![exe, act_word(enable)];
    assert(args[1] == act_word(enable));
    assert("--enable"@[2] == 'e');
    assert("--disable"@[2] == 'd');
    assert("--tray"@[2] == 't');
    assert("--help"@[2] == 'h');
    assert("service"@[0] == 's');
    assert("test-doh"@[0] == 't');
    assert("uninstall"@[0] == 'u');
    assert("run-console"@[0] == 'r');
}

/// The arguments of a verb that the window has carried out with administrator rights.
pub open spec fn elevated_words(verb: Verb, nonce: Seq<char>) -> Seq<Seq<char>> {
    seq![verb_word(verb), "--report"@, nonce]
}

/// The arguments of a verb that the window has carried out with administrator rights: the verb, and
/// the value that the report is to carry.
pub fn elevated_args(verb: Verb, nonce: &str) -> (r: Vec<String>)
    ensures
        texts(r@) == elevated_words(verb, nonce@),
{
    broadcast use texts_push;

    let mut v: Vec<String> = Vec::new();
    v.push(verb.word().to_owned());
    v.push("--report".to_owned());
    v.push(nonce.to_owned());
    assert(texts(v@) =~= elevated_words(verb, nonce@));
    v
}

/// The process with administrator rights reads the value that the window made up.
pub proof fn law_the_report_is_answered(exe: Seq<char>, verb: Verb, nonce: Seq<char>)
    requires
        exe != "--report"@,
    ensures
        nonce_in(seq![exe] + elevated_words(verb, nonce)) == Some(nonce),
{
    reveal_strlit("--report");
    reveal_strlit("install");
    reveal_strlit("uninstall");
    reveal_strlit("start");
    reveal_strlit("restart");
    let args = seq![exe] + elevated_words(verb, nonce);
    assert("--report"@[0] == '-');
    assert(verb_word(verb)[0] != '-');
    assert(args[0] == exe && args[1] == verb_word(verb) && args[2] == "--report"@ && args[3]
        == nonce);
    reveal_with_fuel(place_of, 4);
}

impl Tray {
    /// What a window knows when it opens. The worker is busy with the first question.
    pub fn new(visible: bool, local: bool, elevated: bool) -> (r: Tray)
        ensures
            r == (Tray {
                local,
                elevated,
                status: None,
                error: None,
                offline: None,
                installed: None,
                stale: None,
                pending_mode: None,
                autostart_synced: None,
                output: None,
                busy: true,
                working: None,
                visible,
                quitting: false,
                icon_state: None,
                action: TrayAction::Enable,
            }),
    {
        Tray {
            local,
            elevated,
            status: None,
            error: None,
            offline: None,
            installed: None,
            stale: None,
            pending_mode: None,
            autostart_synced: None,
            output: None,
            busy: true,
            working: None,
            visible,
            quitting: false,
            icon_state: None,
            action: TrayAction::Enable,
        }
    }

    /// Whether this process can have the machine's DNS changed.
    pub open spec fn may_change(&self) -> bool {
        !self.local || self.elevated
    }

    /// Whether protection is on, as far as is known.
    pub open spec fn on(&self) -> bool {
        self.status is Some && self.status->0.enabled
    }

    /// With a job for the worker under way.
    pub open spec fn asking(self, working: Option<Work>) -> Tray {
        Tray { busy: true, error: None, working, ..self }
    }

    /// Whether this process can have the machine's DNS changed: through the service, or with
    /// administrator rights of its own.
    pub fn can_change(&self) -> (r: bool)
        ensures
            r == self.may_change(),
    {
        !self.local || self.elevated
    }

    /// Whether protection is on, as far as is known.
    pub fn enabled(&self) -> (r: bool)
        ensures
            r == self.on(),
    {
        match &self.status {
            Some(s) => s.enabled,
            None => false,
        }
    }

    /// Asks the service, or the resolver in this process.
    pub fn send(&mut self, req: Request) -> (r: Job)
        ensures
            r == Job::Ipc(req),
            *final(self) == old(self).asking(old(self).working),
    {
        self.busy = true;
        self.error = None;
        Job::Ipc(req)
    }

    /// Has something done about the service, with administrator rights.
    pub fn start(&mut self, verb: Verb) -> (r: Job)
        ensures
            r == Job::Elevated(verb),
            *final(self) == old(self).asking(Some(Work::Service(verb))),
    {
        self.busy = true;
        self.error = None;
        self.working = Some(Work::Service(verb));
        Job::Elevated(verb)
    }

    /// Starts the program anew with administrator rights, for a click that needs them.
    pub fn elevate(&mut self, enable: bool) -> (r: Job)
        ensures
            r == (Job::Elevate { enable }),
            *final(self) == old(self).asking(Some(Work::Rights)),
    {
        self.busy = true;
        self.error = None;
        self.working = Some(Work::Rights);
        Job::Elevate { enable }
    }

    /// What is to be done to show or hide the window. What a window shows that comes up is old, so
    /// the state is asked for.
    pub open spec fn show_effects(visible: bool) -> Seq<Effect> {
        if visible {
            seq![Effect::Show(true), Effect::Send(Job::Ipc(Request::Status))]
        } else {
            seq![Effect::Show(false)]
        }
    }

    /// Shows or hides the window.
    pub fn set_visible(&mut self, visible: bool) -> (r: Vec<Effect>)
        ensures
            r@ == Tray::show_effects(visible),
            *final(self) == (Tray { visible, ..*old(self) }),
    {
        self.visible = visible;
        let mut out: Vec<Effect> = Vec::new();
        out.push(Effect::Show(visible));
        if visible {
            out.push(Effect::Send(Job::Ipc(Request::Status)));
        }
        assert(out@ =~= Tray::show_effects(visible));
        out
    }

    /// What the first item of the menu is to mean.
    pub open spec fn action_now(&self) -> TrayAction {
        if self.offline is None {
            if self.on() {
                TrayAction::Disable
            } else {
                TrayAction::Enable
            }
        } else if self.installed == Some(Installed::Stopped) && self.stale is None {
            TrayAction::Start
        } else {
            TrayAction::Unavailable
        }
    }

    /// What the first item of the menu is to mean.
    pub fn tray_action(&self) -> (r: TrayAction)
        ensures
            r == self.action_now(),
    {
        if self.offline.is_none() {
            if self.enabled() {
                return TrayAction::Disable;
            }
            return TrayAction::Enable;
        }
        match &self.installed {
            Some(Installed::Stopped) => {
                if self.stale.is_none() {
                    TrayAction::Start
                } else {
                    TrayAction::Unavailable
                }
            },
            _ => TrayAction::Unavailable,
        }
    }

    /// What a click on an item of the menu has done.
    pub open spec fn menu_effects(&self, item: MenuItem) -> Seq<Effect> {
        match item {
            MenuItem::Action => match self.action {
                TrayAction::Enable => seq![
                    Effect::Send(
                        if self.may_change() {
                            Job::Ipc(Request::Enable)
                        } else {
                            Job::Elevate { enable: true }
                        },
                    ),
                ],
                TrayAction::Disable => seq![
                    Effect::Send(
                        if self.may_change() {
                            Job::Ipc(Request::Disable)
                        } else {
                            Job::Elevate { enable: false }
                        },
                    ),
                ],
                TrayAction::Start => seq![Effect::Send(Job::Elevated(Verb::Start))]
                    + Tray::show_effects(true),
                TrayAction::Unavailable => Seq::empty(),
            },
            MenuItem::Open => Tray::show_effects(true),
            MenuItem::Quit => seq![Effect::Close],
        }
    }

    /// What the window knows after a click on an item of the menu.
    pub open spec fn after_menu(self, item: MenuItem) -> Tray {
        match item {
            MenuItem::Action => match self.action {
                TrayAction::Enable | TrayAction::Disable => self.asking(
                    if self.may_change() {
                        self.working
                    } else {
                        Some(Work::Rights)
                    },
                ),
                TrayAction::Start => Tray {
                    visible: true,
                    ..self.asking(Some(Work::Service(Verb::Start)))
                },
                TrayAction::Unavailable => self,
            },
            MenuItem::Open => Tray { visible: true, ..self },
            MenuItem::Quit => Tray { quitting: true, ..self },
        }
    }

    /// An item of the menu was clicked. The first one does what it means at that moment.
    pub fn menu(&mut self, item: MenuItem) -> (r: Vec<Effect>)
        ensures
            r@ == old(self).menu_effects(item),
            *final(self) == old(self).after_menu(item),
    {
        let mut out: Vec<Effect> = Vec::new();
        match item {
            MenuItem::Action => match self.action {
                TrayAction::Enable => {
                    if self.can_change() {
                        out.push(Effect::Send(self.send(Request::Enable)));
                    } else {
                        out.push(Effect::Send(self.elevate(true)));
                    }
                },
                TrayAction::Disable => {
                    if self.can_change() {
                        out.push(Effect::Send(self.send(Request::Disable)));
                    } else {
                        out.push(Effect::Send(self.elevate(false)));
                    }
                },
                TrayAction::Start => {
                    out.push(Effect::Send(self.start(Verb::Start)));
                    let mut shown = self.set_visible(true);
                    out.append(&mut shown);
                },
                TrayAction::Unavailable => {},
            },
            MenuItem::Open => {
                return self.set_visible(true);
            },
            MenuItem::Quit => {
                self.quitting = true;
                out.push(Effect::Close);
            },
        }
        assert(out@ =~= old(self).menu_effects(item));
        out
    }

    /// What the Run key is to be brought into agreement with before an answer is taken in; none
    /// where that was done.
    pub fn to_reconcile(&self, status: &Status) -> (r: Option<bool>)
        ensures
            r == (if self.autostart_synced == Some(status.settings.autostart_tray) {
                None
            } else {
                Some(status.settings.autostart_tray)
            }),
    {
        let want: bool = status.settings.autostart_tray;
        match self.autostart_synced {
            Some(have) => if have == want {
                None
            } else {
                Some(want)
            },
            None => Some(want),
        }
    }

    /// What the window knows after an answer.
    pub open spec fn after_reply(self, reply: Reply, reconciled: bool) -> Tray {
        let idle = Tray { busy: false, working: None, ..self };
        match reply {
            Reply::Answered(s) => Tray {
                status: Some(s),
                offline: None,
                installed: None,
                stale: None,
                pending_mode: if self.pending_mode == Some(s.settings.mode) {
                    None
                } else {
                    self.pending_mode
                },
                autostart_synced: if reconciled {
                    Some(s.settings.autostart_tray)
                } else {
                    self.autostart_synced
                },
                ..idle
            },
            Reply::Failed(e, s) => Tray {
                error: Some(e),
                offline: None,
                pending_mode: None,
                status: if s is Some {
                    s
                } else {
                    self.status
                },
                ..idle
            },
            Reply::Unreachable(e) => Tray {
                offline: Some(e),
                status: None,
                pending_mode: None,
                ..idle
            },
            Reply::Installed(i, stale) => Tray { installed: Some(i), stale, ..idle },
            Reply::Backend(local) => Tray { local, autostart_synced: None, ..idle },
            Reply::HandedOver => Tray { quitting: true, ..idle },
            Reply::Output(o) => Tray { output: Some(o), ..idle },
        }
    }

    /// An answer came. `reconciled` tells whether the Run key now agrees with the setting in it. Tells
    /// whether the window is to close. A failed command stays on screen until another one is given:
    /// an ordinary answer does not take it away.
    pub fn answered(&mut self, reply: Reply, reconciled: bool) -> (r: bool)
        ensures
            r == (reply is HandedOver),
            *final(self) == old(self).after_reply(reply, reconciled),
    {
        self.busy = false;
        self.working = None;
        match reply {
            Reply::Answered(s) => {
                if reconciled {
                    self.autostart_synced = Some(s.settings.autostart_tray);
                }
                if let Some(mode) = self.pending_mode {
                    if mode == s.settings.mode {
                        self.pending_mode = None;
                    }
                }
                self.status = Some(s);
                self.offline = None;
                self.installed = None;
                self.stale = None;
                false
            },
            Reply::Failed(e, s) => {
                self.error = Some(e);
                self.offline = None;
                self.pending_mode = None;
                if s.is_some() {
                    self.status = s;
                }
                false
            },
            Reply::Unreachable(e) => {
                self.offline = Some(e);
                self.status = None;
                self.pending_mode = None;
                false
            },
            Reply::Installed(i, stale) => {
                self.installed = Some(i);
                self.stale = stale;
                false
            },
            Reply::Backend(local) => {
                self.local = local;
                self.autostart_synced = None;
                false
            },
            Reply::HandedOver => {
                self.quitting = true;
                true
            },
            Reply::Output(o) => {
                self.output = Some(o);
                false
            },
        }
    }

    /// Brings the icon and the menu into agreement with what is known.
    pub fn refresh_tray(&mut self) -> (r: Vec<Effect>)
        ensures
            r@ == (if old(self).icon_state == Some(old(self).on()) {
                Seq::empty()
            } else {
                seq![Effect::Icon(old(self).on())]
            }) + (if old(self).action == old(self).action_now() {
                Seq::empty()
            } else {
                seq![Effect::Label(old(self).action_now())]
            }),
            *final(self) == (Tray {
                icon_state: Some(old(self).on()),
                action: old(self).action_now(),
                ..*old(self)
            }),
    {
        let on: bool = self.enabled();
        let mut out: Vec<Effect> = Vec::new();
        let same: bool = match self.icon_state {
            Some(was) => was == on,
            None => false,
        };
        if !same {
            self.icon_state = Some(on);
            out.push(Effect::Icon(on));
        }
        let action: TrayAction = self.tray_action();
        if self.action != action {
            self.action = action;
            out.push(Effect::Label(action));
        }
        assert(out@ =~= (if old(self).icon_state == Some(old(self).on()) {
            Seq::empty()
        } else {
            seq![Effect::Icon(old(self).on())]
        }) + (if old(self).action == old(self).action_now() {
            Seq::empty()
        } else {
            seq![Effect::Label(old(self).action_now())]
        }));
        out
    }

    /// The window was asked to close. It hides, and the program goes on, unless that was to end.
    pub fn close_requested(&mut self) -> (r: Vec<Effect>)
        ensures
            if old(self).quitting {
                r@.len() == 0 && *final(self) == *old(self)
            } else {
                r@ == seq![Effect::CancelClose, Effect::Show(false)] && *final(self) == (Tray {
                    visible: false,
                    ..*old(self)
                })
            },
    {
        let mut out: Vec<Effect> = Vec::new();
        if !self.quitting {
            self.visible = false;
            out.push(Effect::CancelClose);
            out.push(Effect::Show(false));
            assert(out@ =~= seq![Effect::CancelClose, Effect::Show(false)]);
        }
        out
    }

    /// The large button was clicked. Protection goes on or off: at once, or in a copy with the rights
    /// for it.
    pub fn toggle(&mut self) -> (r: Job)
        ensures
            if old(self).may_change() {
                &&& r == Job::Ipc(
                    if old(self).on() {
                        Request::Disable
                    } else {
                        Request::Enable
                    },
                )
                &&& *final(self) == old(self).asking(old(self).working)
            } else {
                &&& r == (Job::Elevate { enable: !old(self).on() })
                &&& *final(self) == old(self).asking(Some(Work::Rights))
            },
    {
        let on: bool = self.enabled();
        if self.can_change() {
            if on {
                self.send(Request::Disable)
            } else {
                self.send(Request::Enable)
            }
        } else {
            self.elevate(!on)
        }
    }

    /// Whether a setting can be changed that reaches the machine while protection is on. With it off
    /// only a file changes that this process owns.
    pub fn live(&self, status: &Status) -> (r: bool)
        ensures
            r == (!self.busy && (!status.enabled || self.may_change())),
    {
        !self.busy && (!status.enabled || self.can_change())
    }

    /// Whether the switch of a mode can be clicked: as any setting that reaches the machine, and that
    /// of Windows' own encryption only where Windows has it.
    pub fn mode_live(&self, status: &Status, mode: Mode) -> (r: bool)
        ensures
            r == (!self.busy && (!status.enabled || self.may_change()) && (mode == Mode::Native
                ==> status.native_supported)),
    {
        self.live(status) && (mode != Mode::Native || status.native_supported)
    }

    /// The mode that is shown as chosen: the one that was asked for, until the answer catches up.
    pub fn shown_mode(&self, status: &Status) -> (r: Mode)
        ensures
            r == (match self.pending_mode {
                Some(m) => m,
                None => status.settings.mode,
            }),
    {
        match self.pending_mode {
            Some(m) => m,
            None => status.settings.mode,
        }
    }

    /// The switch of a mode was clicked. The one that is on stays on: there is always one. The other
    /// is asked for.
    pub fn choose_mode(&mut self, status: &Status, mode: Mode) -> (r: Option<Job>)
        ensures
            if mode == (match old(self).pending_mode {
                Some(m) => m,
                None => status.settings.mode,
            }) {
                r is None && *final(self) == *old(self)
            } else {
                &&& r == Some(
                    Job::Ipc(
                        Request::SetSettings {
                            settings: Settings { mode, ..editable_settings(*status) },
                        },
                    ),
                )
                &&& *final(self) == (Tray {
                    pending_mode: Some(mode),
                    ..old(self).asking(old(self).working)
                })
            },
    {
        if self.shown_mode(status) == mode {
            return None;
        }
        let mut next: Settings = editable(status);
        next.mode = mode;
        self.pending_mode = Some(mode);
        Some(self.send(Request::SetSettings { settings: next }))
    }

    /// A switch was clicked.
    pub fn flip(&mut self, status: &Status, switch: Switch) -> (r: Job)
        ensures
            r == Job::Ipc(
                Request::SetSettings { settings: flipped(editable_settings(*status), switch) },
            ),
            *final(self) == old(self).asking(old(self).working),
    {
        let mut next: Settings = editable(status);
        match switch {
            Switch::Ipv6 => {
                next.ipv6 = !next.ipv6;
            },
            Switch::VpnAdapters => {
                next.include_vpn_adapters = !next.include_vpn_adapters;
            },
            Switch::TrayAutostart => {
                next.autostart_tray = !next.autostart_tray;
            },
            Switch::ServiceAutostart => {
                next.service_autostart = !next.service_autostart;
            },
        }
        self.send(Request::SetSettings { settings: next })
    }

    /// Whether a switch can be clicked. One for the service is there only with a service.
    pub fn switch_live(&self, status: &Status, switch: Switch) -> (r: Option<bool>)
        ensures
            r == (match switch {
                Switch::Ipv6 | Switch::VpnAdapters => Some(
                    !self.busy && (!status.enabled || self.may_change()),
                ),
                Switch::TrayAutostart => Some(!self.busy),
                Switch::ServiceAutostart => if self.local {
                    None
                } else {
                    Some(!self.busy)
                },
            }),
    {
        match switch {
            Switch::Ipv6 => Some(self.live(status)),
            Switch::VpnAdapters => Some(self.live(status)),
            Switch::TrayAutostart => Some(!self.busy),
            Switch::ServiceAutostart => if self.local {
                None
            } else {
                Some(!self.busy)
            },
        }
    }

    /// What the window offers about the service: to install one, or to remove the one there is.
    pub fn service_offer(&self) -> (r: Verb)
        ensures
            r == (if self.local {
                Verb::Install
            } else {
                Verb::Uninstall
            }),
    {
        if self.local {
            Verb::Install
        } else {
            Verb::Uninstall
        }
    }
}

/// The switches besides those of the two modes.
#[derive(Clone, Copy, Debug, PartialEq, Eq, Structural)]
pub enum Switch {
    Ipv6,
    VpnAdapters,
    TrayAutostart,
    ServiceAutostart,
}

/// The settings with one of them turned over.
pub open spec fn flipped(s: Settings, switch: Switch) -> Settings {
    match switch {
        Switch::Ipv6 => Settings { ipv6: !s.ipv6, ..s },
        Switch::VpnAdapters => Settings { include_vpn_adapters: !s.include_vpn_adapters, ..s },
        Switch::TrayAutostart => Settings { autostart_tray: !s.autostart_tray, ..s },
        Switch::ServiceAutostart => Settings { service_autostart: !s.service_autostart, ..s },
    }
}

/// The settings as the window may change them: how the service starts is what the machine says.
pub open spec fn editable_settings(s: Status) -> Settings {
    Settings { service_autostart: s.service_autostart, ..s.settings }
}

/// The settings as the window may change them.
pub fn editable(s: &Status) -> (r: Settings)
    ensures
        r == editable_settings(*s),
{
    let mut out: Settings = s.settings;
    out.service_autostart = s.service_autostart;
    out
}

/// A click on any other switch does not change how the service starts, whatever the settings file
/// says of it; a second click on the same switch undoes the first, and of two clicks on two switches
/// either may come first.
pub proof fn law_switches_are_independent(s: Status, switch: Switch, other: Switch)
    ensures
        flipped(flipped(editable_settings(s), switch), other) == flipped(
            flipped(editable_settings(s), other),
            switch,
        ),
        switch != Switch::ServiceAutostart ==> flipped(
            editable_settings(s),
            switch,
        ).service_autostart == s.service_autostart,
        flipped(editable_settings(s), switch).mode == s.settings.mode,
        flipped(editable_settings(s), switch).enabled == s.settings.enabled,
        flipped(flipped(editable_settings(s), switch), switch) == editable_settings(s),
{
}

/// An ordinary answer takes neither the report of a failed command off the screen nor what an action
/// had to say.
pub proof fn law_a_failure_stays_on_screen(t: Tray, s: Status, reconciled: bool)
    ensures
        t.after_reply(Reply::Answered(s), reconciled).error == t.error,
        t.after_reply(Reply::Answered(s), reconciled).output == t.output,
{
}

/// Once the menu agrees with what is known, its first item turns protection over: off where it is on,
/// and on where it is off.
pub proof fn law_the_menu_turns_protection_over(t: Tray)
    requires
        t.action == t.action_now(),
        t.offline is None,
    ensures
        t.menu_effects(MenuItem::Action) == seq![
            Effect::Send(
                if !t.may_change() {
                    Job::Elevate { enable: !t.on() }
                } else if t.on() {
                    Job::Ipc(Request::Disable)
                } else {
                    Job::Ipc(Request::Enable)
                },
            ),
        ],
{
}

/// Whether what is said of protection being on is not so: the adapters point at the local resolver,
/// and it does not run.
pub fn resolver_missing(s: &Status) -> (r: bool)
    ensures
        r == (s.enabled && s.settings.mode == Mode::Stub && !s.stub_running),
{
    s.enabled && s.settings.mode == Mode::Stub && !s.stub_running
}

/// What the icon says.
pub fn tooltip(on: bool) -> (r: &'static str)
    ensures
        r@ == (if on {
            "DNS-AI — защита включена"@
        } else {
            "DNS-AI — защита выключена"@
        }),
{
    if on {
        "DNS-AI — защита включена"
    } else {
        "DNS-AI — защита выключена"
    }
}

/// How a text is meant.
#[derive(Clone, Copy, Debug, PartialEq, Eq, Structural)]
pub enum Tone {
    Good,
    Quiet,
    Danger,
}

/// The word in the corner of the window.
pub fn state_word(offline: bool, on: bool) -> (r: (&'static str, Tone))
    ensures
        r.0@ == (if offline {
            "нет службы"@
        } else if on {
            "включено"@
        } else {
            "выключено"@
        }),
        r.1 == (if offline {
            Tone::Danger
        } else if on {
            Tone::Good
        } else {
            Tone::Quiet
        }),
{
    if offline {
        ("нет службы", Tone::Danger)
    } else if on {
        ("включено", Tone::Good)
    } else {
        ("выключено", Tone::Quiet)
    }
}

/// The screen for a service that is registered and does not answer.
#[derive(Debug)]
pub struct Trouble {
    pub headline: String,
    /// Nothing, where there is none to give.
    pub hint: String,
    /// What may help, besides removing the service.
    pub remedy: Option<Verb>,
}

/// What is said where nothing is known of the service yet.
pub open spec fn nothing_known(t: Trouble) -> bool {
    t.headline@ == "Проверяю службу…"@ && t.hint@ == Seq::<char>::empty() && t.remedy is None
}

/// Whether a screen is the one for what is known of a service that does not answer.
pub open spec fn fits_trouble(stale: Option<&String>, installed: Option<&Installed>, t: Trouble) -> bool {
    match stale {
        Some(missing) => t.headline@ == "Служба указывает на исчезнувший файл"@ && t.hint@
            == "Зарегистрировано: "@ + missing@
            + "\nЭтого файла больше нет. Удалите службу — программа продолжит работать без неё."@
            && t.remedy is None,
        None => match installed {
            None => nothing_known(t),
            Some(Installed::No) => nothing_known(t),
            Some(Installed::Stopped) => t.headline@ == "Служба остановлена"@ && t.hint@
                == "Пока она не запущена, защиту включить нельзя."@ && t.remedy == Some(
                Verb::Start,
            ),
            Some(Installed::Running) => t.headline@ == "Служба запущена, но не отвечает"@
                && t.hint@
                == "Обычно так бывает, если файл программы заменили, а службу не перезапустили."@
                && t.remedy == Some(Verb::Restart),
            Some(Installed::Other(word)) => t.headline@ == "Служба "@ + word@ && t.hint@
                == "Подождите несколько секунд — состояние обновляется само."@ && t.remedy is None,
            Some(Installed::Unknown(e)) => t.headline@ == "Не удалось узнать состояние службы"@
                && t.hint@ == e@ && t.remedy is None,
        },
    }
}

/// The screen for a service that is registered and does not answer.
pub fn service_trouble(stale: Option<&String>, installed: Option<&Installed>) -> (r: Trouble)
    ensures
        fits_trouble(stale, installed, r),
{
    if let Some(missing) = stale {
        return Trouble {
            headline: "Служба указывает на исчезнувший файл".to_owned(),
            hint: three(
                "Зарегистрировано: ",
                missing.as_str(),
                "\nЭтого файла больше нет. Удалите службу — программа продолжит работать без неё.",
            ),
            remedy: None,
        };
    }
    match installed {
        Some(Installed::Stopped) => Trouble {
            headline: "Служба остановлена".to_owned(),
            hint: "Пока она не запущена, защиту включить нельзя.".to_owned(),
            remedy: Some(Verb::Start),
        },
        Some(Installed::Running) => Trouble {
            headline: "Служба запущена, но не отвечает".to_owned(),
            hint: "Обычно так бывает, если файл программы заменили, а службу не перезапустили.".to_owned(),
            remedy: Some(Verb::Restart),
        },
        Some(Installed::Other(word)) => Trouble {
            headline: two("Служба ", word),
            hint: "Подождите несколько секунд — состояние обновляется само.".to_owned(),
            remedy: None,
        },
        Some(Installed::Unknown(e)) => Trouble {
            headline: "Не удалось узнать состояние службы".to_owned(),
            hint: e.clone(),
            remedy: None,
        },
        Some(Installed::No) => Trouble {
            headline: "Проверяю службу…".to_owned(),
            hint: String::new(),
            remedy: None,
        },
        None => Trouble {
            headline: "Проверяю службу…".to_owned(),
            hint: String::new(),
            remedy: None,
        },
    }
}

/// A name and a value that can be copied.
#[derive(Debug)]
pub struct Row {
    pub key: String,
    pub value: String,
}

impl View for Row {
    type V = (Seq<char>, Seq<char>);

    open spec fn view(&self) -> (Seq<char>, Seq<char>) {
        (self.key@, self.value@)
    }
}

/// The rows as texts.
pub open spec fn row_views(v: Seq<Row>) -> Seq<(Seq<char>, Seq<char>)> {
    Seq::new(v.len(), |i: int| v[i]@)
}

fn enter(rows: &mut Vec<Row>, key: &str, value: &str)
    ensures
        row_views(final(rows)@) == row_views(old(rows)@).push((key@, value@)),
{
    rows.push(Row { key: key.to_owned(), value: value.to_owned() });
    assert(row_views(rows@) =~= row_views(old(rows)@).push((key@, value@)));
}

/// What the list of adapters shows: the name and the IPv4 servers of each, and its IPv6 servers
/// where those are configured.
pub open spec fn rows_of(adapters: Seq<AdapterView>, ipv6: bool) -> Seq<(Seq<char>, Seq<char>)>
    decreases adapters.len(),
{
    if adapters.len() == 0 {
        Seq::empty()
    } else {
        let a = adapters.last();
        let rows = rows_of(adapters.drop_last(), ipv6).push((a.alias@, a.current_v4@));
        if ipv6 {
            rows.push(("IPv6"@, a.current_v6@))
        } else {
            rows
        }
    }
}

/// What the list of adapters shows.
pub fn adapter_rows(s: &Status) -> (r: Vec<Row>)
    ensures
        row_views(r@) == rows_of(s.adapters@, s.settings.ipv6),
{
    let mut out: Vec<Row> = Vec::new();
    let mut i: usize = 0;
    assert(row_views(out@) =~= rows_of(s.adapters@.take(0), s.settings.ipv6));
    while i < s.adapters.len()
        invariant
            i <= s.adapters@.len(),
            row_views(out@) == rows_of(s.adapters@.take(i as int), s.settings.ipv6),
        decreases s.adapters@.len() - i,
    {
        let a: &AdapterView = &s.adapters[i];
        enter(&mut out, a.alias.as_str(), a.current_v4.as_str());
        if s.settings.ipv6 {
            enter(&mut out, "IPv6", a.current_v6.as_str());
        }
        i += 1;
        assert(s.adapters@.take(i as int).drop_last() =~= s.adapters@.take(i - 1));
    }
    assert(s.adapters@.take(i as int) =~= s.adapters@);
    out
}

/// The same name for every value.
pub open spec fn named(key: Seq<char>, values: Seq<Seq<char>>) -> Seq<(Seq<char>, Seq<char>)> {
    Seq::new(values.len(), |i: int| (key, values[i]))
}

fn enter_all(rows: &mut Vec<Row>, key: &str, values: &Vec<String>)
    ensures
        row_views(final(rows)@) == row_views(old(rows)@) + named(key@, texts(values@)),
{
    let ghost start = row_views(rows@);
    let ghost all = named(key@, texts(values@));
    let mut i: usize = 0;
    assert(start + all.take(0) =~= start);
    while i < values.len()
        invariant
            all == named(key@, texts(values@)),
            i <= values@.len(),
            row_views(rows@) == start + all.take(i as int),
        decreases values@.len() - i,
    {
        enter(rows, key, values[i].as_str());
        i += 1;
        assert(all.take(i as int) =~= all.take(i - 1).push((key@, values@[i - 1]@)));
        assert(start + all.take(i as int) =~= (start + all.take(i - 1)).push(
            (key@, values@[i - 1]@),
        ));
    }
    assert(all.take(i as int) =~= all);
}

/// What another device is configured with: the resolver's own addresses and names.
pub fn endpoint_rows() -> (r: Vec<Row>)
    ensures
        row_views(r@) == named("IPv4"@, v4_forms(built_in_v4())) + named(
            "IPv6"@,
            v6_forms(built_in_v6()),
        ) + seq![("DoH / DoH3"@, DOH_URL@), ("DoT / DoQ"@, DOT_DOQ_HOST@)],
{
    let mut out: Vec<Row> = Vec::new();
    enter_all(&mut out, "IPv4", &resolver_ips_text());
    enter_all(&mut out, "IPv6", &resolver_ipv6_text());
    enter(&mut out, "DoH / DoH3", DOH_URL);
    enter(&mut out, "DoT / DoQ", DOT_DOQ_HOST);
    assert(row_views(out@) =~= named("IPv4"@, v4_forms(built_in_v4())) + named(
        "IPv6"@,
        v6_forms(built_in_v6()),
    ) + seq![("DoH / DoH3"@, DOH_URL@), ("DoT / DoQ"@, DOT_DOQ_HOST@)]);
    out
}

/// Whether this process is to do the work itself: only where no service is registered, since two
/// would change the same state.
pub fn chooses_local(installed: &Installed) -> (r: bool)
    ensures
        r == (installed is No),
{
    match installed {
        Installed::No => true,
        _ => false,
    }
}

/// What the window is told of an answer, or of there being none.
pub open spec fn fits_answer(answer: Result<Response, String>, r: Reply) -> bool {
    match answer {
        Ok(a) => if a.ok {
            match a.status {
                Some(s) => r == Reply::Answered(s),
                None => r is Failed && r->Failed_0@ == "ответ без состояния"@ && r->Failed_1 is None,
            }
        } else {
            r is Failed && r->Failed_1 == a.status && r->Failed_0@ == (match a.error {
                Some(e) => e@,
                None => "неизвестная ошибка"@,
            })
        },
        Err(e) => r == Reply::Unreachable(e),
    }
}

/// What the window is told of an answer, or of there being none.
pub fn ask(answer: Result<Response, String>) -> (r: Reply)
    ensures
        fits_answer(answer, r),
{
    match answer {
        Ok(a) => {
            let Response { ok, error, status } = a;
            if ok {
                match status {
                    Some(s) => Reply::Answered(s),
                    None => Reply::Failed("ответ без состояния".to_owned(), None),
                }
            } else {
                match error {
                    Some(e) => Reply::Failed(e, status),
                    None => Reply::Failed("неизвестная ошибка".to_owned(), status),
                }
            }
        },
        Err(e) => Reply::Unreachable(e),
    }
}

/// After so many further attempts a service that does not answer is taken for one that does not.
pub const STATUS_ATTEMPTS: u32 = 10;

/// Whether to ask once more: a service that was just started may not be ready yet.
pub fn asks_again(reply: &Reply, attempts: u32) -> (r: bool)
    ensures
        r == (reply is Unreachable && attempts < STATUS_ATTEMPTS),
{
    match reply {
        Reply::Unreachable(_) => attempts < STATUS_ATTEMPTS,
        _ => false,
    }
}

/// Whether the window is also told what is registered: only where the service cannot be reached.
pub fn tells_installed(replies: &Vec<Reply>) -> (r: bool)
    ensures
        r == (exists|i: int| 0 <= i < replies@.len() && (#[trigger] replies@[i]) is Unreachable),
{
    let mut i: usize = 0;
    while i < replies.len()
        invariant
            i <= replies@.len(),
            forall|k: int| 0 <= k < i ==> !((#[trigger] replies@[k]) is Unreachable),
        decreases replies@.len() - i,
    {
        if let Reply::Unreachable(_) = &replies[i] {
            assert(replies@[i as int] is Unreachable);
            return true;
        }
        i += 1;
    }
    false
}

/// The file that the service is registered with, where there is no such file any more.
pub fn stale_registration(registered: Option<String>, present: bool) -> (r: Option<String>)
    ensures
        r == (if present {
            None
        } else {
            registered
        }),
{
    if present {
        None
    } else {
        registered
    }
}

fn said(title: &str, ok: bool, line: String) -> (r: Output)
    ensures
        r.title@ == title@,
        r.ok == ok,
        texts(r.lines@) == seq![line@],
{
    let mut lines: Vec<String> = Vec::new();
    say(&mut lines, line);
    assert(texts(lines@) =~= seq![line@]);
    Output { title: title.to_owned(), ok, lines }
}

/// What the window is told of the start of a copy with administrator rights.
pub open spec fn fits_start(started: Result<Outcome, String>, r: Reply) -> bool {
    match started {
        Ok(Outcome::Exited(_)) => r is HandedOver,
        Ok(Outcome::Declined) => r is Output && r->Output_0.title@ == "Права администратора"@
            && !r->Output_0.ok && texts(r->Output_0.lines@) == seq![
            "Отменено. Без них программа не может менять настройки DNS."@,
        ],
        Err(e) => r is Output && r->Output_0.title@ == "Права администратора"@ && !r->Output_0.ok
            && texts(r->Output_0.lines@) == seq![e@],
    }
}

/// What the window is told of the start of a copy with administrator rights. Where none started,
/// this one goes on.
pub fn handed_over(started: Result<Outcome, String>) -> (r: Reply)
    ensures
        fits_start(started, r),
{
    match started {
        Ok(Outcome::Exited(_)) => Reply::HandedOver,
        Ok(Outcome::Declined) => Reply::Output(
            said(
                "Права администратора",
                false,
                "Отменено. Без них программа не может менять настройки DNS.".to_owned(),
            ),
        ),
        Err(e) => Reply::Output(said("Права администратора", false, e)),
    }
}

/// What is said of a verb that was carried out with administrator rights.
pub open spec fn fits_elevated(
    verb: Verb,
    run: Result<Outcome, String>,
    report: Option<ActionReport>,
    log: Seq<char>,
    r: Output,
) -> bool {
    &&& r.title@ == verb_title(verb)
    &&& match run {
        Ok(Outcome::Declined) => !r.ok && texts(r.lines@) == seq![
            "Отменено. Без прав администратора службой управлять нельзя."@,
        ],
        Ok(Outcome::Exited(code)) => match report {
            Some(a) => r.ok == a.ok && texts(r.lines@) == (match a.error {
                Some(e) => texts(a.lines@).push(e@),
                None => texts(a.lines@),
            }),
            None => r.ok == (code == 0) && texts(r.lines@) == seq![
                "Процесс завершился с кодом "@ + decimal(code as nat) + ", но отчёт не записан."@,
                "Журнал: "@ + log,
            ],
        },
        Err(e) => !r.ok && texts(r.lines@) == seq![e@],
    }
}

/// What is said of a verb that was carried out with administrator rights: that it was declined, what
/// its own report says, or that there is none. `report` is the answer to this very question.
pub fn elevated(
    verb: Verb,
    run: Result<Outcome, String>,
    report: Option<ActionReport>,
    log: &str,
) -> (r: Output)
    ensures
        fits_elevated(verb, run, report, log@, r),
{
    match run {
        Ok(Outcome::Declined) => said(
            verb.title(),
            false,
            "Отменено. Без прав администратора службой управлять нельзя.".to_owned(),
        ),
        Ok(Outcome::Exited(code)) => match report {
            Some(a) => {
                let ActionReport { nonce: _, verb: _, ok, lines, error } = a;
                let mut lines = lines;
                if let Some(e) = error {
                    say(&mut lines, e);
                }
                Output { title: verb.title().to_owned(), ok, lines }
            },
            None => {
                let mut text = "Процесс завершился с кодом ".to_owned();
                push_decimal(&mut text, code as u64);
                text.append(", но отчёт не записан.");
                let mut out = said(verb.title(), code == 0, text);
                say(&mut out.lines, two("Журнал: ", log));
                assert(texts(out.lines@) =~= seq![
                    "Процесс завершился с кодом "@ + decimal(code as nat)
                        + ", но отчёт не записан."@,
                    "Журнал: "@ + log@,
                ]);
                out
            },
        },
        Err(e) => said(verb.title(), false, e),
    }
}

/// How far the worker has come with what it was asked to do.
#[derive(Clone, Copy, Debug, PartialEq, Eq, Structural)]
pub enum ErrandPhase {
    /// This process is to give up its claim to be the window.
    Release,
    /// A copy with administrator rights is to be started.
    Start,
    /// The claim is to be taken back.
    Claim,
    /// Whatever this process does for the machine is to stop.
    Shutdown,
    /// The verb is to be carried out with administrator rights.
    Run,
    /// It is to be decided anew who does the work.
    Choose,
    /// Whoever does the work is to be asked.
    Ask,
    /// There is to be a short wait before the next question.
    Pause,
    /// It is to be looked up what is registered.
    Look,
    Over,
}

/// What the worker was asked to do, and what it has to tell the window so far.
#[derive(Debug)]
pub struct Errand {
    pub job: Job,
    pub phase: ErrandPhase,
    pub replies: Vec<Reply>,
    /// The questions that were put once more.
    pub attempts: u32,
}

/// What was said before the last question: nothing, or what became of the verb and who does the work
/// now.
pub open spec fn led_in(job: Job, replies: Seq<Reply>) -> bool {
    match job {
        Job::Ipc(_) => replies.len() == 0,
        Job::Elevated(_) => replies.len() == 2 && replies[0] is Output && replies[1] is Backend,
        Job::Elevate { .. } => false,
    }
}

/// All that the window is told once a job is done. What is registered is told together with a
/// service that cannot be reached, and only with it.
pub open spec fn told(job: Job, replies: Seq<Reply>) -> bool {
    if job is Elevate {
        replies.len() == 1 && (replies[0] is HandedOver || replies[0] is Output)
    } else {
        let n = replies.len();
        ||| n > 0 && led_in(job, replies.drop_last()) && (replies[n - 1] is Answered || replies[n
            - 1] is Failed)
        ||| n > 1 && led_in(job, replies.drop_last().drop_last()) && replies[n - 2] is Unreachable
            && replies[n - 1] is Installed
    }
}

impl Errand {
    /// What holds at every step.
    pub open spec fn wf(&self) -> bool {
        &&& self.attempts <= STATUS_ATTEMPTS
        &&& self.attempts > 0 ==> self.job is Elevated
        &&& match self.phase {
            ErrandPhase::Release | ErrandPhase::Start => self.job is Elevate && self.replies@.len()
                == 0,
            ErrandPhase::Claim => self.job is Elevate && self.replies@.len() == 1
                && self.replies@[0] is Output,
            ErrandPhase::Shutdown | ErrandPhase::Run => self.job is Elevated
                && self.replies@.len() == 0,
            ErrandPhase::Choose => self.job is Elevated && self.replies@.len() == 1
                && self.replies@[0] is Output,
            ErrandPhase::Ask => led_in(self.job, self.replies@),
            ErrandPhase::Pause => self.job is Elevated && led_in(self.job, self.replies@),
            ErrandPhase::Look => self.replies@.len() > 0 && self.replies@.last() is Unreachable
                && led_in(self.job, self.replies@.drop_last()),
            ErrandPhase::Over => told(self.job, self.replies@),
        }
    }

    /// The errand after a step: one more thing to tell, and the next step.
    pub open spec fn told_more(&self, before: Errand, phase: ErrandPhase) -> bool {
        &&& self.wf()
        &&& self.job == before.job
        &&& self.phase == phase
        &&& self.attempts == before.attempts
        &&& self.replies@.len() == before.replies@.len() + 1
        &&& self.replies@.drop_last() == before.replies@
    }

    /// The errand after a step with nothing to tell.
    pub open spec fn moved_on(&self, before: Errand, phase: ErrandPhase) -> bool {
        self.wf() && *self == (Errand { phase, ..before })
    }

    /// Starts on a job. The claim to be the window goes before another copy starts, or that copy
    /// would take this window for the only one; and this process lets go of the machine before
    /// anything is done about the service, since both want the same port.
    pub fn begin(job: Job) -> (r: Errand)
        ensures
            r.wf(),
            r.job == job,
            r.phase == (match job {
                Job::Ipc(_) => ErrandPhase::Ask,
                Job::Elevated(_) => ErrandPhase::Shutdown,
                Job::Elevate { .. } => ErrandPhase::Release,
            }),
            r.replies@.len() == 0,
            r.attempts == 0,
    {
        let phase: ErrandPhase = match job {
            Job::Ipc(_) => ErrandPhase::Ask,
            Job::Elevated(_) => ErrandPhase::Shutdown,
            Job::Elevate { .. } => ErrandPhase::Release,
        };
        Errand { job, phase, replies: Vec::new(), attempts: 0 }
    }

    /// What is asked: what the job asks, or how things are.
    pub fn request(&self) -> (r: Request)
        ensures
            r == (match self.job {
                Job::Ipc(req) => req,
                _ => Request::Status,
            }),
    {
        match self.job {
            Job::Ipc(req) => req,
            _ => Request::Status,
        }
    }

    /// The claim was given up.
    pub fn released(&mut self)
        requires
            old(self).wf(),
            old(self).phase == ErrandPhase::Release,
        ensures
            final(self).moved_on(*old(self), ErrandPhase::Start),
    {
        self.phase = ErrandPhase::Start;
    }

    /// A copy with administrator rights was started, or was not. Where none was, the claim is taken
    /// back.
    pub fn started(&mut self, result: Result<Outcome, String>)
        requires
            old(self).wf(),
            old(self).phase == ErrandPhase::Start,
        ensures
            final(self).told_more(
                *old(self),
                if result is Ok && result->Ok_0 is Exited {
                    ErrandPhase::Over
                } else {
                    ErrandPhase::Claim
                },
            ),
            fits_start(result, final(self).replies@.last()),
    {
        let reply = handed_over(result);
        self.phase = match &reply {
            Reply::HandedOver => ErrandPhase::Over,
            _ => ErrandPhase::Claim,
        };
        self.replies.push(reply);
        assert(self.replies@.drop_last() =~= old(self).replies@);
    }

    /// The claim was taken back.
    pub fn claimed(&mut self)
        requires
            old(self).wf(),
            old(self).phase == ErrandPhase::Claim,
        ensures
            final(self).moved_on(*old(self), ErrandPhase::Over),
    {
        self.phase = ErrandPhase::Over;
    }

    /// This process let go of the machine.
    pub fn shut_down(&mut self)
        requires
            old(self).wf(),
            old(self).phase == ErrandPhase::Shutdown,
        ensures
            final(self).moved_on(*old(self), ErrandPhase::Run),
    {
        self.phase = ErrandPhase::Run;
    }

    /// The verb was carried out, or was not. `report` is what it said itself.
    pub fn ran(
        &mut self,
        run: Result<Outcome, String>,
        report: Option<ActionReport>,
        log: &str,
    )
        requires
            old(self).wf(),
            old(self).phase == ErrandPhase::Run,
        ensures
            final(self).told_more(*old(self), ErrandPhase::Choose),
            final(self).replies@.last() is Output,
            fits_elevated(
                old(self).job->Elevated_0,
                run,
                report,
                log@,
                final(self).replies@.last()->Output_0,
            ),
    {
        if let Job::Elevated(verb) = self.job {
            self.replies.push(Reply::Output(elevated(verb, run, report, log)));
        }
        self.phase = ErrandPhase::Choose;
        assert(self.replies@.drop_last() =~= old(self).replies@);
    }

    /// It was decided who does the work: this process or not.
    pub fn chosen(&mut self, local: bool)
        requires
            old(self).wf(),
            old(self).phase == ErrandPhase::Choose,
        ensures
            final(self).told_more(*old(self), ErrandPhase::Ask),
            final(self).replies@.last() == Reply::Backend(local),
    {
        self.replies.push(Reply::Backend(local));
        self.phase = ErrandPhase::Ask;
        assert(self.replies@.drop_last() =~= old(self).replies@);
    }

    /// An answer came, or none. After a verb the question is put again for a while: a service that was
    /// just started reports that it runs before it can answer.
    pub fn answered(&mut self, answer: Result<Response, String>)
        requires
            old(self).wf(),
            old(self).phase == ErrandPhase::Ask,
        ensures
            if answer is Err && old(self).job is Elevated && old(self).attempts < STATUS_ATTEMPTS {
                final(self).wf() && *final(self) == (Errand {
                    phase: ErrandPhase::Pause,
                    attempts: (old(self).attempts + 1) as u32,
                    ..*old(self)
                })
            } else {
                &&& final(self).told_more(
                    *old(self),
                    if answer is Err {
                        ErrandPhase::Look
                    } else {
                        ErrandPhase::Over
                    },
                )
                &&& fits_answer(answer, final(self).replies@.last())
            },
    {
        let reply = ask(answer);
        let verb: bool = matches!(self.job, Job::Elevated(_));
        if verb && asks_again(&reply, self.attempts) {
            self.attempts += 1;
            self.phase = ErrandPhase::Pause;
            return;
        }
        self.replies.push(reply);
        assert(self.replies@.drop_last() =~= old(self).replies@);
        assert(self.replies@.last() is Unreachable <==> answer is Err);
        self.phase = if tells_installed(&self.replies) {
            ErrandPhase::Look
        } else {
            ErrandPhase::Over
        };
    }

    /// The wait is over.
    pub fn paused(&mut self)
        requires
            old(self).wf(),
            old(self).phase == ErrandPhase::Pause,
        ensures
            final(self).moved_on(*old(self), ErrandPhase::Ask),
    {
        self.phase = ErrandPhase::Ask;
    }

    /// It was looked up whether the service exists, and which file it is registered with.
    pub fn looked(&mut self, installed: Installed, registered: Option<String>, present: bool)
        requires
            old(self).wf(),
            old(self).phase == ErrandPhase::Look,
        ensures
            final(self).told_more(*old(self), ErrandPhase::Over),
            final(self).replies@.last() == Reply::Installed(
                installed,
                if present {
                    None
                } else {
                    registered
                },
            ),
    {
        self.replies.push(Reply::Installed(installed, stale_registration(registered, present)));
        self.phase = ErrandPhase::Over;
        assert(self.replies@.drop_last() =~= old(self).replies@);
    }
}

/// The window never learns that the service cannot be reached without learning, at once and right
/// after, what is registered; and it is not told so for any other reason.
pub proof fn law_the_two_facts_arrive_together(e: Errand, i: int)
    requires
        e.wf(),
        e.phase == ErrandPhase::Over,
        0 <= i < e.replies@.len(),
    ensures
        e.replies@[i] is Unreachable ==> i + 1 < e.replies@.len() && e.replies@[i
            + 1] is Installed,
        e.replies@[i] is Installed ==> i > 0 && e.replies@[i - 1] is Unreachable,
{
}

/// After every verb the window is told, in this order, what became of it, who does the work now, and
/// how things are.
pub proof fn law_a_verb_is_followed_up(e: Errand)
    requires
        e.wf(),
        e.phase == ErrandPhase::Over,
        e.job is Elevated,
    ensures
        e.replies@.len() >= 3,
        e.replies@[0] is Output,
        e.replies@[1] is Backend,
        e.replies@[2] is Answered || e.replies@[2] is Failed || e.replies@[2] is Unreachable,
{
}

/// What a reply changes: it ends the work in any case, and no reply changes who may do what or whether
/// the window is visible. An answer brings the state and takes back what was said of the service; a
/// failure is shown, with the state where one came along; where nobody answers, there is no state; and
/// each of the others tells the one thing that it is about.
pub proof fn law_what_replies_change(
    t: Tray,
    s: Status,
    e: String,
    o: Output,
    i: Installed,
    stale: Option<String>,
    kept: Option<Status>,
    reconciled: bool,
)
    ensures
        ({
            let r = t.after_reply(Reply::Answered(s), reconciled);
            &&& r.status == Some(s) && r.offline is None && r.installed is None && r.stale is None
            &&& !r.busy && r.working is None && r.error == t.error && r.output == t.output
            &&& t.pending_mode != Some(s.settings.mode) ==> r.pending_mode == t.pending_mode
            &&& t.pending_mode == Some(s.settings.mode) ==> r.pending_mode is None
            &&& reconciled ==> r.autostart_synced == Some(s.settings.autostart_tray)
            &&& !reconciled ==> r.autostart_synced == t.autostart_synced
            &&& r.local == t.local && r.quitting == t.quitting
        }),
        ({
            let r = t.after_reply(Reply::Failed(e, kept), reconciled);
            &&& r.error == Some(e) && r.offline is None && r.pending_mode is None
            &&& !r.busy && r.working is None && r.output == t.output
            &&& kept is Some ==> r.status == kept
            &&& kept is None ==> r.status == t.status
            &&& r.installed == t.installed && r.stale == t.stale && r.local == t.local
        }),
        ({
            let r = t.after_reply(Reply::Unreachable(e), reconciled);
            &&& r.offline == Some(e) && r.status is None && r.pending_mode is None
            &&& !r.busy && r.working is None && r.error == t.error && r.output == t.output
            &&& r.installed == t.installed && r.stale == t.stale && r.local == t.local
        }),
        ({
            let r = t.after_reply(Reply::Installed(i, stale), reconciled);
            &&& r.installed == Some(i) && r.stale == stale && !r.busy && r.working is None
            &&& r.status == t.status && r.offline == t.offline && r.error == t.error
        }),
        t.after_reply(Reply::Backend(true), reconciled).local,
        !t.after_reply(Reply::Backend(false), reconciled).local,
        t.after_reply(Reply::Backend(t.local), reconciled).autostart_synced is None,
        t.after_reply(Reply::HandedOver, reconciled).quitting,
        t.after_reply(Reply::Output(o), reconciled).output == Some(o),
        t.after_reply(Reply::Output(o), reconciled).error == t.error,
        t.after_reply(Reply::Output(o), reconciled).status == t.status,
        forall|reply: Reply|
            (#[trigger] t.after_reply(reply, reconciled)).visible == t.visible && t.after_reply(
                reply,
                reconciled,
            ).elevated == t.elevated && !t.after_reply(reply, reconciled).busy,
{
}

/// What the first item of the menu means: with an answer at hand it turns protection over; without one
/// it starts a service that is known to have stopped and whose file is there; otherwise it can do
/// nothing.
pub proof fn law_meanings_of_the_first_item(t: Tray)
    ensures
        t.offline is None && t.status is Some && t.status->0.enabled ==> t.action_now()
            == TrayAction::Disable,
        t.offline is None && !(t.status is Some && t.status->0.enabled) ==> t.action_now()
            == TrayAction::Enable,
        t.offline is Some && t.installed == Some(Installed::Stopped) && t.stale is None
            ==> t.action_now() == TrayAction::Start,
        t.offline is Some && (t.installed != Some(Installed::Stopped) || t.stale is Some)
            ==> t.action_now() == TrayAction::Unavailable,
{
}

/// What the menu does: its first item asks for what it says, through a start with administrator rights
/// where this process does the work and has none; a start of the service opens the window as well; the
/// others open the window and close the program.
pub proof fn law_what_the_menu_does(t: Tray)
    ensures
        ({
            let may = !t.local || t.elevated;
            &&& t.action == TrayAction::Enable && may ==> t.menu_effects(MenuItem::Action) == seq![
                Effect::Send(Job::Ipc(Request::Enable)),
            ]
            &&& t.action == TrayAction::Disable && may ==> t.menu_effects(MenuItem::Action) == seq![
                Effect::Send(Job::Ipc(Request::Disable)),
            ]
            &&& t.action == TrayAction::Enable && !may ==> t.menu_effects(MenuItem::Action) == seq![
                Effect::Send(Job::Elevate { enable: true }),
            ]
            &&& t.action == TrayAction::Disable && !may ==> t.menu_effects(MenuItem::Action)
                == seq![Effect::Send(Job::Elevate { enable: false })]
            &&& t.action == TrayAction::Start ==> t.menu_effects(MenuItem::Action) == seq![
                Effect::Send(Job::Elevated(Verb::Start)),
                Effect::Show(true),
                Effect::Send(Job::Ipc(Request::Status)),
            ]
            &&& t.action == TrayAction::Unavailable ==> t.menu_effects(MenuItem::Action).len() == 0
                && t.after_menu(MenuItem::Action) == t
            &&& t.action == TrayAction::Enable || t.action == TrayAction::Disable ==> {
                let r = t.after_menu(MenuItem::Action);
                &&& r.busy && r.error is None && r.visible == t.visible && r.status == t.status
                &&& may ==> r.working == t.working
                &&& !may ==> r.working == Some(Work::Rights)
            }
            &&& t.action == TrayAction::Start ==> {
                let r = t.after_menu(MenuItem::Action);
                &&& r.busy && r.error is None && r.visible
                &&& r.working == Some(Work::Service(Verb::Start))
            }
        }),
        t.menu_effects(MenuItem::Open) == seq![
            Effect::Show(true),
            Effect::Send(Job::Ipc(Request::Status)),
        ],
        t.menu_effects(MenuItem::Quit) == seq![Effect::Close],
        t.after_menu(MenuItem::Open).visible,
        t.after_menu(MenuItem::Quit).quitting,
        Tray::show_effects(false) == seq![Effect::Show(false)],
{
    if t.action == TrayAction::Start {
        assert(t.menu_effects(MenuItem::Action) =~= seq![
            Effect::Send(Job::Elevated(Verb::Start)),
            Effect::Show(true),
            Effect::Send(Job::Ipc(Request::Status)),
        ]);
    }
}

/// A switch turns its own setting over and leaves every other as it is.
pub proof fn law_a_switch_turns_its_own_setting(s: Settings)
    ensures
        flipped(s, Switch::Ipv6) == (Settings { ipv6: !s.ipv6, ..s }),
        flipped(s, Switch::VpnAdapters).include_vpn_adapters == !s.include_vpn_adapters,
        flipped(s, Switch::VpnAdapters).ipv6 == s.ipv6,
        flipped(s, Switch::TrayAutostart).autostart_tray == !s.autostart_tray,
        flipped(s, Switch::TrayAutostart).service_autostart == s.service_autostart,
        flipped(s, Switch::ServiceAutostart).service_autostart == !s.service_autostart,
        flipped(s, Switch::ServiceAutostart).autostart_tray == s.autostart_tray,
        forall|w: Switch|
            (#[trigger] flipped(s, w)).mode == s.mode && flipped(s, w).enabled == s.enabled,
        forall|w: Switch|
            w != Switch::Ipv6 ==> (#[trigger] flipped(s, w)).ipv6 == s.ipv6,
        forall|w: Switch|
            w != Switch::VpnAdapters ==> (#[trigger] flipped(s, w)).include_vpn_adapters
                == s.include_vpn_adapters,
{
}

/// The rows of the window: for each adapter its name with its IPv4 setting and, where IPv6 is covered,
/// its IPv6 setting below it, in the order of the adapters.
pub proof fn law_rows_of_the_window(adapters: Seq<AdapterView>, i: int)
    requires
        0 <= i < adapters.len(),
    ensures
        rows_of(adapters, false).len() == adapters.len(),
        rows_of(adapters, false)[i] == (adapters[i].alias@, adapters[i].current_v4@),
        rows_of(adapters, true).len() == 2 * adapters.len(),
        rows_of(adapters, true)[2 * i] == (adapters[i].alias@, adapters[i].current_v4@),
        rows_of(adapters, true)[2 * i + 1] == ("IPv6"@, adapters[i].current_v6@),
    decreases adapters.len(),
{
    let front = adapters.drop_last();
    if adapters.len() > 1 {
        law_rows_of_the_window(front, if i < adapters.len() - 1 {
            i
        } else {
            0
        });
    } else {
        assert(front =~= Seq::<AdapterView>::empty());
        assert(rows_of(front, true).len() == 0 && rows_of(front, false).len() == 0);
    }
    if i < adapters.len() - 1 {
        assert(front[i] == adapters[i]);
    }
}

/// The values of one key stand one below the other, each with the key.
pub proof fn law_rows_of_one_key(key: Seq<char>, values: Seq<Seq<char>>, i: int)
    requires
        0 <= i < values.len(),
    ensures
        named(key, values).len() == values.len(),
        named(key, values)[i] == (key, values[i]),
{
}

/// The words that start another run of the program: what is asked for, and the click that is handed on.
pub proof fn law_words_for_another_run(nonce: Seq<char>)
    ensures
        elevated_words(Verb::Install, nonce) == seq!["install"@, "--report"@, nonce],
        elevated_words(Verb::Uninstall, nonce) == seq!["uninstall"@, "--report"@, nonce],
        elevated_words(Verb::Start, nonce) == seq!["start"@, "--report"@, nonce],
        elevated_words(Verb::Restart, nonce) == seq!["restart"@, "--report"@, nonce],
        act_word(true) == "--enable"@,
        act_word(false) == "--disable"@,
        first_requests_for(None) == seq![Request::Status],
        POLL_VISIBLE_MS == 2_000,
        POLL_HIDDEN_MS == 20_000,
        STATUS_ATTEMPTS == 10,
{
}

/// What an answer is taken for: one that succeeded brings the state; one that failed brings what it says
/// and the state that came along; and where none came, nobody is there.
pub proof fn law_what_an_answer_is_taken_for(a: Response, e: String, r: Reply)
    ensures
        fits_answer(Err(e), r) ==> r == Reply::Unreachable(e),
        fits_answer(Ok(a), r) && a.ok && a.status is Some ==> r == Reply::Answered(a.status->0),
        fits_answer(Ok(a), r) && a.ok && a.status is None ==> r is Failed && r->Failed_0@
            == "ответ без состояния"@ && r->Failed_1 is None,
        fits_answer(Ok(a), r) && !a.ok ==> r is Failed && r->Failed_1 == a.status,
        fits_answer(Ok(a), r) && !a.ok && a.error is Some ==> r->Failed_0@ == a.error->0@,
        fits_answer(Ok(a), r) && !a.ok && a.error is None ==> r->Failed_0@ == "неизвестная ошибка"@,
{
}

/// What is said of a service that does not answer, and what helps: a start where it stopped, a restart
/// where it runs; nothing where its file is gone or its state is not known.
pub proof fn law_what_helps_a_silent_service(
    t: Trouble,
    missing: &String,
    installed: Option<&Installed>,
    word: &'static str,
    cause: String,
)
    ensures
        fits_trouble(Some(missing), installed, t) ==> t.remedy is None && t.headline@
            == "Служба указывает на исчезнувший файл"@ && t.hint@ == "Зарегистрировано: "@ + missing@
            + "\nЭтого файла больше нет. Удалите службу — программа продолжит работать без неё."@,
        fits_trouble(None, Some(&Installed::Stopped), t) ==> t.remedy == Some(Verb::Start)
            && t.headline@ == "Служба остановлена"@ && t.hint@
            == "Пока она не запущена, защиту включить нельзя."@,
        fits_trouble(None, Some(&Installed::Running), t) ==> t.remedy == Some(Verb::Restart)
            && t.headline@ == "Служба запущена, но не отвечает"@,
        fits_trouble(None, Some(&Installed::Other(word)), t) ==> t.remedy is None && t.headline@
            == "Служба "@ + word@,
        fits_trouble(None, Some(&Installed::Unknown(cause)), t) ==> t.remedy is None && t.hint@
            == cause@ && t.headline@ == "Не удалось узнать состояние службы"@,
        fits_trouble(None, None, t) ==> t.remedy is None && t.headline@ == "Проверяю службу…"@
            && t.hint@.len() == 0,
        fits_trouble(None, Some(&Installed::No), t) ==> t.remedy is None && t.headline@
            == "Проверяю службу…"@,
{
}

/// What is shown after a run with administrator rights: what the run reported, with its error at the
/// end; without a report, success exactly where it ended with zero, and where the journal is; and a run
/// that was declined or could not start is no success.
pub proof fn law_what_a_run_shows(
    verb: Verb,
    code: u32,
    a: ActionReport,
    report: Option<ActionReport>,
    e: String,
    log: Seq<char>,
    r: Output,
)
    ensures
        fits_elevated(verb, Ok(Outcome::Exited(code)), Some(a), log, r) ==> r.ok == a.ok && texts(
            a.lines@,
        ).is_prefix_of(texts(r.lines@)),
        fits_elevated(verb, Ok(Outcome::Exited(code)), Some(a), log, r) && a.error is Some ==> texts(
            r.lines@,
        ).last() == a.error->0@ && r.lines@.len() == a.lines@.len() + 1,
        fits_elevated(verb, Ok(Outcome::Exited(code)), Some(a), log, r) && a.error is None
            ==> r.lines@.len() == a.lines@.len(),
        fits_elevated(verb, Ok(Outcome::Exited(code)), None, log, r) ==> (r.ok <==> code == 0)
            && texts(r.lines@) == seq![
            "Процесс завершился с кодом "@ + decimal(code as nat) + ", но отчёт не записан."@,
            "Журнал: "@ + log,
        ],
        fits_elevated(verb, Ok(Outcome::Declined), report, log, r) ==> !r.ok && texts(r.lines@)
            == seq!["Отменено. Без прав администратора службой управлять нельзя."@],
        fits_elevated(verb, Err(e), report, log, r) ==> !r.ok && texts(r.lines@) == seq![e@],
        fits_elevated(verb, Err(e), report, log, r) ==> r.title@ == (match verb {
            Verb::Install => "Установка службы"@,
            Verb::Uninstall => "Удаление службы"@,
            Verb::Start => "Запуск"@,
            Verb::Restart => "Перезапуск"@,
        }),
{
    assert(texts(r.lines@).len() == r.lines@.len());
    assert(texts(a.lines@).len() == a.lines@.len());
    if fits_elevated(verb, Ok(Outcome::Exited(code)), Some(a), log, r) {
        assert(texts(r.lines@).subrange(0, a.lines@.len() as int) =~= texts(a.lines@));
    }
}

/// What a start of another copy comes to: it takes over, or it is said why it does not.
pub proof fn law_what_a_start_comes_to(code: u32, e: String, r: Reply)
    ensures
        fits_start(Ok(Outcome::Exited(code)), r) ==> r is HandedOver,
        fits_start(Ok(Outcome::Declined), r) ==> r is Output && !r->Output_0.ok && texts(
            r->Output_0.lines@,
        ) == seq!["Отменено. Без них программа не может менять настройки DNS."@],
        fits_start(Err(e), r) ==> r is Output && !r->Output_0.ok && texts(r->Output_0.lines@)
            == seq![e@],
{
}

/// What the window hears of an errand once it is over: of a question the answer, or that nobody is there
/// and how the service is registered; of a start of another copy that it took over or why it did not; of
/// a verb what it reported, who does the work now, and then as of a question.
pub proof fn law_what_an_errand_brings(e: Errand)
    requires
        e.wf(),
        e.phase == ErrandPhase::Over,
    ensures
        e.job is Ipc ==> (e.replies@.len() == 1 && (e.replies@[0] is Answered
            || e.replies@[0] is Failed)) || (e.replies@.len() == 2 && e.replies@[0] is Unreachable
            && e.replies@[1] is Installed),
        e.job is Elevate ==> e.replies@.len() == 1 && (e.replies@[0] is HandedOver
            || e.replies@[0] is Output),
        e.job is Elevated ==> e.replies@[0] is Output && e.replies@[1] is Backend && ((
        e.replies@.len() == 3 && (e.replies@[2] is Answered || e.replies@[2] is Failed)) || (
        e.replies@.len() == 4 && e.replies@[2] is Unreachable && e.replies@[3] is Installed)),
{
}

/// The service's registration is looked at only after nobody answered, and the state is asked for only
/// once what comes before it has been told.
pub proof fn law_errands_go_step_by_step(e: Errand)
    requires
        e.wf(),
    ensures
        e.phase == ErrandPhase::Look ==> e.replies@.len() > 0 && e.replies@[e.replies@.len()
            - 1] is Unreachable && (e.job is Ipc ==> e.replies@.len() == 1) && (e.job is Elevated
            ==> e.replies@.len() == 3) && !(e.job is Elevate),
        e.phase == ErrandPhase::Ask && e.job is Ipc ==> e.replies@.len() == 0,
        e.phase == ErrandPhase::Ask && e.job is Elevated ==> e.replies@.len() == 2
            && e.replies@[0] is Output && e.replies@[1] is Backend,
        e.phase == ErrandPhase::Ask ==> !(e.job is Elevate),
        e.phase == ErrandPhase::Pause ==> e.job is Elevated,
        e.phase == ErrandPhase::Release || e.phase == ErrandPhase::Start || e.phase
            == ErrandPhase::Claim ==> e.job is Elevate,
        e.phase == ErrandPhase::Shutdown || e.phase == ErrandPhase::Run || e.phase
            == ErrandPhase::Choose ==> e.job is Elevated,
        e.attempts <= 10,
{
}

/// Who may change the machine's settings: the service may, and this process where it has administrator
/// rights; and protection is on exactly where the known state says so.
pub proof fn law_who_may_change(t: Tray)
    ensures
        t.may_change() <==> !(t.local && !t.elevated),
        t.on() <==> (t.status matches Some(s) && s.enabled),
{
}

} // verus!
