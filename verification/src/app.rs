//! The state of the program, and the steps by which it changes the machine's DNS settings.
//!
//! The order of the steps is what keeps a machine resolving: the local resolver runs before anything
//! points at it, a template is there before the address it is for, and what was there before is
//! recorded before anything is changed. What fails on the way is undone.

use vstd::prelude::*;

use crate::backup::{DnsBackup, Reading};
use crate::config::{
    resolver_ips_text, resolver_ipv6_text, Mode, Settings, ADAPTER_DNS_V4, ADAPTER_DNS_V6,
};
use crate::endpoints::Endpoints;
use crate::ipc::{AdapterView, Status};
use crate::netif::{
    doh_template_exists, native_doh_supported, select_adapters, Adapter, DnsState, Family,
};
use crate::text::{join, push_decimal, same_text};
#[allow(unused_imports)]
use crate::addr::{Ipv4Addr, Ipv6Addr};
#[allow(unused_imports)]
use crate::backup::{
    captured, clean_state, dropped_from, preserved, recordable, row_of, rows, AdapterBackup, RowView,
};
#[allow(unused_imports)]
use crate::iptext::{v4_form, v6_form};
#[allow(unused_imports)]
use crate::config::{built_in_v4, built_in_v6, v4_forms, v6_forms, WINDOWS_11_BUILD};
#[allow(unused_imports)]
use crate::netif::{chosen_of, StateView};
#[allow(unused_imports)]
use crate::text::{decimal, joined, texts, texts_push};

verus! {

/// What the program knows of itself.
#[derive(Clone, Copy, Debug, PartialEq, Eq, Structural)]
pub struct App {
    pub settings: Settings,
    /// Whether the local resolver runs in this process.
    pub stub_running: bool,
    /// Whether the adapters are pointed at the resolver, as far as this process knows.
    pub enabled: bool,
}

/// How far the switching on has come.
#[derive(Clone, Copy, Debug, PartialEq, Eq, Structural)]
pub enum Phase {
    /// The local resolver is to be started.
    Resolver,
    /// The next server's template is to be looked up.
    Lookup,
    /// The next server's template is to be registered.
    Register,
    /// The adapters are to be listed.
    List,
    /// The settings of the chosen adapters are to be read.
    Read,
    /// The record is to be written.
    Save,
    /// The IPv4 servers of the adapter with this number are to be set.
    SetV4(usize),
    /// The IPv6 servers of the adapter with this number are to be set.
    SetV6(usize),
    /// What was recorded is to be restored.
    RollBack,
    /// The cache is to be flushed after that.
    FlushBack,
    /// The template that was registered with this number is to be removed.
    Unregister(usize),
    /// The cache is to be flushed.
    Flush,
    /// The settings are to be written.
    Keep,
    /// The templates that were registered are to be added to the record.
    Owe,
    Over,
}

/// The switching on.
#[derive(Debug)]
pub struct Enabling {
    pub mode: Mode,
    pub include_vpn: bool,
    pub v4: Vec<String>,
    /// Empty where IPv6 is to be emptied.
    pub v6: Vec<String>,
    pub phase: Phase,
    /// Whether the local resolver runs.
    pub resolver_up: bool,
    /// How many of the servers, IPv4 first, have a template.
    pub ready: usize,
    /// The servers whose template was registered on the way.
    pub added: Vec<String>,
    pub chosen: Vec<Adapter>,
    /// Whether the record has been written.
    pub recorded: bool,
    /// How many of the chosen adapters have their IPv4 servers.
    pub configured: usize,
    /// Whether what was recorded has been restored, as far as that was possible.
    pub undone: bool,
    /// Why it failed, if it did.
    pub error: Option<String>,
}

/// The servers for IPv4.
pub open spec fn servers_v4(mode: Mode) -> Seq<Seq<char>> {
    match mode {
        Mode::Stub => seq![ADAPTER_DNS_V4@],
        Mode::Native => v4_forms(built_in_v4()),
    }
}

/// The servers for IPv6: none where it is switched off.
pub open spec fn servers_v6(mode: Mode, ipv6: bool) -> Seq<Seq<char>> {
    if !ipv6 {
        Seq::empty()
    } else {
        match mode {
            Mode::Stub => seq![ADAPTER_DNS_V6@],
            Mode::Native => v6_forms(built_in_v6()),
        }
    }
}

/// What a Windows without a DNS-over-HTTPS client is answered.
pub open spec fn unsupported(build: u32) -> Seq<char> {
    "этой Windows (сборка "@ + decimal(build as nat)
        + ") нужен встроенный DoH-клиент, а он появился только в Windows 11. Выберите режим локального резолвера."@
}

/// What is said where there is no adapter to configure.
pub const NO_ADAPTER: &'static str =
    "не найдено ни одного подходящего адаптера (все виртуальные, туннельные или без шлюза)";

/// A cause with what was being done in front of it.
pub open spec fn because(what: Seq<char>, cause: Seq<char>) -> Seq<char> {
    what + ": "@ + cause
}

impl Enabling {
    /// The servers that need a template, IPv4 first.
    pub open spec fn servers(&self) -> Seq<Seq<char>> {
        texts(self.v4@) + texts(self.v6@)
    }

    /// What holds at every step. Servers are written into adapters only after the record was
    /// written; the local resolver runs by then where they are its own, and where they are the
    /// resolver's every one of them has a template.
    pub open spec fn wf(&self) -> bool {
        &&& self.ready <= self.servers().len()
        &&& !self.recorded ==> self.configured == 0
        &&& self.v4@.len() + self.v6@.len() <= usize::MAX
        &&& self.added@.len() <= self.ready
        &&& match self.phase {
            Phase::Resolver => self.mode == Mode::Stub && !self.recorded && self.error is None,
            Phase::Lookup | Phase::Register => self.mode == Mode::Native && self.ready
                < self.servers().len() && !self.recorded && self.error is None,
            Phase::List => self.prepared() && !self.recorded && self.error is None,
            Phase::Read | Phase::Save => self.prepared() && !self.recorded && self.chosen@.len()
                > 0 && self.error is None,
            Phase::SetV4(i) => self.prepared() && self.recorded && i < self.chosen@.len()
                && self.configured == i && self.error is None,
            Phase::SetV6(i) => self.prepared() && self.recorded && i < self.chosen@.len()
                && self.configured == i + 1 && self.error is None,
            Phase::Flush | Phase::Keep => self.complete() && self.error is None,
            Phase::Owe => self.complete() && self.error is None && self.mode == Mode::Native,
            Phase::RollBack => self.recorded && self.error is Some,
            Phase::FlushBack => self.recorded && self.undone && self.error is Some,
            Phase::Unregister(k) => k < self.added@.len() && self.error is Some && (self.recorded
                ==> self.undone),
            Phase::Over => if self.error is Some {
                self.recorded ==> self.undone
            } else {
                self.complete()
            },
        }
    }

    /// Whether what the servers need is there.
    pub open spec fn prepared(&self) -> bool {
        match self.mode {
            Mode::Stub => self.resolver_up,
            Mode::Native => self.ready == self.servers().len(),
        }
    }

    /// Whether every chosen adapter was configured, with everything in place before.
    pub open spec fn complete(&self) -> bool {
        self.prepared() && self.recorded && self.configured == self.chosen@.len()
    }

    /// Starts the switching on. A mode that this Windows does not have is refused; a resolver that
    /// runs already is not started again.
    pub fn begin(settings: &Settings, stub_running: bool, build: u32) -> (r: Result<
        Enabling,
        String,
    >)
        ensures
            match r {
                Ok(m) => {
                    &&& m.wf()
                    &&& settings.mode == Mode::Native ==> build >= WINDOWS_11_BUILD
                    &&& m.mode == settings.mode
                    &&& m.include_vpn == settings.include_vpn_adapters
                    &&& texts(m.v4@) == servers_v4(settings.mode)
                    &&& texts(m.v6@) == servers_v6(settings.mode, settings.ipv6)
                    &&& m.phase == (if settings.mode == Mode::Native {
                        Phase::Lookup
                    } else if stub_running {
                        Phase::List
                    } else {
                        Phase::Resolver
                    })
                    &&& m.resolver_up == stub_running
                    &&& m.ready == 0
                    &&& m.added@.len() == 0
                    &&& m.chosen@.len() == 0
                    &&& !m.recorded
                    &&& m.configured == 0
                    &&& !m.undone
                    &&& m.error is None
                },
                Err(e) => settings.mode == Mode::Native && build < WINDOWS_11_BUILD && e@
                    == unsupported(build),
            },
    {
        broadcast use texts_push;

        let mut v4: Vec<String> = Vec::new();
        let mut v6: Vec<String> = Vec::new();
        let phase: Phase;
        match settings.mode {
            Mode::Stub => {
                v4.push(ADAPTER_DNS_V4.to_owned());
                assert(texts(v4@) =~= seq![ADAPTER_DNS_V4@]);
                if settings.ipv6 {
                    v6.push(ADAPTER_DNS_V6.to_owned());
                    assert(texts(v6@) =~= seq![ADAPTER_DNS_V6@]);
                } else {
                    assert(texts(v6@) =~= Seq::<Seq<char>>::empty());
                }
                phase = if stub_running {
                    Phase::List
                } else {
                    Phase::Resolver
                };
            },
            Mode::Native => {
                if !native_doh_supported(build) {
                    let mut e = "этой Windows (сборка ".to_owned();
                    push_decimal(&mut e, build as u64);
                    e.append(
                        ") нужен встроенный DoH-клиент, а он появился только в Windows 11. Выберите режим локального резолвера.",
                    );
                    return Err(e);
                }
                v4 = resolver_ips_text();
                if settings.ipv6 {
                    v6 = resolver_ipv6_text();
                } else {
                    assert(texts(v6@) =~= Seq::<Seq<char>>::empty());
                }
                phase = Phase::Lookup;
            },
        }
        assert(texts(v4@).len() == v4@.len() && texts(v6@).len() == v6@.len());
        let m = Enabling {
            mode: settings.mode,
            include_vpn: settings.include_vpn_adapters,
            v4,
            v6,
            phase,
            resolver_up: stub_running,
            ready: 0,
            added: Vec::new(),
            chosen: Vec::new(),
            recorded: false,
            configured: 0,
            undone: false,
            error: None,
        };
        Ok(m)
    }

    /// The local resolver was started, or could not be.
    pub fn resolver_started(&mut self, result: Result<(), String>)
        requires
            old(self).wf(),
            old(self).phase == Phase::Resolver,
        ensures
            final(self).wf(),
            final(self).left() < old(self).left(),
            *final(self) == (Enabling {
                phase: final(self).phase,
                resolver_up: final(self).resolver_up,
                error: final(self).error,
                ..*old(self)
            }),
            !final(self).recorded,
            match result {
                Ok(_) => final(self).phase == Phase::List && final(self).resolver_up
                    && final(self).error is None,
                Err(e) => *final(self) == (Enabling {
                    phase: Phase::Over,
                    error: Some(e),
                    ..*old(self)
                }),
            },
    {
        match result {
            Ok(_) => {
                self.resolver_up = true;
                self.phase = Phase::List;
            },
            Err(e) => {
                self.error = Some(e);
                self.phase = Phase::Over;
            },
        }
    }

    /// The server whose template is looked up or registered next.
    pub fn server(&self) -> (r: &String)
        requires
            self.wf(),
            self.phase == Phase::Lookup || self.phase == Phase::Register,
        ensures
            r@ == self.servers()[self.ready as int],
    {
        assert(texts(self.v4@).len() == self.v4@.len());
        assert(texts(self.v6@).len() == self.v6@.len());
        if self.ready < self.v4.len() {
            &self.v4[self.ready]
        } else {
            &self.v6[self.ready - self.v4.len()]
        }
    }

    fn one_ready(&mut self)
        requires
            old(self).mode == Mode::Native,
            old(self).ready < old(self).servers().len(),
            old(self).added@.len() <= old(self).ready + 1,
            old(self).v4@.len() + old(self).v6@.len() <= usize::MAX,
            !old(self).recorded,
            old(self).configured == 0,
            old(self).error is None,
        ensures
            final(self).wf(),
            *final(self) == (Enabling {
                ready: (old(self).ready + 1) as usize,
                phase: if old(self).ready + 1 == old(self).servers().len() {
                    Phase::List
                } else {
                    Phase::Lookup
                },
                ..*old(self)
            }),
    {
        assert(texts(self.v4@).len() == self.v4@.len());
        assert(texts(self.v6@).len() == self.v6@.len());
        self.ready = self.ready + 1;
        self.phase = if self.ready == self.v4.len() + self.v6.len() {
            Phase::List
        } else {
            Phase::Lookup
        };
    }

    /// The next server's template was looked up. One that is there is left alone.
    pub fn template_found(&mut self, lookup: Option<bool>)
        requires
            old(self).wf(),
            old(self).phase == Phase::Lookup,
        ensures
            final(self).wf(),
            final(self).left() < old(self).left(),
            *final(self) == (Enabling {
                phase: final(self).phase,
                ready: final(self).ready,
                ..*old(self)
            }),
            !final(self).recorded,
            final(self).error is None,
            lookup == Some(true) ==> final(self).ready == old(self).ready + 1 && final(self).phase
                == (if old(self).ready + 1 == old(self).servers().len() {
                Phase::List
            } else {
                Phase::Lookup
            }),
            lookup != Some(true) ==> final(self).ready == old(self).ready && final(self).phase
                == Phase::Register,
    {
        if doh_template_exists(lookup) {
            self.one_ready();
        } else {
            self.phase = Phase::Register;
        }
    }

    /// The next server's template was registered, or could not be. Those that were registered before
    /// it stay.
    pub fn template_registered(&mut self, result: Result<(), String>)
        requires
            old(self).wf(),
            old(self).phase == Phase::Register,
        ensures
            final(self).wf(),
            final(self).left() < old(self).left(),
            *final(self) == (Enabling {
                phase: final(self).phase,
                ready: final(self).ready,
                added: final(self).added,
                error: final(self).error,
                ..*old(self)
            }),
            !final(self).recorded,
            match result {
                Ok(_) => {
                    &&& final(self).ready == old(self).ready + 1
                    &&& texts(final(self).added@) == texts(old(self).added@).push(
                        old(self).servers()[old(self).ready as int],
                    )
                    &&& final(self).error is None
                    &&& final(self).phase == (if old(self).ready + 1
                        == old(self).servers().len() {
                        Phase::List
                    } else {
                        Phase::Lookup
                    })
                },
                Err(e) => {
                    &&& final(self).phase == Phase::Over
                    &&& final(self).ready == old(self).ready
                    &&& final(self).added == old(self).added
                    &&& final(self).error is Some
                    &&& final(self).error->0@ == because(
                        "не удалось зарегистрировать DoH-шаблон для "@
                            + old(self).servers()[old(self).ready as int],
                        e@,
                    )
                },
            },
    {
        broadcast use texts_push;

        let server: String = self.server().clone();
        match result {
            Ok(_) => {
                self.added.push(server);
                self.one_ready();
            },
            Err(e) => {
                let mut text = "не удалось зарегистрировать DoH-шаблон для ".to_owned();
                text.append(server.as_str());
                text.append(": ");
                text.append(e.as_str());
                self.error = Some(text);
                self.phase = Phase::Over;
            },
        }
    }

    /// Gives up before anything was written into an adapter: what was registered is removed again.
    fn give_up(&mut self, e: String)
        requires
            old(self).ready <= old(self).servers().len(),
            old(self).v4@.len() + old(self).v6@.len() <= usize::MAX,
            old(self).added@.len() <= old(self).ready,
            !old(self).recorded,
            old(self).configured == 0,
        ensures
            final(self).wf(),
            *final(self) == (Enabling {
                error: Some(e),
                phase: if old(self).added@.len() > 0 {
                    Phase::Unregister(0)
                } else {
                    Phase::Over
                },
                ..*old(self)
            }),
    {
        self.error = Some(e);
        self.phase = if self.added.len() > 0 {
            Phase::Unregister(0)
        } else {
            Phase::Over
        };
    }

    /// The adapters were listed, or could not be. Those to configure are chosen among them; there has
    /// to be one.
    pub fn adapters_listed(&mut self, all: Result<Vec<Adapter>, String>)
        requires
            old(self).wf(),
            old(self).phase == Phase::List,
        ensures
            final(self).wf(),
            final(self).left() < old(self).left(),
            *final(self) == (Enabling {
                phase: final(self).phase,
                chosen: final(self).chosen,
                error: final(self).error,
                ..*old(self)
            }),
            !final(self).recorded,
            match all {
                Ok(list) => if chosen_of(list@, old(self).include_vpn).len() > 0 {
                    &&& final(self).phase == Phase::Read
                    &&& final(self).chosen@ == chosen_of(list@, old(self).include_vpn)
                    &&& final(self).error is None
                } else {
                    &&& final(self).phase == (if old(self).added@.len() > 0 {
                        Phase::Unregister(0)
                    } else {
                        Phase::Over
                    })
                    &&& final(self).chosen == old(self).chosen
                    &&& final(self).error is Some
                    &&& final(self).error->0@ == NO_ADAPTER@
                },
                Err(e) => *final(self) == (Enabling {
                    phase: if old(self).added@.len() > 0 {
                        Phase::Unregister(0)
                    } else {
                        Phase::Over
                    },
                    error: Some(e),
                    ..*old(self)
                }),
            },
    {
        match all {
            Ok(list) => {
                let chosen: Vec<Adapter> = select_adapters(&list, self.include_vpn).chosen;
                if chosen.len() == 0 {
                    self.give_up(NO_ADAPTER.to_owned());
                } else {
                    self.chosen = chosen;
                    self.phase = Phase::Read;
                }
            },
            Err(e) => {
                self.give_up(e);
            },
        }
    }

    /// The settings of the chosen adapters were read. The record to write is what was there before,
    /// with whatever an earlier run recorded kept.
    pub fn states_read(
        &mut self,
        states: Vec<(DnsState, DnsState)>,
        previous: Option<DnsBackup>,
        e: &Endpoints,
        now: u64,
    ) -> (r: DnsBackup)
        requires
            old(self).wf(),
            old(self).phase == Phase::Read,
            states@.len() == old(self).chosen@.len(),
        ensures
            final(self).wf(),
            final(self).left() < old(self).left(),
            *final(self) == (Enabling { phase: Phase::Save, ..*old(self) }),
            ({
                let fresh = fresh_rows(old(self).chosen@, states@, e);
                match previous {
                    None => rows(r.adapters@) == fresh && r.created_unix == now
                        && r.doh_added@.len() == 0,
                    Some(p) => rows(r.adapters@) == preserved(fresh, rows(p.adapters@))
                        && r.created_unix == p.created_unix && r.doh_added@ == p.doh_added@,
                }
            }),
    {
        let mut readings: Vec<Reading> = Vec::new();
        let mut i: usize = 0;
        while i < states.len()
            invariant
                i <= states@.len(),
                states@.len() == self.chosen@.len(),
                readings@.len() == i,
                forall|k: int|
                    0 <= k < i ==> row_of(#[trigger] readings@[k], e.lists()) == fresh_rows(
                        self.chosen@,
                        states@,
                        e,
                    )[k],
            decreases states@.len() - i,
        {
            readings.push(
                Reading {
                    adapter: self.chosen[i].clone(),
                    v4: states[i].0.clone(),
                    v6: states[i].1.clone(),
                },
            );
            i += 1;
        }
        assert(captured(readings@, e.lists()) =~= fresh_rows(self.chosen@, states@, e));
        self.phase = Phase::Save;
        DnsBackup::capture_preserving(&readings, previous, e, now)
    }

    /// The record was written, or could not be. Without it nothing is changed.
    pub fn backup_saved(&mut self, result: Result<(), String>)
        requires
            old(self).wf(),
            old(self).phase == Phase::Save,
        ensures
            final(self).wf(),
            final(self).left() < old(self).left(),
            *final(self) == (Enabling {
                phase: final(self).phase,
                recorded: final(self).recorded,
                error: final(self).error,
                ..*old(self)
            }),
            match result {
                Ok(_) => *final(self) == (Enabling {
                    phase: Phase::SetV4(0),
                    recorded: true,
                    ..*old(self)
                }),
                Err(e) => {
                    &&& final(self).phase == (if old(self).added@.len() > 0 {
                        Phase::Unregister(0)
                    } else {
                        Phase::Over
                    })
                    &&& !final(self).recorded
                    &&& final(self).error is Some
                    &&& final(self).error->0@ == because(
                        "не удалось сохранить резервную копию настроек DNS"@,
                        e@,
                    )
                },
            },
    {
        match result {
            Ok(_) => {
                assert(self.chosen.len() <= usize::MAX);
                self.recorded = true;
                self.phase = Phase::SetV4(0);
            },
            Err(e) => {
                let mut text = "не удалось сохранить резервную копию настроек DNS".to_owned();
                text.append(": ");
                text.append(e.as_str());
                self.give_up(text);
            },
        }
    }

    /// The IPv4 servers of an adapter were set, or could not be. The first failure undoes everything.
    pub fn v4_set(&mut self, result: Result<(), String>)
        requires
            old(self).wf(),
            old(self).phase is SetV4,
        ensures
            final(self).wf(),
            final(self).left() < old(self).left(),
            *final(self) == (Enabling {
                phase: final(self).phase,
                configured: final(self).configured,
                error: final(self).error,
                ..*old(self)
            }),
            final(self).recorded,
            match result {
                Ok(_) => *final(self) == (Enabling {
                    phase: Phase::SetV6(old(self).phase->SetV4_0),
                    configured: (old(self).configured + 1) as usize,
                    ..*old(self)
                }),
                Err(e) => {
                    &&& final(self).phase == Phase::RollBack
                    &&& final(self).configured == old(self).configured
                    &&& final(self).error is Some
                    &&& final(self).error->0@ == because(
                        "адаптер «"@ + old(self).chosen@[old(self).phase->SetV4_0 as int].alias@
                            + "»"@,
                        e@,
                    )
                },
            },
    {
        if let Phase::SetV4(i) = self.phase {
            match result {
                Ok(_) => {
                    assert(i < self.chosen.len());
                    self.configured = i + 1;
                    self.phase = Phase::SetV6(i);
                },
                Err(e) => {
                    let mut text = "адаптер «".to_owned();
                    text.append(self.chosen[i].alias.as_str());
                    text.append("»");
                    text.append(": ");
                    text.append(e.as_str());
                    self.error = Some(text);
                    self.phase = Phase::RollBack;
                },
            }
        }
    }

    /// The IPv6 servers of an adapter were set, or could not be: a machine may have IPv6 switched
    /// off, and that is no reason to fail.
    pub fn v6_set(&mut self)
        requires
            old(self).wf(),
            old(self).phase is SetV6,
        ensures
            final(self).wf(),
            final(self).left() < old(self).left(),
            *final(self) == (Enabling {
                phase: if old(self).phase->SetV6_0 + 1 < old(self).chosen@.len() {
                    Phase::SetV4((old(self).phase->SetV6_0 + 1) as usize)
                } else {
                    Phase::Flush
                },
                ..*old(self)
            }),
    {
        if let Phase::SetV6(i) = self.phase {
            self.phase = if self.chosen.len() - i > 1 {
                Phase::SetV4(i + 1)
            } else {
                Phase::Flush
            };
        }
    }

    /// What was recorded was restored, as far as that was possible.
    pub fn rolled_back(&mut self)
        requires
            old(self).wf(),
            old(self).phase == Phase::RollBack,
        ensures
            final(self).wf(),
            final(self).left() < old(self).left(),
            *final(self) == (Enabling { phase: Phase::FlushBack, undone: true, ..*old(self) }),
    {
        self.undone = true;
        self.phase = Phase::FlushBack;
    }

    /// The cache was flushed: at the end of a success, from which on the program counts as enabled,
    /// or after everything was undone.
    pub fn flushed(&mut self, app: &mut App)
        requires
            old(self).wf(),
            old(self).phase == Phase::Flush || old(self).phase == Phase::FlushBack,
        ensures
            final(self).wf(),
            final(self).left() < old(self).left(),
            *final(self) == (Enabling {
                phase: if old(self).phase == Phase::Flush {
                    Phase::Keep
                } else if old(self).added@.len() > 0 {
                    Phase::Unregister(0)
                } else {
                    Phase::Over
                },
                ..*old(self)
            }),
            *final(app) == (if old(self).phase == Phase::Flush {
                App {
                    enabled: true,
                    settings: Settings { enabled: true, ..old(app).settings },
                    ..*old(app)
                }
            } else {
                *old(app)
            }),
    {
        if self.phase == Phase::Flush {
            app.enabled = true;
            app.settings.enabled = true;
            self.phase = Phase::Keep;
        } else if self.added.len() > 0 {
            self.phase = Phase::Unregister(0);
        } else {
            self.phase = Phase::Over;
        }
    }

    /// A template that was registered on the way was removed, as far as that was possible.
    pub fn unregistered(&mut self)
        requires
            old(self).wf(),
            old(self).phase is Unregister,
        ensures
            final(self).wf(),
            final(self).left() < old(self).left(),
            *final(self) == (Enabling {
                phase: if old(self).phase->Unregister_0 + 1 < old(self).added@.len() {
                    Phase::Unregister((old(self).phase->Unregister_0 + 1) as usize)
                } else {
                    Phase::Over
                },
                ..*old(self)
            }),
    {
        if let Phase::Unregister(k) = self.phase {
            self.phase = if self.added.len() - k > 1 {
                Phase::Unregister(k + 1)
            } else {
                Phase::Over
            };
        }
    }

    /// The settings were written, as far as that was possible.
    pub fn kept(&mut self)
        requires
            old(self).wf(),
            old(self).phase == Phase::Keep,
        ensures
            final(self).wf(),
            final(self).left() < old(self).left(),
            *final(self) == (Enabling {
                phase: if old(self).mode == Mode::Native {
                    Phase::Owe
                } else {
                    Phase::Over
                },
                ..*old(self)
            }),
    {
        self.phase = if self.mode == Mode::Native {
            Phase::Owe
        } else {
            Phase::Over
        };
    }

    /// Adds the templates that were registered to those that the record says are to be removed.
    /// Nothing is taken off that list. Without a record there is nothing to write.
    pub fn owe(&mut self, backup: Option<DnsBackup>) -> (r: Option<DnsBackup>)
        requires
            old(self).wf(),
            old(self).phase == Phase::Owe,
        ensures
            final(self).wf(),
            final(self).left() < old(self).left(),
            *final(self) == (Enabling { phase: Phase::Over, ..*old(self) }),
            match (backup, r) {
                (None, out) => out is None,
                (Some(b), None) => false,
                (Some(b), Some(out)) => out.created_unix == b.created_unix && out.adapters
                    == b.adapters && texts(out.doh_added@) == owed(
                    texts(b.doh_added@),
                    texts(old(self).added@),
                ),
            },
    {
        self.phase = Phase::Over;
        match backup {
            None => None,
            Some(b) => {
                let mut out = b;
                add_owed(&mut out.doh_added, &self.added);
                Some(out)
            },
        }
    }

    /// What came of it.
    pub fn outcome(&self) -> (r: Result<(), String>)
        ensures
            match r {
                Ok(_) => self.error is None,
                Err(e) => self.error is Some && e@ == self.error->0@,
            },
    {
        match &self.error {
            Some(e) => Err(e.clone()),
            None => Ok(()),
        }
    }

    /// How many steps are left at most.
    pub open spec fn left(&self) -> int {
        let n = self.chosen@.len() as int;
        let t = self.servers().len() as int;
        let a = self.added@.len() as int;
        match self.phase {
            Phase::Resolver => 2 * usize::MAX + t + 11,
            Phase::Lookup => 2 * usize::MAX + 3 * (t - self.ready) + t + 11,
            Phase::Register => 2 * usize::MAX + 3 * (t - self.ready) + t + 10,
            Phase::List => 2 * usize::MAX + t + 10,
            Phase::Read => 2 * usize::MAX + t + 9,
            Phase::Save => 2 * usize::MAX + t + 8,
            Phase::SetV4(i) => 2 * (n - i) + t + 7,
            Phase::SetV6(i) => 2 * (n - i) + t + 6,
            Phase::RollBack => t + 5,
            Phase::FlushBack => t + 4,
            Phase::Flush => 4,
            Phase::Keep => 3,
            Phase::Owe => 2,
            Phase::Unregister(k) => 1 + a - k,
            Phase::Over => 0,
        }
    }
}

/// The records of adapters with the settings that were read of them.
pub open spec fn fresh_rows(
    chosen: Seq<Adapter>,
    states: Seq<(DnsState, DnsState)>,
    e: &Endpoints,
) -> Seq<RowView> {
    Seq::new(
        chosen.len(),
        |i: int|
            row_of(
                Reading { adapter: chosen[i], v4: states[i].0, v6: states[i].1 },
                e.lists(),
            ),
    )
}

/// The list with each of `more` behind it that is not in it.
pub open spec fn owed(list: Seq<Seq<char>>, more: Seq<Seq<char>>) -> Seq<Seq<char>> {
    crate::endpoints::unique_all(list, more)
}

fn holds_text(list: &Vec<String>, s: &str) -> (r: bool)
    ensures
        r == texts(list@).contains(s@),
{
    let mut i: usize = 0;
    while i < list.len()
        invariant
            i <= list@.len(),
            forall|k: int| 0 <= k < i ==> texts(list@)[k] != s@,
        decreases list@.len() - i,
    {
        if same_text(list[i].as_str(), s) {
            assert(texts(list@)[i as int] == s@);
            return true;
        }
        i += 1;
    }
    false
}

fn add_owed(list: &mut Vec<String>, more: &Vec<String>)
    ensures
        texts(final(list)@) == owed(texts(old(list)@), texts(more@)),
{
    let ghost start = texts(list@);
    let ghost all = texts(more@);
    let mut i: usize = 0;
    assert(all.take(0) =~= Seq::<Seq<char>>::empty());
    while i < more.len()
        invariant
            i <= more@.len(),
            all == texts(more@),
            texts(list@) == owed(start, all.take(i as int)),
        decreases more@.len() - i,
    {
        assert(all.take(i + 1).drop_last() =~= all.take(i as int));
        assert(all.take(i + 1).last() == more@[i as int]@);
        if !holds_text(list, more[i].as_str()) {
            let one: String = more[i].clone();
            let ghost before = list@;
            list.push(one);
            proof {
                texts_push(before, one);
            }
        }
        i += 1;
    }
    assert(all.take(i as int) =~= all);
}

/// Servers are written into an adapter only after what was there before is on the disk, and only
/// when what they need is there: the local resolver runs, or every server has its template.
pub proof fn law_nothing_changes_unprepared(m: Enabling)
    requires
        m.wf(),
        m.phase is SetV4 || m.phase is SetV6,
    ensures
        m.recorded,
        m.mode == Mode::Stub ==> m.resolver_up,
        m.mode == Mode::Native ==> m.ready == m.servers().len(),
{
}

/// At the end either every chosen adapter was configured, or there is an error; and then nothing was
/// written into any adapter, or what was recorded has been restored.
pub proof fn law_all_or_undone(m: Enabling)
    requires
        m.wf(),
        m.phase == Phase::Over,
    ensures
        m.error is None ==> m.recorded && m.configured == m.chosen@.len(),
        m.error is Some ==> m.configured == 0 || m.undone,
{
}

/// The list of templates to remove only grows: what it named it still names, at the same place, and
/// behind that it names what was registered besides, and nothing else. Nothing is named twice that was
/// not before.
pub proof fn law_owed_templates_stay_owed(list: Seq<Seq<char>>, more: Seq<Seq<char>>)
    ensures
        forall|t: Seq<char>| #[trigger]
            owed(list, more).contains(t) <==> list.contains(t) || more.contains(t),
        list.is_prefix_of(owed(list, more)),
        list.no_duplicates() ==> owed(list, more).no_duplicates(),
{
    crate::endpoints::lemma_unique_all(list, more);
}

/// One step of a restoration.
#[derive(Debug)]
pub enum RestoreStep {
    /// Something cannot be restored.
    Warn(String),
    /// One family of an adapter gets its setting back.
    Apply { alias: String, index: u32, family: Family, state: DnsState },
    /// A template is removed.
    RemoveTemplate(String),
}

/// One step of a restoration, with texts as sequences.
#[verifier::ext_equal]
pub enum RestoreView {
    Warn(Seq<char>),
    Apply { alias: Seq<char>, index: u32, family: Family, state: StateView },
    RemoveTemplate(Seq<char>),
}

impl View for RestoreStep {
    type V = RestoreView;

    open spec fn view(&self) -> RestoreView {
        match self {
            RestoreStep::Warn(t) => RestoreView::Warn(t@),
            RestoreStep::Apply { alias, index, family, state } => RestoreView::Apply {
                alias: alias@,
                index: *index,
                family: *family,
                state: state@,
            },
            RestoreStep::RemoveTemplate(t) => RestoreView::RemoveTemplate(t@),
        }
    }
}

/// The steps with texts as sequences.
pub open spec fn steps(v: Seq<RestoreStep>) -> Seq<RestoreView> {
    Seq::new(v.len(), |i: int| v[i]@)
}

/// The index of the first adapter with this identifier, from the one with number `i` on.
pub open spec fn live_index(live: Seq<Adapter>, guid: Seq<char>, i: int) -> Option<u32>
    decreases live.len() - i,
{
    if i < 0 || i >= live.len() {
        None
    } else if live[i].guid@ == guid {
        Some(live[i].index)
    } else {
        live_index(live, guid, i + 1)
    }
}

/// A warning for every value that was dropped.
pub open spec fn drop_warnings(alias: Seq<char>, dropped: Seq<Seq<char>>) -> Seq<RestoreView> {
    Seq::new(
        dropped.len(),
        |i: int| RestoreView::Warn(alias + ": пропущено значение "@ + dropped[i]),
    )
}

/// The steps that restore one adapter. It is known by its identifier, and gets its settings under the
/// index that it has now.
pub open spec fn row_steps(row: RowView, live: Seq<Adapter>) -> Seq<RestoreView> {
    let dropped = drop_warnings(
        row.alias,
        dropped_from(row.v4, "IPv4"@) + dropped_from(row.v6, "IPv6"@),
    );
    match live_index(live, row.guid, 0) {
        Some(index) => dropped.push(
            RestoreView::Apply {
                alias: row.alias,
                index,
                family: Family::V4,
                state: clean_state(row.v4),
            },
        ).push(
            RestoreView::Apply {
                alias: row.alias,
                index,
                family: Family::V6,
                state: clean_state(row.v6),
            },
        ),
        None => dropped.push(
            RestoreView::Warn("адаптер «"@ + row.alias + "» больше не существует — пропущен"@),
        ),
    }
}

/// The steps that restore adapters, one after the other.
pub open spec fn all_row_steps(rs: Seq<RowView>, live: Seq<Adapter>) -> Seq<RestoreView>
    decreases rs.len(),
{
    if rs.len() == 0 {
        Seq::empty()
    } else {
        all_row_steps(rs.drop_last(), live) + row_steps(rs.last(), live)
    }
}

/// The steps that remove templates.
pub open spec fn template_steps(servers: Seq<Seq<char>>) -> Seq<RestoreView> {
    Seq::new(servers.len(), |i: int| RestoreView::RemoveTemplate(servers[i]))
}

fn find_live(live: &Vec<Adapter>, guid: &str) -> (r: Option<u32>)
    ensures
        r == live_index(live@, guid@, 0),
{
    let mut i: usize = 0;
    while i < live.len()
        invariant
            i <= live@.len(),
            live_index(live@, guid@, i as int) == live_index(live@, guid@, 0),
        decreases live@.len() - i,
    {
        if same_text(live[i].guid.as_str(), guid) {
            return Some(live[i].index);
        }
        i += 1;
    }
    None
}

proof fn lemma_steps_push(v: Seq<RestoreStep>, s: RestoreStep)
    ensures
        steps(v.push(s)) == steps(v).push(s@),
{
    assert(steps(v.push(s)) =~= steps(v).push(s@));
}

fn push_row_steps(out: &mut Vec<RestoreStep>, record: &AdapterBackup, live: &Vec<Adapter>)
    ensures
        steps(final(out)@) == steps(old(out)@) + row_steps(record@, live@),
{
    let ghost start = steps(out@);
    let (clean, dropped) = record.sanitised();
    let ghost all = texts(dropped@);
    let ghost warns = drop_warnings(record@.alias, all);
    let mut i: usize = 0;
    assert(start + warns.take(0) =~= start);
    while i < dropped.len()
        invariant
            i <= dropped@.len(),
            all == texts(dropped@),
            warns == drop_warnings(record@.alias, all),
            steps(out@) == start + warns.take(i as int),
        decreases dropped@.len() - i,
    {
        let mut text = record.alias.clone();
        text.append(": пропущено значение ");
        text.append(dropped[i].as_str());
        let step = RestoreStep::Warn(text);
        proof {
            lemma_steps_push(out@, step);
            assert(step@ == warns[i as int]);
            assert(warns.take(i + 1) =~= warns.take(i as int).push(warns[i as int]));
            assert(start + warns.take(i as int).push(warns[i as int]) =~= (start + warns.take(
                i as int,
            )).push(warns[i as int]));
        }
        out.push(step);
        i += 1;
    }
    assert(warns.take(i as int) =~= warns);
    match find_live(live, record.guid.as_str()) {
        Some(index) => {
            let v4 = RestoreStep::Apply {
                alias: record.alias.clone(),
                index,
                family: Family::V4,
                state: clean.v4,
            };
            let v6 = RestoreStep::Apply {
                alias: record.alias.clone(),
                index,
                family: Family::V6,
                state: clean.v6,
            };
            proof {
                lemma_steps_push(out@, v4);
                lemma_steps_push(out@.push(v4), v6);
            }
            out.push(v4);
            out.push(v6);
            assert(steps(out@) =~= start + row_steps(record@, live@));
        },
        None => {
            let mut text = "адаптер «".to_owned();
            text.append(record.alias.as_str());
            text.append("» больше не существует — пропущен");
            let step = RestoreStep::Warn(text);
            proof {
                lemma_steps_push(out@, step);
            }
            out.push(step);
            assert(steps(out@) =~= start + row_steps(record@, live@));
        },
    }
}

/// The steps that put back what was recorded: first the adapters, then the templates. Each is taken,
/// whatever came of those before it.
pub fn restore_plan(backup: &DnsBackup, live: &Vec<Adapter>) -> (r: Vec<RestoreStep>)
    ensures
        steps(r@) == all_row_steps(rows(backup.adapters@), live@) + template_steps(
            texts(backup.doh_added@),
        ),
{
    let ghost rs = rows(backup.adapters@);
    let ghost servers = texts(backup.doh_added@);
    let mut out: Vec<RestoreStep> = Vec::new();
    let mut i: usize = 0;
    assert(steps(out@) =~= all_row_steps(rs.take(0), live@));
    while i < backup.adapters.len()
        invariant
            i <= backup.adapters@.len(),
            rs == rows(backup.adapters@),
            steps(out@) == all_row_steps(rs.take(i as int), live@),
        decreases backup.adapters@.len() - i,
    {
        assert(rs.take(i + 1).drop_last() =~= rs.take(i as int));
        push_row_steps(&mut out, &backup.adapters[i], live);
        i += 1;
    }
    assert(rs.take(i as int) =~= rs);
    let ghost first = steps(out@);
    let mut k: usize = 0;
    assert(first + template_steps(servers).take(0) =~= first);
    while k < backup.doh_added.len()
        invariant
            k <= backup.doh_added@.len(),
            servers == texts(backup.doh_added@),
            steps(out@) == first + template_steps(servers).take(k as int),
        decreases backup.doh_added@.len() - k,
    {
        let step = RestoreStep::RemoveTemplate(backup.doh_added[k].clone());
        proof {
            let t = template_steps(servers);
            lemma_steps_push(out@, step);
            assert(t.take(k + 1) =~= t.take(k as int).push(t[k as int]));
            assert(first + t.take(k as int).push(t[k as int]) =~= (first + t.take(k as int)).push(
                t[k as int],
            ));
        }
        out.push(step);
        k += 1;
    }
    assert(template_steps(servers).take(k as int) =~= template_steps(servers));
    out
}

/// What a step that was taken has to report, if it failed with `error`.
pub open spec fn step_warning(step: RestoreView, error: Option<Seq<char>>) -> Option<Seq<char>> {
    match (step, error) {
        (RestoreView::Warn(t), _) => Some(t),
        (_, None) => None,
        (RestoreView::Apply { alias, index, family, state }, Some(e)) => Some(
            alias + (match family {
                Family::V4 => ": IPv4 не восстановлен ("@,
                Family::V6 => ": IPv6 не восстановлен ("@,
            }) + e + ")"@,
        ),
        (RestoreView::RemoveTemplate(server), Some(e)) => Some(
            "DoH-шаблон для "@ + server + " не удалён ("@ + e + ")"@,
        ),
    }
}

/// What a step that was taken has to report.
pub fn warning_after(step: &RestoreStep, error: Option<&str>) -> (r: Option<String>)
    ensures
        ({
            let want = step_warning(
                step@,
                match error {
                    Some(e) => Some(e@),
                    None => None,
                },
            );
            match r {
                Some(t) => want == Some(t@),
                None => want is None,
            }
        }),
{
    match step {
        RestoreStep::Warn(t) => Some(t.clone()),
        RestoreStep::Apply { alias, index: _, family, state: _ } => match error {
            None => None,
            Some(e) => {
                let mut text = alias.clone();
                text.append(
                    match family {
                        Family::V4 => ": IPv4 не восстановлен (",
                        Family::V6 => ": IPv6 не восстановлен (",
                    },
                );
                text.append(e);
                text.append(")");
                Some(text)
            },
        },
        RestoreStep::RemoveTemplate(server) => match error {
            None => None,
            Some(e) => {
                let mut text = "DoH-шаблон для ".to_owned();
                text.append(server.as_str());
                text.append(" не удалён (");
                text.append(e);
                text.append(")");
                Some(text)
            },
        },
    }
}

/// Whether everything that was recorded has been put back, without a warning.
pub open spec fn all_restored(restored: Result<Vec<String>, String>) -> bool {
    restored matches Ok(warnings) && warnings@.len() == 0
}

/// Whether the record may go: only after everything in it has been put back.
pub fn record_may_go(restored: &Result<Vec<String>, String>) -> (r: bool)
    ensures
        r == all_restored(*restored),
{
    match restored {
        Ok(warnings) => warnings.len() == 0,
        Err(_) => false,
    }
}

/// What is said where nothing was recorded.
pub fn no_backup(path: &str) -> (r: String)
    ensures
        r@ == "резервная копия не найдена ("@ + path@
            + "). Аварийный сброс: netsh interface ipv4 set dnsservers name=<индекс> source=dhcp"@,
{
    let mut text = "резервная копия не найдена (".to_owned();
    text.append(path);
    text.append(
        "). Аварийный сброс: netsh interface ipv4 set dnsservers name=<индекс> source=dhcp",
    );
    text
}

/// The steps that put both settings of an adapter back.
pub open spec fn put_back(row: RowView, live: Seq<Adapter>, family: Family) -> RestoreView {
    RestoreView::Apply {
        alias: row.alias,
        index: live_index(live, row.guid, 0)->0,
        family,
        state: clean_state(
            match family {
                Family::V4 => row.v4,
                Family::V6 => row.v6,
            },
        ),
    }
}

/// Whether nothing of what is recorded of an adapter is passed over.
pub open spec fn whole(row: RowView, live: Seq<Adapter>) -> bool {
    &&& live_index(live, row.guid, 0) is Some
    &&& dropped_from(row.v4, "IPv4"@).len() == 0
    &&& dropped_from(row.v6, "IPv6"@).len() == 0
}

proof fn lemma_whole_row(row: RowView, live: Seq<Adapter>)
    requires
        forall|i: int|
            0 <= i < row_steps(row, live).len() ==> !((#[trigger] row_steps(row, live)[i]) is Warn),
    ensures
        whole(row, live),
        row_steps(row, live) == seq![
            put_back(row, live, Family::V4),
            put_back(row, live, Family::V6),
        ],
{
    let s = row_steps(row, live);
    let d = dropped_from(row.v4, "IPv4"@) + dropped_from(row.v6, "IPv6"@);
    let w = drop_warnings(row.alias, d);
    if d.len() > 0 {
        assert(s[0] == w[0]);
    }
    if live_index(live, row.guid, 0) is None {
        assert(s[s.len() - 1] is Warn);
    }
    assert(s =~= seq![put_back(row, live, Family::V4), put_back(row, live, Family::V6)]);
}

proof fn lemma_whole_rows(rs: Seq<RowView>, live: Seq<Adapter>)
    requires
        forall|i: int|
            0 <= i < all_row_steps(rs, live).len() ==> !((#[trigger] all_row_steps(
                rs,
                live,
            )[i]) is Warn),
    ensures
        all_row_steps(rs, live).len() == 2 * rs.len(),
        forall|k: int|
            0 <= k < rs.len() ==> {
                &&& whole(#[trigger] rs[k], live)
                &&& all_row_steps(rs, live)[2 * k] == put_back(rs[k], live, Family::V4)
                &&& all_row_steps(rs, live)[2 * k + 1] == put_back(rs[k], live, Family::V6)
            },
    decreases rs.len(),
{
    if rs.len() > 0 {
        let all = all_row_steps(rs, live);
        let front = all_row_steps(rs.drop_last(), live);
        let back = row_steps(rs.last(), live);
        assert forall|i: int| 0 <= i < front.len() implies !((#[trigger] front[i]) is Warn) by {
            assert(all[i] == front[i]);
        }
        assert forall|i: int| 0 <= i < back.len() implies !((#[trigger] back[i]) is Warn) by {
            assert(all[front.len() + i] == back[i]);
        }
        lemma_whole_rows(rs.drop_last(), live);
        lemma_whole_row(rs.last(), live);
        assert forall|k: int| 0 <= k < rs.len() implies {
            &&& whole(#[trigger] rs[k], live)
            &&& all[2 * k] == put_back(rs[k], live, Family::V4)
            &&& all[2 * k + 1] == put_back(rs[k], live, Family::V6)
        } by {
            if k < rs.len() - 1 {
                assert(rs.drop_last()[k] == rs[k]);
                assert(all[2 * k] == front[2 * k]);
                assert(all[2 * k + 1] == front[2 * k + 1]);
            }
        }
    }
}

/// A restoration that warned of nothing put back every setting that was recorded, for every adapter
/// that was recorded, and removed every template; no step failed, and nothing was passed over.
pub proof fn law_a_complete_restoration_restores_everything(
    rs: Seq<RowView>,
    templates: Seq<Seq<char>>,
    live: Seq<Adapter>,
    errors: Seq<Option<Seq<char>>>,
)
    requires
        ({
            let plan = all_row_steps(rs, live) + template_steps(templates);
            &&& errors.len() == plan.len()
            &&& forall|i: int|
                0 <= i < errors.len() ==> step_warning(#[trigger] plan[i], errors[i]) is None
        }),
    ensures
        ({
            let plan = all_row_steps(rs, live) + template_steps(templates);
            &&& plan.len() == 2 * rs.len() + templates.len()
            &&& forall|k: int|
                0 <= k < rs.len() ==> {
                    &&& whole(#[trigger] rs[k], live)
                    &&& plan[2 * k] == put_back(rs[k], live, Family::V4)
                    &&& plan[2 * k + 1] == put_back(rs[k], live, Family::V6)
                }
            &&& forall|k: int|
                0 <= k < templates.len() ==> plan[2 * rs.len() + k]
                    == RestoreView::RemoveTemplate(#[trigger] templates[k])
            &&& forall|i: int| 0 <= i < errors.len() ==> (#[trigger] errors[i]) is None
        }),
{
    let steps = all_row_steps(rs, live);
    let plan = steps + template_steps(templates);
    assert forall|i: int| 0 <= i < steps.len() implies !((#[trigger] steps[i]) is Warn) by {
        assert(step_warning(plan[i], errors[i]) is None);
    }
    lemma_whole_rows(rs, live);
    assert forall|i: int| 0 <= i < errors.len() implies (#[trigger] errors[i]) is None by {
        assert(step_warning(plan[i], errors[i]) is None);
    }
}

/// What is to be done at the start.
#[derive(Clone, Copy, Debug, PartialEq, Eq, Structural)]
pub enum Resume {
    Nothing,
    /// A record is there, but this process may not act on it.
    LeaveBackup,
    /// Windows does the work; the program counts as enabled.
    MarkEnabled,
    /// The local resolver is started, and nothing else.
    StartResolver,
    /// What a run that did not end cleanly left behind is put back.
    Restore,
    /// Everything is switched on.
    Enable,
}

impl App {
    /// The state at the start.
    pub fn new(settings: Settings) -> (r: App)
        ensures
            r == (App { settings, stub_running: false, enabled: false }),
    {
        App { settings, stub_running: false, enabled: false }
    }

    /// What is to be done at the start, so that the machine is as the settings say. A process that may
    /// not change adapters can still start the local resolver, which the adapters may point at.
    pub fn resume(&self, can_write_adapters: bool, backup_exists: bool) -> (r: Resume)
        ensures
            r == (if can_write_adapters {
                if self.settings.enabled {
                    Resume::Enable
                } else if backup_exists {
                    Resume::Restore
                } else {
                    Resume::Nothing
                }
            } else if self.settings.enabled {
                if self.settings.mode == Mode::Native {
                    Resume::MarkEnabled
                } else {
                    Resume::StartResolver
                }
            } else if backup_exists {
                Resume::LeaveBackup
            } else {
                Resume::Nothing
            }),
    {
        if self.settings.enabled && !can_write_adapters {
            if self.settings.mode == Mode::Native {
                return Resume::MarkEnabled;
            }
            return Resume::StartResolver;
        }
        if !can_write_adapters {
            if backup_exists {
                return Resume::LeaveBackup;
            }
            return Resume::Nothing;
        }
        self.restore_on_start(backup_exists)
    }

    /// What is to be done at the start by a process that may change adapters.
    pub fn restore_on_start(&self, backup_exists: bool) -> (r: Resume)
        ensures
            r == (if self.settings.enabled {
                Resume::Enable
            } else if backup_exists {
                Resume::Restore
            } else {
                Resume::Nothing
            }),
    {
        if self.settings.enabled {
            return Resume::Enable;
        }
        if backup_exists {
            return Resume::Restore;
        }
        Resume::Nothing
    }

    /// The program counts as enabled, with the local resolver or without it.
    pub fn resumed(&mut self, resolver: bool)
        ensures
            *final(self) == (App {
                enabled: true,
                stub_running: old(self).stub_running || resolver,
                ..*old(self)
            }),
    {
        self.enabled = true;
        if resolver {
            self.stub_running = true;
        }
    }

    /// The local resolver is up.
    pub fn resolver_started(&mut self)
        ensures
            *final(self) == (App { stub_running: true, ..*old(self) }),
    {
        self.stub_running = true;
    }

    /// Switches off: the adapters have been put back, as far as that was possible. The answer says
    /// whether the record may go, and what the user is told.
    pub fn disable(&mut self, restored: Result<Vec<String>, String>) -> (r: (
        bool,
        Result<(), String>,
    ))
        ensures
            *final(self) == (App {
                enabled: false,
                stub_running: false,
                settings: Settings { enabled: false, ..old(self).settings },
            }),
            r.0 == all_restored(restored),
            match restored {
                Ok(_) => r.1 is Ok,
                Err(e) => r.1 == Err::<(), String>(e),
            },
    {
        self.stub_running = false;
        self.enabled = false;
        self.settings.enabled = false;
        let goes = record_may_go(&restored);
        match restored {
            Ok(_) => (goes, Ok(())),
            Err(e) => (goes, Err(e)),
        }
    }

    /// The window goes away. The local resolver stops, and nothing else changes.
    pub fn release(&mut self)
        ensures
            *final(self) == (App { stub_running: false, ..*old(self) }),
    {
        self.stub_running = false;
    }

    /// The service stops. The answer says whether the adapters are to be put back; the record and the
    /// wish to be enabled stay.
    pub fn on_stop(&mut self) -> (r: bool)
        ensures
            r == old(self).enabled,
            *final(self) == (App { stub_running: false, ..*old(self) }),
    {
        self.stub_running = false;
        self.enabled
    }

    /// Whether new settings take a switching off and on again: they change how names are resolved, or
    /// which adapters are configured, while the program is enabled.
    pub open spec fn cycles(self, new: Settings) -> bool {
        self.enabled && (new.mode != self.settings.mode || new.ipv6 != self.settings.ipv6
            || new.include_vpn_adapters != self.settings.include_vpn_adapters)
    }

    /// Whether new settings take a switching off and on again.
    pub fn needs_cycle(&self, new: &Settings) -> (r: bool)
        ensures
            r == self.cycles(*new),
    {
        self.enabled && (new.mode != self.settings.mode || new.ipv6 != self.settings.ipv6
            || new.include_vpn_adapters != self.settings.include_vpn_adapters)
    }

    /// Takes new settings. Whether the program is enabled is not theirs to say.
    pub fn set_settings(&mut self, new: &Settings)
        ensures
            *final(self) == (App {
                settings: Settings { enabled: old(self).settings.enabled, ..*new },
                ..*old(self)
            }),
    {
        let enabled: bool = self.settings.enabled;
        self.settings = *new;
        self.settings.enabled = enabled;
    }
}

/// What a setting is called.
pub open spec fn described(s: StateView) -> Seq<char> {
    match s {
        StateView::Dhcp => "автоматически (DHCP)"@,
        StateView::Static(list) => if list.len() == 0 {
            "вручную, пусто"@
        } else {
            joined(list, ", "@)
        },
    }
}

/// Describes a setting.
pub fn describe(state: &DnsState) -> (r: String)
    ensures
        r@ == described(state@),
{
    match state {
        DnsState::Dhcp => "автоматически (DHCP)".to_owned(),
        DnsState::Static(list) => {
            assert(texts(list@).len() == list@.len());
            if list.len() == 0 {
                "вручную, пусто".to_owned()
            } else {
                join(list, ", ")
            }
        },
    }
}

/// Whether a line on an adapter says what its settings are.
pub open spec fn shows(v: AdapterView, a: Adapter, s: (DnsState, DnsState)) -> bool {
    &&& v.alias@ == a.alias@
    &&& v.index == a.index
    &&& v.current_v4@ == described(s.0@)
    &&& v.current_v6@ == described(s.1@)
}

impl App {
    /// What the window draws: the adapters that are configured, with their settings as they are now.
    pub fn status(
        &self,
        chosen: &Vec<Adapter>,
        states: &Vec<(DnsState, DnsState)>,
        build: u32,
        service_autostart: bool,
        version: &str,
    ) -> (r: Status)
        requires
            chosen@.len() == states@.len(),
        ensures
            r.enabled == self.enabled,
            r.stub_running == self.stub_running,
            r.settings == self.settings,
            r.native_supported == (build >= WINDOWS_11_BUILD),
            r.service_autostart == service_autostart,
            r.service_version@ == version@,
            r.adapters@.len() == chosen@.len(),
            forall|i: int|
                0 <= i < chosen@.len() ==> shows(
                    #[trigger] r.adapters@[i],
                    chosen@[i],
                    states@[i],
                ),
    {
        let mut adapters: Vec<AdapterView> = Vec::new();
        let mut i: usize = 0;
        while i < chosen.len()
            invariant
                i <= chosen@.len(),
                chosen@.len() == states@.len(),
                adapters@.len() == i,
                forall|k: int|
                    0 <= k < i ==> shows(#[trigger] adapters@[k], chosen@[k], states@[k]),
            decreases chosen@.len() - i,
        {
            adapters.push(
                AdapterView {
                    alias: chosen[i].alias.clone(),
                    index: chosen[i].index,
                    current_v4: describe(&states[i].0),
                    current_v6: describe(&states[i].1),
                },
            );
            i += 1;
        }
        Status {
            enabled: self.enabled,
            stub_running: self.stub_running,
            adapters,
            settings: self.settings,
            native_supported: native_doh_supported(build),
            service_autostart,
            service_version: version.to_owned(),
        }
    }
}

proof fn lemma_live_index_is(live: Seq<Adapter>, guid: Seq<char>, i: int, k: int)
    requires
        0 <= i <= k <= live.len(),
        forall|j: int| i <= j < k ==> (#[trigger] live[j]).guid@ != guid,
    ensures
        k < live.len() && live[k].guid@ == guid ==> live_index(live, guid, i) == Some(
            live[k].index,
        ),
        k == live.len() ==> live_index(live, guid, i) is None,
    decreases k - i,
{
    if i < k {
        lemma_live_index_is(live, guid, i + 1, k);
    }
}

proof fn lemma_live_index_found(live: Seq<Adapter>, guid: Seq<char>, i: int, j: int)
    requires
        0 <= i <= j < live.len(),
        live[j].guid@ == guid,
    ensures
        live_index(live, guid, i) is Some,
    decreases j - i,
{
    if i < j && live[i].guid@ != guid {
        lemma_live_index_found(live, guid, i + 1, j);
    }
}

/// The index that a record is restored under is that of the first adapter with the record's identifier
/// among those that are there now; there is none exactly where no adapter has it.
pub proof fn law_the_first_adapter_with_the_identifier(live: Seq<Adapter>, guid: Seq<char>, k: int)
    ensures
        0 <= k < live.len() && live[k].guid@ == guid && (forall|j: int|
            0 <= j < k ==> (#[trigger] live[j]).guid@ != guid) ==> live_index(live, guid, 0)
            == Some(live[k].index),
        live_index(live, guid, 0) is None <==> forall|j: int|
            0 <= j < live.len() ==> (#[trigger] live[j]).guid@ != guid,
{
    if 0 <= k < live.len() && forall|j: int| 0 <= j < k ==> (#[trigger] live[j]).guid@ != guid {
        lemma_live_index_is(live, guid, 0, k);
    }
    if forall|j: int| 0 <= j < live.len() ==> (#[trigger] live[j]).guid@ != guid {
        lemma_live_index_is(live, guid, 0, live.len() as int);
    } else {
        let j = choose|j: int| 0 <= j < live.len() && (#[trigger] live[j]).guid@ == guid;
        lemma_live_index_found(live, guid, 0, j);
    }
}

/// What restores one adapter: a warning for each value that is no address, and then, where the adapter
/// is still there, its recorded settings, those of IPv4 before those of IPv6, each under the adapter's
/// index of now; where it is gone, a warning that names it and no change at all.
pub proof fn law_steps_for_one_adapter(row: RowView, live: Seq<Adapter>, k: int)
    requires
        0 <= k <= live.len(),
        forall|j: int| 0 <= j < k ==> (#[trigger] live[j]).guid@ != row.guid,
        k < live.len() ==> live[k].guid@ == row.guid,
    ensures
        ({
            let bad = dropped_from(row.v4, "IPv4"@) + dropped_from(row.v6, "IPv6"@);
            let s = row_steps(row, live);
            &&& forall|i: int|
                0 <= i < bad.len() ==> #[trigger] s[i] == RestoreView::Warn(
                    row.alias + ": пропущено значение "@ + bad[i],
                )
            &&& k < live.len() ==> {
                &&& s.len() == bad.len() + 2
                &&& s[bad.len() as int] == RestoreView::Apply {
                    alias: row.alias,
                    index: live[k].index,
                    family: Family::V4,
                    state: clean_state(row.v4),
                }
                &&& s[bad.len() as int + 1] == RestoreView::Apply {
                    alias: row.alias,
                    index: live[k].index,
                    family: Family::V6,
                    state: clean_state(row.v6),
                }
            }
            &&& k == live.len() ==> {
                &&& s.len() == bad.len() + 1
                &&& s[bad.len() as int] == RestoreView::Warn(
                    "адаптер «"@ + row.alias + "» больше не существует — пропущен"@,
                )
            }
        }),
{
    lemma_live_index_is(live, row.guid, 0, k);
}

/// What restores several adapters is what restores each of them, one after the other; and a template is
/// removed for each server that is listed, in their order.
pub proof fn law_steps_for_several_adapters(
    a: Seq<RowView>,
    b: Seq<RowView>,
    row: RowView,
    live: Seq<Adapter>,
    servers: Seq<Seq<char>>,
    i: int,
)
    ensures
        all_row_steps(a + b, live) == all_row_steps(a, live) + all_row_steps(b, live),
        all_row_steps(seq![row], live) == row_steps(row, live),
        all_row_steps(Seq::empty(), live).len() == 0,
        template_steps(servers).len() == servers.len(),
        0 <= i < servers.len() ==> template_steps(servers)[i] == RestoreView::RemoveTemplate(
            servers[i],
        ),
    decreases b.len(),
{
    reveal_with_fuel(all_row_steps, 2);
    assert(seq![row].drop_last() =~= Seq::<RowView>::empty());
    assert(all_row_steps(seq![row], live) =~= row_steps(row, live));
    if b.len() == 0 {
        assert(a + b =~= a);
        assert(all_row_steps(a, live) + all_row_steps(b, live) =~= all_row_steps(a, live));
    } else {
        law_steps_for_several_adapters(a, b.drop_last(), row, live, servers, i);
        assert((a + b).drop_last() =~= a + b.drop_last());
        assert((a + b).last() == b.last());
        assert(all_row_steps(a + b, live) =~= all_row_steps(a, live) + all_row_steps(b, live));
    }
}

/// What is said of a step: a warning says itself, whatever happened; any other step says nothing where
/// it succeeded, and where it failed it names what it was for and the cause.
pub proof fn law_what_a_step_reports(
    t: Seq<char>,
    e: Seq<char>,
    error: Option<Seq<char>>,
    index: u32,
    state: StateView,
)
    ensures
        step_warning(RestoreView::Warn(t), error) == Some(t),
        step_warning(
            RestoreView::Apply { alias: t, index, family: Family::V4, state },
            None,
        ) is None,
        step_warning(
            RestoreView::Apply { alias: t, index, family: Family::V6, state },
            None,
        ) is None,
        step_warning(RestoreView::RemoveTemplate(t), None) is None,
        step_warning(
            RestoreView::Apply { alias: t, index, family: Family::V4, state },
            Some(e),
        ) == Some(t + ": IPv4 не восстановлен ("@ + e + ")"@),
        step_warning(
            RestoreView::Apply { alias: t, index, family: Family::V6, state },
            Some(e),
        ) == Some(t + ": IPv6 не восстановлен ("@ + e + ")"@),
        step_warning(RestoreView::RemoveTemplate(t), Some(e)) == Some(
            "DoH-шаблон для "@ + t + " не удалён ("@ + e + ")"@,
        ),
{
}

/// The record goes after a restoration that succeeded without a single warning, and stays after any
/// other.
pub proof fn law_when_the_record_goes(warnings: Vec<String>, e: String)
    ensures
        warnings@.len() == 0 ==> all_restored(Ok::<Vec<String>, String>(warnings)),
        warnings@.len() > 0 ==> !all_restored(Ok::<Vec<String>, String>(warnings)),
        !all_restored(Err::<Vec<String>, String>(e)),
{
}

/// The servers that adapters get: the resolver on this machine, or the two that the resolver has in each
/// family; none for IPv6 where that is switched off.
pub proof fn law_servers_of_the_modes()
    ensures
        servers_v4(Mode::Stub) == seq!["127.0.0.1"@],
        servers_v6(Mode::Stub, true) == seq!["::1"@],
        servers_v4(Mode::Native) == seq![
            v4_form(Ipv4Addr { a: 192, b: 144, c: 59, d: 14 }),
            v4_form(Ipv4Addr { a: 186, b: 246, c: 49, d: 127 }),
        ],
        servers_v6(Mode::Native, true) == seq![
            v6_form(
                Ipv6Addr { s0: 0x2a0d, s1: 0x8480, s2: 0, s3: 0x67c, s4: 0, s5: 0, s6: 0, s7: 0x14 },
            ),
            v6_form(
                Ipv6Addr { s0: 0x2a0a, s1: 0x2b41, s2: 0, s3: 0x500d, s4: 0, s5: 0, s6: 0, s7: 0x53 },
            ),
        ],
        forall|mode: Mode| (#[trigger] servers_v6(mode, false)).len() == 0,
{
}

/// Before the first adapter is changed, every server of either family has its template where the
/// resolver's own addresses are written, and the resolver runs where those of this machine are.
pub proof fn law_every_server_is_ready(m: Enabling)
    requires
        m.wf(),
        m.phase is SetV4 || m.phase is SetV6 || m.phase is Flush || m.phase is Owe,
    ensures
        m.mode == Mode::Native ==> m.ready == m.v4@.len() + m.v6@.len(),
        m.mode == Mode::Stub ==> m.resolver_up,
        m.recorded,
        m.error is None,
        m.phase matches Phase::SetV4(i) ==> m.configured == i && i < m.chosen@.len(),
        m.phase matches Phase::SetV6(i) ==> m.configured == i + 1 && i < m.chosen@.len(),
        m.phase is Flush || m.phase is Owe ==> m.configured == m.chosen@.len(),
{
    assert(texts(m.v4@).len() == m.v4@.len() && texts(m.v6@).len() == m.v6@.len());
}

/// Templates are looked up server by server, those of IPv4 first.
pub proof fn law_templates_in_the_order_of_servers(m: Enabling, i: int)
    ensures
        m.servers().len() == m.v4@.len() + m.v6@.len(),
        0 <= i < m.v4@.len() ==> m.servers()[i] == m.v4@[i]@,
        m.v4@.len() <= i < m.v4@.len() + m.v6@.len() ==> m.servers()[i] == m.v6@[i
            - m.v4@.len()]@,
{
    assert(texts(m.v4@).len() == m.v4@.len() && texts(m.v6@).len() == m.v6@.len());
}

/// What is recorded of the chosen adapters: each under its own identifier, index and name, with the
/// settings that were read of it.
pub proof fn law_chosen_adapters_are_recorded(
    chosen: Seq<Adapter>,
    states: Seq<(DnsState, DnsState)>,
    e: &Endpoints,
    i: int,
)
    requires
        0 <= i < chosen.len() == states.len(),
    ensures
        fresh_rows(chosen, states, e).len() == chosen.len(),
        fresh_rows(chosen, states, e)[i].guid == chosen[i].guid@,
        fresh_rows(chosen, states, e)[i].alias == chosen[i].alias@,
        fresh_rows(chosen, states, e)[i].index == chosen[i].index,
        fresh_rows(chosen, states, e)[i].ipv6_index == chosen[i].ipv6_index,
        fresh_rows(chosen, states, e)[i].v4 == recordable(states[i].0@, e.lists()),
        fresh_rows(chosen, states, e)[i].v6 == recordable(states[i].1@, e.lists()),
{
}

/// What is owed a removal: what was, then what was registered and not named before, in its order.
pub proof fn law_owed_one_by_one(list: Seq<Seq<char>>, more: Seq<Seq<char>>, t: Seq<char>)
    ensures
        owed(list, Seq::empty()) == list,
        owed(list, more).contains(t) ==> owed(list, more.push(t)) == owed(list, more),
        !owed(list, more).contains(t) ==> owed(list, more.push(t)) == owed(list, more).push(t),
{
    assert(more.push(t).drop_last() =~= more);
}

/// Protection is switched off and on again for new settings exactly where it is on and one of the three
/// settings that adapters depend on changes; how the program starts plays no part.
pub proof fn law_what_settings_a_cycle_is_for(app: App, new: Settings)
    ensures
        !app.enabled ==> !app.cycles(new),
        app.enabled && new.mode != app.settings.mode ==> app.cycles(new),
        app.enabled && new.ipv6 != app.settings.ipv6 ==> app.cycles(new),
        app.enabled && new.include_vpn_adapters != app.settings.include_vpn_adapters
            ==> app.cycles(new),
        new.mode == app.settings.mode && new.ipv6 == app.settings.ipv6 && new.include_vpn_adapters
            == app.settings.include_vpn_adapters ==> !app.cycles(new),
{
}

/// A setting in words: automatic, empty, or the servers with commas between them.
pub proof fn law_settings_in_words(list: Seq<Seq<char>>)
    ensures
        described(StateView::Dhcp) == "автоматически (DHCP)"@,
        list.len() == 0 ==> described(StateView::Static(list)) == "вручную, пусто"@,
        list.len() > 0 ==> described(StateView::Static(list)) == joined(list, ", "@),
{
}

/// What is said where Windows has no client of its own, where no adapter can be configured, and where a
/// step has a cause.
pub proof fn law_refusals_in_words(build: u32, what: Seq<char>, cause: Seq<char>)
    ensures
        unsupported(build) == "этой Windows (сборка "@ + decimal(build as nat)
            + ") нужен встроенный DoH-клиент, а он появился только в Windows 11. Выберите режим локального резолвера."@,
        because(what, cause) == what + seq![':', ' '] + cause,
        NO_ADAPTER@
            == "не найдено ни одного подходящего адаптера (все виртуальные, туннельные или без шлюза)"@,
{
    reveal_strlit(": ");
    assert(because(what, cause) =~= what + seq![':', ' '] + cause);
}

/// What holds at each step of switching on: nothing is recorded before the adapters were read, servers
/// are written only after the record, and what failed after it is undone before anything else.
pub proof fn law_steps_of_switching_on(m: Enabling)
    requires
        m.wf(),
    ensures
        m.phase == Phase::Resolver ==> m.mode == Mode::Stub,
        m.phase == Phase::Lookup || m.phase == Phase::Register ==> m.mode == Mode::Native && m.ready
            < m.v4@.len() + m.v6@.len(),
        m.phase == Phase::Resolver || m.phase == Phase::Lookup || m.phase == Phase::Register || m.phase
            == Phase::List || m.phase == Phase::Read || m.phase == Phase::Save ==> !m.recorded
            && m.configured == 0 && m.error is None,
        m.phase == Phase::Read || m.phase == Phase::Save ==> m.chosen@.len() > 0,
        m.phase == Phase::RollBack ==> m.recorded && m.error is Some,
        m.phase == Phase::FlushBack ==> m.recorded && m.undone && m.error is Some,
        m.phase matches Phase::Unregister(k) ==> k < m.added@.len() && m.error is Some && (m.recorded
            ==> m.undone),
        m.phase == Phase::Owe ==> m.mode == Mode::Native,
        m.phase == Phase::Over && m.error is None ==> m.recorded && m.configured == m.chosen@.len(),
        m.phase == Phase::Over && m.error is Some && m.recorded ==> m.undone,
        !m.recorded ==> m.configured == 0,
{
    assert(texts(m.v4@).len() == m.v4@.len() && texts(m.v6@).len() == m.v6@.len());
}

} // verus!
