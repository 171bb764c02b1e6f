//! Where the program lives on the machine, and how it gets there and away again.

use vstd::prelude::*;

use crate::paths::join_path;
use crate::service::{caused, say, three, two};
use crate::text::{push_decimal, push_hex_digits, same_ignoring_case, same_text};
#[allow(unused_imports)]
use crate::app::because;
#[allow(unused_imports)]
use crate::paths::joined_path;
#[allow(unused_imports)]
use crate::text::{alike, decimal, digit, hex_digits, texts, texts_push};

verus! {

pub const FOLDER: &'static str = "DNS-AI";

pub const EXE: &'static str = "dns-ai.exe";

pub const SHORTCUT: &'static str = "DNS-AI.lnk";

/// Where Windows keeps the program's row in its list of programs.
pub const ARP_KEY: &'static str =
    "SOFTWARE\\Microsoft\\Windows\\CurrentVersion\\Uninstall\\DNS-AI";

pub const DISPLAY_NAME: &'static str = "DNS-AI — защищённый DNS";

/// What two windows of one session tell each other by.
pub const INSTANCE_MUTEX: &'static str = "Local\\DNS-AI-tray-instance";

pub const SHOW_EVENT: &'static str = "Local\\DNS-AI-tray-show";

/// So many names are tried for a file that has to make room.
pub const ASIDE_NAMES: u8 = 10;

/// The folder that the program is installed in, below `program_files`.
pub open spec fn install_folder(program_files: Option<&str>) -> Seq<char> {
    joined_path(
        match program_files {
            Some(d) => d@,
            None => "C:\\Program Files"@,
        },
        FOLDER@,
    )
}

/// The folder that the program is installed in.
pub fn install_dir(program_files: Option<&str>) -> (r: String)
    ensures
        r@ == install_folder(program_files),
{
    join_path(
        match program_files {
            Some(d) => d,
            None => "C:\\Program Files",
        },
        FOLDER,
    )
}

/// The file that the program is installed as.
pub fn install_exe(program_files: Option<&str>) -> (r: String)
    ensures
        r@ == joined_path(install_folder(program_files), EXE@),
{
    join_path(install_dir(program_files).as_str(), EXE)
}

/// The shortcut in the Start menu, whose folder of programs is `programs`.
pub fn shortcut_path(programs: &str) -> (r: String)
    ensures
        r@ == joined_path(programs@, SHORTCUT@),
{
    join_path(programs, SHORTCUT)
}

/// Whether two paths name the same file: by the paths that they resolve to where both do, and by the
/// paths themselves otherwise, whatever the case of their letters.
pub open spec fn names_same_file(
    a: Seq<char>,
    b: Seq<char>,
    real_a: Option<&str>,
    real_b: Option<&str>,
) -> bool {
    match (real_a, real_b) {
        (Some(x), Some(y)) => x@ == y@,
        _ => alike(a, b),
    }
}

/// Whether two paths name the same file. What each resolves to is given where it does.
pub fn same_file(a: &str, b: &str, real_a: Option<&str>, real_b: Option<&str>) -> (r: bool)
    ensures
        r == names_same_file(a@, b@, real_a, real_b),
{
    match (real_a, real_b) {
        (Some(x), Some(y)) => same_text(x, y),
        _ => same_ignoring_case(a, b),
    }
}

/// Where the program that runs is, seen from where it belongs.
#[derive(Debug, PartialEq, Eq)]
pub enum Placement {
    /// It is the installed copy.
    Installed,
    /// There is an installed copy, and this is another.
    Elsewhere { installed: String },
    /// Nothing is installed.
    NotInstalled,
}

/// Tells where the program that runs is. `same` says whether it is the installed file, `present`
/// whether there is one.
pub fn placement(installed: String, same: bool, present: bool) -> (r: Placement)
    ensures
        r == (if same {
            Placement::Installed
        } else if present {
            Placement::Elsewhere { installed }
        } else {
            Placement::NotInstalled
        }),
{
    if same {
        return Placement::Installed;
    }
    if present {
        Placement::Elsewhere { installed }
    } else {
        Placement::NotInstalled
    }
}

/// The name of a file that made room, after `n` names could not be had.
pub open spec fn aside_name(n: nat) -> Seq<char> {
    EXE@ + ".old"@ + (if n == 0 {
        Seq::<char>::empty()
    } else {
        decimal(n)
    })
}

/// The path to try for a file that has to make room, after `n` could not be had. There are ten.
pub fn aside_path(dir: &str, n: u8) -> (r: Option<String>)
    ensures
        match r {
            Some(p) => n < ASIDE_NAMES && p@ == joined_path(dir@, aside_name(n as nat)),
            None => n >= ASIDE_NAMES,
        },
{
    if n >= ASIDE_NAMES {
        return None;
    }
    let mut name = two(EXE, ".old");
    if n > 0 {
        push_decimal(&mut name, n as u64);
    } else {
        assert(name@ + Seq::<char>::empty() =~= name@);
    }
    Some(join_path(dir, name.as_str()))
}

/// What comes of trying a name for a file that has to make room.
#[derive(Clone, Copy, Debug, PartialEq, Eq, Structural)]
pub enum AsideStep {
    /// The name is taken.
    Take,
    /// The name with this number is tried next.
    Next(u8),
    /// There is no further name.
    Exhausted,
}

/// What comes of trying the name with number `n`, which is free or not.
pub open spec fn tried_name(n: int, free: bool) -> AsideStep {
    if free {
        AsideStep::Take
    } else if n + 1 < ASIDE_NAMES {
        AsideStep::Next((n + 1) as u8)
    } else {
        AsideStep::Exhausted
    }
}

/// The name with number `n` was tried: there was a file of that name or not, and it could be removed
/// or not. A name that nothing has, or that came free, is taken.
pub fn aside_step(n: u8, present: bool, removed: bool) -> (r: AsideStep)
    requires
        n < ASIDE_NAMES,
    ensures
        r == tried_name(n as int, !present || removed),
{
    if !present || removed {
        AsideStep::Take
    } else if n + 1 < ASIDE_NAMES {
        AsideStep::Next(n + 1)
    } else {
        AsideStep::Exhausted
    }
}

/// The number of the name that is taken in the end, where the names from number `n` on are tried one
/// after the other and `free` tells which of all the names are free.
pub open spec fn name_taken(free: Seq<bool>, n: int) -> Option<int>
    decreases ASIDE_NAMES - n,
{
    if n < 0 || n >= ASIDE_NAMES {
        None
    } else {
        match tried_name(n, free[n]) {
            AsideStep::Take => Some(n),
            AsideStep::Next(_) => name_taken(free, n + 1),
            AsideStep::Exhausted => None,
        }
    }
}

/// The first name that is free is taken, and none only where none is.
pub proof fn law_first_free_name(free: Seq<bool>, n: int)
    requires
        0 <= n <= ASIDE_NAMES,
    ensures
        match name_taken(free, n) {
            Some(k) => n <= k < ASIDE_NAMES && free[k] && forall|i: int|
                n <= i < k ==> !#[trigger] free[i],
            None => forall|i: int| n <= i < ASIDE_NAMES ==> !#[trigger] free[i],
        },
    decreases ASIDE_NAMES - n,
{
    if n < ASIDE_NAMES {
        law_first_free_name(free, n + 1);
    }
}

/// No two of the names for a file that made room are the same, and none is the name that the
/// program is installed as.
pub proof fn law_aside_names_are_free(dir: Seq<char>, n: nat, m: nat)
    requires
        n < ASIDE_NAMES,
        m < ASIDE_NAMES,
    ensures
        joined_path(dir, aside_name(n)) != joined_path(dir, EXE@),
        joined_path(dir, aside_name(n)) == joined_path(dir, aside_name(m)) ==> n == m,
{
    reveal_strlit(".old");
    let base = joined_path(dir, Seq::<char>::empty());
    assert(joined_path(dir, EXE@) =~= base + EXE@);
    assert(joined_path(dir, aside_name(n)) =~= base + aside_name(n));
    assert(joined_path(dir, aside_name(m)) =~= base + aside_name(m));
    assert(aside_name(n).len() == EXE@.len() + 4 + (if n == 0 {
        0int
    } else {
        1
    }));
    assert(aside_name(m).len() == EXE@.len() + 4 + (if m == 0 {
        0int
    } else {
        1
    }));
    if base + aside_name(n) == base + aside_name(m) {
        assert((base + aside_name(n)).len() == (base + aside_name(m)).len());
        if n > 0 {
            let last = base.len() + aside_name(n).len() - 1;
            assert((base + aside_name(n))[last] == digit(n as int));
            assert((base + aside_name(m))[last] == digit(m as int));
        }
    }
}

/// What became of the program's own file.
#[derive(Debug)]
pub struct Placed {
    /// Where the program now is.
    pub exe: String,
    /// Whether a file was written.
    pub copied: bool,
    pub warnings: Vec<String>,
}

/// How far the copying of the program to its place has come.
#[derive(Clone, Copy, Debug, PartialEq, Eq, Structural)]
pub enum PlacePhase {
    /// The folder is to be made.
    Folder,
    /// A free name is to be found for the file that is there.
    Name,
    /// That file is to be renamed to the name in `aside`.
    Rename,
    /// The program is to be copied.
    Copy,
    /// The earlier file is to get its name back.
    PutBack,
    /// The earlier file is to be deleted.
    Discard,
    Over,
}

/// The copying of the program to its place. A file that is there makes room first, and goes only
/// once the new one is in its place.
#[derive(Debug)]
pub struct Placing {
    pub phase: PlacePhase,
    pub dir: String,
    pub dst: String,
    /// The name that the earlier file has or is to get while it makes room.
    pub aside: Option<String>,
    pub copied: bool,
    pub warnings: Vec<String>,
    pub error: Option<String>,
}

impl Placing {
    /// What holds at every step. The earlier file is deleted only after the new one was copied. After
    /// a copy that failed it gets its name back.
    pub open spec fn wf(&self) -> bool {
        match self.phase {
            PlacePhase::Folder | PlacePhase::Name => !self.copied && self.error is None
                && self.aside is None,
            PlacePhase::Rename => !self.copied && self.error is None && self.aside is Some,
            PlacePhase::Copy => !self.copied && self.error is None,
            PlacePhase::PutBack => !self.copied && self.error is Some && self.aside is Some,
            PlacePhase::Discard => self.copied && self.error is None && self.aside is Some,
            PlacePhase::Over => self.error is Some ==> !self.copied,
        }
    }

    /// Whether everything that the steps do not change is as it was.
    pub open spec fn same_task(&self, other: &Placing) -> bool {
        self.dir == other.dir && self.dst == other.dst
    }

    /// Starts the copying. There is nothing to do for the installed copy itself.
    pub fn begin(dir: &str, same: bool) -> (r: Placing)
        ensures
            r.wf(),
            r.dir@ == dir@,
            r.dst@ == joined_path(dir@, EXE@),
            r.phase == (if same {
                PlacePhase::Over
            } else {
                PlacePhase::Folder
            }),
            r.aside is None,
            !r.copied,
            r.warnings@.len() == 0,
            r.error is None,
    {
        Placing {
            phase: if same {
                PlacePhase::Over
            } else {
                PlacePhase::Folder
            },
            dir: dir.to_owned(),
            dst: join_path(dir, EXE),
            aside: None,
            copied: false,
            warnings: Vec::new(),
            error: None,
        }
    }

    /// The folder was made, and holds the program's file or not; or it could not be made.
    pub fn folder_made(&mut self, result: Result<bool, String>)
        requires
            old(self).wf(),
            old(self).phase == PlacePhase::Folder,
        ensures
            final(self).wf(),
            match result {
                Ok(present) => *final(self) == (Placing {
                    phase: if present {
                        PlacePhase::Name
                    } else {
                        PlacePhase::Copy
                    },
                    ..*old(self)
                }),
                Err(e) => {
                    &&& final(self).same_task(&*old(self))
                    &&& final(self).phase == PlacePhase::Over
                    &&& final(self).warnings == old(self).warnings
                    &&& final(self).aside is None
                    &&& !final(self).copied
                    &&& final(self).error is Some
                    &&& final(self).error->0@ == because(
                        "не удалось создать "@ + old(self).dir@,
                        e@,
                    )
                },
            },
    {
        match result {
            Ok(present) => {
                self.phase = if present {
                    PlacePhase::Name
                } else {
                    PlacePhase::Copy
                };
            },
            Err(e) => {
                let what = two("не удалось создать ", self.dir.as_str());
                self.error = Some(caused(what.as_str(), e.as_str()));
                self.phase = PlacePhase::Over;
            },
        }
    }

    /// A free name was found for the file that is there, or none was. Without one the copy goes over
    /// that file.
    pub fn named(&mut self, free: Option<String>)
        requires
            old(self).wf(),
            old(self).phase == PlacePhase::Name,
        ensures
            final(self).wf(),
            final(self).same_task(&*old(self)),
            final(self).aside == free,
            !final(self).copied,
            final(self).error is None,
            final(self).phase == (if free is Some {
                PlacePhase::Rename
            } else {
                PlacePhase::Copy
            }),
            texts(final(self).warnings@) == (if free is Some {
                texts(old(self).warnings@)
            } else {
                texts(old(self).warnings@).push("не нашлось свободного имени для прежнего файла"@)
            }),
    {
        if free.is_some() {
            self.phase = PlacePhase::Rename;
        } else {
            say(
                &mut self.warnings,
                "не нашлось свободного имени для прежнего файла".to_owned(),
            );
            self.phase = PlacePhase::Copy;
        }
        self.aside = free;
    }

    /// The file that is there was renamed; or it could not be, and the copy goes over it.
    pub fn renamed(&mut self, result: Result<(), String>)
        requires
            old(self).wf(),
            old(self).phase == PlacePhase::Rename,
        ensures
            final(self).wf(),
            final(self).same_task(&*old(self)),
            final(self).phase == PlacePhase::Copy,
            !final(self).copied,
            final(self).error is None,
            match result {
                Ok(_) => final(self).aside == old(self).aside && final(self).warnings == old(
                    self,
                ).warnings,
                Err(e) => final(self).aside is None && texts(final(self).warnings@) == texts(
                    old(self).warnings@,
                ).push("не удалось отодвинуть прежний файл: "@ + e@),
            },
    {
        if let Err(e) = result {
            say(&mut self.warnings, two("не удалось отодвинуть прежний файл: ", e.as_str()));
            self.aside = None;
        }
        self.phase = PlacePhase::Copy;
    }

    /// The program was copied; or it could not be, and a file that made room gets its name back.
    pub fn copied(&mut self, result: Result<(), String>)
        requires
            old(self).wf(),
            old(self).phase == PlacePhase::Copy,
        ensures
            final(self).wf(),
            final(self).same_task(&*old(self)),
            final(self).aside == old(self).aside,
            final(self).warnings == old(self).warnings,
            match result {
                Ok(_) => {
                    &&& final(self).copied
                    &&& final(self).error is None
                    &&& final(self).phase == (if old(self).aside is Some {
                        PlacePhase::Discard
                    } else {
                        PlacePhase::Over
                    })
                },
                Err(e) => {
                    &&& !final(self).copied
                    &&& final(self).error is Some
                    &&& final(self).error->0@ == because(
                        "не удалось скопировать программу в "@ + old(self).dst@
                            + " (файл занят?)"@,
                        e@,
                    )
                    &&& final(self).phase == (if old(self).aside is Some {
                        PlacePhase::PutBack
                    } else {
                        PlacePhase::Over
                    })
                },
            },
    {
        let moved: bool = self.aside.is_some();
        match result {
            Ok(_) => {
                self.copied = true;
                self.phase = if moved {
                    PlacePhase::Discard
                } else {
                    PlacePhase::Over
                };
            },
            Err(e) => {
                let what = three(
                    "не удалось скопировать программу в ",
                    self.dst.as_str(),
                    " (файл занят?)",
                );
                self.error = Some(caused(what.as_str(), e.as_str()));
                self.phase = if moved {
                    PlacePhase::PutBack
                } else {
                    PlacePhase::Over
                };
            },
        }
    }

    /// The earlier file got its name back, or did not.
    pub fn put_back(&mut self, done: bool)
        requires
            old(self).wf(),
            old(self).phase == PlacePhase::PutBack,
        ensures
            final(self).wf(),
            final(self).same_task(&*old(self)),
            final(self).phase == PlacePhase::Over,
            !final(self).copied,
            final(self).error == old(self).error,
            if done {
                final(self).aside is None && final(self).warnings == old(self).warnings
            } else {
                final(self).aside == old(self).aside && texts(final(self).warnings@) == texts(
                    old(self).warnings@,
                ).push("прежняя версия осталась под именем "@ + old(self).aside->0@)
            },
    {
        if done {
            self.aside = None;
        } else if let Some(aside) = &self.aside {
            say(&mut self.warnings, two("прежняя версия осталась под именем ", aside.as_str()));
        }
        self.phase = PlacePhase::Over;
    }

    /// The earlier file is gone; or it runs on, and goes when Windows starts again.
    pub fn discarded(&mut self, gone: bool)
        requires
            old(self).wf(),
            old(self).phase == PlacePhase::Discard,
        ensures
            final(self).wf(),
            final(self).same_task(&*old(self)),
            final(self).phase == PlacePhase::Over,
            final(self).aside == old(self).aside,
            final(self).copied,
            final(self).error is None,
            if gone {
                final(self).warnings == old(self).warnings
            } else {
                texts(final(self).warnings@) == texts(old(self).warnings@).push(
                    "предыдущая версия ещё выполняется и исчезнет после перезагрузки: "@
                        + old(self).aside->0@,
                )
            },
    {
        if !gone {
            if let Some(aside) = &self.aside {
                say(
                    &mut self.warnings,
                    two(
                        "предыдущая версия ещё выполняется и исчезнет после перезагрузки: ",
                        aside.as_str(),
                    ),
                );
            }
        }
        self.phase = PlacePhase::Over;
    }

    /// What became of the program's own file, or why it did not get to its place.
    pub fn outcome(self) -> (r: Result<Placed, String>)
        requires
            self.wf(),
            self.phase == PlacePhase::Over,
        ensures
            match r {
                Ok(p) => self.error is None && p == (Placed {
                    exe: self.dst,
                    copied: self.copied,
                    warnings: self.warnings,
                }),
                Err(e) => self.error == Some(e),
            },
    {
        match self.error {
            Some(e) => Err(e),
            None => Ok(
                Placed { exe: self.dst, copied: self.copied, warnings: self.warnings },
            ),
        }
    }
}

/// What a COM call that failed is reported as.
pub open spec fn com_text(what: Seq<char>, hr: i32) -> Seq<char> {
    what + " (COM 0x"@ + hex_digits((hr as u32) as nat, 8) + ")"@
}

/// What a COM call that failed is reported as.
pub fn com_fault(what: &str, hr: i32) -> (r: String)
    ensures
        r@ == com_text(what@, hr),
{
    let mut t = two(what, " (COM 0x");
    push_hex_digits(&mut t, hr as u32, 8);
    t.append(")");
    t
}

/// Tells whether a COM call succeeded. A negative result is a failure.
pub fn check(what: &str, hr: i32) -> (r: Result<(), String>)
    ensures
        match r {
            Ok(_) => hr >= 0,
            Err(e) => hr < 0 && e@ == com_text(what@ + " не удался"@, hr),
        },
{
    if hr < 0 {
        let what = two(what, " не удался");
        return Err(com_fault(what.as_str(), hr));
    }
    Ok(())
}

/// What the shortcut in the Start menu is made of.
#[derive(Debug)]
pub struct Shortcut {
    pub path: String,
    pub target: String,
    pub description: String,
}

/// What the shortcut in the Start menu is made of. The folder of programs is given, or why it is
/// not known.
pub fn write_shortcut(programs: Result<String, String>, exe: &str) -> (r: Result<Shortcut, String>)
    ensures
        match (programs, r) {
            (Ok(dir), Ok(s)) => s.path@ == joined_path(dir@, SHORTCUT@) && s.target@ == exe@
                && s.description@ == DISPLAY_NAME@,
            (Err(e), Err(f)) => e == f,
            _ => false,
        },
{
    match programs {
        Ok(dir) => Ok(
            Shortcut {
                path: shortcut_path(dir.as_str()),
                target: exe.to_owned(),
                description: DISPLAY_NAME.to_owned(),
            },
        ),
        Err(e) => Err(e),
    }
}

/// What a value in the registry holds.
#[derive(Debug)]
pub enum ArpData {
    Text(String),
    Number(u32),
}

/// What a value in the registry holds, as a text or a number.
pub ghost enum ArpView {
    Text(Seq<char>),
    Number(u32),
}

/// One value of the program's row in Windows' list of programs.
#[derive(Debug)]
pub struct ArpValue {
    pub name: &'static str,
    pub data: ArpData,
}

impl View for ArpValue {
    type V = (Seq<char>, ArpView);

    open spec fn view(&self) -> (Seq<char>, ArpView) {
        (
            self.name@,
            match self.data {
                ArpData::Text(t) => ArpView::Text(t@),
                ArpData::Number(n) => ArpView::Number(n),
            },
        )
    }
}

/// The values as texts and numbers.
pub open spec fn arp_views(v: Seq<ArpValue>) -> Seq<(Seq<char>, ArpView)> {
    Seq::new(v.len(), |i: int| v[i]@)
}

/// The program's row in Windows' list of programs. The size is in kilobytes, and is left out where
/// it is not known.
pub open spec fn arp_row(
    exe: Seq<char>,
    dir: Seq<char>,
    version: Seq<char>,
    size: Option<u64>,
) -> Seq<(Seq<char>, ArpView)> {
    let quoted = "\""@ + exe + "\""@;
    let row = seq![
        ("DisplayName"@, ArpView::Text(DISPLAY_NAME@)),
        ("DisplayVersion"@, ArpView::Text(version)),
        ("Publisher"@, ArpView::Text("Brent"@)),
        ("URLInfoAbout"@, ArpView::Text("https://dns-ai.ru"@)),
        ("HelpLink"@, ArpView::Text("https://t.me/nova_txt"@)),
        ("InstallLocation"@, ArpView::Text(dir)),
        ("DisplayIcon"@, ArpView::Text(exe + ",0"@)),
        ("UninstallString"@, ArpView::Text(quoted + " remove"@)),
        ("QuietUninstallString"@, ArpView::Text(quoted + " remove --quiet"@)),
        ("NoModify"@, ArpView::Number(1)),
        ("NoRepair"@, ArpView::Number(1)),
    ];
    match size {
        Some(n) => row.push(
            ("EstimatedSize"@, ArpView::Number((n / 1024 % 0x1_0000_0000) as u32)),
        ),
        None => row,
    }
}

fn enter_text(row: &mut Vec<ArpValue>, name: &'static str, text: String)
    ensures
        arp_views(final(row)@) == arp_views(old(row)@).push((name@, ArpView::Text(text@))),
{
    row.push(ArpValue { name, data: ArpData::Text(text) });
    assert(arp_views(row@) =~= arp_views(old(row)@).push((name@, ArpView::Text(text@))));
}

fn enter_number(row: &mut Vec<ArpValue>, name: &'static str, n: u32)
    ensures
        arp_views(final(row)@) == arp_views(old(row)@).push((name@, ArpView::Number(n))),
{
    row.push(ArpValue { name, data: ArpData::Number(n) });
    assert(arp_views(row@) =~= arp_views(old(row)@).push((name@, ArpView::Number(n))));
}

/// The program's row in Windows' list of programs.
pub fn write_arp_entry(exe: &str, dir: &str, version: &str, size: Option<u64>) -> (r: Vec<ArpValue>)
    ensures
        arp_views(r@) == arp_row(exe@, dir@, version@, size),
{
    let quoted = three("\"", exe, "\"");
    let mut row: Vec<ArpValue> = Vec::new();
    enter_text(&mut row, "DisplayName", DISPLAY_NAME.to_owned());
    enter_text(&mut row, "DisplayVersion", version.to_owned());
    enter_text(&mut row, "Publisher", "Brent".to_owned());
    enter_text(&mut row, "URLInfoAbout", "https://dns-ai.ru".to_owned());
    enter_text(&mut row, "HelpLink", "https://t.me/nova_txt".to_owned());
    enter_text(&mut row, "InstallLocation", dir.to_owned());
    enter_text(&mut row, "DisplayIcon", two(exe, ",0"));
    enter_text(&mut row, "UninstallString", two(quoted.as_str(), " remove"));
    enter_text(&mut row, "QuietUninstallString", two(quoted.as_str(), " remove --quiet"));
    enter_number(&mut row, "NoModify", 1);
    enter_number(&mut row, "NoRepair", 1);
    assert(arp_views(row@) =~= arp_row(exe@, dir@, version@, None));
    if let Some(n) = size {
        enter_number(&mut row, "EstimatedSize", (n / 1024 % 0x1_0000_0000) as u32);
    }
    row
}

/// How an attempt to remove something ended.
#[derive(Debug)]
pub enum Gone {
    Removed,
    /// There was nothing to remove.
    Absent,
    Failed(String),
}

/// Takes what was not there for removed. `what` says what could not be done.
fn removed(attempt: Gone, what: &str) -> (r: Result<(), String>)
    ensures
        match r {
            Ok(_) => attempt !is Failed,
            Err(e) => attempt is Failed && e@ == because(what@, attempt->Failed_0@),
        },
{
    match attempt {
        Gone::Failed(e) => Err(caused(what, e.as_str())),
        _ => Ok(()),
    }
}

/// Tells whether the row in Windows' list of programs is gone. One that was not there is.
pub fn remove_arp_entry(attempt: Gone) -> (r: Result<(), String>)
    ensures
        match r {
            Ok(_) => attempt !is Failed,
            Err(e) => attempt is Failed && e@ == because(
                "не удалось удалить запись из списка программ"@,
                attempt->Failed_0@,
            ),
        },
{
    removed(attempt, "не удалось удалить запись из списка программ")
}

/// Tells whether the shortcut is gone. One that was not there is.
pub fn remove_shortcut(path: &str, attempt: Gone) -> (r: Result<(), String>)
    ensures
        match r {
            Ok(_) => attempt !is Failed,
            Err(e) => attempt is Failed && e@ == because(
                "не удалось удалить "@ + path@,
                attempt->Failed_0@,
            ),
        },
{
    let what = two("не удалось удалить ", path);
    removed(attempt, what.as_str())
}

/// Whether a file is gone at once: it was not there, or could be removed. Any other is left to
/// Windows for when it starts again.
pub fn delete_now_or_at_reboot(present: bool, removed: bool) -> (r: bool)
    ensures
        r == (!present || removed),
{
    !present || removed
}

/// What Windows is told to delete in place of a file that is in use: the name that it was moved to
/// where it could be moved, so that the name of the program itself stays free, and its own
/// otherwise.
pub fn queued(path: String, aside: Option<String>, moved: bool) -> (r: String)
    ensures
        r == (if aside is Some && moved {
            aside->0
        } else {
            path
        }),
{
    match aside {
        Some(a) => if moved {
            a
        } else {
            path
        },
        None => path,
    }
}

/// What is said of the program's own files, `busy` of which were left to Windows.
pub open spec fn files_said(present: bool, busy: usize, folder_gone: bool) -> Seq<Seq<char>> {
    if !present {
        Seq::empty()
    } else if busy > 0 || !folder_gone {
        seq!["Файл программы сейчас выполняется — он исчезнет после перезагрузки."@]
    } else {
        seq!["Файлы программы удалены."@]
    }
}

/// What is said of the program's own files. `busy` of them were left to Windows; the folder went, or
/// was left to it too.
pub fn remove_program_files(present: bool, busy: usize, folder_gone: bool) -> (r: Vec<String>)
    ensures
        texts(r@) == files_said(present, busy, folder_gone),
{
    broadcast use texts_push;

    let mut out: Vec<String> = Vec::new();
    if present {
        if busy > 0 || !folder_gone {
            out.push(
                "Файл программы сейчас выполняется — он исчезнет после перезагрузки.".to_owned(),
            );
        } else {
            out.push("Файлы программы удалены.".to_owned());
        }
    }
    assert(texts(out@) =~= files_said(present, busy, folder_gone));
    out
}

/// How far the removal of the program's own files has come.
#[derive(Clone, Copy, Debug, PartialEq, Eq, Structural)]
pub enum EmptyingPhase {
    /// The next file is to be removed.
    File,
    /// It is in use, and is to be moved out of the way.
    Aside,
    /// The folder itself is to be removed.
    Folder,
    Over,
}

/// The removal of the program's own files, and then of the folder that they are in. What is in use is
/// left to Windows.
#[derive(Debug)]
pub struct Emptying {
    pub phase: EmptyingPhase,
    pub dir: String,
    /// Whether the folder was there at all.
    pub present: bool,
    /// What was in the folder before anything was touched.
    pub files: Vec<String>,
    /// How many of the files have had their turn.
    pub next: usize,
    /// How many of them were in use.
    pub busy: usize,
    /// Whether the folder went.
    pub folder_gone: bool,
    /// What Windows is told to delete when it starts again, in this order.
    pub queue: Vec<String>,
}

impl Emptying {
    /// What holds at every step. The folder has its turn when every file has had one, and nothing is
    /// left to Windows behind it.
    pub open spec fn wf(&self) -> bool {
        &&& self.busy <= self.next <= self.files@.len()
        &&& match self.phase {
            EmptyingPhase::File | EmptyingPhase::Aside => self.present && self.next
                < self.files@.len() && self.queue@.len() == self.busy,
            EmptyingPhase::Folder => self.present && self.next == self.files@.len()
                && self.queue@.len() == self.busy,
            EmptyingPhase::Over => if self.present && !self.folder_gone {
                self.next == self.files@.len() && self.queue@.len() == self.busy + 1
                    && self.queue@.last()@ == self.dir@
            } else {
                (self.present ==> self.next == self.files@.len()) && self.queue@.len()
                    == self.busy
            },
        }
    }

    /// The step after a file has had its turn.
    pub open spec fn after_file(next: int, len: int) -> EmptyingPhase {
        if next < len {
            EmptyingPhase::File
        } else {
            EmptyingPhase::Folder
        }
    }

    /// Starts with the first file, if there is one. There is nothing to do where there is no folder.
    pub fn begin(dir: String, present: bool, files: Vec<String>) -> (r: Emptying)
        ensures
            r.wf(),
            r.phase == (if !present {
                EmptyingPhase::Over
            } else {
                Emptying::after_file(0, files@.len() as int)
            }),
            r.dir == dir,
            r.present == present,
            r.files == files,
            r.next == 0,
            r.busy == 0,
            !r.folder_gone,
            r.queue@.len() == 0,
    {
        let phase: EmptyingPhase = if !present {
            EmptyingPhase::Over
        } else if files.len() > 0 {
            EmptyingPhase::File
        } else {
            EmptyingPhase::Folder
        };
        Emptying {
            phase,
            dir,
            present,
            files,
            next: 0,
            busy: 0,
            folder_gone: false,
            queue: Vec::new(),
        }
    }

    /// The file whose turn it is.
    pub fn file(&self) -> (r: &str)
        requires
            self.wf(),
            self.phase == EmptyingPhase::File || self.phase == EmptyingPhase::Aside,
        ensures
            r@ == self.files@[self.next as int]@,
    {
        self.files[self.next].as_str()
    }

    fn step(&mut self)
        requires
            old(self).next < old(self).files@.len(),
        ensures
            *final(self) == (Emptying {
                phase: Emptying::after_file(old(self).next + 1, old(self).files@.len() as int),
                next: (old(self).next + 1) as usize,
                ..*old(self)
            }),
            final(self).next == old(self).next + 1,
    {
        assert(self.next < self.files.len());
        self.next = self.next + 1;
        self.phase = if self.next < self.files.len() {
            EmptyingPhase::File
        } else {
            EmptyingPhase::Folder
        };
    }

    /// The file was removed, or is in use.
    pub fn removed(&mut self, gone: bool)
        requires
            old(self).wf(),
            old(self).phase == EmptyingPhase::File,
        ensures
            final(self).wf(),
            *final(self) == (if gone {
                Emptying {
                    phase: Emptying::after_file(old(self).next + 1, old(self).files@.len() as int),
                    next: (old(self).next + 1) as usize,
                    ..*old(self)
                }
            } else {
                Emptying { phase: EmptyingPhase::Aside, ..*old(self) }
            }),
    {
        if gone {
            self.step();
        } else {
            self.phase = EmptyingPhase::Aside;
        }
    }

    /// The file that is in use was moved to a free name, where there was one and it could be. It is
    /// left to Windows under the name that it has now.
    pub fn moved(&mut self, aside: Option<String>, moved: bool)
        requires
            old(self).wf(),
            old(self).phase == EmptyingPhase::Aside,
        ensures
            final(self).wf(),
            final(self).phase == Emptying::after_file(
                old(self).next + 1,
                old(self).files@.len() as int,
            ),
            final(self).next == old(self).next + 1,
            final(self).busy == old(self).busy + 1,
            texts(final(self).queue@) == texts(old(self).queue@).push(
                if aside is Some && moved {
                    aside->0@
                } else {
                    old(self).files@[old(self).next as int]@
                },
            ),
            final(self).dir == old(self).dir,
            final(self).present == old(self).present,
            final(self).files == old(self).files,
            final(self).folder_gone == old(self).folder_gone,
    {
        let path = self.file().to_owned();
        say(&mut self.queue, queued(path, aside, moved));
        assert(self.busy < self.files.len());
        self.busy = self.busy + 1;
        self.step();
        assert(texts(self.queue@).len() == self.queue@.len());
        assert(texts(old(self).queue@).len() == old(self).queue@.len());
    }

    /// The folder was removed, or could not be, and is left to Windows behind its files.
    pub fn folder(&mut self, gone: bool)
        requires
            old(self).wf(),
            old(self).phase == EmptyingPhase::Folder,
        ensures
            final(self).wf(),
            final(self).phase == EmptyingPhase::Over,
            final(self).folder_gone == gone,
            texts(final(self).queue@) == (if gone {
                texts(old(self).queue@)
            } else {
                texts(old(self).queue@).push(old(self).dir@)
            }),
            final(self).dir == old(self).dir,
            final(self).present == old(self).present,
            final(self).files == old(self).files,
            final(self).next == old(self).next,
            final(self).busy == old(self).busy,
    {
        self.folder_gone = gone;
        self.phase = EmptyingPhase::Over;
        if !gone {
            let dir = self.dir.as_str().to_owned();
            say(&mut self.queue, dir);
            let ghost q = texts(self.queue@);
            assert(q.len() == self.queue@.len());
            assert(texts(old(self).queue@).len() == old(self).queue@.len());
            assert(q.last() == self.queue@.last()@);
        }
    }

    /// What is said of the program's own files.
    pub fn outcome(&self) -> (r: Vec<String>)
        requires
            self.wf(),
            self.phase == EmptyingPhase::Over,
        ensures
            texts(r@) == files_said(self.present, self.busy, self.folder_gone),
    {
        remove_program_files(self.present, self.busy, self.folder_gone)
    }
}

/// The files go before the folder: it has its turn only when each of them has had one, and where it
/// is left to Windows it comes last. Until then only files are left to it.
pub proof fn law_files_before_the_folder(m: Emptying)
    requires
        m.wf(),
    ensures
        m.phase == EmptyingPhase::Folder ==> m.next == m.files@.len(),
        m.phase != EmptyingPhase::Over ==> m.queue@.len() == m.busy,
        m.phase == EmptyingPhase::Over && m.present ==> m.next == m.files@.len(),
        m.phase == EmptyingPhase::Over && m.present && !m.folder_gone ==> m.queue@.len() == m.busy + 1
            && m.queue@.last()@ == m.dir@,
{
}

/// What is to be done with the folder of the program's data.
#[derive(Debug)]
pub enum DataPlan {
    /// Nothing in it is touched; there may be something to say.
    Leave(Option<String>),
    /// Everything in it goes but the report.
    Sweep,
}

/// Whether the folder of the program's data is swept.
pub open spec fn data_swept(present: bool, link: Option<bool>, backup: bool) -> bool {
    present && link == Some(false) && !backup
}

/// Decides what is to be done with the folder of the program's data. `link` says whether it is a
/// link, if that could be told. It stays untouched where it is one, and where it holds the only
/// record of the machine's earlier settings.
pub fn remove_data_files(data: &str, present: bool, link: Option<bool>, backup: bool) -> (r: DataPlan)
    ensures
        if !present {
            r == DataPlan::Leave(None)
        } else {
            match link {
                Some(true) => r is Leave && r->Leave_0 is Some && r->Leave_0->0@ == data@
                    + " — это ссылка, а не папка; ничего в ней не тронуто."@,
                Some(false) => if backup {
                    r is Leave && r->Leave_0 is Some && r->Leave_0->0@
                        == "Резервная копия настроек DNS осталась — папка "@ + data@
                        + " сохранена."@
                } else {
                    r is Sweep
                },
                None => r == DataPlan::Leave(None),
            }
        },
        (r is Sweep) == data_swept(present, link, backup),
{
    if !present {
        return DataPlan::Leave(None);
    }
    match link {
        Some(l) => {
            if l {
                return DataPlan::Leave(
                    Some(two(data, " — это ссылка, а не папка; ничего в ней не тронуто.")),
                );
            }
        },
        None => {
            return DataPlan::Leave(None);
        },
    }
    if backup {
        return DataPlan::Leave(
            Some(
                three("Резервная копия настроек DNS осталась — папка ", data, " сохранена."),
            ),
        );
    }
    DataPlan::Sweep
}

/// Whether a file goes when the folder of the program's data is swept.
pub fn sweeps(path: &str, report: &str) -> (r: bool)
    ensures
        r == (path@ != report@),
{
    !same_text(path, report)
}

/// What is left to Windows of the folder of the program's data.
pub open spec fn data_scheduled(
    data: Seq<char>,
    report: Seq<char>,
    present: bool,
    link: Option<bool>,
    backup: bool,
) -> Seq<Seq<char>> {
    if backup || !present || link == Some(true) {
        Seq::empty()
    } else {
        seq![report, data]
    }
}

/// What Windows is told to delete when it starts again, once the report was written: the report, and
/// then the folder that it is in. Nothing, where the folder has to stay.
pub fn schedule_data_dir_removal(
    data: &str,
    report: &str,
    present: bool,
    link: Option<bool>,
    backup: bool,
) -> (r: Vec<String>)
    ensures
        texts(r@) == data_scheduled(data@, report@, present, link, backup),
{
    broadcast use texts_push;

    let linked: bool = match link {
        Some(l) => l,
        None => false,
    };
    let mut out: Vec<String> = Vec::new();
    if !(backup || !present || linked) {
        out.push(report.to_owned());
        out.push(data.to_owned());
        assert(texts(out@) =~= seq![report@, data@]);
    } else {
        assert(texts(out@) =~= Seq::empty());
    }
    out
}

/// A removal of the program never takes the record of the machine's earlier settings along, and
/// never reaches through a link: not at once, and not when Windows starts again.
pub proof fn law_removal_keeps_the_record(
    data: Seq<char>,
    report: Seq<char>,
    present: bool,
    link: Option<bool>,
    backup: bool,
)
    requires
        backup || link == Some(true),
    ensures
        !data_swept(present, link, backup),
        data_scheduled(data, report, present, link, backup) == Seq::<Seq<char>>::empty(),
{
}

/// How far an installation of the program has come.
#[derive(Clone, Copy, Debug, PartialEq, Eq, Structural)]
pub enum SetupPhase {
    /// A service that runs from the file is to be stopped.
    Stop,
    /// The program is to be copied to its place.
    Place,
    /// It is to be told whether the program is where it belongs.
    Locate,
    /// The shortcut is to be made.
    Shortcut,
    /// The row in Windows' list of programs is to be written.
    Entry,
    /// The service is to be registered for the file in `exe`.
    Register,
    Over,
}

/// The installation of the program: its file, the shortcut, the row in Windows' list of programs and
/// the service.
#[derive(Debug)]
pub struct Setup {
    pub phase: SetupPhase,
    /// Where the program is, once it has been copied or could not be.
    pub exe: Option<String>,
    pub lines: Vec<String>,
    pub error: Option<String>,
}

/// What is said of the copying of the program to its place.
pub open spec fn placed_lines(before: Seq<Seq<char>>, placed: Result<Placed, String>) -> Seq<
    Seq<char>,
> {
    match placed {
        Ok(p) => {
            let warned = before + texts(p.warnings@);
            if p.copied {
                warned.push("Программа установлена: "@ + p.exe@)
            } else {
                warned
            }
        },
        Err(e) => before.push("Не удалось установить программу: "@ + e@).push(
            "Служба будет зарегистрирована по текущему пути файла."@,
        ),
    }
}

fn say_all(lines: &mut Vec<String>, more: Vec<String>)
    ensures
        texts(final(lines)@) == texts(old(lines)@) + texts(more@),
{
    let mut rest = more;
    lines.append(&mut rest);
    assert(texts(lines@) =~= texts(old(lines)@) + texts(more@));
}

impl Setup {
    /// What holds at every step. Everything after the copying speaks of a file that is there.
    pub open spec fn wf(&self) -> bool {
        match self.phase {
            SetupPhase::Stop | SetupPhase::Place => self.exe is None && self.error is None,
            SetupPhase::Over => true,
            _ => self.exe is Some && self.error is None,
        }
    }

    /// Starts an installation. `same` tells whether the program that runs is the installed file, if
    /// its own path is known. Only a file that has to be replaced stops the service.
    pub fn begin(same: Option<bool>) -> (r: Setup)
        ensures
            r.wf(),
            r.phase == (if same == Some(true) {
                SetupPhase::Place
            } else {
                SetupPhase::Stop
            }),
            r.exe is None,
            texts(r.lines@) == Seq::<Seq<char>>::empty(),
            r.error is None,
    {
        let lines: Vec<String> = Vec::new();
        assert(texts(lines@) =~= Seq::<Seq<char>>::empty());
        let phase: SetupPhase = match same {
            Some(s) => if s {
                SetupPhase::Place
            } else {
                SetupPhase::Stop
            },
            None => SetupPhase::Stop,
        };
        Setup { phase, exe: None, lines, error: None }
    }

    /// The service was stopped where it had to be, with this to say.
    pub fn stopped(&mut self, said: Vec<String>)
        requires
            old(self).wf(),
            old(self).phase == SetupPhase::Stop,
        ensures
            final(self).wf(),
            final(self).phase == SetupPhase::Place,
            final(self).exe is None,
            final(self).error is None,
            texts(final(self).lines@) == texts(old(self).lines@) + texts(said@),
    {
        say_all(&mut self.lines, said);
        self.phase = SetupPhase::Place;
    }

    /// The program was copied to its place. Where it could not be, the installation goes on with the
    /// file that runs, if its path is known.
    pub fn placed(&mut self, result: Result<Placed, String>, running: Result<String, String>)
        requires
            old(self).wf(),
            old(self).phase == SetupPhase::Place,
        ensures
            final(self).wf(),
            texts(final(self).lines@) == placed_lines(texts(old(self).lines@), result),
            match result {
                Ok(p) => final(self).phase == SetupPhase::Locate && final(self).exe == Some(p.exe)
                    && final(self).error is None,
                Err(_) => match running {
                    Ok(exe) => final(self).phase == SetupPhase::Locate && final(self).exe == Some(
                        exe,
                    ) && final(self).error is None,
                    Err(e) => final(self).phase == SetupPhase::Over && final(self).exe is None
                        && final(self).error is Some && final(self).error->0@ == because(
                        "не удалось определить путь к собственному файлу"@,
                        e@,
                    ),
                },
            },
    {
        match result {
            Ok(p) => {
                let Placed { exe, copied, warnings } = p;
                say_all(&mut self.lines, warnings);
                if copied {
                    say(&mut self.lines, two("Программа установлена: ", exe.as_str()));
                }
                self.exe = Some(exe);
                self.phase = SetupPhase::Locate;
            },
            Err(e) => {
                say(&mut self.lines, two("Не удалось установить программу: ", e.as_str()));
                say(
                    &mut self.lines,
                    "Служба будет зарегистрирована по текущему пути файла.".to_owned(),
                );
                match running {
                    Ok(exe) => {
                        self.exe = Some(exe);
                        self.phase = SetupPhase::Locate;
                    },
                    Err(e) => {
                        self.error = Some(
                            caused("не удалось определить путь к собственному файлу", e.as_str()),
                        );
                        self.phase = SetupPhase::Over;
                    },
                }
            },
        }
    }

    /// The program is where it belongs or not. Only one that is gets a shortcut and a row.
    pub fn located(&mut self, home: bool)
        requires
            old(self).wf(),
            old(self).phase == SetupPhase::Locate,
        ensures
            final(self).wf(),
            *final(self) == (Setup {
                phase: if home {
                    SetupPhase::Shortcut
                } else {
                    SetupPhase::Register
                },
                ..*old(self)
            }),
    {
        self.phase = if home {
            SetupPhase::Shortcut
        } else {
            SetupPhase::Register
        };
    }

    /// The shortcut was made; that it could not be is only said.
    pub fn shortcut(&mut self, result: Result<(), String>)
        requires
            old(self).wf(),
            old(self).phase == SetupPhase::Shortcut,
        ensures
            final(self).wf(),
            final(self).phase == SetupPhase::Entry,
            final(self).exe == old(self).exe,
            final(self).error is None,
            texts(final(self).lines@) == texts(old(self).lines@).push(
                match result {
                    Ok(_) => "Ярлык в меню «Пуск» создан."@,
                    Err(e) => "Предупреждение: ярлык не создан: "@ + e@,
                },
            ),
    {
        match result {
            Ok(_) => {
                say(&mut self.lines, "Ярлык в меню «Пуск» создан.".to_owned());
            },
            Err(e) => {
                say(&mut self.lines, two("Предупреждение: ярлык не создан: ", e.as_str()));
            },
        }
        self.phase = SetupPhase::Entry;
    }

    /// The row in Windows' list of programs was written; that it could not be is only said.
    pub fn entry(&mut self, result: Result<(), String>)
        requires
            old(self).wf(),
            old(self).phase == SetupPhase::Entry,
        ensures
            final(self).wf(),
            final(self).phase == SetupPhase::Register,
            final(self).exe == old(self).exe,
            final(self).error is None,
            texts(final(self).lines@) == (match result {
                Ok(_) => texts(old(self).lines@),
                Err(e) => texts(old(self).lines@).push(
                    "Предупреждение: запись в списке программ не создана: "@ + e@,
                ),
            }),
    {
        if let Err(e) = result {
            say(
                &mut self.lines,
                two("Предупреждение: запись в списке программ не создана: ", e.as_str()),
            );
        }
        self.phase = SetupPhase::Register;
    }

    /// The service was registered, or could not be.
    pub fn registered(&mut self, result: Result<Vec<String>, String>)
        requires
            old(self).wf(),
            old(self).phase == SetupPhase::Register,
        ensures
            final(self).wf(),
            final(self).phase == SetupPhase::Over,
            final(self).exe == old(self).exe,
            match result {
                Ok(said) => final(self).error is None && texts(final(self).lines@) == texts(
                    old(self).lines@,
                ) + texts(said@),
                Err(e) => final(self).error == Some(e) && final(self).lines == old(self).lines,
            },
    {
        match result {
            Ok(said) => {
                say_all(&mut self.lines, said);
            },
            Err(e) => {
                self.error = Some(e);
            },
        }
        self.phase = SetupPhase::Over;
    }

    /// What the installation has to say, or why it failed.
    pub fn outcome(self) -> (r: Result<Vec<String>, String>)
        requires
            self.phase == SetupPhase::Over,
        ensures
            match self.error {
                None => r == Ok::<Vec<String>, String>(self.lines),
                Some(e) => r == Err::<Vec<String>, String>(e),
            },
    {
        match self.error {
            Some(e) => Err(e),
            None => Ok(self.lines),
        }
    }
}

/// What a removal of the program has to say.
pub open spec fn removal_lines(
    uninstalled: Seq<Seq<char>>,
    shortcut: Result<(), String>,
    entry: Result<(), String>,
    data: Seq<Seq<char>>,
    files: Seq<Seq<char>>,
) -> Seq<Seq<char>> {
    uninstalled + (match shortcut {
        Ok(_) => Seq::empty(),
        Err(e) => seq!["Предупреждение: "@ + e@],
    }) + (match entry {
        Ok(_) => Seq::empty(),
        Err(e) => seq!["Предупреждение: "@ + e@],
    }) + data + files + seq!["DNS-AI удалён."@]
}

/// How far a removal of the program has come.
#[derive(Clone, Copy, Debug, PartialEq, Eq, Structural)]
pub enum ClearingPhase {
    /// The service is to be removed, and the machine's settings put back.
    Service,
    /// The shortcut is to be removed.
    Shortcut,
    /// The row in Windows' list of programs is to be removed.
    Entry,
    /// The program's data are to be removed.
    Data,
    /// The program's own files are to be removed.
    Files,
    Over,
}

/// The removal of the program: the service with the machine's settings first, and everything else
/// only once that is done.
#[derive(Debug)]
pub struct Clearing {
    pub phase: ClearingPhase,
    pub lines: Vec<String>,
    pub error: Option<String>,
}

/// What is added to what was said where something could not be removed.
pub open spec fn warned(before: Seq<Seq<char>>, result: Result<(), String>) -> Seq<Seq<char>> {
    match result {
        Ok(_) => before,
        Err(e) => before.push("Предупреждение: "@ + e@),
    }
}

fn warn(lines: &mut Vec<String>, result: Result<(), String>)
    ensures
        texts(final(lines)@) == warned(texts(old(lines)@), result),
{
    if let Err(e) = &result {
        say(lines, two("Предупреждение: ", e.as_str()));
    }
}

impl Clearing {
    /// What holds at every step. A removal that failed is over.
    pub open spec fn wf(&self) -> bool {
        self.error is Some ==> self.phase == ClearingPhase::Over
    }

    /// Starts with the service.
    pub fn begin() -> (r: Clearing)
        ensures
            r.wf(),
            r.phase == ClearingPhase::Service,
            texts(r.lines@) == Seq::<Seq<char>>::empty(),
            r.error is None,
    {
        let lines: Vec<String> = Vec::new();
        assert(texts(lines@) =~= Seq::<Seq<char>>::empty());
        Clearing { phase: ClearingPhase::Service, lines, error: None }
    }

    /// The service was removed, with this to say. Where that failed the removal is over, and nothing
    /// else is touched.
    pub fn uninstalled(&mut self, result: Result<Vec<String>, String>)
        requires
            old(self).wf(),
            old(self).phase == ClearingPhase::Service,
        ensures
            final(self).wf(),
            match result {
                Ok(said) => {
                    &&& final(self).phase == ClearingPhase::Shortcut
                    &&& texts(final(self).lines@) == texts(old(self).lines@) + texts(said@)
                    &&& final(self).error is None
                },
                Err(e) => *final(self) == (Clearing {
                    phase: ClearingPhase::Over,
                    error: Some(e),
                    ..*old(self)
                }),
            },
    {
        match result {
            Ok(said) => {
                say_all(&mut self.lines, said);
                self.phase = ClearingPhase::Shortcut;
            },
            Err(e) => {
                self.error = Some(e);
                self.phase = ClearingPhase::Over;
            },
        }
    }

    /// The shortcut was removed; that it could not be is only said.
    pub fn shortcut(&mut self, result: Result<(), String>)
        requires
            old(self).wf(),
            old(self).phase == ClearingPhase::Shortcut,
        ensures
            final(self).wf(),
            final(self).phase == ClearingPhase::Entry,
            texts(final(self).lines@) == warned(texts(old(self).lines@), result),
            final(self).error is None,
    {
        warn(&mut self.lines, result);
        self.phase = ClearingPhase::Entry;
    }

    /// The row in Windows' list of programs was removed; that it could not be is only said.
    pub fn entry(&mut self, result: Result<(), String>)
        requires
            old(self).wf(),
            old(self).phase == ClearingPhase::Entry,
        ensures
            final(self).wf(),
            final(self).phase == ClearingPhase::Data,
            texts(final(self).lines@) == warned(texts(old(self).lines@), result),
            final(self).error is None,
    {
        warn(&mut self.lines, result);
        self.phase = ClearingPhase::Data;
    }

    /// The program's data were removed, with this to say.
    pub fn data(&mut self, said: Vec<String>)
        requires
            old(self).wf(),
            old(self).phase == ClearingPhase::Data,
        ensures
            final(self).wf(),
            final(self).phase == ClearingPhase::Files,
            texts(final(self).lines@) == texts(old(self).lines@) + texts(said@),
            final(self).error is None,
    {
        say_all(&mut self.lines, said);
        self.phase = ClearingPhase::Files;
    }

    /// The program's own files were removed, with this to say.
    pub fn files(&mut self, said: Vec<String>)
        requires
            old(self).wf(),
            old(self).phase == ClearingPhase::Files,
        ensures
            final(self).wf(),
            final(self).phase == ClearingPhase::Over,
            texts(final(self).lines@) == (texts(old(self).lines@) + texts(said@)).push(
                "DNS-AI удалён."@,
            ),
            final(self).error is None,
    {
        say_all(&mut self.lines, said);
        say(&mut self.lines, "DNS-AI удалён.".to_owned());
        self.phase = ClearingPhase::Over;
    }

    /// What the removal has to say, or why it failed.
    pub fn outcome(self) -> (r: Result<Vec<String>, String>)
        requires
            self.wf(),
            self.phase == ClearingPhase::Over,
        ensures
            match self.error {
                None => r == Ok::<Vec<String>, String>(self.lines),
                Some(e) => r == Err::<Vec<String>, String>(e),
            },
    {
        match self.error {
            Some(e) => Err(e),
            None => Ok(self.lines),
        }
    }
}

/// A removal that failed at the service asks for nothing more: not the shortcut, not the row in
/// Windows' list of programs, not the data and not the files.
pub proof fn law_a_failed_uninstall_touches_nothing_else(c: Clearing)
    requires
        c.wf(),
        c.error is Some,
    ensures
        c.phase == ClearingPhase::Over,
{
}

/// A whole removal of the program, as what came of each of its steps. It fails exactly where the
/// service could not be removed; what else could not be removed is only said, and the steps behind it
/// are taken. It says what was said of the service, of the shortcut and the row in Windows' list of
/// programs where they stayed, of the data and of the files, and at last that the program is gone.
pub fn remove_program(
    uninstalled: Result<Vec<String>, String>,
    shortcut: Result<(), String>,
    entry: Result<(), String>,
    data: Vec<String>,
    files: Vec<String>,
) -> (r: Result<Vec<String>, String>)
    ensures
        match (uninstalled, r) {
            (Ok(said), Ok(out)) => texts(out@) == removal_lines(
                texts(said@),
                shortcut,
                entry,
                texts(data@),
                texts(files@),
            ),
            (Err(e), Err(f)) => e == f,
            _ => false,
        },
{
    let ghost said = texts(uninstalled->Ok_0@);
    let mut c = Clearing::begin();
    c.uninstalled(uninstalled);
    if c.error.is_none() {
        c.shortcut(shortcut);
        c.entry(entry);
        c.data(data);
        c.files(files);
        assert(texts(c.lines@) =~= removal_lines(
            said,
            shortcut,
            entry,
            texts(data@),
            texts(files@),
        ));
    }
    c.outcome()
}

/// A removal that succeeds says first what was said of the service, and last that the program is gone.
pub proof fn law_removal_begins_and_ends(
    uninstalled: Seq<Seq<char>>,
    shortcut: Result<(), String>,
    entry: Result<(), String>,
    data: Seq<Seq<char>>,
    files: Seq<Seq<char>>,
)
    ensures
        uninstalled.is_prefix_of(removal_lines(uninstalled, shortcut, entry, data, files)),
        removal_lines(uninstalled, shortcut, entry, data, files).last() == "DNS-AI удалён."@,
{
    let all = removal_lines(uninstalled, shortcut, entry, data, files);
    assert(all.take(uninstalled.len() as int) =~= uninstalled);
}

/// The claim of a process to be the window of its session, with the handle that stands for it.
#[derive(Debug)]
pub struct Instance {
    pub held: Option<usize>,
}

impl Instance {
    /// No claim.
    pub fn new() -> (r: Instance)
        ensures
            r.held is None,
    {
        Instance { held: None }
    }
}

/// Claims to be the window. `made` is the handle that Windows gave, if it gave one, and `existed`
/// tells whether another process had the claim already. Tells whether the claim was won, and
/// which handle is to be closed. Where there is no handle nothing can be told, and a second window
/// is better than none.
pub fn claim_instance(instance: &mut Instance, made: Option<usize>, existed: bool) -> (r: (
    bool,
    Option<usize>,
))
    ensures
        if made is Some && existed {
            &&& r == (false, made)
            &&& *final(instance) == *old(instance)
        } else {
            &&& r == (true, old(instance).held)
            &&& final(instance).held == made
        },
{
    if made.is_some() && existed {
        return (false, made);
    }
    let before: Option<usize> = instance.held;
    instance.held = made;
    (true, before)
}

/// Gives the claim up, so that another process can have it. Tells which handle is to be closed.
pub fn release_instance(instance: &mut Instance) -> (r: Option<usize>)
    ensures
        r == old(instance).held,
        final(instance).held is None,
{
    let before: Option<usize> = instance.held;
    instance.held = None;
    before
}

/// What happens to the folder of the program's data: it is swept exactly where it is there, is known to
/// be no link, and holds no record of earlier settings; and it goes with the next start, after the report
/// in it, unless it holds that record, is not there or is known to be a link.
pub proof fn law_what_happens_to_the_data(
    data: Seq<char>,
    report: Seq<char>,
    present: bool,
    link: Option<bool>,
    backup: bool,
)
    ensures
        data_swept(true, Some(false), false),
        data_swept(present, link, backup) ==> present && link == Some(false) && !backup,
        present && !backup && link != Some(true) ==> data_scheduled(
            data,
            report,
            present,
            link,
            backup,
        ) == seq![report, data],
        !present || backup || link == Some(true) ==> data_scheduled(
            data,
            report,
            present,
            link,
            backup,
        ).len() == 0,
{
}

/// Two paths name one file where both lead to one place; where that cannot be told, where they differ in
/// nothing but case.
pub proof fn law_when_paths_name_one_file(a: Seq<char>, b: Seq<char>, x: &str, y: &str)
    ensures
        names_same_file(a, b, Some(x), Some(y)) <==> x@ == y@,
        names_same_file(a, b, None, Some(y)) <==> alike(a, b),
        names_same_file(a, b, Some(x), None) <==> alike(a, b),
        names_same_file(a, b, None, None) <==> alike(a, b),
{
}

/// The program is installed in a folder of its own below the folder for programs.
pub proof fn law_where_the_program_is_installed(dir: &str)
    ensures
        install_folder(Some(dir)) == joined_path(dir@, "DNS-AI"@),
        install_folder(None) == joined_path("C:\\Program Files"@, "DNS-AI"@),
        EXE@ == "dns-ai.exe"@,
        SHORTCUT@ == "DNS-AI.lnk"@,
        ASIDE_NAMES == 10,
        aside_name(0) == EXE@ + ".old"@,
        forall|n: nat| n > 0 ==> #[trigger] aside_name(n) == EXE@ + ".old"@ + decimal(n),
{
    assert(aside_name(0) =~= EXE@ + ".old"@);
}

/// What Windows' list of programs says of this one: both commands that remove it start the installed
/// file, by its path in quotation marks, and the second without a question; the size is given where it
/// is known, in units of 1024 bytes.
pub proof fn law_the_row_in_the_list_of_programs(
    exe: Seq<char>,
    dir: Seq<char>,
    version: Seq<char>,
    size: u64,
)
    ensures
        arp_row(exe, dir, version, None).len() == 11,
        arp_row(exe, dir, version, None)[1] == ("DisplayVersion"@, ArpView::Text(version)),
        arp_row(exe, dir, version, None)[5] == ("InstallLocation"@, ArpView::Text(dir)),
        arp_row(exe, dir, version, None)[6] == ("DisplayIcon"@, ArpView::Text(exe + ",0"@)),
        arp_row(exe, dir, version, None)[7] == (
            "UninstallString"@,
            ArpView::Text("\""@ + exe + "\""@ + " remove"@),
        ),
        arp_row(exe, dir, version, None)[8] == (
            "QuietUninstallString"@,
            ArpView::Text("\""@ + exe + "\""@ + " remove --quiet"@),
        ),
        arp_row(exe, dir, version, None)[9] == ("NoModify"@, ArpView::Number(1)),
        arp_row(exe, dir, version, None)[10] == ("NoRepair"@, ArpView::Number(1)),
        arp_row(exe, dir, version, Some(size)).len() == 12,
        arp_row(exe, dir, version, Some(size)).drop_last() == arp_row(exe, dir, version, None),
        size < 0x400_0000_0000 ==> arp_row(exe, dir, version, Some(size)).last() == (
            "EstimatedSize"@,
            ArpView::Number((size / 1024) as u32),
        ),
{
    assert(arp_row(exe, dir, version, Some(size)).drop_last() =~= arp_row(exe, dir, version, None));
}

/// What is said of the program's files: nothing where there were none; that they are gone where all of
/// them and their folder are; otherwise that they go with the next start.
pub proof fn law_what_is_said_of_the_files(busy: usize, folder_gone: bool)
    ensures
        files_said(false, busy, folder_gone).len() == 0,
        busy == 0 && folder_gone ==> files_said(true, busy, folder_gone) == seq![
            "Файлы программы удалены."@,
        ],
        busy > 0 || !folder_gone ==> files_said(true, busy, folder_gone) == seq![
            "Файл программы сейчас выполняется — он исчезнет после перезагрузки."@,
        ],
{
}

/// What is said of the copy: its warnings, and that it was made where it was; or that it failed, and
/// that the service is registered for the file at hand.
pub proof fn law_what_is_said_of_the_copy(before: Seq<Seq<char>>, p: Placed, e: String)
    ensures
        before.is_prefix_of(placed_lines(before, Ok(p))),
        p.copied ==> placed_lines(before, Ok(p)).len() == before.len() + p.warnings@.len() + 1
            && placed_lines(before, Ok(p)).last() == "Программа установлена: "@ + p.exe@,
        !p.copied ==> placed_lines(before, Ok(p)) == before + texts(p.warnings@),
        placed_lines(before, Err(e)) == before + seq![
            "Не удалось установить программу: "@ + e@,
            "Служба будет зарегистрирована по текущему пути файла."@,
        ],
{
    let out = placed_lines(before, Ok(p));
    assert(texts(p.warnings@).len() == p.warnings@.len());
    assert(out.subrange(0, before.len() as int) =~= before);
    assert(placed_lines(before, Err(e)) =~= before + seq![
        "Не удалось установить программу: "@ + e@,
        "Служба будет зарегистрирована по текущему пути файла."@,
    ]);
}

/// Everything that came of a removal is said, in the order of its steps: what was said of the service,
/// then of the shortcut and the row in the list of programs only where they stayed, then of the data and
/// of the files.
pub proof fn law_everything_of_a_removal_is_said(
    uninstalled: Seq<Seq<char>>,
    a: String,
    b: String,
    data: Seq<Seq<char>>,
    files: Seq<Seq<char>>,
    before: Seq<Seq<char>>,
)
    ensures
        removal_lines(uninstalled, Ok(()), Ok(()), data, files) == uninstalled + data + files + seq![
            "DNS-AI удалён."@,
        ],
        removal_lines(uninstalled, Err(a), Err(b), data, files) == uninstalled + seq![
            "Предупреждение: "@ + a@,
            "Предупреждение: "@ + b@,
        ] + data + files + seq!["DNS-AI удалён."@],
        removal_lines(uninstalled, Err(a), Ok(()), data, files) == uninstalled + seq![
            "Предупреждение: "@ + a@,
        ] + data + files + seq!["DNS-AI удалён."@],
        removal_lines(uninstalled, Ok(()), Err(b), data, files) == uninstalled + seq![
            "Предупреждение: "@ + b@,
        ] + data + files + seq!["DNS-AI удалён."@],
        warned(before, Ok(())) == before,
        warned(before, Err(a)) == before.push("Предупреждение: "@ + a@),
{
    let end = seq!["DNS-AI удалён."@];
    let x = "Предупреждение: "@ + a@;
    let y = "Предупреждение: "@ + b@;
    assert(removal_lines(uninstalled, Ok(()), Ok(()), data, files) =~= uninstalled + data + files
        + end);
    assert(removal_lines(uninstalled, Err(a), Err(b), data, files) =~= uninstalled + seq![x, y]
        + data + files + end);
    assert(removal_lines(uninstalled, Err(a), Ok(()), data, files) =~= uninstalled + seq![x] + data
        + files + end);
    assert(removal_lines(uninstalled, Ok(()), Err(b), data, files) =~= uninstalled + seq![y] + data
        + files + end);
}

/// What is said of a failed COM call: what it was for, and the eight digits of its code.
pub proof fn law_failed_com_calls_in_words(what: Seq<char>, hr: i32)
    ensures
        com_text(what, hr) == what + " (COM 0x"@ + hex_digits((hr as u32) as nat, 8) + ")"@,
        ARP_KEY@ == "SOFTWARE\\Microsoft\\Windows\\CurrentVersion\\Uninstall\\DNS-AI"@,
        INSTANCE_MUTEX@ == "Local\\DNS-AI-tray-instance"@,
        SHOW_EVENT@ == "Local\\DNS-AI-tray-show"@,
        DISPLAY_NAME@ == "DNS-AI — защищённый DNS"@,
{
}

/// How a free name is looked for: a name that is free is taken, one that is not leads to the next of the
/// ten, and behind the last there is none.
pub proof fn law_names_are_tried_in_turn(n: int)
    ensures
        tried_name(n, true) == AsideStep::Take,
        0 <= n < 9 ==> tried_name(n, false) == AsideStep::Next((n + 1) as u8),
        n >= 9 ==> tried_name(n, false) == AsideStep::Exhausted,
{
}

/// The folder comes after the last of its files, and not before.
pub proof fn law_files_in_turn(next: int, len: int)
    ensures
        next < len ==> Emptying::after_file(next, len) == EmptyingPhase::File,
        next >= len ==> Emptying::after_file(next, len) == EmptyingPhase::Folder,
{
}

/// While the program is being copied there is no copy yet and no error; what made room is known from the
/// moment its name is; a copy that failed with something aside puts it back, and one that succeeded
/// discards it.
pub proof fn law_steps_of_the_copy(p: Placing)
    requires
        p.wf(),
    ensures
        p.phase == PlacePhase::Folder || p.phase == PlacePhase::Name ==> !p.copied && p.error is None
            && p.aside is None,
        p.phase == PlacePhase::Rename ==> !p.copied && p.error is None && p.aside is Some,
        p.phase == PlacePhase::Copy ==> !p.copied && p.error is None,
        p.phase == PlacePhase::PutBack ==> !p.copied && p.error is Some && p.aside is Some,
        p.phase == PlacePhase::Discard ==> p.copied && p.error is None && p.aside is Some,
        p.phase == PlacePhase::Over && p.error is Some ==> !p.copied,
{
}

/// What the service is registered for is known from the moment the program is in its place; until then
/// nothing went wrong that ends the installation.
pub proof fn law_the_file_is_known_before_it_is_used(s: Setup)
    requires
        s.wf(),
    ensures
        s.phase == SetupPhase::Stop || s.phase == SetupPhase::Place ==> s.exe is None
            && s.error is None,
        s.phase == SetupPhase::Locate || s.phase == SetupPhase::Shortcut || s.phase
            == SetupPhase::Entry || s.phase == SetupPhase::Register ==> s.exe is Some
            && s.error is None,
{
}

} // verus!
