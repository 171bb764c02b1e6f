//! The folder that the program keeps its files in: beside the executable, in a folder of its own for
//! every computer, or the shared one where that cannot be written.

use vstd::prelude::*;

use crate::service::{caused, two};
use crate::text::{chars_of, is_letter_or_digit, lower_text, same_text, starts_with};
#[allow(unused_imports)]
use crate::app::because;
#[allow(unused_imports)]
use crate::text::{letter_or_digit, lowered, texts, texts_push};

verus! {

/// Whether a path is a drive and nothing more, such as `C:`.
pub open spec fn bare_drive(p: Seq<char>) -> bool {
    p.len() == 2 && p[1] == ':' && ('a' <= p[0] && p[0] <= 'z' || 'A' <= p[0] && p[0] <= 'Z')
}

/// A name in a folder. A separator goes between the two unless the folder ends with one, is empty,
/// or is a bare drive.
pub open spec fn joined_path(dir: Seq<char>, name: Seq<char>) -> Seq<char> {
    if dir.len() == 0 || dir.last() == '\\' || dir.last() == '/' || bare_drive(dir) {
        dir + name
    } else {
        dir.push('\\') + name
    }
}

/// A name in a folder.
pub fn join_path(dir: &str, name: &str) -> (r: String)
    ensures
        r@ == joined_path(dir@, name@),
{
    let c: Vec<char> = chars_of(dir);
    let n: usize = c.len();
    let drive: bool = n == 2 && c[1] == ':' && (('a' <= c[0] && c[0] <= 'z') || ('A' <= c[0]
        && c[0] <= 'Z'));
    let mut out = dir.to_owned();
    if !(n == 0 || c[n - 1] == '\\' || c[n - 1] == '/' || drive) {
        out.push('\\');
    }
    out.append(name);
    out
}

/// Whether the path of a folder begins with the text of one of those that programs are installed in,
/// whatever the case of the letters. It is a comparison of texts: `C:\Program FilesX` begins with
/// `C:\Program Files`, and counts.
pub open spec fn below_one_of(dir: Seq<char>, bases: Seq<Seq<char>>) -> bool {
    exists|i: int|
        0 <= i < bases.len() && (#[trigger] lowered(bases[i])).is_prefix_of(lowered(dir))
}

/// Whether a folder is taken for one of those that programs are installed in, or for one below them:
/// its path begins with one of theirs, as a text and whatever the case of the letters.
/// `C:\Program FilesX` counts too.
pub fn in_program_files(dir: &str, bases: &Vec<String>) -> (r: bool)
    ensures
        r == below_one_of(dir@, texts(bases@)),
{
    let low = lower_text(dir);
    let mut i: usize = 0;
    while i < bases.len()
        invariant
            i <= bases@.len(),
            low@ == lowered(dir@),
            forall|k: int|
                0 <= k < i ==> !(#[trigger] lowered(texts(bases@)[k])).is_prefix_of(
                    lowered(dir@),
                ),
        decreases bases@.len() - i,
    {
        if starts_with(low.as_str(), lower_text(bases[i].as_str()).as_str()) {
            assert(lowered(texts(bases@)[i as int]).is_prefix_of(lowered(dir@)));
            return true;
        }
        i += 1;
    }
    false
}

/// A computer's name with everything replaced that does not belong in the name of a folder.
pub open spec fn folder_name(name: Seq<char>) -> Seq<char> {
    if name.len() == 0 {
        "this-pc"@
    } else {
        Seq::new(
            name.len(),
            |i: int|
                if letter_or_digit(name[i]) || name[i] == '-' || name[i] == '_' {
                    name[i]
                } else {
                    '_'
                },
        )
    }
}

/// The name of a computer's own folder.
pub fn machine_folder(name: Option<&str>) -> (r: String)
    ensures
        r@ == folder_name(
            match name {
                Some(n) => n@,
                None => Seq::<char>::empty(),
            },
        ),
{
    let name: &str = match name {
        Some(n) => n,
        None => return "this-pc".to_owned(),
    };
    let c: Vec<char> = chars_of(name);
    if c.len() == 0 {
        return "this-pc".to_owned();
    }
    let mut out = String::new();
    let mut i: usize = 0;
    while i < c.len()
        invariant
            c@ == name@,
            c@.len() > 0,
            i <= c@.len(),
            out@ == folder_name(name@).take(i as int),
        decreases c@.len() - i,
    {
        let ch: char = c[i];
        if is_letter_or_digit(ch) || ch == '-' || ch == '_' {
            out.push(ch);
        } else {
            out.push('_');
        }
        i += 1;
        assert(folder_name(name@).take(i as int) =~= folder_name(name@).take(i - 1).push(
            folder_name(name@)[i - 1],
        ));
    }
    assert(folder_name(name@).take(i as int) =~= folder_name(name@));
    out
}

/// The folder beside the executable; none for an installed copy.
pub open spec fn portable_path(
    exe_dir: Seq<char>,
    installed: bool,
    machine: Seq<char>,
) -> Option<Seq<char>> {
    if installed {
        None
    } else {
        Some(joined_path(joined_path(exe_dir, "config"@), machine))
    }
}

/// The folder beside the executable, with a folder of its own for every computer; none for an
/// installed copy, or where the executable's own folder is unknown.
pub fn portable_dir(exe_dir: Option<&str>, installed: bool, machine: &str) -> (r: Option<String>)
    ensures
        match (exe_dir, r) {
            (None, out) => out is None,
            (Some(d), Some(p)) => portable_path(d@, installed, machine@) == Some(p@),
            (Some(d), None) => portable_path(d@, installed, machine@) is None,
        },
{
    match exe_dir {
        None => None,
        Some(d) => {
            if installed {
                return None;
            }
            Some(join_path(join_path(d, "config").as_str(), machine))
        },
    }
}

/// The shared folder.
pub fn program_data_dir(variable: Option<&str>) -> (r: String)
    ensures
        r@ == joined_path(
            match variable {
                Some(v) => v@,
                None => "C:\\ProgramData"@,
            },
            "DNS-AI"@,
        ),
{
    join_path(
        match variable {
            Some(v) => v,
            None => "C:\\ProgramData",
        },
        "DNS-AI",
    )
}

/// The folder that the program uses: the one beside the executable where there is one and it can be
/// written, and the shared one otherwise.
pub fn data_dir(portable: Option<String>, writable: bool, shared: String) -> (r: String)
    ensures
        r == (if portable is Some && writable {
            portable->0
        } else {
            shared
        }),
{
    match portable {
        Some(p) => if writable {
            p
        } else {
            shared
        },
        None => shared,
    }
}

/// Whether the files live beside the executable.
pub fn is_portable(portable: Option<&str>, dir: &str) -> (r: bool)
    ensures
        r == (portable is Some && portable->0@ == dir@),
{
    match portable {
        Some(p) => same_text(p, dir),
        None => false,
    }
}

/// Where the settings are kept.
pub fn settings_file(dir: &str) -> (r: String)
    ensures
        r@ == joined_path(dir@, "settings.json"@),
{
    join_path(dir, "settings.json")
}

/// Where the record of the previous DNS settings is kept.
pub fn backup_file(dir: &str) -> (r: String)
    ensures
        r@ == joined_path(dir@, "dns-backup.json"@),
{
    join_path(dir, "dns-backup.json")
}

/// Where the list of the resolver's addresses is kept.
pub fn endpoints_file(dir: &str) -> (r: String)
    ensures
        r@ == joined_path(dir@, "endpoints.json"@),
{
    join_path(dir, "endpoints.json")
}

/// Where the service writes its log.
pub fn service_log(dir: &str) -> (r: String)
    ensures
        r@ == joined_path(dir@, "service.log"@),
{
    join_path(dir, "service.log")
}

/// Where a run with administrator rights leaves its report.
pub fn last_action_file(dir: &str) -> (r: String)
    ensures
        r@ == joined_path(dir@, "last-action.json"@),
{
    join_path(dir, "last-action.json")
}

/// What is to be done before the folder is used.
#[derive(Clone, Copy, Debug, PartialEq, Eq, Structural)]
pub enum DirPlan {
    /// It is a link, and is not used at all.
    Refuse,
    /// It is made if it is missing, and its permissions are set anew if `harden` says so.
    Use { create: bool, harden: bool },
}

/// What is to be done before the folder is used. Beside the executable it keeps the permissions it
/// has. The shared folder gets its permissions every time, and is refused where it is a link.
pub fn prepare_dir(portable: bool, link: bool, exists: bool) -> (r: DirPlan)
    ensures
        r == (if portable {
            DirPlan::Use { create: !exists, harden: false }
        } else if link {
            DirPlan::Refuse
        } else {
            DirPlan::Use { create: !exists, harden: true }
        }),
{
    if portable {
        return DirPlan::Use { create: !exists, harden: false };
    }
    if link {
        return DirPlan::Refuse;
    }
    DirPlan::Use { create: !exists, harden: true }
}

/// What a folder that is a link is answered.
pub fn link_refused(dir: &str) -> (r: String)
    ensures
        r@ == dir@ + " is a link rather than a real folder; refusing to use it"@,
{
    let mut out = dir.to_owned();
    out.append(" is a link rather than a real folder; refusing to use it");
    out
}

/// The steps that set the permissions of the shared folder: what each is for, and the arguments of
/// its `icacls` call. The owner comes first, who could undo the rest; then everything goes that was
/// granted before; then the system and administrators get everything, and users reading alone.
pub open spec fn acl_steps_list() -> Seq<(Seq<char>, Seq<Seq<char>>)> {
    seq![
        ("take ownership"@, seq!["/setowner"@, "*S-1-5-32-544"@, "/T"@, "/C"@]),
        ("drop planted ACEs"@, seq!["/reset"@, "/T"@, "/C"@]),
        (
            "apply our DACL"@,
            seq![
                "/inheritance:r"@,
                "/grant:r"@,
                "*S-1-5-18:(OI)(CI)F"@,
                "/grant:r"@,
                "*S-1-5-32-544:(OI)(CI)F"@,
                "/grant:r"@,
                "*S-1-5-32-545:(OI)(CI)RX"@,
            ],
        ),
    ]
}

/// One step that sets permissions.
#[derive(Debug)]
pub struct AclStep {
    pub what: String,
    pub args: Vec<String>,
}

impl View for AclStep {
    type V = (Seq<char>, Seq<Seq<char>>);

    open spec fn view(&self) -> (Seq<char>, Seq<Seq<char>>) {
        (self.what@, texts(self.args@))
    }
}

/// The steps as texts.
pub open spec fn acl_views(v: Seq<AclStep>) -> Seq<(Seq<char>, Seq<Seq<char>>)> {
    Seq::new(v.len(), |i: int| v[i]@)
}

/// The steps that set the permissions of the shared folder.
pub fn acl_steps() -> (r: Vec<AclStep>)
    ensures
        acl_views(r@) == acl_steps_list(),
{
    broadcast use texts_push;

    let mut owner: Vec<String> = Vec::new();
    owner.push("/setowner".to_owned());
    owner.push("*S-1-5-32-544".to_owned());
    owner.push("/T".to_owned());
    owner.push("/C".to_owned());
    let mut reset: Vec<String> = Vec::new();
    reset.push("/reset".to_owned());
    reset.push("/T".to_owned());
    reset.push("/C".to_owned());
    let mut grant: Vec<String> = Vec::new();
    grant.push("/inheritance:r".to_owned());
    grant.push("/grant:r".to_owned());
    grant.push("*S-1-5-18:(OI)(CI)F".to_owned());
    grant.push("/grant:r".to_owned());
    grant.push("*S-1-5-32-544:(OI)(CI)F".to_owned());
    grant.push("/grant:r".to_owned());
    grant.push("*S-1-5-32-545:(OI)(CI)RX".to_owned());
    proof {
        let want = acl_steps_list();
        assert(texts(owner@) =~= want[0].1);
        assert(texts(reset@) =~= want[1].1);
        assert(texts(grant@) =~= want[2].1);
    }
    let mut v: Vec<AclStep> = Vec::new();
    v.push(AclStep { what: "take ownership".to_owned(), args: owner });
    v.push(AclStep { what: "drop planted ACEs".to_owned(), args: reset });
    v.push(AclStep { what: "apply our DACL".to_owned(), args: grant });
    assert(acl_views(v@) =~= acl_steps_list());
    v
}

/// How far the folder has been prepared.
#[derive(Clone, Copy, Debug, PartialEq, Eq, Structural)]
pub enum PreparePhase {
    /// The folder is to be made.
    Create,
    /// The next of its permissions are to be set.
    Harden,
    Over,
}

/// The preparation of the folder for use.
#[derive(Debug)]
pub struct Preparing {
    pub phase: PreparePhase,
    pub dir: String,
    /// Whether its permissions are set.
    pub harden: bool,
    pub steps: Vec<AclStep>,
    /// How many of the steps have been taken.
    pub taken: usize,
    pub error: Option<String>,
}

/// What is said of a step that was taken and failed.
pub open spec fn acl_warning(what: Seq<char>, dir: Seq<char>, said: Seq<char>) -> Seq<char> {
    "icacls could not "@ + what + " on "@ + dir + " "@ + said
}

impl Preparing {
    /// What holds at every step. Where the permissions are set, all of the steps have been taken by
    /// the time the folder is used.
    pub open spec fn wf(&self) -> bool {
        &&& acl_views(self.steps@) == acl_steps_list()
        &&& self.taken <= self.steps@.len()
        &&& match self.phase {
            PreparePhase::Create => self.taken == 0 && self.error is None,
            PreparePhase::Harden => self.harden && self.taken < self.steps@.len()
                && self.error is None,
            PreparePhase::Over => self.error is None ==> self.taken == (if self.harden {
                self.steps@.len()
            } else {
                0
            }),
        }
    }

    /// The step after the folder is there.
    pub open spec fn once_there(harden: bool) -> PreparePhase {
        if harden {
            PreparePhase::Harden
        } else {
            PreparePhase::Over
        }
    }

    /// Starts the preparation. A link in place of the shared folder is refused.
    pub fn begin(dir: &str, portable: bool, link: bool, exists: bool) -> (r: Preparing)
        ensures
            r.wf(),
            r.dir@ == dir@,
            r.harden == !portable,
            r.taken == 0,
            if !portable && link {
                &&& r.phase == PreparePhase::Over
                &&& r.error is Some
                &&& r.error->0@ == dir@ + " is a link rather than a real folder; refusing to use it"@
            } else {
                &&& r.error is None
                &&& r.phase == (if exists {
                    Preparing::once_there(!portable)
                } else {
                    PreparePhase::Create
                })
            },
    {
        let steps: Vec<AclStep> = acl_steps();
        assert(acl_views(steps@).len() == steps@.len());
        let harden: bool = !portable;
        let (phase, error): (PreparePhase, Option<String>) = match prepare_dir(
            portable,
            link,
            exists,
        ) {
            DirPlan::Refuse => (PreparePhase::Over, Some(link_refused(dir))),
            DirPlan::Use { create, harden } => if create {
                (PreparePhase::Create, None)
            } else if harden {
                (PreparePhase::Harden, None)
            } else {
                (PreparePhase::Over, None)
            },
        };
        Preparing { phase, dir: dir.to_owned(), harden, steps, taken: 0, error }
    }

    /// The folder was made, or could not be.
    pub fn created(&mut self, result: Result<(), String>)
        requires
            old(self).wf(),
            old(self).phase == PreparePhase::Create,
        ensures
            final(self).wf(),
            *final(self) == (Preparing {
                phase: final(self).phase,
                error: final(self).error,
                ..*old(self)
            }),
            match result {
                Ok(_) => final(self).phase == Preparing::once_there(old(self).harden)
                    && final(self).error is None,
                Err(e) => final(self).phase == PreparePhase::Over && final(self).error is Some
                    && final(self).error->0@ == because("cannot create "@ + old(self).dir@, e@),
            },
    {
        assert(acl_views(self.steps@).len() == self.steps@.len());
        match result {
            Ok(_) => {
                self.phase = if self.harden {
                    PreparePhase::Harden
                } else {
                    PreparePhase::Over
                };
            },
            Err(e) => {
                let what = two("cannot create ", self.dir.as_str());
                self.error = Some(caused(what.as_str(), e.as_str()));
                self.phase = PreparePhase::Over;
            },
        }
    }

    /// The step that is to be taken.
    pub fn step(&self) -> (r: &AclStep)
        requires
            self.wf(),
            self.phase == PreparePhase::Harden,
        ensures
            r@ == acl_steps_list()[self.taken as int],
    {
        assert(acl_views(self.steps@)[self.taken as int] == self.steps@[self.taken as int]@);
        &self.steps[self.taken]
    }

    /// The step was taken, and succeeded or not, with this to say; or it could not be taken at all. One
    /// that failed is warned of, and the next is taken. One that could not be taken ends it.
    pub fn hardened(&mut self, result: Result<(bool, String), String>) -> (r: Option<String>)
        requires
            old(self).wf(),
            old(self).phase == PreparePhase::Harden,
        ensures
            final(self).wf(),
            *final(self) == (Preparing {
                phase: final(self).phase,
                taken: final(self).taken,
                error: final(self).error,
                ..*old(self)
            }),
            match result {
                Ok((ok, said)) => {
                    &&& final(self).taken == old(self).taken + 1
                    &&& final(self).error is None
                    &&& final(self).phase == (if old(self).taken + 1 < acl_steps_list().len() {
                        PreparePhase::Harden
                    } else {
                        PreparePhase::Over
                    })
                    &&& r is Some == !ok
                    &&& !ok ==> r->0@ == acl_warning(
                        acl_steps_list()[old(self).taken as int].0,
                        old(self).dir@,
                        said@,
                    )
                },
                Err(e) => {
                    &&& final(self).taken == old(self).taken
                    &&& final(self).phase == PreparePhase::Over
                    &&& final(self).error is Some
                    &&& final(self).error->0@ == because("cannot run icacls"@, e@)
                    &&& r is None
                },
            },
    {
        assert(acl_views(self.steps@).len() == self.steps@.len());
        match result {
            Ok((ok, said)) => {
                let mut warning: Option<String> = None;
                if !ok {
                    let mut out = "icacls could not ".to_owned();
                    out.append(self.step().what.as_str());
                    out.append(" on ");
                    out.append(self.dir.as_str());
                    out.append(" ");
                    out.append(said.as_str());
                    warning = Some(out);
                }
                assert(self.taken < self.steps.len());
                self.taken = self.taken + 1;
                if self.taken == self.steps.len() {
                    self.phase = PreparePhase::Over;
                }
                warning
            },
            Err(e) => {
                self.error = Some(caused("cannot run icacls", e.as_str()));
                self.phase = PreparePhase::Over;
                None
            },
        }
    }

    /// Whether the folder can be used, or why it cannot.
    pub fn outcome(self) -> (r: Result<(), String>)
        requires
            self.wf(),
            self.phase == PreparePhase::Over,
        ensures
            match self.error {
                None => r is Ok,
                Some(e) => r == Err::<(), String>(e),
            },
    {
        match self.error {
            Some(e) => Err(e),
            None => Ok(()),
        }
    }
}

/// The shared folder is not used before every one of its permissions has had its turn, and one beside
/// the executable keeps those that it has.
pub proof fn law_the_shared_folder_is_hardened_first(p: Preparing)
    requires
        p.wf(),
        p.phase == PreparePhase::Over,
        p.error is None,
    ensures
        p.harden ==> p.taken == acl_steps_list().len(),
        !p.harden ==> p.taken == 0,
{
    assert(acl_views(p.steps@).len() == p.steps@.len());
}

/// A name behind a folder: the folder's text, the name's text, and between them a backslash unless the
/// folder has a separator at its end, is a bare drive or is empty.
pub proof fn law_names_behind_folders(dir: Seq<char>, name: Seq<char>, drive: char)
    ensures
        dir.len() > 2 && dir.last() != '\\' && dir.last() != '/' ==> joined_path(dir, name) == dir
            + seq!['\\'] + name,
        joined_path(dir.push('\\'), name) == dir.push('\\') + name,
        joined_path(dir.push('/'), name) == dir.push('/') + name,
        joined_path(Seq::empty(), name) == name,
        'a' <= drive && drive <= 'z' || 'A' <= drive && drive <= 'Z' ==> joined_path(
            seq![drive, ':'],
            name,
        ) == seq![drive, ':'] + name,
        dir.is_prefix_of(joined_path(dir, name)),
        name.is_suffix_of(joined_path(dir, name)),
{
    let r = joined_path(dir, name);
    assert(joined_path(Seq::empty(), name) =~= name);
    if dir.len() > 2 && dir.last() != '\\' && dir.last() != '/' {
        assert(r =~= dir + seq!['\\'] + name);
    }
    assert(r.subrange(0, dir.len() as int) =~= dir);
    assert(r.subrange(r.len() - name.len(), r.len() as int) =~= name);
}

/// A folder is below one of several where the text of that one, in small letters, is a beginning of its
/// own.
pub proof fn law_below_a_folder(dir: Seq<char>, bases: Seq<Seq<char>>, i: int)
    ensures
        0 <= i < bases.len() && lowered(bases[i]).is_prefix_of(lowered(dir)) ==> below_one_of(
            dir,
            bases,
        ),
        (forall|k: int|
            0 <= k < bases.len() ==> !(#[trigger] lowered(bases[k])).is_prefix_of(lowered(dir)))
            ==> !below_one_of(dir, bases),
{
}

/// The folder of a machine is named like it, with an underscore for every character besides letters,
/// digits, hyphens and underscores; a machine without a name has one of its own.
pub proof fn law_folders_of_machines(name: Seq<char>, i: int)
    ensures
        name.len() == 0 ==> folder_name(name) == "this-pc"@,
        name.len() > 0 ==> folder_name(name).len() == name.len(),
        0 <= i < name.len() && (letter_or_digit(name[i]) || name[i] == '-' || name[i] == '_')
            ==> folder_name(name)[i] == name[i],
        0 <= i < name.len() && !letter_or_digit(name[i]) && name[i] != '-' ==> folder_name(name)[i]
            == '_',
{
}

/// A program that is not installed keeps its settings beside itself, in a folder for each machine; an
/// installed one does not.
pub proof fn law_where_a_portable_program_keeps(exe_dir: Seq<char>, machine: Seq<char>)
    ensures
        portable_path(exe_dir, true, machine) is None,
        portable_path(exe_dir, false, machine) == Some(
            joined_path(joined_path(exe_dir, "config"@), machine),
        ),
{
}

/// The rights on the shared folder, in this order: administrators own it, what others left on it is
/// dropped, and then the system and administrators may do everything with it, users may read it, and
/// nobody else anything.
pub proof fn law_rights_on_the_shared_folder()
    ensures
        acl_steps_list().len() == 3,
        acl_steps_list()[0].1 == seq!["/setowner"@, "*S-1-5-32-544"@, "/T"@, "/C"@],
        acl_steps_list()[1].1 == seq!["/reset"@, "/T"@, "/C"@],
        acl_steps_list()[2].1.len() == 7,
        acl_steps_list()[2].1[0] == "/inheritance:r"@,
        acl_steps_list()[2].1[1] == "/grant:r"@,
        acl_steps_list()[2].1[2] == "*S-1-5-18:(OI)(CI)F"@,
        acl_steps_list()[2].1[3] == "/grant:r"@,
        acl_steps_list()[2].1[4] == "*S-1-5-32-544:(OI)(CI)F"@,
        acl_steps_list()[2].1[5] == "/grant:r"@,
        acl_steps_list()[2].1[6] == "*S-1-5-32-545:(OI)(CI)RX"@,
{
}

/// What a warning about the rights says: which step failed, on which folder, and what was said.
pub proof fn law_warnings_about_rights(what: Seq<char>, dir: Seq<char>, said: Seq<char>)
    ensures
        acl_warning(what, dir, said) == "icacls could not "@ + what + " on "@ + dir + " "@ + said,
        acl_steps_list()[0].0 == "take ownership"@,
        acl_steps_list()[1].0 == "drop planted ACEs"@,
        acl_steps_list()[2].0 == "apply our DACL"@,
{
}

} // verus!
