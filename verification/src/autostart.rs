//! The start of the tray at logon.

use vstd::prelude::*;

use crate::text::same_text;

verus! {

/// What the Run key holds for a program: its path in quotes, and the switch that keeps the logon
/// quiet.
pub open spec fn run_value(exe: Seq<char>) -> Seq<char> {
    "\""@ + exe + "\" --tray"@
}

/// What the Run key holds for a program.
pub fn value(exe: &str) -> (r: String)
    ensures
        r@ == run_value(exe@),
{
    let mut out = "\"".to_owned();
    out.append(exe);
    out.append("\" --tray");
    out
}

/// The program that the Run key names: the installed copy where there is one, and otherwise the one
/// that runs.
pub fn target_exe(installed: String, installed_exists: bool, running: Option<String>) -> (r: Result<
    String,
    String,
>)
    ensures
        match r {
            Ok(exe) => exe == (if installed_exists {
                installed
            } else {
                running->0
            }) && (installed_exists || running is Some),
            Err(e) => !installed_exists && running is None && e@
                == "cannot determine our own path"@,
        },
{
    if installed_exists {
        return Ok(installed);
    }
    match running {
        Some(exe) => Ok(exe),
        None => Err("cannot determine our own path".to_owned()),
    }
}

/// What is to be done with the Run key.
#[derive(Debug)]
pub enum RunKey {
    Keep,
    Write(String),
    Remove,
}

/// What the Run key holds after `done` was done to it.
pub open spec fn key_after(current: Option<Seq<char>>, done: RunKey) -> Option<Seq<char>> {
    match done {
        RunKey::Keep => current,
        RunKey::Write(v) => Some(v@),
        RunKey::Remove => None,
    }
}

/// Makes the Run key agree with the setting, and does nothing where it already does. A key that
/// names another program is written anew.
pub fn reconcile(enabled: bool, current: Option<&str>, exe: &str) -> (r: RunKey)
    ensures
        match r {
            RunKey::Keep => if enabled {
                current is Some && current->0@ == run_value(exe@)
            } else {
                current is None
            },
            RunKey::Write(v) => enabled && v@ == run_value(exe@) && !(current is Some
                && current->0@ == run_value(exe@)),
            RunKey::Remove => !enabled && current is Some,
        },
        key_after(
            match current {
                Some(c) => Some(c@),
                None => None,
            },
            r,
        ) == (if enabled {
            Some(run_value(exe@))
        } else {
            None
        }),
{
    if enabled {
        let want = value(exe);
        if let Some(have) = current {
            if same_text(have, want.as_str()) {
                return RunKey::Keep;
            }
        }
        return RunKey::Write(want);
    }
    match current {
        Some(_) => RunKey::Remove,
        None => RunKey::Keep,
    }
}

/// What starts the window with the machine: the program's path in quotation marks, and the word that
/// keeps the window closed.
pub proof fn law_the_window_starts_closed(exe: Seq<char>)
    ensures
        run_value(exe) == seq!['"'] + exe + seq!['"'] + " --tray"@,
{
    reveal_strlit("\"");
    reveal_strlit("\" --tray");
    reveal_strlit(" --tray");
    assert(run_value(exe) =~= seq!['"'] + exe + seq!['"'] + " --tray"@);
}

} // verus!
