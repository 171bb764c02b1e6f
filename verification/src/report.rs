//! What a run with administrator rights leaves behind for the window that asked for it.
//!
//! The window knows its own report by a value that it made up and handed over: any other report is
//! as good as none.

use vstd::prelude::*;

use crate::netif::copy_texts;
use crate::text::{push_hexadecimal, same_text};
#[allow(unused_imports)]
use crate::iptext::number;
#[allow(unused_imports)]
use crate::text::hexadecimal;

verus! {

/// What came of an action.
#[derive(Debug)]
pub struct ActionReport {
    pub nonce: String,
    pub verb: String,
    pub ok: bool,
    /// What the action has to say.
    pub lines: Vec<String>,
    /// Why it failed, if it did.
    pub error: Option<String>,
}

impl ActionReport {
    /// The report on an outcome.
    pub fn from_outcome(verb: &str, nonce: &str, outcome: &Result<Vec<String>, String>) -> (r:
        ActionReport)
        ensures
            r.nonce@ == nonce@,
            r.verb@ == verb@,
            r.ok == (outcome is Ok),
            match outcome {
                Ok(lines) => r.lines@ == lines@ && r.error is None,
                Err(e) => r.lines@.len() == 0 && r.error is Some && r.error->0@ == e@,
            },
    {
        match outcome {
            Ok(lines) => ActionReport {
                nonce: nonce.to_owned(),
                verb: verb.to_owned(),
                ok: true,
                lines: copy_texts(lines),
                error: None,
            },
            Err(e) => ActionReport {
                nonce: nonce.to_owned(),
                verb: verb.to_owned(),
                ok: false,
                lines: Vec::new(),
                error: Some(e.clone()),
            },
        }
    }

    /// The report, if it is the answer to the question with this nonce.
    pub fn answering(self, nonce: &str) -> (r: Option<ActionReport>)
        ensures
            r == (if self.nonce@ == nonce@ {
                Some(self)
            } else {
                None
            }),
    {
        if same_text(self.nonce.as_str(), nonce) {
            Some(self)
        } else {
            None
        }
    }
}

/// A value that differs between two questions: the process and the time, in hexadecimal.
pub open spec fn nonce_of(process: u32, nanos: u128) -> Seq<char> {
    hexadecimal(process as nat).push('-') + hexadecimal(nanos as nat)
}

/// A value that differs between two questions.
pub fn new_nonce(process: u32, nanos: u128) -> (r: String)
    ensures
        r@ == nonce_of(process, nanos),
{
    let mut out = String::new();
    push_hexadecimal(&mut out, process as u128);
    out.push('-');
    push_hexadecimal(&mut out, nanos);
    assert(out@ =~= nonce_of(process, nanos));
    out
}

proof fn lemma_hexadecimal_value(n: nat)
    ensures
        number(hexadecimal(n), 16) == Some(n as int),
        forall|i: int| 0 <= i < hexadecimal(n).len() ==> #[trigger] hexadecimal(n)[i] != '-',
    decreases n,
{
    let s = hexadecimal(n);
    if n < 16 {
        assert(s.drop_last() =~= Seq::<char>::empty());
        assert(number(s.drop_last(), 16) == Some(0int));
    } else {
        lemma_hexadecimal_value(n / 16);
        assert(s.drop_last() =~= hexadecimal(n / 16));
        assert forall|i: int| 0 <= i < s.len() implies #[trigger] s[i] != '-' by {
            if i < s.len() - 1 {
                assert(s[i] == hexadecimal(n / 16)[i]);
            }
        }
    }
}

/// Two questions have the same nonce only if the same process asked them at the same time.
pub proof fn law_nonces_differ(process1: u32, nanos1: u128, process2: u32, nanos2: u128)
    requires
        nonce_of(process1, nanos1) == nonce_of(process2, nanos2),
    ensures
        process1 == process2,
        nanos1 == nanos2,
{
    let (a, b) = (hexadecimal(process1 as nat), hexadecimal(nanos1 as nat));
    let (c, d) = (hexadecimal(process2 as nat), hexadecimal(nanos2 as nat));
    lemma_hexadecimal_value(process1 as nat);
    lemma_hexadecimal_value(nanos1 as nat);
    lemma_hexadecimal_value(process2 as nat);
    lemma_hexadecimal_value(nanos2 as nat);
    let s = a.push('-') + b;
    let t = c.push('-') + d;
    assert(s == t);
    assert(s[a.len() as int] == '-' && t[c.len() as int] == '-');
    if a.len() < c.len() {
        assert(t[a.len() as int] == c[a.len() as int]);
    }
    if c.len() < a.len() {
        assert(s[c.len() as int] == a[c.len() as int]);
    }
    assert(a =~= s.take(a.len() as int));
    assert(c =~= t.take(c.len() as int));
    assert(b =~= s.skip(a.len() + 1int));
    assert(d =~= t.skip(c.len() + 1int));
}

} // verus!
