//! Just enough of the DNS wire format: one query to send, and what an answer says.

use vstd::prelude::*;
use vstd::slice::slice_subrange;
#[allow(unused_imports)]
use vstd::utf8::{encode_utf8, encode_utf8_decode_utf8, encode_utf8_valid_utf8};

use crate::addr::{IpAddr, Ipv4Addr, Ipv6Addr};
use crate::text::{
    join, pad, push_decimal, push_hexadecimal, same_ignoring_case, split, text_in,
};
#[allow(unused_imports)]
use crate::text::{
    alike, decimal, hexadecimal, joined, padded, pieces, read_as, texts, texts_push,
};

verus! {

pub const TYPE_A: u16 = 1;

pub const TYPE_AAAA: u16 = 28;

pub const TYPE_CNAME: u16 = 5;

pub const TYPE_TXT: u16 = 16;

/// The record type of a name that the diagnostic commands know.
pub open spec fn qtype(s: Seq<char>) -> Option<u16> {
    if alike(s, "A"@) {
        Some(TYPE_A)
    } else if alike(s, "AAAA"@) {
        Some(TYPE_AAAA)
    } else if alike(s, "CNAME"@) {
        Some(TYPE_CNAME)
    } else if alike(s, "TXT"@) {
        Some(TYPE_TXT)
    } else {
        None
    }
}

/// Reads a record type; the case of the letters does not matter.
pub fn qtype_from_str(s: &str) -> (r: Option<u16>)
    ensures
        r == qtype(s@),
{
    if same_ignoring_case(s, "A") {
        Some(TYPE_A)
    } else if same_ignoring_case(s, "AAAA") {
        Some(TYPE_AAAA)
    } else if same_ignoring_case(s, "CNAME") {
        Some(TYPE_CNAME)
    } else if same_ignoring_case(s, "TXT") {
        Some(TYPE_TXT)
    } else {
        None
    }
}

/// The mnemonic of a response code.
pub open spec fn rcode_text(rcode: u8) -> Seq<char> {
    if rcode == 0 {
        "NOERROR"@
    } else if rcode == 1 {
        "FORMERR"@
    } else if rcode == 2 {
        "SERVFAIL"@
    } else if rcode == 3 {
        "NXDOMAIN"@
    } else if rcode == 4 {
        "NOTIMP"@
    } else if rcode == 5 {
        "REFUSED"@
    } else {
        "?"@
    }
}

/// The mnemonic of a response code.
pub fn rcode_name(rcode: u8) -> (r: &'static str)
    ensures
        r@ == rcode_text(rcode),
{
    match rcode {
        0 => "NOERROR",
        1 => "FORMERR",
        2 => "SERVFAIL",
        3 => "NXDOMAIN",
        4 => "NOTIMP",
        5 => "REFUSED",
        _ => "?",
    }
}

/// Why a message cannot be read.
#[derive(Clone, Copy, Debug, PartialEq, Eq, Structural)]
pub enum MessageError {
    /// Shorter than a header; the length is the message's.
    Short(usize),
    /// A name runs past the end.
    NameOutside,
    /// A label runs past the end.
    LabelOutside,
    /// Half of a compression pointer is missing.
    PointerCut,
    /// More compression pointers than a name can need.
    PointerLoop,
    /// The fixed part of a record runs past the end.
    RecordHeaderCut,
    /// The data of a record runs past the end.
    RecordDataCut,
}

impl MessageError {
    /// What the error says to a person.
    pub open spec fn says(self) -> Seq<char> {
        match self {
            MessageError::Short(n) => "ответ короче заголовка ("@ + decimal(n as nat) + " байт)"@,
            MessageError::NameOutside => "имя выходит за границы сообщения"@,
            MessageError::LabelOutside => "метка выходит за границы"@,
            MessageError::PointerCut => "оборванный указатель"@,
            MessageError::PointerLoop => "цикл указателей сжатия"@,
            MessageError::RecordHeaderCut => "ответ обрывается в заголовке записи"@,
            MessageError::RecordDataCut => "ответ обрывается в данных записи"@,
        }
    }

    /// The error in words.
    pub fn message(&self) -> (r: String)
        ensures
            r@ == self.says(),
    {
        match self {
            MessageError::Short(n) => {
                let mut out = "ответ короче заголовка (".to_owned();
                push_decimal(&mut out, *n as u64);
                out.append(" байт)");
                out
            },
            MessageError::NameOutside => "имя выходит за границы сообщения".to_owned(),
            MessageError::LabelOutside => "метка выходит за границы".to_owned(),
            MessageError::PointerCut => "оборванный указатель".to_owned(),
            MessageError::PointerLoop => "цикл указателей сжатия".to_owned(),
            MessageError::RecordHeaderCut => "ответ обрывается в заголовке записи".to_owned(),
            MessageError::RecordDataCut => "ответ обрывается в данных записи".to_owned(),
        }
    }
}

/// A sixteen-bit number, high byte first.
pub open spec fn be16(m: Seq<u8>, i: int) -> int {
    m[i] * 256 + m[i + 1]
}

/// A thirty-two-bit number, high byte first.
pub open spec fn be32(m: Seq<u8>, i: int) -> int {
    be16(m, i) * 65536 + be16(m, i + 2)
}

fn read16(m: &[u8], i: usize) -> (r: u16)
    requires
        i + 1 < m@.len(),
    ensures
        r == be16(m@, i as int),
{
    m[i] as u16 * 256 + m[i + 1] as u16
}

fn read32(m: &[u8], i: usize) -> (r: u32)
    requires
        i + 3 < m@.len(),
    ensures
        r == be32(m@, i as int),
{
    assert(i + 3 < m.len());
    read16(m, i) as u32 * 65536 + read16(m, i + 2) as u32
}

/// An offset, as far as a machine word can hold it: one beyond that is outside every message.
pub open spec fn within(o: int) -> Option<int> {
    if o <= usize::MAX {
        Some(o)
    } else {
        None
    }
}

/// The offset behind the name that starts at `i`. A compression pointer ends a name.
pub open spec fn name_end(m: Seq<u8>, i: int) -> Option<int>
    decreases (if i < m.len() { m.len() - i } else { 0 }),
{
    if i < 0 || i >= m.len() {
        None
    } else if m[i] == 0 {
        within(i + 1)
    } else if m[i] >= 0xC0 {
        within(i + 2)
    } else {
        name_end(m, i + 1 + m[i])
    }
}

/// Steps over the name that starts at `i`.
pub fn skip_name(msg: &[u8], i: usize) -> (r: Result<usize, MessageError>)
    ensures
        match r {
            Ok(e) => name_end(msg@, i as int) == Some(e as int),
            Err(e) => name_end(msg@, i as int) is None && e == MessageError::NameOutside,
        },
{
    let mut at: usize = i;
    loop
        invariant
            name_end(msg@, at as int) == name_end(msg@, i as int),
        decreases (if at < msg@.len() { msg@.len() - at } else { 0 }),
    {
        if at >= msg.len() {
            return Err(MessageError::NameOutside);
        }
        let len: usize = msg[at] as usize;
        if len == 0 {
            return Ok(at + 1);
        }
        let step: usize = if len >= 0xC0 { 2 } else { 1 + len };
        let next: usize = match at.checked_add(step) {
            Some(n) => n,
            None => {
                assert(len < 0xC0 ==> name_end(msg@, at + 1 + len) is None);
                return Err(MessageError::NameOutside);
            },
        };
        if len >= 0xC0 {
            return Ok(next);
        }
        at = next;
    }
}

/// The labels of the name at `i`, following at most `jumps` compression pointers.
pub open spec fn name_labels(m: Seq<u8>, i: int, jumps: nat) -> Result<Seq<Seq<u8>>, MessageError>
    decreases jumps, m.len() - i,
{
    if i < 0 || i >= m.len() {
        Err(MessageError::NameOutside)
    } else if m[i] == 0 {
        Ok(Seq::empty())
    } else if m[i] >= 0xC0 {
        if jumps == 0 {
            Err(MessageError::PointerLoop)
        } else if i + 1 >= m.len() {
            Err(MessageError::PointerCut)
        } else {
            name_labels(m, be16(m, i) - 0xC000, (jumps - 1) as nat)
        }
    } else if i + 1 + m[i] > m.len() {
        Err(MessageError::LabelOutside)
    } else {
        with_front(
            seq![m.subrange(i + 1, i + 1 + m[i])],
            name_labels(m, i + 1 + m[i], jumps),
        )
    }
}

/// What is in `front` and what comes behind it, if that could be read.
pub open spec fn with_front<T>(
    front: Seq<T>,
    rest: Result<Seq<T>, MessageError>,
) -> Result<Seq<T>, MessageError> {
    match rest {
        Ok(more) => Ok(front + more),
        Err(e) => Err(e),
    }
}

/// The compression pointers that a name may follow.
pub const MAX_JUMPS: usize = 16;

/// The byte strings that a list holds.
pub open spec fn byte_strings(v: Seq<Vec<u8>>) -> Seq<Seq<u8>> {
    Seq::new(v.len(), |i: int| v[i]@)
}

/// The labels of the name at `i`. The number of compression pointers is bounded, so a message that
/// points into itself ends in an error.
pub fn read_labels(msg: &[u8], i: usize) -> (r: Result<Vec<Vec<u8>>, MessageError>)
    ensures
        match r {
            Ok(labels) => name_labels(msg@, i as int, MAX_JUMPS as nat) == Ok::<
                Seq<Seq<u8>>,
                MessageError,
            >(byte_strings(labels@)),
            Err(e) => name_labels(msg@, i as int, MAX_JUMPS as nat) == Err::<
                Seq<Seq<u8>>,
                MessageError,
            >(e),
        },
{
    let mut at: usize = i;
    let mut jumps: usize = MAX_JUMPS;
    let mut out: Vec<Vec<u8>> = Vec::new();
    let ghost whole = name_labels(msg@, i as int, MAX_JUMPS as nat);
    proof {
        let rest = name_labels(msg@, at as int, jumps as nat);
        assert(byte_strings(out@) =~= Seq::<Seq<u8>>::empty());
        if rest is Ok {
            assert(byte_strings(out@) + rest->Ok_0 =~= rest->Ok_0);
        }
    }
    loop
        invariant
            jumps <= MAX_JUMPS,
            whole == name_labels(msg@, i as int, MAX_JUMPS as nat),
            whole == with_front(
                byte_strings(out@),
                name_labels(msg@, at as int, jumps as nat),
            ),
        decreases jumps, msg@.len() - at,
    {
        if at >= msg.len() {
            return Err(MessageError::NameOutside);
        }
        let len: usize = msg[at] as usize;
        if len == 0 {
            assert(byte_strings(out@) + Seq::<Seq<u8>>::empty() =~= byte_strings(out@));
            return Ok(out);
        }
        if len >= 0xC0 {
            if jumps == 0 {
                return Err(MessageError::PointerLoop);
            }
            if at + 1 >= msg.len() {
                return Err(MessageError::PointerCut);
            }
            jumps -= 1;
            at = (len - 0xC0) * 256 + msg[at + 1] as usize;
            continue;
        }
        if msg.len() - at - 1 < len {
            return Err(MessageError::LabelOutside);
        }
        let end: usize = at + 1 + len;
        let label: Vec<u8> = vstd::slice::slice_to_vec(slice_subrange(msg, at + 1, end));
        proof {
            let before = byte_strings(out@);
            let rest = name_labels(msg@, end as int, jumps as nat);
            assert(byte_strings(out@.push(label)) =~= before + seq![label@]);
            if rest is Ok {
                assert(before + (seq![label@] + rest->Ok_0) =~= (before + seq![label@])
                    + rest->Ok_0);
            }
        }
        out.push(label);
        at = end;
    }
}

/// What each byte string reads as.
pub open spec fn readings(v: Seq<Seq<u8>>) -> Seq<Seq<char>> {
    Seq::new(v.len(), |i: int| read_as(v[i]))
}

fn read_each(v: &Vec<Vec<u8>>) -> (r: Vec<String>)
    ensures
        texts(r@) == readings(byte_strings(v@)),
{
    broadcast use texts_push;

    let mut out: Vec<String> = Vec::new();
    let mut i: usize = 0;
    while i < v.len()
        invariant
            i <= v@.len(),
            texts(out@) == readings(byte_strings(v@)).take(i as int),
        decreases v@.len() - i,
    {
        out.push(text_in(v[i].as_slice()));
        i += 1;
        assert(readings(byte_strings(v@)).take(i as int) =~= readings(byte_strings(v@)).take(i - 1).push(
            readings(byte_strings(v@))[i - 1],
        ));
    }
    assert(readings(byte_strings(v@)).take(i as int) =~= readings(byte_strings(v@)));
    out
}

/// Labels as a dotted name: a dot before every label that something stands in front of.
pub open spec fn dotted_name(labels: Seq<Seq<char>>) -> Seq<char>
    decreases labels.len(),
{
    if labels.len() == 0 {
        Seq::empty()
    } else {
        let before = dotted_name(labels.drop_last());
        if before.len() == 0 {
            labels.last()
        } else {
            before.push('.') + labels.last()
        }
    }
}

/// Writes labels as a dotted name.
pub fn dotted(labels: &Vec<String>) -> (r: String)
    ensures
        r@ == dotted_name(texts(labels@)),
{
    let mut out = String::new();
    let mut i: usize = 0;
    while i < labels.len()
        invariant
            i <= labels@.len(),
            out@ == dotted_name(texts(labels@).take(i as int)),
        decreases labels@.len() - i,
    {
        if !out.as_str().is_empty() {
            out.push('.');
        }
        out.append(labels[i].as_str());
        i += 1;
        proof {
            let t = texts(labels@).take(i as int);
            assert(t.drop_last() =~= texts(labels@).take(i - 1));
            assert(Seq::<char>::empty() + labels@[i - 1]@ =~= labels@[i - 1]@);
        }
    }
    assert(texts(labels@).take(i as int) =~= texts(labels@));
    out
}

/// The name at `i`, in dotted form.
pub open spec fn name_at(m: Seq<u8>, i: int) -> Result<Seq<char>, MessageError> {
    match name_labels(m, i, MAX_JUMPS as nat) {
        Ok(labels) => Ok(dotted_name(readings(labels))),
        Err(e) => Err(e),
    }
}

/// Reads the name at `i`.
pub fn read_name(msg: &[u8], i: usize) -> (r: Result<String, MessageError>)
    ensures
        match r {
            Ok(name) => name_at(msg@, i as int) == Ok::<Seq<char>, MessageError>(name@),
            Err(e) => name_at(msg@, i as int) == Err::<Seq<char>, MessageError>(e),
        },
{
    match read_labels(msg, i) {
        Ok(labels) => Ok(dotted(&read_each(&labels))),
        Err(e) => Err(e),
    }
}

/// One answer record: its type, its lifetime, and where in the message its data stands.
#[derive(Clone, Copy, Debug, PartialEq, Eq, Structural)]
pub struct Record {
    pub rtype: u16,
    pub ttl: u32,
    pub at: usize,
    pub len: usize,
}

/// The offset behind the `n` questions that start at `i`.
pub open spec fn questions_end(m: Seq<u8>, i: int, n: nat) -> Option<int>
    decreases n,
{
    if n == 0 {
        Some(i)
    } else {
        match name_end(m, i) {
            None => None,
            Some(e) => if e + 4 <= usize::MAX {
                questions_end(m, e + 4, (n - 1) as nat)
            } else {
                None
            },
        }
    }
}

/// The `n` records that start at `i`.
pub open spec fn records_at(m: Seq<u8>, i: int, n: nat) -> Result<Seq<Record>, MessageError>
    decreases n,
{
    if n == 0 {
        Ok(Seq::empty())
    } else {
        match name_end(m, i) {
            None => Err(MessageError::NameOutside),
            Some(e) => if e + 10 > m.len() {
                Err(MessageError::RecordHeaderCut)
            } else if e + 10 + be16(m, e + 8) > m.len() {
                Err(MessageError::RecordDataCut)
            } else {
                with_front(seq![record_at(m, e)], records_at(
                    m,
                    e + 10 + be16(m, e + 8),
                    (n - 1) as nat,
                ))
            },
        }
    }
}

/// The record whose fixed part stands at `e`.
pub open spec fn record_at(m: Seq<u8>, e: int) -> Record {
    Record {
        rtype: be16(m, e) as u16,
        ttl: be32(m, e + 4) as u32,
        at: (e + 10) as usize,
        len: be16(m, e + 8) as usize,
    }
}

/// The answer section of a message.
pub open spec fn answer_section(m: Seq<u8>) -> Result<Seq<Record>, MessageError> {
    if m.len() < 12 {
        Err(MessageError::Short(m.len() as usize))
    } else {
        match questions_end(m, 12, be16(m, 4) as nat) {
            None => Err(MessageError::NameOutside),
            Some(i) => records_at(m, i, be16(m, 6) as nat),
        }
    }
}

fn skip_questions(msg: &[u8], n: u16) -> (r: Result<usize, MessageError>)
    ensures
        match r {
            Ok(e) => questions_end(msg@, 12, n as nat) == Some(e as int),
            Err(e) => questions_end(msg@, 12, n as nat) is None && e == MessageError::NameOutside,
        },
{
    let mut i: usize = 12;
    let mut left: u16 = n;
    while left > 0
        invariant
            questions_end(msg@, i as int, left as nat) == questions_end(msg@, 12, n as nat),
        decreases left,
    {
        let e: usize = match skip_name(msg, i) {
            Ok(e) => e,
            Err(e) => return Err(e),
        };
        i = match e.checked_add(4) {
            Some(next) => next,
            None => return Err(MessageError::NameOutside),
        };
        left -= 1;
    }
    Ok(i)
}

/// The records of a message's answer section, in order.
pub fn answers(msg: &[u8]) -> (r: Result<Vec<Record>, MessageError>)
    ensures
        match r {
            Ok(v) => answer_section(msg@) == Ok::<Seq<Record>, MessageError>(v@),
            Err(e) => answer_section(msg@) == Err::<Seq<Record>, MessageError>(e),
        },
        r is Ok ==> forall|k: int|
            0 <= k < r->Ok_0@.len() ==> (#[trigger] r->Ok_0@[k]).at + r->Ok_0@[k].len
                <= msg@.len(),
{
    if msg.len() < 12 {
        return Err(MessageError::Short(msg.len()));
    }
    let start: usize = match skip_questions(msg, read16(msg, 4)) {
        Ok(i) => i,
        Err(e) => return Err(e),
    };
    let mut i: usize = start;
    let mut left: u16 = read16(msg, 6);
    let mut out: Vec<Record> = Vec::new();
    let ghost whole = answer_section(msg@);
    proof {
        let rest = records_at(msg@, i as int, left as nat);
        if rest is Ok {
            assert(out@ + rest->Ok_0 =~= rest->Ok_0);
        }
    }
    while left > 0
        invariant
            whole == answer_section(msg@),
            whole == with_front(out@, records_at(msg@, i as int, left as nat)),
            forall|k: int|
                0 <= k < out@.len() ==> (#[trigger] out@[k]).at + out@[k].len <= msg@.len(),
        decreases left,
    {
        let e: usize = match skip_name(msg, i) {
            Ok(e) => e,
            Err(e) => return Err(e),
        };
        if e > msg.len() || msg.len() - e < 10 {
            return Err(MessageError::RecordHeaderCut);
        }
        let len: usize = read16(msg, e + 8) as usize;
        if msg.len() - e - 10 < len {
            return Err(MessageError::RecordDataCut);
        }
        let record = Record { rtype: read16(msg, e), ttl: read32(msg, e + 4), at: e + 10, len };
        let next: usize = e + 10 + len;
        proof {
            let rest = records_at(msg@, next as int, (left - 1) as nat);
            assert(record == record_at(msg@, e as int));
            assert(out@.push(record) =~= out@ + seq![record]);
            if rest is Ok {
                assert(out@ + (seq![record] + rest->Ok_0) =~= (out@ + seq![record])
                    + rest->Ok_0);
            }
        }
        out.push(record);
        i = next;
        left -= 1;
    }
    assert(out@ + Seq::<Record>::empty() =~= out@);
    Ok(out)
}

/// What a record type is called.
pub open spec fn type_text(t: u16) -> Seq<char> {
    if t == TYPE_A {
        "A"@
    } else if t == TYPE_AAAA {
        "AAAA"@
    } else if t == TYPE_CNAME {
        "CNAME"@
    } else if t == TYPE_TXT {
        "TXT"@
    } else {
        "прочее"@
    }
}

/// What a record type is called.
pub fn record_type_name(t: u16) -> (r: &'static str)
    ensures
        r@ == type_text(t),
{
    match t {
        TYPE_A => "A",
        TYPE_AAAA => "AAAA",
        TYPE_CNAME => "CNAME",
        TYPE_TXT => "TXT",
        _ => "прочее",
    }
}

/// The character strings in the data of a TXT record; one that is cut off ends the list.
pub open spec fn character_strings(d: Seq<u8>) -> Seq<Seq<u8>>
    decreases d.len(),
{
    if d.len() == 0 || 1 + d[0] > d.len() {
        Seq::empty()
    } else {
        seq![d.subrange(1, 1 + d[0])] + character_strings(d.skip(1 + d[0]))
    }
}

/// Cuts the data of a TXT record into its character strings.
pub fn read_character_strings(d: &[u8]) -> (r: Vec<Vec<u8>>)
    ensures
        byte_strings(r@) == character_strings(d@),
{
    let mut out: Vec<Vec<u8>> = Vec::new();
    let mut k: usize = 0;
    proof {
        assert(d@.skip(0) =~= d@);
        assert(byte_strings(out@) + character_strings(d@) =~= character_strings(d@));
    }
    while k < d.len()
        invariant
            k <= d@.len(),
            byte_strings(out@) + character_strings(d@.skip(k as int)) == character_strings(d@),
        decreases d@.len() - k,
    {
        let len: usize = d[k] as usize;
        if d.len() - k - 1 < len {
            assert(character_strings(d@.skip(k as int)) =~= Seq::<Seq<u8>>::empty());
            return out;
        }
        let end: usize = k + 1 + len;
        let part: Vec<u8> = vstd::slice::slice_to_vec(slice_subrange(d, k + 1, end));
        proof {
            let here = d@.skip(k as int);
            assert(here.subrange(1, 1 + here[0]) =~= d@.subrange(k + 1, end as int));
            assert(here.skip(1 + here[0]) =~= d@.skip(end as int));
            assert(byte_strings(out@.push(part)) =~= byte_strings(out@) + seq![part@]);
            assert(byte_strings(out@) + (seq![part@] + character_strings(d@.skip(end as int)))
                =~= (byte_strings(out@) + seq![part@]) + character_strings(
                d@.skip(end as int),
            ));
        }
        out.push(part);
        k = end;
    }
    assert(character_strings(d@.skip(k as int)) =~= Seq::<Seq<u8>>::empty());
    out
}

/// Texts in one pair of quotation marks.
pub open spec fn quotation(parts: Seq<Seq<char>>) -> Seq<char> {
    "\""@ + joined(parts, ""@) + "\""@
}

/// Puts texts in one pair of quotation marks.
pub fn quoted(parts: &Vec<String>) -> (r: String)
    ensures
        r@ == quotation(texts(parts@)),
{
    let mut out = "\"".to_owned();
    out.append(join(parts, "").as_str());
    out.append("\"");
    out
}

/// The eight groups at `at`, each in hexadecimal.
pub open spec fn group_texts(m: Seq<u8>, at: int) -> Seq<Seq<char>> {
    Seq::new(8, |k: int| hexadecimal(be16(m, at + 2 * k) as nat))
}

/// Four octets as a dotted quad.
pub open spec fn dotted_quad(a: u8, b: u8, c: u8, d: u8) -> Seq<char> {
    decimal(a as nat).push('.') + decimal(b as nat).push('.') + decimal(c as nat).push('.')
        + decimal(d as nat)
}

/// Four octets as a dotted quad.
pub fn quad_text(a: u8, b: u8, c: u8, d: u8) -> (r: String)
    ensures
        r@ == dotted_quad(a, b, c, d),
{
    let mut out = String::new();
    push_decimal(&mut out, a as u64);
    out.push('.');
    push_decimal(&mut out, b as u64);
    out.push('.');
    push_decimal(&mut out, c as u64);
    out.push('.');
    push_decimal(&mut out, d as u64);
    proof {
        let (x, y, z, w) = (
            decimal(a as nat),
            decimal(b as nat),
            decimal(c as nat),
            decimal(d as nat),
        );
        assert(out@ =~= dotted_quad(a, b, c, d));
    }
    out
}

/// The data of a record, for a person to read.
pub open spec fn data_text(m: Seq<u8>, r: Record) -> Seq<char> {
    let at = r.at as int;
    if r.rtype == TYPE_A && r.len == 4 {
        dotted_quad(m[at], m[at + 1], m[at + 2], m[at + 3])
    } else if r.rtype == TYPE_AAAA && r.len == 16 {
        joined(group_texts(m, at), ":"@)
    } else if r.rtype == TYPE_TXT {
        quotation(readings(character_strings(m.subrange(at, at + r.len))))
    } else if r.rtype == TYPE_CNAME {
        match name_at(m, at) {
            Ok(name) => name,
            Err(_) => "<нечитаемое имя>"@,
        }
    } else {
        decimal(r.len as nat) + " байт"@
    }
}

/// Describes the data of a record.
pub fn rdata_text(msg: &[u8], r: &Record) -> (out: String)
    requires
        r.at + r.len <= msg@.len(),
    ensures
        out@ == data_text(msg@, *r),
{
    assert(r.at + r.len <= msg.len());
    if r.rtype == TYPE_A && r.len == 4 {
        quad_text(msg[r.at], msg[r.at + 1], msg[r.at + 2], msg[r.at + 3])
    } else if r.rtype == TYPE_AAAA && r.len == 16 {
        let mut parts: Vec<String> = Vec::new();
        let mut k: usize = 0;
        while k < 8
            invariant
                k <= 8,
                r.len == 16,
                r.at + r.len <= msg@.len(),
                r.at + r.len <= usize::MAX,
                texts(parts@) == group_texts(msg@, r.at as int).take(k as int),
            decreases 8 - k,
        {
            broadcast use texts_push;

            let mut part = String::new();
            push_hexadecimal(&mut part, read16(msg, r.at + 2 * k) as u128);
            assert(part@ =~= hexadecimal(be16(msg@, r.at + 2 * k) as nat));
            parts.push(part);
            k += 1;
            assert(group_texts(msg@, r.at as int).take(k as int) =~= group_texts(
                msg@,
                r.at as int,
            ).take(k - 1).push(group_texts(msg@, r.at as int)[k - 1]));
        }
        assert(group_texts(msg@, r.at as int).take(8) =~= group_texts(msg@, r.at as int));
        join(&parts, ":")
    } else if r.rtype == TYPE_TXT {
        let parts: Vec<Vec<u8>> = read_character_strings(
            slice_subrange(msg, r.at, r.at + r.len),
        );
        quoted(&read_each(&parts))
    } else if r.rtype == TYPE_CNAME {
        match read_name(msg, r.at) {
            Ok(name) => name,
            Err(_) => "<нечитаемое имя>".to_owned(),
        }
    } else {
        let mut out = String::new();
        push_decimal(&mut out, r.len as u64);
        out.append(" байт");
        assert(out@ =~= decimal(r.len as nat) + " байт"@);
        out
    }
}

/// One line on one record.
pub open spec fn record_line(m: Seq<u8>, r: Record) -> Seq<char> {
    padded(type_text(r.rtype), 6) + " ttl="@ + padded(decimal(r.ttl as nat), 6) + " "@ + data_text(
        m,
        r,
    )
}

fn line_of(msg: &[u8], r: &Record) -> (out: String)
    requires
        r.at + r.len <= msg@.len(),
    ensures
        out@ == record_line(msg@, *r),
{
    let mut ttl = String::new();
    push_decimal(&mut ttl, r.ttl as u64);
    assert(ttl@ =~= decimal(r.ttl as nat));
    let mut out = pad(record_type_name(r.rtype).to_owned(), 6);
    out.append(" ttl=");
    out.append(pad(ttl, 6).as_str());
    out.append(" ");
    out.append(rdata_text(msg, r).as_str());
    out
}

/// What an answer says: its response code, how many records it announces, and a line on each.
#[derive(Debug)]
pub struct Summary {
    pub rcode: u8,
    pub answer_count: u16,
    pub answers: Vec<String>,
}

/// A line on each record.
pub open spec fn record_lines(m: Seq<u8>, rs: Seq<Record>) -> Seq<Seq<char>> {
    Seq::new(rs.len(), |k: int| record_line(m, rs[k]))
}

/// Describes an answer. It fails as the answer section does, and on nothing else.
pub fn summarize(msg: &[u8]) -> (r: Result<Summary, MessageError>)
    ensures
        match r {
            Ok(s) => {
                &&& answer_section(msg@) is Ok
                &&& s.rcode == msg@[3] % 16
                &&& s.answer_count == be16(msg@, 6)
                &&& texts(s.answers@) == record_lines(msg@, answer_section(msg@)->Ok_0)
            },
            Err(e) => answer_section(msg@) == Err::<Seq<Record>, MessageError>(e),
        },
{
    let records: Vec<Record> = match answers(msg) {
        Ok(v) => v,
        Err(e) => return Err(e),
    };
    let mut lines: Vec<String> = Vec::new();
    let mut k: usize = 0;
    while k < records.len()
        invariant
            k <= records@.len(),
            forall|j: int|
                0 <= j < records@.len() ==> (#[trigger] records@[j]).at + records@[j].len
                    <= msg@.len(),
            texts(lines@) == record_lines(msg@, records@).take(k as int),
        decreases records@.len() - k,
    {
        broadcast use texts_push;

        lines.push(line_of(msg, &records[k]));
        k += 1;
        assert(record_lines(msg@, records@).take(k as int) =~= record_lines(msg@, records@).take(
            k - 1,
        ).push(record_lines(msg@, records@)[k - 1]));
    }
    assert(record_lines(msg@, records@).take(k as int) =~= record_lines(msg@, records@));
    Ok(Summary { rcode: msg[3] % 16, answer_count: read16(msg, 6), answers: lines })
}

/// The address that a record carries, if it is an address record of the right size.
pub open spec fn record_address(m: Seq<u8>, r: Record) -> Option<IpAddr> {
    let at = r.at as int;
    if r.rtype == TYPE_A && r.len == 4 {
        Some(IpAddr::V4(Ipv4Addr { a: m[at], b: m[at + 1], c: m[at + 2], d: m[at + 3] }))
    } else if r.rtype == TYPE_AAAA && r.len == 16 {
        Some(IpAddr::V6(Ipv6Addr::of(Seq::new(8, |k: int| be16(m, at + 2 * k) as u16))))
    } else {
        None
    }
}

/// The addresses that records carry, in their order.
pub open spec fn record_addresses(m: Seq<u8>, rs: Seq<Record>) -> Seq<IpAddr>
    decreases rs.len(),
{
    if rs.len() == 0 {
        Seq::empty()
    } else {
        match record_address(m, rs.last()) {
            Some(ip) => record_addresses(m, rs.drop_last()).push(ip),
            None => record_addresses(m, rs.drop_last()),
        }
    }
}

/// The addresses in a message's answer section; none where it cannot be read.
pub open spec fn answer_addresses(m: Seq<u8>) -> Seq<IpAddr> {
    match answer_section(m) {
        Ok(rs) => record_addresses(m, rs),
        Err(_) => Seq::empty(),
    }
}

fn address_of(msg: &[u8], r: &Record) -> (out: Option<IpAddr>)
    requires
        r.at + r.len <= msg@.len(),
    ensures
        out == record_address(msg@, *r),
{
    assert(r.at + r.len <= msg.len());
    if r.rtype == TYPE_A && r.len == 4 {
        Some(IpAddr::V4(Ipv4Addr::new(msg[r.at], msg[r.at + 1], msg[r.at + 2], msg[r.at + 3])))
    } else if r.rtype == TYPE_AAAA && r.len == 16 {
        let at: usize = r.at;
        Some(
            IpAddr::V6(
                Ipv6Addr::new(
                    read16(msg, at),
                    read16(msg, at + 2),
                    read16(msg, at + 4),
                    read16(msg, at + 6),
                    read16(msg, at + 8),
                    read16(msg, at + 10),
                    read16(msg, at + 12),
                    read16(msg, at + 14),
                ),
            ),
        )
    } else {
        None
    }
}

/// Takes the addresses out of an answer.
pub fn addresses(msg: &[u8]) -> (r: Vec<IpAddr>)
    ensures
        r@ == answer_addresses(msg@),
{
    let records: Vec<Record> = match answers(msg) {
        Ok(v) => v,
        Err(_) => return Vec::new(),
    };
    let mut out: Vec<IpAddr> = Vec::new();
    let mut k: usize = 0;
    while k < records.len()
        invariant
            k <= records@.len(),
            forall|j: int|
                0 <= j < records@.len() ==> (#[trigger] records@[j]).at + records@[j].len
                    <= msg@.len(),
            out@ == record_addresses(msg@, records@.take(k as int)),
        decreases records@.len() - k,
    {
        if let Some(ip) = address_of(msg, &records[k]) {
            out.push(ip);
        }
        k += 1;
        assert(records@.take(k as int).drop_last() =~= records@.take(k - 1));
    }
    assert(records@.take(k as int) =~= records@);
    out
}

/// Why a name cannot be asked for.
#[derive(Clone, Copy, Debug, PartialEq, Eq, Structural)]
pub enum NameError {
    EmptyLabel,
    /// A label of more than sixty-three bytes.
    LongLabel,
}

impl NameError {
    /// What the error says to a person about `name`.
    pub open spec fn says(self, name: Seq<char>) -> Seq<char> {
        match self {
            NameError::EmptyLabel => "пустая метка в имени «"@ + name + "»"@,
            NameError::LongLabel => "метка длиннее 63 байт в имени «"@ + name + "»"@,
        }
    }

    /// The error in words.
    pub fn message(&self, name: &str) -> (r: String)
        ensures
            r@ == self.says(name@),
    {
        let mut out = match self {
            NameError::EmptyLabel => "пустая метка в имени «".to_owned(),
            NameError::LongLabel => "метка длиннее 63 байт в имени «".to_owned(),
        };
        out.append(name);
        out.append("»");
        out
    }
}

/// The name without the dots it ends with.
pub open spec fn without_root(name: Seq<char>) -> Seq<char>
    decreases name.len(),
{
    if name.len() > 0 && name.last() == '.' {
        without_root(name.drop_last())
    } else {
        name
    }
}

/// The labels of a name in text.
pub open spec fn labels_of(name: Seq<char>) -> Seq<Seq<char>> {
    pieces(without_root(name), seq!['.'])
}

/// What is wrong with the first label that cannot be sent.
pub open spec fn label_fault(labels: Seq<Seq<char>>) -> Option<NameError>
    decreases labels.len(),
{
    if labels.len() == 0 {
        None
    } else if label_fault(labels.drop_last()) is Some {
        label_fault(labels.drop_last())
    } else if labels.last().len() == 0 {
        Some(NameError::EmptyLabel)
    } else if encode_utf8(labels.last()).len() > 63 {
        Some(NameError::LongLabel)
    } else {
        None
    }
}

/// Labels on the wire: each with its length in front.
pub open spec fn wire_labels(labels: Seq<Seq<char>>) -> Seq<u8>
    decreases labels.len(),
{
    if labels.len() == 0 {
        Seq::empty()
    } else {
        wire_labels(labels.drop_last()) + seq![encode_utf8(labels.last()).len() as u8]
            + encode_utf8(labels.last())
    }
}

/// A sixteen-bit number in two bytes, high byte first.
pub open spec fn two_bytes(n: u16) -> Seq<u8> {
    seq![(n / 256) as u8, (n % 256) as u8]
}

/// A query for one name: recursion is desired, one question, and class IN.
pub open spec fn query(name: Seq<char>, qtype: u16, id: u16) -> Seq<u8> {
    two_bytes(id) + seq![1u8, 0, 0, 1, 0, 0, 0, 0, 0, 0] + wire_labels(labels_of(name)) + seq![0u8]
        + two_bytes(qtype) + seq![0u8, 1]
}

/// Cuts the dots off the end of a name.
fn cut_root(name: &str) -> (r: String)
    ensures
        r@ == without_root(name@),
{
    let c: Vec<char> = crate::text::chars_of(name);
    let mut n: usize = c.len();
    assert(name@.take(n as int) =~= name@);
    while n > 0 && c[n - 1] == '.'
        invariant
            c@ == name@,
            n <= c@.len(),
            without_root(name@.take(n as int)) == without_root(name@),
        decreases n,
    {
        assert(name@.take(n as int).drop_last() =~= name@.take(n - 1));
        n -= 1;
    }
    assert(name@.subrange(0, n as int) =~= name@.take(n as int));
    crate::text::text_of(&c, 0, n)
}

proof fn lemma_fault_in_front(labels: Seq<Seq<char>>, k: int)
    requires
        0 <= k <= labels.len(),
        label_fault(labels.take(k)) is Some,
    ensures
        label_fault(labels) == label_fault(labels.take(k)),
    decreases labels.len(),
{
    if k == labels.len() {
        assert(labels.take(k) =~= labels);
    } else {
        assert(labels.drop_last().take(k) =~= labels.take(k));
        lemma_fault_in_front(labels.drop_last(), k);
    }
}

/// Builds the query for a name. The first label that is empty or too long decides the error.
pub fn build_query(name: &str, qtype: u16, id: u16) -> (r: Result<Vec<u8>, NameError>)
    ensures
        match r {
            Ok(m) => label_fault(labels_of(name@)) is None && m@ == query(name@, qtype, id),
            Err(e) => label_fault(labels_of(name@)) == Some(e),
        },
{
    let mut m: Vec<u8> = Vec::with_capacity(64);
    m.push((id / 256) as u8);
    m.push((id % 256) as u8);
    m.push(1);
    m.push(0);
    m.push(0);
    m.push(1);
    m.push(0);
    m.push(0);
    m.push(0);
    m.push(0);
    m.push(0);
    m.push(0);
    let ghost head = two_bytes(id) + seq![1u8, 0, 0, 1, 0, 0, 0, 0, 0, 0];
    assert(m@ =~= head);
    let mut dot: Vec<char> = Vec::new();
    dot.push('.');
    let labels: Vec<String> = split(cut_root(name).as_str(), &dot);
    let ghost all = labels_of(name@);
    assert(dot@ =~= seq!['.']);
    let mut k: usize = 0;
    assert(m@ =~= head + wire_labels(all.take(0)));
    while k < labels.len()
        invariant
            k <= labels@.len(),
            texts(labels@) == all,
            all == labels_of(name@),
            label_fault(all.take(k as int)) is None,
            m@ == head + wire_labels(all.take(k as int)),
        decreases labels@.len() - k,
    {
        let label: &str = labels[k].as_str();
        let bytes: &[u8] = label.as_bytes();
        proof {
            assert(all.take(k + 1).drop_last() =~= all.take(k as int));
            assert(all.take(k + 1).last() == label@);
            if label_fault(all.take(k + 1)) is Some {
                lemma_fault_in_front(all, k + 1);
            }
        }
        if label.is_empty() {
            return Err(NameError::EmptyLabel);
        }
        if bytes.len() > 63 {
            return Err(NameError::LongLabel);
        }
        m.push(bytes.len() as u8);
        m.extend_from_slice(bytes);
        k += 1;
        assert(m@ =~= head + wire_labels(all.take(k as int)));
    }
    assert(all.take(k as int) =~= all);
    m.push(0);
    m.push((qtype / 256) as u8);
    m.push((qtype % 256) as u8);
    m.push(0);
    m.push(1);
    assert(m@ =~= query(name@, qtype, id));
    Ok(m)
}

/// The bytes of each label.
pub open spec fn encoded(labels: Seq<Seq<char>>) -> Seq<Seq<u8>> {
    Seq::new(labels.len(), |k: int| encode_utf8(labels[k]))
}

proof fn lemma_wire_front(labels: Seq<Seq<char>>, k: int)
    requires
        0 <= k <= labels.len(),
    ensures
        wire_labels(labels.take(k)).is_prefix_of(wire_labels(labels)),
    decreases labels.len() - k,
{
    if k == labels.len() {
        assert(labels.take(k) =~= labels);
    } else {
        lemma_wire_front(labels, k + 1);
        assert(labels.take(k + 1).drop_last() =~= labels.take(k));
        let a = wire_labels(labels.take(k));
        let b = wire_labels(labels.take(k + 1));
        let c = wire_labels(labels);
        assert(b.subrange(0, a.len() as int) =~= a);
        assert(c.subrange(0, a.len() as int) =~= c.subrange(0, b.len() as int).subrange(
            0,
            a.len() as int,
        ));
    }
}

proof fn lemma_no_fault(labels: Seq<Seq<char>>, k: int)
    requires
        label_fault(labels) is None,
        0 <= k < labels.len(),
    ensures
        labels[k].len() > 0,
        encode_utf8(labels[k]).len() <= 63,
    decreases labels.len(),
{
    if k < labels.len() - 1 {
        lemma_no_fault(labels.drop_last(), k);
    }
}

/// A text that is not empty has bytes.
pub proof fn lemma_encoding_not_empty(s: Seq<char>)
    requires
        s.len() > 0,
    ensures
        encode_utf8(s).len() > 0,
{
}

proof fn lemma_labels_behind(m: Seq<u8>, labels: Seq<Seq<char>>, k: int, jumps: nat)
    requires
        label_fault(labels) is None,
        0 <= k <= labels.len(),
        m.len() <= usize::MAX,
        12int + wire_labels(labels).len() < m.len(),
        m.subrange(12, 12int + wire_labels(labels).len()) == wire_labels(labels),
        m[12int + wire_labels(labels).len()] == 0,
    ensures
        name_end(m, 12int + wire_labels(labels.take(k)).len()) == Some(
            13int + wire_labels(labels).len(),
        ),
        name_labels(m, 12int + wire_labels(labels.take(k)).len(), jumps) == Ok::<
            Seq<Seq<u8>>,
            MessageError,
        >(encoded(labels).skip(k)),
    decreases labels.len() - k,
{
    let all = wire_labels(labels);
    if k == labels.len() {
        assert(labels.take(k) =~= labels);
        assert(encoded(labels).skip(k) =~= Seq::<Seq<u8>>::empty());
    } else {
        lemma_labels_behind(m, labels, k + 1, jumps);
        lemma_wire_front(labels, k + 1);
        lemma_no_fault(labels, k);
        lemma_encoding_not_empty(labels[k]);
        assert(labels.take(k + 1).drop_last() =~= labels.take(k));
        let a = wire_labels(labels.take(k)).len() as int;
        let b = wire_labels(labels.take(k + 1)).len() as int;
        let bytes = encode_utf8(labels[k]);
        let i = 12 + a;
        assert(b == a + 1 + bytes.len());
        assert(all.subrange(0, b)[a] == all[a]);
        assert(m.subrange(12, 12int + all.len())[a] == m[i]);
        assert(m[i] == bytes.len());
        assert(m.subrange(i + 1, i + 1 + m[i]) =~= bytes) by {
            assert forall|j: int| 0 <= j < bytes.len() implies m[i + 1 + j] == bytes[j] by {
                assert(m.subrange(12, 12int + all.len())[a + 1 + j] == m[i + 1 + j]);
                assert(all.subrange(0, b)[a + 1 + j] == all[a + 1 + j]);
            }
        }
        assert(encoded(labels).skip(k) =~= seq![bytes] + encoded(labels).skip(k + 1));
    }
}

/// Pieces put together again, with a dot between each two, are the text that they were cut from.
pub proof fn lemma_pieces_joined_again(s: Seq<char>)
    ensures
        joined(pieces(s, seq!['.']), "."@) == s,
        pieces(s, seq!['.']).len() > 0,
    decreases s.len(),
{
    let all = pieces(s, seq!['.']);
    if s.len() == 0 {
        assert(all[0] =~= s);
    } else {
        let front = s.drop_last();
        let before = pieces(front, seq!['.']);
        lemma_pieces_joined_again(front);
        assert(front.push(s.last()) =~= s);
        if seq!['.'].contains(s.last()) {
            reveal_strlit(".");
            assert(s.last() == '.');
            assert(all.drop_last() =~= before);
            assert(front + "."@ + Seq::<char>::empty() =~= s);
        } else {
            let last = before.last().push(s.last());
            if before.len() == 1 {
                assert(all[0] == last);
            } else {
                assert(all.drop_last() =~= before.drop_last());
                assert(joined(before.drop_last(), "."@) + "."@ + last =~= (joined(
                    before.drop_last(),
                    "."@,
                ) + "."@ + before.last()).push(s.last()));
            }
        }
    }
}

/// Labels of which none is empty are dotted as texts are joined.
proof fn lemma_dotted_is_joined(labels: Seq<Seq<char>>)
    requires
        label_fault(labels) is None,
    ensures
        dotted_name(labels) == joined(labels, "."@),
        labels.len() > 0 ==> dotted_name(labels).len() > 0,
    decreases labels.len(),
{
    if labels.len() > 0 {
        let front = labels.drop_last();
        lemma_dotted_is_joined(front);
        if labels.len() > 1 {
            reveal_strlit(".");
            assert(dotted_name(front).push('.') + labels.last() =~= joined(front, "."@) + "."@
                + labels.last());
        }
    }
}

/// What was asked for is what is read: a name that can be sent comes back out of the query in the
/// same letters, but for the dots that it ended with.
pub proof fn law_name_reads_back(name: Seq<char>, qtype: u16, id: u16)
    requires
        label_fault(labels_of(name)) is None,
        query(name, qtype, id).len() <= usize::MAX,
    ensures
        name_at(query(name, qtype, id), 12) == Ok::<Seq<char>, MessageError>(without_root(name)),
{
    let labels = labels_of(name);
    law_query_reads_back(name, qtype, id);
    assert forall|k: int| 0 <= k < labels.len() implies #[trigger] readings(encoded(labels))[k]
        == labels[k] by {
        encode_utf8_valid_utf8(labels[k]);
        encode_utf8_decode_utf8(labels[k]);
    }
    assert(readings(encoded(labels)) =~= labels);
    lemma_dotted_is_joined(labels);
    lemma_pieces_joined_again(without_root(name));
}

/// A query reads back as it was asked: its name has the labels that were asked for, nothing stands
/// behind the one question, which is of class IN, recursion is desired, and it carries no records and
/// no error.
pub proof fn law_query_reads_back(name: Seq<char>, qtype: u16, id: u16)
    requires
        label_fault(labels_of(name)) is None,
        query(name, qtype, id).len() <= usize::MAX,
    ensures
        name_labels(query(name, qtype, id), 12, MAX_JUMPS as nat) == Ok::<
            Seq<Seq<u8>>,
            MessageError,
        >(encoded(labels_of(name))),
        questions_end(query(name, qtype, id), 12, 1) == Some(
            query(name, qtype, id).len() as int,
        ),
        be16(query(name, qtype, id), 0) == id,
        be16(query(name, qtype, id), query(name, qtype, id).len() - 4) == qtype,
        be16(query(name, qtype, id), query(name, qtype, id).len() - 2) == 1,
        be16(query(name, qtype, id), 2) == 0x0100,
        be16(query(name, qtype, id), 4) == 1,
        be16(query(name, qtype, id), 6) == 0,
        be16(query(name, qtype, id), 8) == 0,
        be16(query(name, qtype, id), 10) == 0,
        answer_section(query(name, qtype, id)) == Ok::<Seq<Record>, MessageError>(Seq::empty()),
        query(name, qtype, id)[3] % 16 == 0,
{
    let m = query(name, qtype, id);
    let labels = labels_of(name);
    let wire = wire_labels(labels);
    assert(m.subrange(12, 12int + wire.len()) =~= wire);
    lemma_labels_behind(m, labels, 0, MAX_JUMPS as nat);
    assert(labels.take(0) =~= Seq::<Seq<char>>::empty());
    assert(encoded(labels).skip(0) =~= encoded(labels));
    assert(name_end(m, 12) == Some(13int + wire.len()));
    assert(be16(m, 6) == 0);
    reveal_with_fuel(questions_end, 2);
}

/// Byte strings one after the other, each with its length in front.
pub open spec fn counted(parts: Seq<Seq<u8>>) -> Seq<u8>
    decreases parts.len(),
{
    if parts.len() == 0 {
        Seq::empty()
    } else {
        seq![parts[0].len() as u8] + parts[0] + counted(parts.drop_first())
    }
}

/// A name as it is written into a message: its labels, and then either the end of it or a pointer to
/// the place where it goes on.
pub open spec fn written_name(labels: Seq<Seq<u8>>, pointer: Option<u16>) -> Seq<u8> {
    counted(labels) + (match pointer {
        None => seq![0u8],
        Some(p) => two_bytes((0xC000 + p) as u16),
    })
}

/// Whether a name can be written: labels of 1 to 63 bytes, and a pointer that fits.
pub open spec fn writable(labels: Seq<Seq<u8>>, pointer: Option<u16>) -> bool {
    &&& forall|k: int| 0 <= k < labels.len() ==> 1 <= (#[trigger] labels[k]).len() <= 63
    &&& pointer matches Some(p) ==> p < 0x4000
}

proof fn lemma_name_written(
    front: Seq<u8>,
    labels: Seq<Seq<u8>>,
    pointer: Option<u16>,
    rest: Seq<u8>,
    jumps: nat,
)
    requires
        writable(labels, pointer),
        (front + written_name(labels, pointer) + rest).len() <= usize::MAX,
    ensures
        ({
            let m = front + written_name(labels, pointer) + rest;
            let i = front.len() as int;
            &&& name_end(m, i) == Some(i + written_name(labels, pointer).len())
            &&& name_labels(m, i, jumps) == (match pointer {
                None => Ok::<Seq<Seq<u8>>, MessageError>(labels),
                Some(p) => if jumps == 0 {
                    Err(MessageError::PointerLoop)
                } else {
                    match name_labels(m, p as int, (jumps - 1) as nat) {
                        Ok(more) => Ok(labels + more),
                        Err(e) => Err(e),
                    }
                },
            })
        }),
    decreases labels.len(),
{
    let name = written_name(labels, pointer);
    let m = front + name + rest;
    let i = front.len() as int;
    assert(m[i] == name[0]);
    if labels.len() == 0 {
        assert(labels =~= Seq::<Seq<u8>>::empty());
        assert(counted(labels) =~= Seq::<u8>::empty());
        match pointer {
            None => {
                assert(name =~= seq![0u8]);
            },
            Some(p) => {
                assert(name =~= two_bytes((0xC000 + p) as u16));
                assert(m[i + 1] == name[1]);
                assert(be16(m, i) == 0xC000 + p);
                if jumps > 0 {
                    match name_labels(m, p as int, (jumps - 1) as nat) {
                        Ok(more) => {
                            assert(labels + more =~= more);
                        },
                        Err(_) => {},
                    }
                }
            },
        }
    } else {
        let first = labels[0];
        let others = labels.drop_first();
        let front2 = front + seq![first.len() as u8] + first;
        assert(1 <= first.len() <= 63);
        assert forall|k: int| 0 <= k < others.len() implies 1 <= (#[trigger] others[k]).len()
            <= 63 by {
            assert(others[k] == labels[k + 1]);
        }
        assert(name =~= seq![first.len() as u8] + first + written_name(others, pointer));
        assert(m =~= front2 + written_name(others, pointer) + rest);
        lemma_name_written(front2, others, pointer, rest, jumps);
        assert(m[i] == first.len());
        assert(m.subrange(i + 1, i + 1 + m[i]) =~= first);
        assert(seq![first] + others =~= labels);
        if let Some(p) = pointer {
            if jumps > 0 {
                match name_labels(m, p as int, (jumps - 1) as nat) {
                    Ok(more) => {
                        assert(seq![first] + (others + more) =~= labels + more);
                    },
                    Err(_) => {},
                }
            }
        }
    }
}

/// A name that stands in a message, whatever stands before and behind it, is stepped over as far as it
/// goes, and is read as the labels it was written with. One that ends in a pointer goes on with the
/// labels at the place pointed to; no more than sixteen pointers are followed.
pub proof fn law_written_names_read_back(
    front: Seq<u8>,
    labels: Seq<Seq<u8>>,
    pointer: Option<u16>,
    rest: Seq<u8>,
    jumps: nat,
)
    requires
        writable(labels, pointer),
        (front + written_name(labels, pointer) + rest).len() <= usize::MAX,
    ensures
        ({
            let m = front + written_name(labels, pointer) + rest;
            let i = front.len() as int;
            &&& name_end(m, i) == Some(i + written_name(labels, pointer).len())
            &&& pointer is None ==> name_labels(m, i, jumps) == Ok::<Seq<Seq<u8>>, MessageError>(
                labels,
            )
            &&& pointer is None ==> name_at(m, i) == Ok::<Seq<char>, MessageError>(
                dotted_name(readings(labels)),
            )
            &&& pointer matches Some(p) ==> jumps > 0 ==> match name_labels(
                m,
                p as int,
                (jumps - 1) as nat,
            ) {
                Ok(more) => name_labels(m, i, jumps) == Ok::<Seq<Seq<u8>>, MessageError>(
                    labels + more,
                ),
                Err(e) => name_labels(m, i, jumps) == Err::<Seq<Seq<u8>>, MessageError>(e),
            }
            &&& pointer is Some ==> name_labels(m, i, 0) == Err::<Seq<Seq<u8>>, MessageError>(
                MessageError::PointerLoop,
            )
            &&& name_at(m, i) == match name_labels(m, i, 16) {
                Ok(all) => Ok::<Seq<char>, MessageError>(dotted_name(readings(all))),
                Err(e) => Err(e),
            }
        }),
{
    lemma_name_written(front, labels, pointer, rest, jumps);
    lemma_name_written(front, labels, pointer, rest, 16);
    lemma_name_written(front, labels, pointer, rest, 0);
}

/// What is written into a message of one question or one record. A question has no more than its name,
/// type and class.
pub struct Entry {
    pub labels: Seq<Seq<u8>>,
    pub pointer: Option<u16>,
    pub rtype: u16,
    pub class: u16,
    pub ttl: u32,
    pub data: Seq<u8>,
}

/// A question as it is written.
pub open spec fn written_question(e: Entry) -> Seq<u8> {
    written_name(e.labels, e.pointer) + two_bytes(e.rtype) + two_bytes(e.class)
}

/// A record as it is written.
pub open spec fn written_record(e: Entry) -> Seq<u8> {
    written_name(e.labels, e.pointer) + two_bytes(e.rtype) + two_bytes(e.class) + two_bytes(
        (e.ttl / 65536) as u16,
    ) + two_bytes((e.ttl % 65536) as u16) + two_bytes(e.data.len() as u16) + e.data
}

/// Questions one after the other.
pub open spec fn written_questions(es: Seq<Entry>) -> Seq<u8>
    decreases es.len(),
{
    if es.len() == 0 {
        Seq::empty()
    } else {
        written_question(es[0]) + written_questions(es.drop_first())
    }
}

/// Records one after the other.
pub open spec fn written_records(es: Seq<Entry>) -> Seq<u8>
    decreases es.len(),
{
    if es.len() == 0 {
        Seq::empty()
    } else {
        written_record(es[0]) + written_records(es.drop_first())
    }
}

/// Whether each of the entries can be written.
pub open spec fn all_writable(es: Seq<Entry>) -> bool {
    forall|k: int|
        0 <= k < es.len() ==> writable((#[trigger] es[k]).labels, es[k].pointer)
            && es[k].data.len() <= 0xFFFF
}

proof fn lemma_questions_written(front: Seq<u8>, es: Seq<Entry>, rest: Seq<u8>)
    requires
        all_writable(es),
        (front + written_questions(es) + rest).len() <= usize::MAX,
    ensures
        questions_end(front + written_questions(es) + rest, front.len() as int, es.len()) == Some(
            front.len() + written_questions(es).len() as int,
        ),
    decreases es.len(),
{
    let m = front + written_questions(es) + rest;
    if es.len() > 0 {
        let one = written_question(es[0]);
        let name = written_name(es[0].labels, es[0].pointer);
        let more = written_questions(es.drop_first());
        let behind = two_bytes(es[0].rtype) + two_bytes(es[0].class) + more + rest;
        assert(writable(es[0].labels, es[0].pointer));
        assert(m =~= front + name + behind);
        lemma_name_written(front, es[0].labels, es[0].pointer, behind, 0);
        assert forall|k: int| 0 <= k < es.drop_first().len() implies writable(
            (#[trigger] es.drop_first()[k]).labels,
            es.drop_first()[k].pointer,
        ) && es.drop_first()[k].data.len() <= 0xFFFF by {
            assert(es.drop_first()[k] == es[k + 1]);
        }
        assert(m =~= (front + one) + more + rest);
        lemma_questions_written(front + one, es.drop_first(), rest);
        assert((front + one).len() == front.len() + name.len() + 4);
    }
}

proof fn lemma_record_written(front: Seq<u8>, e: Entry, rest: Seq<u8>)
    requires
        writable(e.labels, e.pointer),
        e.data.len() <= 0xFFFF,
        (front + written_record(e) + rest).len() <= usize::MAX,
    ensures
        ({
            let m = front + written_record(e) + rest;
            let i = front.len() as int;
            let end = i + written_name(e.labels, e.pointer).len();
            let r = record_at(m, end);
            &&& name_end(m, i) == Some(end)
            &&& end + 10 + e.data.len() == i + written_record(e).len()
            &&& be16(m, end + 8) == e.data.len()
            &&& r.rtype == e.rtype
            &&& r.ttl == e.ttl
            &&& r.len == e.data.len()
            &&& r.at + r.len <= m.len()
            &&& m.subrange(r.at as int, r.at + r.len) == e.data
        }),
{
    let m = front + written_record(e) + rest;
    let i = front.len() as int;
    let name = written_name(e.labels, e.pointer);
    let high = (e.ttl / 65536) as u16;
    let low = (e.ttl % 65536) as u16;
    let n = e.data.len() as u16;
    let fixed = two_bytes(e.rtype) + two_bytes(e.class) + two_bytes(high) + two_bytes(low)
        + two_bytes(n);
    assert(written_record(e) =~= name + fixed + e.data);
    assert(m =~= front + name + (fixed + e.data + rest));
    lemma_name_written(front, e.labels, e.pointer, fixed + e.data + rest, 0);
    let end = i + name.len();
    assert(m[end] == fixed[0] && m[end + 1] == fixed[1]);
    assert(m[end + 4] == fixed[4] && m[end + 5] == fixed[5]);
    assert(m[end + 6] == fixed[6] && m[end + 7] == fixed[7]);
    assert(m[end + 8] == fixed[8] && m[end + 9] == fixed[9]);
    assert(be16(m, end) == e.rtype);
    assert(be16(m, end + 4) == high);
    assert(be16(m, end + 6) == low);
    assert(be32(m, end + 4) == e.ttl);
    assert(be16(m, end + 8) == n);
    let r = record_at(m, end);
    assert(m.subrange(r.at as int, r.at + r.len) =~= e.data);
}

proof fn lemma_records_written(front: Seq<u8>, es: Seq<Entry>, rest: Seq<u8>)
    requires
        all_writable(es),
        (front + written_records(es) + rest).len() <= usize::MAX,
    ensures
        ({
            let m = front + written_records(es) + rest;
            let read = records_at(m, front.len() as int, es.len());
            &&& read is Ok
            &&& read->Ok_0.len() == es.len()
            &&& forall|k: int|
                0 <= k < es.len() ==> {
                    let r = #[trigger] read->Ok_0[k];
                    &&& r.rtype == es[k].rtype
                    &&& r.ttl == es[k].ttl
                    &&& r.len == es[k].data.len()
                    &&& r.at + r.len <= m.len()
                    &&& m.subrange(r.at as int, r.at + r.len) == es[k].data
                }
        }),
    decreases es.len(),
{
    let m = front + written_records(es) + rest;
    let i = front.len() as int;
    if es.len() > 0 {
        let e = es[0];
        let others = es.drop_first();
        let one = written_record(e);
        let more = written_records(others);
        assert(writable(e.labels, e.pointer) && e.data.len() <= 0xFFFF);
        assert forall|k: int| 0 <= k < others.len() implies writable(
            (#[trigger] others[k]).labels,
            others[k].pointer,
        ) && others[k].data.len() <= 0xFFFF by {
            assert(others[k] == es[k + 1]);
        }
        assert(m =~= front + one + (more + rest));
        lemma_record_written(front, e, more + rest);
        assert(m =~= (front + one) + more + rest);
        lemma_records_written(front + one, others, rest);
        let end = i + written_name(e.labels, e.pointer).len();
        let first = record_at(m, end);
        let tail = records_at(m, end + 10 + e.data.len(), others.len());
        let read = records_at(m, i, es.len());
        assert((front + one).len() == end + 10 + e.data.len());
        assert(read == with_front(seq![first], tail));
        assert forall|k: int| 0 <= k < es.len() implies {
            let r = #[trigger] read->Ok_0[k];
            &&& r.rtype == es[k].rtype
            &&& r.ttl == es[k].ttl
            &&& r.len == es[k].data.len()
            &&& r.at + r.len <= m.len()
            &&& m.subrange(r.at as int, r.at + r.len) == es[k].data
        } by {
            if k > 0 {
                assert(read->Ok_0[k] == tail->Ok_0[k - 1]);
                assert(others[k - 1] == es[k]);
            }
        }
    }
}

/// An answer is read as it was written: behind a header that counts them, questions are stepped over,
/// and each record of the answer section is found, in its order, with its type, its lifetime and its
/// data; what stands behind them does not matter.
pub proof fn law_written_answers_read_back(
    header: Seq<u8>,
    questions: Seq<Entry>,
    records: Seq<Entry>,
    rest: Seq<u8>,
)
    requires
        header.len() == 12,
        header[4] * 256 + header[5] == questions.len(),
        header[6] * 256 + header[7] == records.len(),
        all_writable(questions),
        all_writable(records),
        (header + written_questions(questions) + written_records(records) + rest).len()
            <= usize::MAX,
    ensures
        ({
            let m = header + written_questions(questions) + written_records(records) + rest;
            let read = answer_section(m);
            &&& read is Ok
            &&& read->Ok_0.len() == records.len()
            &&& forall|k: int|
                0 <= k < records.len() ==> {
                    let r = #[trigger] read->Ok_0[k];
                    &&& r.rtype == records[k].rtype
                    &&& r.ttl == records[k].ttl
                    &&& r.len == records[k].data.len()
                    &&& r.at + r.len <= m.len()
                    &&& m.subrange(r.at as int, r.at + r.len) == records[k].data
                }
        }),
{
    let m = header + written_questions(questions) + written_records(records) + rest;
    let asked = written_questions(questions);
    assert(m =~= header + asked + (written_records(records) + rest));
    lemma_questions_written(header, questions, written_records(records) + rest);
    assert(m =~= (header + asked) + written_records(records) + rest);
    lemma_records_written(header + asked, records, rest);
    assert(be16(m, 4) == questions.len());
    assert(be16(m, 6) == records.len());
}

/// The four or sixteen bytes of an address record as an address.
pub open spec fn address_in(rtype: u16, d: Seq<u8>) -> IpAddr {
    if rtype == 1 {
        IpAddr::V4(Ipv4Addr { a: d[0], b: d[1], c: d[2], d: d[3] })
    } else {
        IpAddr::V6(
            Ipv6Addr {
                s0: (256 * d[0] + d[1]) as u16,
                s1: (256 * d[2] + d[3]) as u16,
                s2: (256 * d[4] + d[5]) as u16,
                s3: (256 * d[6] + d[7]) as u16,
                s4: (256 * d[8] + d[9]) as u16,
                s5: (256 * d[10] + d[11]) as u16,
                s6: (256 * d[12] + d[13]) as u16,
                s7: (256 * d[14] + d[15]) as u16,
            },
        )
    }
}

/// Every record of type A with four bytes and every one of type AAAA with sixteen gives the address in
/// its data, and no other record gives one: the addresses are those of these records, in their order
/// and as many.
pub proof fn law_every_address_record_gives_its_address(m: Seq<u8>, rs: Seq<Record>)
    requires
        forall|k: int| 0 <= k < rs.len() ==> (#[trigger] rs[k]).at + rs[k].len <= m.len(),
    ensures
        record_addresses(m, rs) == rs.filter(
            |r: Record| r.rtype == 1 && r.len == 4 || r.rtype == 28 && r.len == 16,
        ).map_values(
            |r: Record| address_in(r.rtype, m.subrange(r.at as int, r.at + r.len)),
        ),
        record_addresses(m, rs).len() == rs.filter(
            |r: Record| r.rtype == 1 && r.len == 4 || r.rtype == 28 && r.len == 16,
        ).len(),
        answer_section(m) == Ok::<Seq<Record>, MessageError>(rs) ==> answer_addresses(m)
            == record_addresses(m, rs),
    decreases rs.len(),
{
    reveal(Seq::filter);
    let yes = |r: Record| r.rtype == 1 && r.len == 4 || r.rtype == 28 && r.len == 16;
    let ip = |r: Record| address_in(r.rtype, m.subrange(r.at as int, r.at + r.len));
    if rs.len() > 0 {
        let rest = rs.drop_last();
        let last = rs[rs.len() - 1];
        assert forall|k: int| 0 <= k < rest.len() implies (#[trigger] rest[k]).at + rest[k].len
            <= m.len() by {
            assert(rest[k] == rs[k]);
        }
        law_every_address_record_gives_its_address(m, rest);
        assert(last.at + last.len <= m.len());
        if yes(last) {
            let d = m.subrange(last.at as int, last.at + last.len);
            assert(forall|j: int| 0 <= j < last.len ==> d[j] == m[last.at + j]);
            assert(record_address(m, last) == Some(ip(last)));
            assert(rest.filter(yes).push(last).map_values(ip) =~= rest.filter(yes).map_values(
                ip,
            ).push(ip(last)));
        }
    } else {
        assert(record_addresses(m, rs) =~= rs.filter(yes).map_values(ip));
    }
}

/// The address records that were written into an answer are the addresses that it is read for: all of
/// them, in their order, and nothing else.
pub proof fn law_written_addresses_arrive(
    header: Seq<u8>,
    questions: Seq<Entry>,
    records: Seq<Entry>,
    rest: Seq<u8>,
)
    requires
        header.len() == 12,
        header[4] * 256 + header[5] == questions.len(),
        header[6] * 256 + header[7] == records.len(),
        all_writable(questions),
        all_writable(records),
        (header + written_questions(questions) + written_records(records) + rest).len()
            <= usize::MAX,
    ensures
        answer_addresses(
            header + written_questions(questions) + written_records(records) + rest,
        ) == records.filter(
            |e: Entry| e.rtype == 1 && e.data.len() == 4 || e.rtype == 28 && e.data.len() == 16,
        ).map_values(|e: Entry| address_in(e.rtype, e.data)),
{
    let m = header + written_questions(questions) + written_records(records) + rest;
    law_written_answers_read_back(header, questions, records, rest);
    let rs = answer_section(m)->Ok_0;
    lemma_addresses_agree(m, rs, records);
}

proof fn lemma_addresses_agree(m: Seq<u8>, rs: Seq<Record>, es: Seq<Entry>)
    requires
        rs.len() == es.len(),
        forall|k: int|
            0 <= k < es.len() ==> {
                let r = #[trigger] rs[k];
                &&& r.rtype == es[k].rtype
                &&& r.len == es[k].data.len()
                &&& r.at + r.len <= m.len()
                &&& m.subrange(r.at as int, r.at + r.len) == es[k].data
            },
    ensures
        record_addresses(m, rs) == es.filter(
            |e: Entry| e.rtype == 1 && e.data.len() == 4 || e.rtype == 28 && e.data.len() == 16,
        ).map_values(|e: Entry| address_in(e.rtype, e.data)),
    decreases es.len(),
{
    reveal(Seq::filter);
    let yes = |e: Entry| e.rtype == 1 && e.data.len() == 4 || e.rtype == 28 && e.data.len() == 16;
    let ip = |e: Entry| address_in(e.rtype, e.data);
    if es.len() > 0 {
        let rest = es.drop_last();
        let last = es[es.len() - 1];
        let r = rs[es.len() - 1];
        assert forall|k: int| 0 <= k < rest.len() implies {
            let q = #[trigger] rs.drop_last()[k];
            &&& q.rtype == rest[k].rtype
            &&& q.len == rest[k].data.len()
            &&& q.at + q.len <= m.len()
            &&& m.subrange(q.at as int, q.at + q.len) == rest[k].data
        } by {
            assert(rs.drop_last()[k] == rs[k]);
        }
        lemma_addresses_agree(m, rs.drop_last(), rest);
        if yes(last) {
            let d = m.subrange(r.at as int, r.at + r.len);
            assert(d == last.data);
            assert(forall|j: int| 0 <= j < r.len ==> d[j] == m[r.at + j]);
            assert(record_address(m, r) == Some(ip(last)));
            assert(rest.filter(yes).push(last).map_values(ip) =~= rest.filter(yes).map_values(
                ip,
            ).push(ip(last)));
        }
    } else {
        assert(record_addresses(m, rs) =~= es.filter(yes).map_values(ip));
    }
}

/// Character strings that were written one after the other are read back; what is cut off behind them
/// is left out.
pub proof fn law_character_strings_read_back(parts: Seq<Seq<u8>>, rest: Seq<u8>)
    requires
        forall|k: int| 0 <= k < parts.len() ==> (#[trigger] parts[k]).len() <= 255,
        rest.len() == 0 || rest.len() <= rest[0],
    ensures
        character_strings(counted(parts) + rest) == parts,
    decreases parts.len(),
{
    let d = counted(parts) + rest;
    if parts.len() == 0 {
        assert(d =~= rest);
        assert(parts =~= Seq::<Seq<u8>>::empty());
    } else {
        let others = parts.drop_first();
        assert(parts[0].len() <= 255);
        assert forall|k: int| 0 <= k < others.len() implies (#[trigger] others[k]).len() <= 255 by {
            assert(others[k] == parts[k + 1]);
        }
        law_character_strings_read_back(others, rest);
        assert(d[0] == parts[0].len());
        assert(d.subrange(1, 1 + d[0]) =~= parts[0]);
        assert(d.skip(1 + d[0]) =~= counted(others) + rest);
        assert(seq![parts[0]] + others =~= parts);
    }
}

/// The types that can be asked for, by their names in any case and by their numbers; and what the types
/// and response codes are called.
pub proof fn law_names_of_types_and_codes(s: Seq<char>)
    ensures
        alike(s, "A"@) ==> qtype(s) == Some(1u16),
        alike(s, "AAAA"@) ==> qtype(s) == Some(28u16),
        alike(s, "CNAME"@) ==> qtype(s) == Some(5u16),
        alike(s, "TXT"@) ==> qtype(s) == Some(16u16),
        qtype(s) is Some ==> alike(s, "A"@) || alike(s, "AAAA"@) || alike(s, "CNAME"@) || alike(
            s,
            "TXT"@,
        ),
        type_text(1) == "A"@ && type_text(28) == "AAAA"@ && type_text(5) == "CNAME"@ && type_text(
            16,
        ) == "TXT"@,
        forall|t: u16|
            t != 1 && t != 28 && t != 5 && t != 16 ==> #[trigger] type_text(t) == "прочее"@,
        rcode_text(0) == "NOERROR"@ && rcode_text(1) == "FORMERR"@ && rcode_text(2) == "SERVFAIL"@
            && rcode_text(3) == "NXDOMAIN"@ && rcode_text(4) == "NOTIMP"@ && rcode_text(5)
            == "REFUSED"@,
        forall|c: u8| c > 5 ==> #[trigger] rcode_text(c) == "?"@,
{
    reveal_strlit("A");
    reveal_strlit("AAAA");
    reveal_strlit("CNAME");
    reveal_strlit("TXT");
}

/// What a record's data says to a person: an address in its digits, a text in quotation marks, an
/// alias by its name, and of anything else how long it is.
pub proof fn law_data_in_words(m: Seq<u8>, r: Record)
    requires
        r.at + r.len <= m.len(),
    ensures
        ({
            let d = m.subrange(r.at as int, r.at + r.len);
            &&& r.rtype == 1 && r.len == 4 ==> data_text(m, r) == decimal(d[0] as nat).push('.')
                + decimal(d[1] as nat).push('.') + decimal(d[2] as nat).push('.') + decimal(
                d[3] as nat,
            )
            &&& r.rtype == 28 && r.len == 16 ==> data_text(m, r) == joined(
                Seq::new(8, |k: int| hexadecimal((256 * d[2 * k] + d[2 * k + 1]) as nat)),
                ":"@,
            )
            &&& r.rtype == 16 ==> data_text(m, r) == quotation(readings(character_strings(d)))
            &&& r.rtype == 5 ==> (name_at(m, r.at as int) matches Ok(name) ==> data_text(m, r)
                == name)
            &&& r.rtype == 1 && r.len != 4 || r.rtype == 28 && r.len != 16 || r.rtype != 1
                && r.rtype != 28 && r.rtype != 16 && r.rtype != 5 ==> data_text(m, r) == decimal(
                r.len as nat,
            ) + " байт"@
        }),
{
    let d = m.subrange(r.at as int, r.at + r.len);
    assert(forall|j: int| 0 <= j < r.len ==> d[j] == m[r.at + j]);
    if r.rtype == 28 && r.len == 16 {
        let list = Seq::new(8, |k: int| hexadecimal((256 * d[2 * k] + d[2 * k + 1]) as nat));
        assert(group_texts(m, r.at as int) =~= list);
    }
}

proof fn lemma_counted_push(parts: Seq<Seq<u8>>, x: Seq<u8>)
    ensures
        counted(parts.push(x)) == counted(parts) + seq![x.len() as u8] + x,
    decreases parts.len(),
{
    let all = parts.push(x);
    reveal_with_fuel(counted, 2);
    if parts.len() == 0 {
        assert(all.drop_first() =~= Seq::<Seq<u8>>::empty());
        assert(counted(all) =~= counted(parts) + seq![x.len() as u8] + x);
    } else {
        lemma_counted_push(parts.drop_first(), x);
        assert(all.drop_first() =~= parts.drop_first().push(x));
        assert(all[0] == parts[0]);
        assert(counted(all) =~= counted(parts) + seq![x.len() as u8] + x);
    }
}

proof fn lemma_wire_is_counted(labels: Seq<Seq<char>>)
    ensures
        wire_labels(labels) == counted(encoded(labels)),
    decreases labels.len(),
{
    if labels.len() > 0 {
        let front = labels.drop_last();
        lemma_wire_is_counted(front);
        assert(encoded(labels) =~= encoded(front).push(encode_utf8(labels.last())));
        lemma_counted_push(encoded(front), encode_utf8(labels.last()));
    } else {
        assert(wire_labels(labels) =~= counted(encoded(labels)));
    }
}

/// A query is a header that asks for recursion and announces one question, and that question: the name
/// with each of its labels behind its length, the type, and class IN. A name can be asked for exactly
/// where each of its labels has 1 to 63 bytes.
pub proof fn law_a_query_is_one_question(name: Seq<char>, qtype: u16, id: u16)
    ensures
        label_fault(labels_of(name)) is None <==> forall|k: int|
            0 <= k < labels_of(name).len() ==> 1 <= encode_utf8(
                #[trigger] labels_of(name)[k],
            ).len() <= 63,
        label_fault(labels_of(name)) is None ==> {
            let header = seq![
                (id / 256) as u8,
                (id % 256) as u8,
                1,
                0,
                0,
                1,
                0,
                0,
                0,
                0,
                0,
                0,
            ];
            let question = (Entry {
                labels: encoded(labels_of(name)),
                pointer: None,
                rtype: qtype,
                class: 1,
                ttl: 0,
                data: Seq::empty(),
            });
            &&& query(name, qtype, id) == header + written_question(question)
            &&& all_writable(seq![question])
        },
        joined(labels_of(name), "."@) == without_root(name),
        without_root(name).is_prefix_of(name),
        without_root(name).len() > 0 ==> without_root(name).last() != '.',
        forall|i: int| without_root(name).len() <= i < name.len() ==> name[i] == '.',
{
    let labels = labels_of(name);
    lemma_pieces_joined_again(without_root(name));
    lemma_without_root(name);
    lemma_wire_is_counted(labels);
    if label_fault(labels) is None {
        assert forall|k: int| 0 <= k < labels.len() implies 1 <= encode_utf8(
            #[trigger] labels[k],
        ).len() <= 63 by {
            lemma_no_fault(labels, k);
            lemma_encoding_not_empty(labels[k]);
        }
        let header = seq![(id / 256) as u8, (id % 256) as u8, 1, 0, 0, 1, 0, 0, 0, 0, 0, 0];
        let question = Entry {
            labels: encoded(labels),
            pointer: None,
            rtype: qtype,
            class: 1,
            ttl: 0,
            data: Seq::empty(),
        };
        assert(query(name, qtype, id) =~= header + written_question(question));
        assert forall|k: int| 0 <= k < encoded(labels).len() implies 1 <= (#[trigger] encoded(
            labels,
        )[k]).len() <= 63 by {
            assert(1 <= encode_utf8(labels[k]).len() <= 63);
        }
        assert(seq![question][0] == question);
    } else {
        lemma_fault_somewhere(labels);
    }
}

proof fn lemma_fault_somewhere(labels: Seq<Seq<char>>)
    requires
        label_fault(labels) is Some,
    ensures
        exists|k: int|
            0 <= k < labels.len() && !(1 <= encode_utf8(#[trigger] labels[k]).len() <= 63),
    decreases labels.len(),
{
    if label_fault(labels.drop_last()) is Some {
        lemma_fault_somewhere(labels.drop_last());
        let k = choose|k: int|
            0 <= k < labels.drop_last().len() && !(1 <= encode_utf8(
                #[trigger] labels.drop_last()[k],
            ).len() <= 63);
        assert(labels.drop_last()[k] == labels[k]);
    } else {
        let last = labels[labels.len() - 1];
        if last.len() == 0 {
            assert(last =~= Seq::<char>::empty());
            assert(encode_utf8(last).len() == 0);
        }
    }
}

proof fn lemma_without_root(name: Seq<char>)
    ensures
        without_root(name).is_prefix_of(name),
        without_root(name).len() > 0 ==> without_root(name).last() != '.',
        forall|i: int| without_root(name).len() <= i < name.len() ==> name[i] == '.',
    decreases name.len(),
{
    if name.len() > 0 && name.last() == '.' {
        let front = name.drop_last();
        lemma_without_root(front);
        let cut = without_root(name);
        assert(name.subrange(0, cut.len() as int) =~= front.subrange(0, cut.len() as int));
        assert forall|i: int| cut.len() <= i < name.len() implies name[i] == '.' by {
            if i < front.len() {
                assert(front[i] == name[i]);
            }
        }
    } else {
        assert(name.subrange(0, name.len() as int) =~= name);
    }
}

/// The first label that cannot be sent decides what is wrong with a name.
pub proof fn law_first_fault_decides(labels: Seq<Seq<char>>, k: int)
    requires
        0 <= k < labels.len(),
        forall|j: int| 0 <= j < k ==> 1 <= encode_utf8(#[trigger] labels[j]).len() <= 63,
    ensures
        labels[k].len() == 0 ==> label_fault(labels) == Some(NameError::EmptyLabel),
        encode_utf8(labels[k]).len() > 63 ==> label_fault(labels) == Some(NameError::LongLabel),
{
    let front = labels.take(k);
    if label_fault(front) is Some {
        lemma_fault_somewhere(front);
        let j = choose|j: int|
            0 <= j < front.len() && !(1 <= encode_utf8(#[trigger] front[j]).len() <= 63);
        assert(front[j] == labels[j]);
    }
    let upto = labels.take(k + 1);
    assert(upto.drop_last() =~= front);
    assert(upto.last() == labels[k]);
    if labels[k].len() == 0 {
        lemma_fault_in_front(labels, k + 1);
    } else if encode_utf8(labels[k]).len() > 63 {
        lemma_fault_in_front(labels, k + 1);
    }
}

/// What each fault of a message and of a name says.
pub proof fn law_faults_in_words(n: usize, name: Seq<char>)
    ensures
        MessageError::Short(n).says() == "ответ короче заголовка ("@ + decimal(n as nat)
            + " байт)"@,
        MessageError::NameOutside.says() == "имя выходит за границы сообщения"@,
        MessageError::LabelOutside.says() == "метка выходит за границы"@,
        MessageError::PointerCut.says() == "оборванный указатель"@,
        MessageError::PointerLoop.says() == "цикл указателей сжатия"@,
        MessageError::RecordHeaderCut.says() == "ответ обрывается в заголовке записи"@,
        MessageError::RecordDataCut.says() == "ответ обрывается в данных записи"@,
        NameError::EmptyLabel.says(name) == "пустая метка в имени «"@ + name + "»"@,
        NameError::LongLabel.says(name) == "метка длиннее 63 байт в имени «"@ + name + "»"@,
{
}

/// There is a line for each record, in their order: its type and its lifetime, each filled up to six
/// places, and its data.
pub proof fn law_a_line_for_each_record(m: Seq<u8>, rs: Seq<Record>, i: int)
    requires
        0 <= i < rs.len(),
    ensures
        record_lines(m, rs).len() == rs.len(),
        record_lines(m, rs)[i] == padded(type_text(rs[i].rtype), 6) + " ttl="@ + padded(
            decimal(rs[i].ttl as nat),
            6,
        ) + " "@ + data_text(m, rs[i]),
{
}

/// Texts in quotation marks: one mark, the texts one after the other, one mark.
pub proof fn law_texts_in_quotation_marks(parts: Seq<Seq<char>>, part: Seq<char>)
    ensures
        quotation(parts) == seq!['"'] + joined(parts, Seq::empty()) + seq!['"'],
        quotation(seq![part]) == seq!['"'] + part + seq!['"'],
{
    reveal_strlit("\"");
    reveal_strlit("");
    assert(""@ =~= Seq::<char>::empty());
    assert(quotation(parts) =~= seq!['"'] + joined(parts, Seq::empty()) + seq!['"']);
    assert(quotation(seq![part]) =~= seq!['"'] + part + seq!['"']);
}

/// Labels in dotted form: a dot before each but the first; labels that are empty take none while
/// nothing stands before them.
pub proof fn law_dots_between_labels(labels: Seq<Seq<char>>, x: Seq<char>)
    ensures
        dotted_name(Seq::empty()) == Seq::<char>::empty(),
        dotted_name(seq![x]) == x,
        dotted_name(labels).len() > 0 ==> dotted_name(labels.push(x)) == dotted_name(labels)
            + seq!['.'] + x,
        dotted_name(labels).len() == 0 ==> dotted_name(labels.push(x)) == x,
{
    reveal_with_fuel(dotted_name, 2);
    assert(seq![x].drop_last() =~= Seq::<Seq<char>>::empty());
    assert(labels.push(x).drop_last() =~= labels);
    if dotted_name(labels).len() > 0 {
        assert(dotted_name(labels.push(x)) =~= dotted_name(labels) + seq!['.'] + x);
    }
}

/// A message that is shorter than its header is refused with its length and gives no address; one that
/// announces nothing holds nothing.
pub proof fn law_messages_without_a_header(m: Seq<u8>)
    ensures
        m.len() < 12 ==> answer_section(m) == Err::<Seq<Record>, MessageError>(
            MessageError::Short(m.len() as usize),
        ),
        m.len() < 12 ==> answer_addresses(m).len() == 0,
        m.len() >= 12 && m[6] == 0 && m[7] == 0 && m[4] == 0 && m[5] == 0 ==> answer_section(m)
            == Ok::<Seq<Record>, MessageError>(Seq::empty()),
{
}

/// A record that is cut off makes a message unreadable: in its name, in what stands between the name and
/// the data, or in the data; and each is told apart.
pub proof fn law_cut_records_are_refused(
    front: Seq<u8>,
    e: Entry,
    cut: Seq<u8>,
    more: nat,
)
    requires
        writable(e.labels, e.pointer),
        e.data.len() <= 0xFFFF,
        (front + written_record(e)).len() <= usize::MAX,
    ensures
        records_at(front, front.len() as int, (more + 1) as nat) == Err::<
            Seq<Record>,
            MessageError,
        >(MessageError::NameOutside),
        cut.is_prefix_of(written_record(e)) && written_name(e.labels, e.pointer).len() <= cut.len()
            < written_name(e.labels, e.pointer).len() + 10 ==> records_at(
            front + cut,
            front.len() as int,
            (more + 1) as nat,
        ) == Err::<Seq<Record>, MessageError>(MessageError::RecordHeaderCut),
        cut.is_prefix_of(written_record(e)) && written_name(e.labels, e.pointer).len() + 10
            <= cut.len() < written_record(e).len() ==> records_at(
            front + cut,
            front.len() as int,
            (more + 1) as nat,
        ) == Err::<Seq<Record>, MessageError>(MessageError::RecordDataCut),
{
    let name = written_name(e.labels, e.pointer);
    let whole = written_record(e);
    let i = front.len() as int;
    let m = front + cut;
    if cut.is_prefix_of(whole) && name.len() <= cut.len() < whole.len() {
        let rest = cut.skip(name.len() as int);
        assert(cut =~= name + rest) by {
            assert forall|k: int| 0 <= k < name.len() implies cut[k] == name[k] by {
                assert(whole.subrange(0, cut.len() as int)[k] == cut[k]);
                assert(whole[k] == name[k]);
            }
        }
        assert(m =~= front + name + rest);
        lemma_name_written(front, e.labels, e.pointer, rest, 0);
        if name.len() + 10 <= cut.len() {
            let full = front + whole + Seq::<u8>::empty();
            lemma_record_written(front, e, Seq::empty());
            let end = i + name.len();
            assert(be16(full, end + 8) == e.data.len());
            assert(m[end + 8] == full[end + 8]) by {
                assert(whole.subrange(0, cut.len() as int)[name.len() + 8int] == cut[name.len() + 8int]);
            }
            assert(m[end + 9] == full[end + 9]) by {
                assert(whole.subrange(0, cut.len() as int)[name.len() + 9int] == cut[name.len() + 9int]);
            }
        }
    }
}

/// Numbers in messages stand with the highest byte first.
pub proof fn law_numbers_in_messages(n: u16, m: Seq<u8>, i: int)
    ensures
        two_bytes(n).len() == 2,
        two_bytes(n)[0] * 256 + two_bytes(n)[1] == n,
        be16(m, i) == m[i] * 0x100 + m[i + 1],
        be32(m, i) == m[i] * 0x100_0000 + m[i + 1] * 0x1_0000 + m[i + 2] * 0x100 + m[i + 3],
        MAX_JUMPS == 16,
        TYPE_A == 1,
        TYPE_AAAA == 28,
        TYPE_CNAME == 5,
        TYPE_TXT == 16,
{
}

} // verus!
