//! Text, as sequences of characters: comparing, searching, cutting, joining and printing numbers.

use vstd::prelude::*;
#[allow(unused_imports)]
use vstd::std_specs::iter::IteratorSpec;
#[allow(unused_imports)]
use vstd::utf8::{decode_utf8, encode_scalar, encode_utf8, is_ascii_chars, valid_utf8};

verus! {

/// `String::push`: the character goes to the end, and nothing else of the text changes.
pub assume_specification[ String::push ](s: &mut String, c: char)
    ensures
        final(s)@ == old(s)@.push(c),
;

/// What `String::from_utf8_lossy` makes of some bytes.
pub uninterp spec fn utf8_lossy(bytes: Seq<u8>) -> Seq<char>;

/// `String::from_utf8_lossy`, which puts a replacement character in place of every sequence that
/// is no UTF-8. Claimed: the text depends on the bytes alone, and where they are valid UTF-8 it is
/// the text that they encode. Left unsaid: where exactly the replacement characters go.
#[verifier::external_body]
fn from_utf8_lossy(bytes: &[u8]) -> (r: String)
    ensures
        r@ == utf8_lossy(bytes@),
        valid_utf8(bytes@) ==> r@ == decode_utf8(bytes@),
{
    String::from_utf8_lossy(bytes).into_owned()
}

/// What bytes read as: the text that they encode where they are valid UTF-8, and otherwise what
/// `String::from_utf8_lossy` makes of them.
pub open spec fn read_as(bytes: Seq<u8>) -> Seq<char> {
    if valid_utf8(bytes) {
        decode_utf8(bytes)
    } else {
        utf8_lossy(bytes)
    }
}

/// Reads bytes as a text, whatever they are.
pub fn text_in(bytes: &[u8]) -> (r: String)
    ensures
        r@ == read_as(bytes@),
{
    from_utf8_lossy(bytes)
}

/// What `str::to_lowercase` makes of a text.
pub uninterp spec fn lowercase(s: Seq<char>) -> Seq<char>;

/// `str::to_lowercase`, which goes by Unicode. Claimed: the result depends on the text alone, and an
/// ASCII text is changed letter by letter. Left unsaid: what becomes of letters beyond ASCII.
#[verifier::external_body]
fn to_lowercase(s: &str) -> (r: String)
    ensures
        r@ == lowercase(s@),
        is_ascii_chars(s@) ==> r@ == Seq::new(s@.len(), |i: int| lower(s@[i])),
{
    s.to_lowercase()
}

/// A text in lower case: an ASCII text letter by letter, and any other as `str::to_lowercase` has it.
pub open spec fn lowered(s: Seq<char>) -> Seq<char> {
    if is_ascii_chars(s) {
        Seq::new(s.len(), |i: int| lower(s[i]))
    } else {
        lowercase(s)
    }
}

/// A text in lower case.
pub fn lower_text(s: &str) -> (r: String)
    ensures
        r@ == lowered(s@),
{
    to_lowercase(s)
}

/// What `char::is_alphanumeric` says of a character.
pub uninterp spec fn alphanumeric(c: char) -> bool;

/// `char::is_alphanumeric`, which goes by Unicode. Claimed: the result depends on the character
/// alone, and among the ASCII characters it is true of the letters and the digits. Left unsaid:
/// what it says of characters beyond ASCII.
#[verifier::external_body]
fn is_alphanumeric(c: char) -> (r: bool)
    ensures
        r == alphanumeric(c),
        c <= '\u{7f}' ==> r == ('0' <= c && c <= '9' || 'a' <= c && c <= 'z' || 'A' <= c && c
            <= 'Z'),
{
    c.is_alphanumeric()
}

/// Whether a character is a letter or a digit: those of ASCII, and beyond it what
/// `char::is_alphanumeric` says.
pub open spec fn letter_or_digit(c: char) -> bool {
    if c <= '\u{7f}' {
        '0' <= c && c <= '9' || 'a' <= c && c <= 'z' || 'A' <= c && c <= 'Z'
    } else {
        alphanumeric(c)
    }
}

/// Whether a character is a letter or a digit.
pub fn is_letter_or_digit(c: char) -> (r: bool)
    ensures
        r == letter_or_digit(c),
{
    is_alphanumeric(c)
}

/// The texts that a list of strings holds.
pub open spec fn texts(v: Seq<String>) -> Seq<Seq<char>> {
    Seq::new(v.len(), |i: int| v[i]@)
}

/// Whether two texts are the same, character for character.
pub fn same_text(a: &str, b: &str) -> (r: bool)
    ensures
        r == (a@ == b@),
{
    let mut x = a.chars();
    let mut y = b.chars();
    let ghost mut done: int = 0;
    loop
        invariant
            0 <= done <= a@.len(),
            done <= b@.len(),
            x.remaining() == a@.skip(done),
            y.remaining() == b@.skip(done),
            x.obeys_prophetic_iter_laws(),
            y.obeys_prophetic_iter_laws(),
            forall|i: int| 0 <= i < done ==> a@[i] == b@[i],
        decreases a@.len() - done,
    {
        let c: Option<char> = x.next();
        let d: Option<char> = y.next();
        match (c, d) {
            (None, None) => {
                assert(a@ =~= b@);
                return true;
            },
            (Some(p), Some(q)) => {
                if p != q {
                    assert(a@[done] == p && b@[done] == q);
                    return false;
                }
                proof {
                    assert(a@[done] == p && b@[done] == q);
                    done = done + 1;
                    assert(a@.skip(done - 1).drop_first() =~= a@.skip(done));
                    assert(b@.skip(done - 1).drop_first() =~= b@.skip(done));
                }
            },
            _ => {
                return false;
            },
        }
    }
}

/// The characters of a text, one after the other.
pub fn chars_of(s: &str) -> (r: Vec<char>)
    ensures
        r@ == s@,
{
    let mut x = s.chars();
    let mut out: Vec<char> = Vec::new();
    loop
        invariant
            out@.len() <= s@.len(),
            out@ == s@.take(out@.len() as int),
            x.remaining() == s@.skip(out@.len() as int),
            x.obeys_prophetic_iter_laws(),
        decreases s@.len() - out@.len(),
    {
        match x.next() {
            None => {
                assert(out@ =~= s@);
                return out;
            },
            Some(c) => {
                out.push(c);
                proof {
                    let n = out@.len() as int;
                    assert(s@.skip(n - 1).drop_first() =~= s@.skip(n));
                    assert(s@.take(n - 1).push(s@[n - 1]) =~= s@.take(n));
                }
            },
        }
    }
}

/// The text made of `chars[from..to]`.
pub fn text_of(chars: &Vec<char>, from: usize, to: usize) -> (r: String)
    requires
        from <= to <= chars@.len(),
    ensures
        r@ == chars@.subrange(from as int, to as int),
{
    let mut out = String::new();
    let mut i: usize = from;
    while i < to
        invariant
            from <= i <= to <= chars@.len(),
            out@ == chars@.subrange(from as int, i as int),
        decreases to - i,
    {
        out.push(chars[i]);
        i += 1;
        assert(chars@.subrange(from as int, i as int) =~= chars@.subrange(
            from as int,
            i - 1,
        ).push(chars@[i - 1]));
    }
    out
}

/// A text added to a list is the last of its texts.
pub broadcast proof fn texts_push(v: Seq<String>, s: String)
    ensures
        #[trigger] texts(v.push(s)) == texts(v).push(s@),
{
    assert(texts(v.push(s)) =~= texts(v).push(s@));
}

/// The lower-case form of an ASCII letter; every other character is itself.
pub open spec fn lower(c: char) -> char {
    if 'A' <= c && c <= 'Z' {
        (c as u8 + 32) as char
    } else {
        c
    }
}

/// The lower-case form of an ASCII letter; every other character is itself.
pub fn to_lower(c: char) -> (r: char)
    ensures
        r == lower(c),
{
    if 'A' <= c && c <= 'Z' {
        (c as u8 + 32) as char
    } else {
        c
    }
}

/// Two texts of one length whose letters differ in ASCII case at most.
pub open spec fn alike(a: Seq<char>, b: Seq<char>) -> bool {
    a.len() == b.len() && forall|i: int| 0 <= i < a.len() ==> lower(#[trigger] a[i]) == lower(b[i])
}

/// Whether two texts are the same but for the case of ASCII letters.
pub fn same_ignoring_case(a: &str, b: &str) -> (r: bool)
    ensures
        r == alike(a@, b@),
{
    let x: Vec<char> = chars_of(a);
    let y: Vec<char> = chars_of(b);
    if x.len() != y.len() {
        return false;
    }
    let mut i: usize = 0;
    while i < x.len()
        invariant
            x@ == a@,
            y@ == b@,
            x@.len() == y@.len(),
            i <= x@.len(),
            forall|k: int| 0 <= k < i ==> lower(#[trigger] a@[k]) == lower(b@[k]),
        decreases x@.len() - i,
    {
        if to_lower(x[i]) != to_lower(y[i]) {
            assert(lower(a@[i as int]) != lower(b@[i as int]));
            return false;
        }
        i += 1;
    }
    true
}

/// Unicode's `White_Space` characters.
pub open spec fn white(c: char) -> bool {
    ||| '\u{9}' <= c && c <= '\u{d}'
    ||| c == ' '
    ||| c == '\u{85}'
    ||| c == '\u{a0}'
    ||| c == '\u{1680}'
    ||| '\u{2000}' <= c && c <= '\u{200a}'
    ||| c == '\u{2028}'
    ||| c == '\u{2029}'
    ||| c == '\u{202f}'
    ||| c == '\u{205f}'
    ||| c == '\u{3000}'
}

/// Whether a character is white space.
pub fn is_white(c: char) -> (r: bool)
    ensures
        r == white(c),
{
    ('\u{9}' <= c && c <= '\u{d}') || c == ' ' || c == '\u{85}' || c == '\u{a0}' || c == '\u{1680}'
        || ('\u{2000}' <= c && c <= '\u{200a}') || c == '\u{2028}' || c == '\u{2029}'
        || c == '\u{202f}' || c == '\u{205f}' || c == '\u{3000}'
}

/// The text without the white space it starts with.
pub open spec fn trimmed_front(s: Seq<char>) -> Seq<char>
    decreases s.len(),
{
    if s.len() > 0 && white(s.first()) {
        trimmed_front(s.drop_first())
    } else {
        s
    }
}

/// The text without the white space it ends with.
pub open spec fn trimmed_back(s: Seq<char>) -> Seq<char>
    decreases s.len(),
{
    if s.len() > 0 && white(s.last()) {
        trimmed_back(s.drop_last())
    } else {
        s
    }
}

/// The text without white space at either end.
pub open spec fn trimmed(s: Seq<char>) -> Seq<char> {
    trimmed_back(trimmed_front(s))
}

/// Cuts the white space off both ends.
pub fn trim(s: &str) -> (r: String)
    ensures
        r@ == trimmed(s@),
{
    let c: Vec<char> = chars_of(s);
    let n: usize = c.len();
    let mut from: usize = 0;
    assert(s@.skip(0) =~= s@);
    while from < n && is_white(c[from])
        invariant
            c@ == s@,
            n == c@.len(),
            from <= n,
            trimmed_front(s@.skip(from as int)) == trimmed_front(s@),
        decreases n - from,
    {
        assert(s@.skip(from as int).drop_first() =~= s@.skip(from + 1));
        from += 1;
    }
    let mut to: usize = n;
    let ghost front = s@.skip(from as int);
    assert(front =~= s@.subrange(from as int, to as int));
    while from < to && is_white(c[to - 1])
        invariant
            c@ == s@,
            n == c@.len(),
            from <= to <= n,
            trimmed_back(s@.subrange(from as int, to as int)) == trimmed_back(front),
        decreases to - from,
    {
        assert(s@.subrange(from as int, to as int).drop_last() =~= s@.subrange(
            from as int,
            to - 1,
        ));
        to -= 1;
    }
    text_of(&c, from, to)
}

/// Whether `needle` stands in `hay` at position `i`.
pub open spec fn stands_at(hay: Seq<char>, needle: Seq<char>, i: int) -> bool {
    0 <= i && i + needle.len() <= hay.len() && hay.subrange(i, i + needle.len()) == needle
}

/// Whether `needle` stands somewhere in `hay`.
pub open spec fn holds(hay: Seq<char>, needle: Seq<char>) -> bool {
    exists|i: int| stands_at(hay, needle, i)
}

fn matches_at(hay: &Vec<char>, needle: &Vec<char>, i: usize) -> (r: bool)
    requires
        i + needle@.len() <= hay@.len(),
    ensures
        r == stands_at(hay@, needle@, i as int),
{
    let size: usize = hay.len();
    let mut k: usize = 0;
    while k < needle.len()
        invariant
            k <= needle@.len(),
            size == hay@.len(),
            i + needle@.len() <= size,
            forall|m: int| 0 <= m < k ==> hay@[i + m] == needle@[m],
        decreases needle@.len() - k,
    {
        if hay[i + k] != needle[k] {
            assert(hay@.subrange(i as int, i + needle@.len())[k as int] == hay@[i + k]);
            return false;
        }
        k += 1;
    }
    assert(hay@.subrange(i as int, i + needle@.len()) =~= needle@);
    true
}

/// Whether `needle` stands somewhere in `hay`.
pub fn contains(hay: &str, needle: &str) -> (r: bool)
    ensures
        r == holds(hay@, needle@),
{
    let h: Vec<char> = chars_of(hay);
    let n: Vec<char> = chars_of(needle);
    if n.len() > h.len() {
        return false;
    }
    let last: usize = h.len() - n.len();
    let mut i: usize = 0;
    while i <= last
        invariant
            h@ == hay@,
            n@ == needle@,
            last == h@.len() - n@.len(),
            i <= last + 1,
            last < usize::MAX || n@.len() == 0,
            forall|k: int| 0 <= k < i ==> !stands_at(hay@, needle@, k),
        decreases last + 1 - i,
    {
        if matches_at(&h, &n, i) {
            return true;
        }
        if i == last {
            return false;
        }
        i += 1;
    }
    false
}

/// Whether `hay` starts with `needle`.
pub fn starts_with(hay: &str, needle: &str) -> (r: bool)
    ensures
        r == needle@.is_prefix_of(hay@),
{
    let h: Vec<char> = chars_of(hay);
    let n: Vec<char> = chars_of(needle);
    if n.len() > h.len() {
        return false;
    }
    matches_at(&h, &n, 0)
}

/// The pieces of a text between the characters in `seps`, in order; one piece more than there
/// are separators.
pub open spec fn pieces(s: Seq<char>, seps: Seq<char>) -> Seq<Seq<char>>
    decreases s.len(),
{
    if s.len() == 0 {
        seq![Seq::empty()]
    } else {
        let before = pieces(s.drop_last(), seps);
        if seps.contains(s.last()) {
            before.push(Seq::empty())
        } else {
            before.drop_last().push(before.last().push(s.last()))
        }
    }
}

/// There is always a piece.
pub proof fn lemma_pieces_not_empty(s: Seq<char>, seps: Seq<char>)
    ensures
        pieces(s, seps).len() > 0,
    decreases s.len(),
{
    if s.len() > 0 {
        lemma_pieces_not_empty(s.drop_last(), seps);
    }
}

/// Whether a character is one of those listed.
pub fn one_of(c: char, list: &Vec<char>) -> (r: bool)
    ensures
        r == list@.contains(c),
{
    let mut i: usize = 0;
    while i < list.len()
        invariant
            i <= list@.len(),
            forall|k: int| 0 <= k < i ==> list@[k] != c,
        decreases list@.len() - i,
    {
        if list[i] == c {
            return true;
        }
        i += 1;
    }
    false
}

/// Cuts a text at every character that is one of `seps`.
pub fn split(s: &str, seps: &Vec<char>) -> (r: Vec<String>)
    ensures
        texts(r@) == pieces(s@, seps@),
{
    broadcast use texts_push;

    let c: Vec<char> = chars_of(s);
    let mut out: Vec<String> = Vec::new();
    let mut cur = String::new();
    let mut i: usize = 0;
    assert(texts(out@) =~= Seq::<Seq<char>>::empty());
    assert(texts(out@).push(cur@) =~= pieces(s@.take(0), seps@));
    while i < c.len()
        invariant
            c@ == s@,
            i <= c@.len(),
            texts(out@).push(cur@) == pieces(s@.take(i as int), seps@),
        decreases c@.len() - i,
    {
        let ch: char = c[i];
        proof {
            assert(s@.take(i + 1).drop_last() =~= s@.take(i as int));
            assert(texts(out@).push(cur@).drop_last() =~= texts(out@));
        }
        if one_of(ch, seps) {
            out.push(cur);
            cur = String::new();
        } else {
            cur.push(ch);
        }
        i += 1;
    }
    assert(s@.take(i as int) =~= s@);
    out.push(cur);
    out
}

/// The texts one after the other, with `sep` between each two.
pub open spec fn joined(parts: Seq<Seq<char>>, sep: Seq<char>) -> Seq<char>
    decreases parts.len(),
{
    if parts.len() == 0 {
        Seq::empty()
    } else if parts.len() == 1 {
        parts[0]
    } else {
        joined(parts.drop_last(), sep) + sep + parts.last()
    }
}

/// Puts texts one after the other, with `sep` between each two.
pub fn join(parts: &Vec<String>, sep: &str) -> (r: String)
    ensures
        r@ == joined(texts(parts@), sep@),
{
    let mut out = String::new();
    let mut i: usize = 0;
    while i < parts.len()
        invariant
            i <= parts@.len(),
            out@ == joined(texts(parts@).take(i as int), sep@),
        decreases parts@.len() - i,
    {
        if i > 0 {
            out.append(sep);
        }
        out.append(parts[i].as_str());
        i += 1;
        proof {
            let t = texts(parts@).take(i as int);
            assert(t.drop_last() =~= texts(parts@).take(i - 1));
            assert(Seq::<char>::empty() + parts@[i - 1]@ =~= parts@[i - 1]@);
        }
    }
    assert(texts(parts@).take(i as int) =~= texts(parts@));
    out
}

/// A separator starts a new piece, and a text without one adds to it.
pub proof fn lemma_piece_added(s: Seq<char>, sep: char, t: Seq<char>)
    requires
        !t.contains(sep),
    ensures
        pieces(s.push(sep) + t, seq![sep]) == pieces(s, seq![sep]).push(t),
    decreases t.len(),
{
    let seps = seq![sep];
    assert(seps.contains(sep)) by {
        assert(seps[0] == sep);
    }
    if t.len() == 0 {
        assert(s.push(sep) + t =~= s.push(sep));
        assert(s.push(sep).drop_last() =~= s);
        assert(t =~= Seq::<char>::empty());
    } else {
        let front = t.drop_last();
        assert(!front.contains(sep)) by {
            assert(forall|i: int| 0 <= i < front.len() ==> front[i] == t[i]);
        }
        lemma_piece_added(s, sep, front);
        let whole = s.push(sep) + t;
        assert(whole.drop_last() =~= s.push(sep) + front);
        assert(whole.last() == t.last());
        assert(!seps.contains(t.last())) by {
            assert(t.contains(t.last()));
        }
        let before = pieces(s, seps).push(front);
        assert(before.drop_last() =~= pieces(s, seps));
        assert(front.push(t.last()) =~= t);
    }
}

/// A text without a separator is one piece.
pub proof fn lemma_one_piece(t: Seq<char>, sep: char)
    requires
        !t.contains(sep),
    ensures
        pieces(t, seq![sep]) == seq![t],
    decreases t.len(),
{
    if t.len() == 0 {
        assert(t =~= Seq::<char>::empty());
    } else {
        let front = t.drop_last();
        assert(!front.contains(sep)) by {
            assert(forall|i: int| 0 <= i < front.len() ==> front[i] == t[i]);
        }
        lemma_one_piece(front, sep);
        assert(!seq![sep].contains(t.last())) by {
            assert(t.contains(t.last()));
        }
        assert(front.push(t.last()) =~= t);
        assert(seq![front].drop_last().push(t) =~= seq![t]);
    }
}

/// The first piece of a text ends at the first separator, whatever stands behind it.
pub proof fn lemma_first_piece(t: Seq<char>, sep: char, rest: Seq<char>)
    requires
        !t.contains(sep),
    ensures
        pieces(t.push(sep) + rest, seq![sep]).len() >= 2,
        pieces(t.push(sep) + rest, seq![sep])[0] == t,
    decreases rest.len(),
{
    let seps = seq![sep];
    if rest.len() == 0 {
        lemma_one_piece(t, sep);
        assert(!rest.contains(sep));
        lemma_piece_added(t, sep, rest);
    } else {
        lemma_first_piece(t, sep, rest.drop_last());
        let whole = t.push(sep) + rest;
        assert(whole.drop_last() =~= t.push(sep) + rest.drop_last());
        let before = pieces(whole.drop_last(), seps);
        assert(before.drop_last()[0] == before[0]);
    }
}

/// Texts that were put together with a character between each two are cut apart again at it, where
/// none of them holds it.
pub proof fn law_split_undoes_join(parts: Seq<Seq<char>>, sep: char)
    requires
        parts.len() > 0,
        forall|i: int| 0 <= i < parts.len() ==> !(#[trigger] parts[i]).contains(sep),
    ensures
        pieces(joined(parts, seq![sep]), seq![sep]) == parts,
    decreases parts.len(),
{
    if parts.len() == 1 {
        lemma_one_piece(parts[0], sep);
        assert(seq![parts[0]] =~= parts);
    } else {
        let front = parts.drop_last();
        assert(forall|i: int| 0 <= i < front.len() ==> front[i] == parts[i]);
        law_split_undoes_join(front, sep);
        lemma_piece_added(joined(front, seq![sep]), sep, parts.last());
        assert(joined(front, seq![sep]) + seq![sep] + parts.last() =~= joined(
            front,
            seq![sep],
        ).push(sep) + parts.last());
        assert(front.push(parts.last()) =~= parts);
    }
}

/// The digit of a number below sixteen.
pub open spec fn digit(d: int) -> char {
    if d < 10 {
        ('0' as u8 + d) as char
    } else {
        ('a' as u8 + d - 10) as char
    }
}

fn digit_char(d: u8) -> (r: char)
    requires
        d < 16,
    ensures
        r == digit(d as int),
{
    if d < 10 {
        (48 + d) as char
    } else {
        (87 + d) as char
    }
}

/// A number in decimal, without leading zeros.
pub open spec fn decimal(n: nat) -> Seq<char>
    decreases n,
{
    if n < 10 {
        seq![digit(n as int)]
    } else {
        decimal(n / 10).push(digit((n % 10) as int))
    }
}

/// A number in lower-case hexadecimal, without leading zeros.
pub open spec fn hexadecimal(n: nat) -> Seq<char>
    decreases n,
{
    if n < 16 {
        seq![digit(n as int)]
    } else {
        hexadecimal(n / 16).push(digit((n % 16) as int))
    }
}

/// Adds a number in decimal to a text.
pub fn push_decimal(out: &mut String, n: u64)
    ensures
        final(out)@ == old(out)@ + decimal(n as nat),
    decreases n,
{
    if n >= 10 {
        push_decimal(out, n / 10);
    }
    out.push(digit_char((n % 10) as u8));
}

/// Adds a number in lower-case hexadecimal to a text.
pub fn push_hexadecimal(out: &mut String, n: u128)
    ensures
        final(out)@ == old(out)@ + hexadecimal(n as nat),
    decreases n,
{
    if n >= 16 {
        push_hexadecimal(out, n / 16);
    }
    out.push(digit_char((n % 16) as u8));
}

/// The last `width` digits of a number in lower-case hexadecimal, zeros in front included.
pub open spec fn hex_digits(n: nat, width: nat) -> Seq<char>
    decreases width,
{
    if width == 0 {
        Seq::empty()
    } else {
        hex_digits(n / 16, (width - 1) as nat).push(digit((n % 16) as int))
    }
}

/// Adds the last `width` hexadecimal digits of a number to a text.
pub fn push_hex_digits(out: &mut String, n: u32, width: u8)
    ensures
        final(out)@ == old(out)@ + hex_digits(n as nat, width as nat),
    decreases width,
{
    if width > 0 {
        push_hex_digits(out, n / 16, width - 1);
        out.push(digit_char((n % 16) as u8));
    }
}

/// The text with spaces behind it up to `width` characters; a longer text stays as it is.
pub open spec fn padded(s: Seq<char>, width: nat) -> Seq<char> {
    s + Seq::new(if s.len() < width { (width - s.len()) as nat } else { 0 }, |i: int| ' ')
}

/// Puts spaces behind a text up to `width` characters.
pub fn pad(s: String, width: usize) -> (r: String)
    ensures
        r@ == padded(s@, width as nat),
{
    let mut out = s;
    let have: usize = out.as_str().unicode_len();
    let mut i: usize = have;
    while i < width
        invariant
            have == s@.len(),
            have <= i,
            i <= width || i == have,
            out@ == s@ + Seq::new((i - have) as nat, |k: int| ' '),
        decreases width - i,
    {
        out.push(' ');
        i += 1;
        assert(Seq::new((i - have) as nat, |k: int| ' ') =~= Seq::new(
            (i - have - 1) as nat,
            |k: int| ' ',
        ).push(' '));
    }
    out
}

/// The longest front part of a text that takes at most `max` bytes.
pub open spec fn clipped(s: Seq<char>, max: nat) -> Seq<char>
    decreases s.len(),
{
    if encode_utf8(s).len() <= max || s.len() == 0 {
        s
    } else {
        clipped(s.drop_last(), max)
    }
}

/// A character more adds its own bytes.
pub proof fn lemma_encode_push(s: Seq<char>, c: char)
    ensures
        encode_utf8(s.push(c)) == encode_utf8(s) + encode_scalar(c as u32),
    decreases s.len(),
{
    if s.len() == 0 {
        reveal_with_fuel(encode_utf8, 2);
        assert(s.push(c).drop_first() =~= Seq::<char>::empty());
        assert(encode_utf8(s.push(c)) =~= encode_utf8(s) + encode_scalar(c as u32));
    } else {
        lemma_encode_push(s.drop_first(), c);
        assert(s.push(c).drop_first() =~= s.drop_first().push(c));
        assert(s.push(c)[0] == s[0]);
        assert(encode_utf8(s.push(c)) =~= encode_utf8(s) + encode_scalar(c as u32));
    }
}

proof fn lemma_clipped_at(s: Seq<char>, max: nat, k: int)
    requires
        0 <= k < s.len(),
        encode_utf8(s.take(k)).len() <= max,
        encode_utf8(s.take(k + 1)).len() > max,
    ensures
        clipped(s, max) == s.take(k),
    decreases s.len(),
{
    lemma_encode_longer(s, k + 1);
    if k + 1 == s.len() {
        reveal_with_fuel(clipped, 2);
        assert(s.drop_last() =~= s.take(k));
        assert(s.take(k + 1) =~= s);
    } else {
        assert(s.drop_last().take(k) =~= s.take(k));
        assert(s.drop_last().take(k + 1) =~= s.take(k + 1));
        lemma_clipped_at(s.drop_last(), max, k);
    }
}

proof fn lemma_encode_longer(s: Seq<char>, k: int)
    requires
        0 <= k <= s.len(),
    ensures
        encode_utf8(s.take(k)).len() <= encode_utf8(s).len(),
    decreases s.len(),
{
    if k == s.len() {
        assert(s.take(k) =~= s);
    } else {
        lemma_encode_longer(s.drop_last(), k);
        assert(s.drop_last().take(k) =~= s.take(k));
        assert(s.drop_last().push(s.last()) =~= s);
        lemma_encode_push(s.drop_last(), s.last());
    }
}

/// A clipped text fits, and clipping it again changes nothing.
pub proof fn lemma_clipped_fits(s: Seq<char>, max: nat)
    ensures
        encode_utf8(clipped(s, max)).len() <= max,
        clipped(s, max).is_prefix_of(s),
        clipped(clipped(s, max), max) == clipped(s, max),
    decreases s.len(),
{
    if encode_utf8(s).len() > max && s.len() > 0 {
        lemma_clipped_fits(s.drop_last(), max);
        let c = clipped(s, max);
        assert(s.drop_last().subrange(0, c.len() as int) =~= s.subrange(0, c.len() as int));
    } else {
        assert(s.subrange(0, s.len() as int) =~= s);
    }
}

/// How many bytes a character takes.
fn width(c: char) -> (r: usize)
    ensures
        r == encode_scalar(c as u32).len(),
        1 <= r <= 4,
{
    let v: u32 = c as u32;
    if v < 0x80 {
        1
    } else if v < 0x800 {
        2
    } else if v < 0x10000 {
        3
    } else {
        4
    }
}

/// Shortens a text to at most `max` bytes, between two characters.
pub fn clip(s: &mut String, max: usize)
    ensures
        final(s)@ == clipped(old(s)@, max as nat),
{
    let c: Vec<char> = chars_of(s.as_str());
    let mut bytes: usize = 0;
    let mut k: usize = 0;
    assert(c@.take(0) =~= Seq::<char>::empty());
    while k < c.len()
        invariant
            c@ == s@,
            s@ == old(s)@,
            k <= c@.len(),
            bytes <= max,
            bytes == encode_utf8(c@.take(k as int)).len(),
        decreases c@.len() - k,
    {
        let w: usize = width(c[k]);
        proof {
            assert(c@.take(k + 1) =~= c@.take(k as int).push(c@[k as int]));
            lemma_encode_push(c@.take(k as int), c@[k as int]);
        }
        if max - bytes < w {
            proof {
                lemma_clipped_at(c@, max as nat, k as int);
                assert(c@.subrange(0, k as int) =~= c@.take(k as int));
            }
            *s = text_of(&c, 0, k);
            return;
        }
        bytes += w;
        k += 1;
    }
    assert(c@.take(k as int) =~= c@);
}

/// A text in UTF-16.
pub open spec fn utf16(s: Seq<char>) -> Seq<u16>
    decreases s.len(),
{
    if s.len() == 0 {
        Seq::empty()
    } else {
        let c = s.last() as u32;
        if c < 0x10000 {
            utf16(s.drop_last()).push(c as u16)
        } else {
            utf16(s.drop_last()).push((0xD800 + (c - 0x10000) / 0x400) as u16).push(
                (0xDC00 + (c - 0x10000) % 0x400) as u16,
            )
        }
    }
}

/// A text in UTF-16 with a zero behind it.
pub fn wide(s: &str) -> (r: Vec<u16>)
    ensures
        r@ == utf16(s@).push(0),
{
    let c: Vec<char> = chars_of(s);
    let mut out: Vec<u16> = Vec::new();
    let mut i: usize = 0;
    while i < c.len()
        invariant
            c@ == s@,
            i <= c@.len(),
            out@ == utf16(s@.take(i as int)),
        decreases c@.len() - i,
    {
        let ch: char = c[i];
        let v: u32 = ch as u32;
        proof {
            vstd::utf8::char_is_scalar(ch);
            assert(s@.take(i + 1).drop_last() =~= s@.take(i as int));
        }
        if v < 0x10000 {
            out.push(v as u16);
        } else {
            out.push((0xD800 + (v - 0x10000) / 0x400) as u16);
            out.push((0xDC00 + (v - 0x10000) % 0x400) as u16);
        }
        i += 1;
    }
    assert(s@.take(i as int) =~= s@);
    out.push(0);
    out
}

/// A signed number in decimal.
pub open spec fn signed(n: int) -> Seq<char> {
    if n < 0 {
        seq!['-'] + decimal((-n) as nat)
    } else {
        decimal(n as nat)
    }
}

/// Adds a signed number in decimal to a text.
pub fn push_signed(out: &mut String, n: i32)
    ensures
        final(out)@ == old(out)@ + signed(n as int),
{
    if n < 0 {
        out.push('-');
        push_decimal(out, (-(n as i64)) as u64);
        assert(out@ =~= old(out)@ + signed(n as int));
    } else {
        push_decimal(out, n as u64);
    }
}

/// The text with `to` in place of each of the characters in `from`.
pub open spec fn replaced(s: Seq<char>, from: Seq<char>, to: char) -> Seq<char> {
    Seq::new(
        s.len(),
        |i: int|
            if from.contains(s[i]) {
                to
            } else {
                s[i]
            },
    )
}

/// Puts `to` in place of each of the characters in `from`.
pub fn replace(s: &str, from: &Vec<char>, to: char) -> (r: String)
    ensures
        r@ == replaced(s@, from@, to),
{
    let c: Vec<char> = chars_of(s);
    let mut out = String::new();
    let mut i: usize = 0;
    while i < c.len()
        invariant
            c@ == s@,
            i <= c@.len(),
            out@ == replaced(s@, from@, to).take(i as int),
        decreases c@.len() - i,
    {
        out.push(
            if one_of(c[i], from) {
                to
            } else {
                c[i]
            },
        );
        i += 1;
        assert(replaced(s@, from@, to).take(i as int) =~= replaced(s@, from@, to).take(i - 1).push(
            replaced(s@, from@, to)[i - 1],
        ));
    }
    assert(replaced(s@, from@, to).take(i as int) =~= replaced(s@, from@, to));
    out
}

proof fn lemma_pieces_around(a: Seq<char>, c: char, b: Seq<char>, seps: Seq<char>)
    requires
        seps.contains(c),
    ensures
        pieces(a.push(c) + b, seps) == pieces(a, seps) + pieces(b, seps),
    decreases b.len(),
{
    lemma_pieces_not_empty(b, seps);
    if b.len() == 0 {
        assert(a.push(c) + b =~= a.push(c));
        assert(a.push(c).drop_last() =~= a);
        assert(pieces(a, seps).push(Seq::empty()) =~= pieces(a, seps) + pieces(b, seps));
    } else {
        let front = b.drop_last();
        lemma_pieces_not_empty(front, seps);
        lemma_pieces_around(a, c, front, seps);
        let whole = a.push(c) + b;
        assert(whole.drop_last() =~= a.push(c) + front);
        assert(whole.last() == b.last());
        assert(pieces(whole, seps) =~= pieces(a, seps) + pieces(b, seps));
    }
}

/// Cutting a text at a separator cuts what stands before it and what stands behind it, each for
/// itself; a text that holds no separator is its own only piece.
pub proof fn law_separators_part_pieces(a: Seq<char>, c: char, b: Seq<char>, seps: Seq<char>)
    ensures
        seps.contains(c) ==> pieces(a.push(c) + b, seps) == pieces(a, seps) + pieces(b, seps),
        (forall|i: int| 0 <= i < a.len() ==> !seps.contains(#[trigger] a[i])) ==> pieces(a, seps)
            == seq![a],
    decreases a.len(),
{
    if seps.contains(c) {
        lemma_pieces_around(a, c, b, seps);
    }
    if a.len() == 0 {
        assert(a =~= Seq::<char>::empty());
    } else if forall|i: int| 0 <= i < a.len() ==> !seps.contains(#[trigger] a[i]) {
        let front = a.drop_last();
        assert forall|i: int| 0 <= i < front.len() implies !seps.contains(#[trigger] front[i]) by {
            assert(front[i] == a[i]);
        }
        law_separators_part_pieces(front, c, b, seps);
        assert(!seps.contains(a[a.len() - 1]));
        assert(front.push(a.last()) =~= a);
        assert(seq![front].drop_last().push(a) =~= seq![a]);
    }
}

/// Which characters are white space.
pub proof fn law_white_space(c: char)
    ensures
        c as u32 <= 0x7f ==> (white(c) <==> c == '\t' || c == '\n' || c == '\u{b}' || c == '\u{c}'
            || c == '\r' || c == ' '),
        c as u32 > 0x7f ==> (white(c) <==> seq![
            0x85u32,
            0xa0,
            0x1680,
            0x2000,
            0x2001,
            0x2002,
            0x2003,
            0x2004,
            0x2005,
            0x2006,
            0x2007,
            0x2008,
            0x2009,
            0x200a,
            0x2028,
            0x2029,
            0x202f,
            0x205f,
            0x3000,
        ].contains(c as u32)),
{
    let list = seq![
        0x85u32,
        0xa0,
        0x1680,
        0x2000,
        0x2001,
        0x2002,
        0x2003,
        0x2004,
        0x2005,
        0x2006,
        0x2007,
        0x2008,
        0x2009,
        0x200a,
        0x2028,
        0x2029,
        0x202f,
        0x205f,
        0x3000,
    ];
    assert(list[0] == 0x85 && list[1] == 0xa0 && list[2] == 0x1680);
    assert(list[3] == 0x2000 && list[4] == 0x2001 && list[5] == 0x2002 && list[6] == 0x2003);
    assert(list[7] == 0x2004 && list[8] == 0x2005 && list[9] == 0x2006 && list[10] == 0x2007);
    assert(list[11] == 0x2008 && list[12] == 0x2009 && list[13] == 0x200a && list[14] == 0x2028);
    assert(list[15] == 0x2029 && list[16] == 0x202f && list[17] == 0x205f && list[18] == 0x3000);
}

proof fn lemma_front_falls(front: Seq<char>, rest: Seq<char>)
    requires
        forall|i: int| 0 <= i < front.len() ==> white(#[trigger] front[i]),
    ensures
        trimmed_front(front + rest) == trimmed_front(rest),
    decreases front.len(),
{
    if front.len() == 0 {
        assert(front + rest =~= rest);
    } else {
        assert(white(front[0]));
        let less = front.drop_first();
        assert forall|i: int| 0 <= i < less.len() implies white(#[trigger] less[i]) by {
            assert(less[i] == front[i + 1]);
        }
        lemma_front_falls(less, rest);
        assert((front + rest).drop_first() =~= less + rest);
    }
}

proof fn lemma_back_falls(rest: Seq<char>, back: Seq<char>)
    requires
        forall|i: int| 0 <= i < back.len() ==> white(#[trigger] back[i]),
    ensures
        trimmed_back(rest + back) == trimmed_back(rest),
    decreases back.len(),
{
    if back.len() == 0 {
        assert(rest + back =~= rest);
    } else {
        assert(white(back[back.len() - 1]));
        let less = back.drop_last();
        assert forall|i: int| 0 <= i < less.len() implies white(#[trigger] less[i]) by {
            assert(less[i] == back[i]);
        }
        lemma_back_falls(rest, less);
        assert((rest + back).drop_last() =~= rest + less);
    }
}

/// Trimming takes the white space off both ends of a text and nothing else: whatever white space
/// stands round a text that neither starts nor ends with any, that text is what is left; and what
/// is left of any text stands in it with nothing but white space round it.
pub proof fn law_trimming_takes_the_ends_off(front: Seq<char>, core: Seq<char>, back: Seq<char>)
    requires
        forall|i: int| 0 <= i < front.len() ==> white(#[trigger] front[i]),
        forall|i: int| 0 <= i < back.len() ==> white(#[trigger] back[i]),
        core.len() > 0 ==> !white(core[0]) && !white(core[core.len() - 1]),
    ensures
        trimmed(front + core + back) == core,
        trimmed(core) == core,
{
    assert(front + core + back =~= front + (core + back));
    lemma_front_falls(front, core + back);
    if core.len() == 0 {
        assert(core + back =~= back);
        assert(back + Seq::<char>::empty() =~= back);
        lemma_front_falls(back, Seq::empty());
        assert(core =~= Seq::<char>::empty());
    } else {
        assert((core + back)[0] == core[0]);
        lemma_back_falls(core, back);
    }
}

/// A text is found in another where that one is made of something, the text, and something.
pub proof fn law_holding_is_standing_inside(hay: Seq<char>, needle: Seq<char>)
    ensures
        holds(hay, needle) <==> exists|a: Seq<char>, b: Seq<char>|
            hay == #[trigger] ((a + needle) + b),
{
    if holds(hay, needle) {
        let i = choose|i: int| stands_at(hay, needle, i);
        let a = hay.take(i);
        let b = hay.skip(i + needle.len() as int);
        assert(hay =~= (a + needle) + b) by {
            assert forall|k: int| 0 <= k < hay.len() implies hay[k] == ((a + needle) + b)[k] by {
                if i <= k < i + needle.len() {
                    assert(hay.subrange(i, i + needle.len())[k - i] == needle[k - i]);
                }
            }
        }
    }
    if exists|a: Seq<char>, b: Seq<char>| hay == #[trigger] ((a + needle) + b) {
        let (a, b) = choose|a: Seq<char>, b: Seq<char>| hay == #[trigger] ((a + needle) + b);
        assert(hay.subrange(a.len() as int, a.len() as int + needle.len()) =~= needle);
        assert(stands_at(hay, needle, a.len() as int));
    }
}

/// Two texts are alike where they are of one length and differ in nothing but the case of Latin
/// letters.
pub proof fn law_alike_means_but_for_case(a: Seq<char>, b: Seq<char>)
    ensures
        alike(a, b) <==> a.len() == b.len() && forall|i: int|
            0 <= i < a.len() ==> (#[trigger] a[i]) == b[i] || ('a' <= a[i] && a[i] <= 'z'
                && a[i] as u32 == b[i] as u32 + 32) || ('a' <= b[i] && b[i] <= 'z' && b[i] as u32
                == a[i] as u32 + 32),
{
    if alike(a, b) {
        assert forall|i: int| 0 <= i < a.len() implies (#[trigger] a[i]) == b[i] || ('a' <= a[i]
            && a[i] <= 'z' && a[i] as u32 == b[i] as u32 + 32) || ('a' <= b[i] && b[i] <= 'z'
            && b[i] as u32 == a[i] as u32 + 32) by {
            assert(lower(a[i]) == lower(b[i]));
        }
    } else if a.len() == b.len() {
        let i = choose|i: int| 0 <= i < a.len() && lower(#[trigger] a[i]) != lower(b[i]);
        assert(a[i] != b[i]);
    }
}

/// Small Latin letters for great ones, and every other ASCII character as it is.
pub proof fn law_lowered_ascii(s: Seq<char>, i: int)
    requires
        is_ascii_chars(s),
        0 <= i < s.len(),
    ensures
        lowered(s).len() == s.len(),
        'A' <= s[i] && s[i] <= 'Z' ==> lowered(s)[i] as u32 == s[i] as u32 + 32,
        !('A' <= s[i] && s[i] <= 'Z') ==> lowered(s)[i] == s[i],
{
}

/// Decimal digits: the last one is the remainder by ten, and those before it are the digits of the
/// rest. There is always one, and none is wasted on a zero in front.
pub proof fn law_decimal_digits(rest: nat, last: nat)
    requires
        last < 10,
    ensures
        decimal(last) == seq![seq!['0', '1', '2', '3', '4', '5', '6', '7', '8', '9'][last as int]],
        rest > 0 ==> decimal(10 * rest + last) == decimal(rest) + decimal(last),
        rest > 0 ==> decimal(rest)[0] != '0',
        decimal(rest).len() > 0,
    decreases rest,
{
    let list = seq!['0', '1', '2', '3', '4', '5', '6', '7', '8', '9'];
    assert(list[0] == '0' && list[1] == '1' && list[2] == '2' && list[3] == '3' && list[4] == '4');
    assert(list[5] == '5' && list[6] == '6' && list[7] == '7' && list[8] == '8' && list[9] == '9');
    assert(decimal(last) =~= seq![list[last as int]]);
    if rest > 0 {
        assert((10 * rest + last) / 10 == rest);
        assert((10 * rest + last) % 10 == last);
        assert(decimal(rest).push(digit(last as int)) =~= decimal(rest) + decimal(last));
        law_decimal_digits(rest / 10, last);
    }
}

/// Sixteen-fold digits of a given number of places, the highest first, in small letters.
pub proof fn law_hexadecimal_digits(rest: nat, last: nat, width: nat)
    requires
        last < 16,
    ensures
        hex_digits(16 * rest + last, width + 1) == hex_digits(rest, width).push(
            seq![
                '0',
                '1',
                '2',
                '3',
                '4',
                '5',
                '6',
                '7',
                '8',
                '9',
                'a',
                'b',
                'c',
                'd',
                'e',
                'f',
            ][last as int],
        ),
        hex_digits(rest, width).len() == width,
        hexadecimal(last) == hex_digits(last, 1),
        rest > 0 ==> hexadecimal(16 * rest + last) == hexadecimal(rest) + hexadecimal(last),
    decreases width,
{
    let list = seq![
        '0',
        '1',
        '2',
        '3',
        '4',
        '5',
        '6',
        '7',
        '8',
        '9',
        'a',
        'b',
        'c',
        'd',
        'e',
        'f',
    ];
    assert(list[0] == '0' && list[1] == '1' && list[2] == '2' && list[3] == '3' && list[4] == '4');
    assert(list[5] == '5' && list[6] == '6' && list[7] == '7' && list[8] == '8' && list[9] == '9');
    assert(list[10] == 'a' && list[11] == 'b' && list[12] == 'c' && list[13] == 'd');
    assert(list[14] == 'e' && list[15] == 'f');
    assert((16 * rest + last) / 16 == rest);
    assert((16 * rest + last) % 16 == last);
    assert(digit(last as int) == list[last as int]);
    reveal_with_fuel(hex_digits, 2);
    assert(hexadecimal(last) =~= hex_digits(last, 1));
    if rest > 0 {
        assert(hexadecimal(rest).push(digit(last as int)) =~= hexadecimal(rest) + hexadecimal(
            last,
        ));
    }
    if width > 0 {
        law_hexadecimal_digits(rest / 16, last, (width - 1) as nat);
    }
}

/// A text that is filled up keeps its characters, has at least the width asked for, and gets
/// blanks behind it, none where it is wide enough.
pub proof fn law_padding_fills_up(s: Seq<char>, width: nat)
    ensures
        padded(s, width).len() >= width,
        padded(s, width).len() == width || padded(s, width) == s,
        s.is_prefix_of(padded(s, width)),
        forall|i: int| s.len() <= i < padded(s, width).len() ==> padded(s, width)[i] == ' ',
{
    if s.len() >= width {
        assert(padded(s, width) =~= s);
    }
    assert(padded(s, width).subrange(0, s.len() as int) =~= s);
}

/// A clipped text is the longest beginning of it whose encoding fits.
pub proof fn law_clipping_keeps_what_fits(s: Seq<char>, max: nat, k: int)
    requires
        0 <= k <= s.len(),
    ensures
        clipped(s, max).is_prefix_of(s),
        encode_utf8(clipped(s, max)).len() <= max,
        k > clipped(s, max).len() ==> encode_utf8(s.take(k)).len() > max,
    decreases s.len(),
{
    if encode_utf8(s).len() <= max {
        assert(s.subrange(0, s.len() as int) =~= s);
    } else if s.len() == 0 {
        assert(s =~= Seq::<char>::empty());
        assert(encode_utf8(s).len() == 0);
    } else {
        let front = s.drop_last();
        if k < s.len() {
            law_clipping_keeps_what_fits(front, max, k);
            assert(front.take(k) =~= s.take(k));
        } else {
            law_clipping_keeps_what_fits(front, max, k - 1);
            assert(s.take(k) =~= s);
        }
        let c = clipped(s, max);
        assert(s.subrange(0, c.len() as int) =~= front.subrange(0, c.len() as int));
    }
}

/// Sixteen-bit units: a character below U+10000 is one unit of its own value; any other is two, of
/// which the first holds the ten high bits of what it lies above that, and the second the ten low
/// ones. Units of two texts together are those of the one and then those of the other.
pub proof fn law_sixteen_bit_units(a: Seq<char>, b: Seq<char>, c: char)
    ensures
        utf16(a + b) == utf16(a) + utf16(b),
        (c as u32) < 0x10000 ==> utf16(seq![c]) == seq![c as u16],
        (c as u32) >= 0x10000 ==> {
            &&& utf16(seq![c]).len() == 2
            &&& 0xD800 <= utf16(seq![c])[0] < 0xDC00 <= utf16(seq![c])[1] < 0xE000
            &&& 0x10000 + (utf16(seq![c])[0] - 0xD800) * 0x400 + (utf16(seq![c])[1] - 0xDC00)
                == c as u32
        },
    decreases b.len(),
{
    reveal_with_fuel(utf16, 2);
    assert(seq![c].drop_last() =~= Seq::<char>::empty());
    assert(seq![c].last() == c);
    if (c as u32) < 0x10000 {
        assert(utf16(seq![c]) =~= seq![c as u16]);
    } else {
        let n = c as u32 - 0x10000;
        assert(0 <= n < 0x100000);
        assert(utf16(seq![c]) =~= seq![
            (0xD800 + n / 0x400) as u16,
            (0xDC00 + n % 0x400) as u16,
        ]);
    }
    if b.len() == 0 {
        assert(a + b =~= a);
        assert(utf16(a) + utf16(b) =~= utf16(a));
    } else {
        law_sixteen_bit_units(a, b.drop_last(), c);
        assert((a + b).drop_last() =~= a + b.drop_last());
        assert((a + b).last() == b.last());
        assert(utf16(a + b) =~= utf16(a) + utf16(b));
    }
}

/// Joining puts the separator between each two texts, and nowhere else.
pub proof fn law_joining_alternates(a: Seq<Seq<char>>, b: Seq<Seq<char>>, sep: Seq<char>)
    ensures
        a.len() > 0 && b.len() > 0 ==> joined(a + b, sep) == joined(a, sep) + sep + joined(b, sep),
        a.len() == 1 ==> joined(a, sep) == a[0],
        a.len() == 0 ==> joined(a, sep).len() == 0,
    decreases b.len(),
{
    if a.len() > 0 && b.len() > 0 {
        assert((a + b).last() == b.last());
        if b.len() == 1 {
            assert((a + b).drop_last() =~= a);
        } else {
            law_joining_alternates(a, b.drop_last(), sep);
            assert((a + b).drop_last() =~= a + b.drop_last());
            assert(joined(a + b, sep) =~= joined(a, sep) + sep + joined(b, sep));
        }
    }
}

/// A signed number is its digits, behind a minus sign where it is below zero.
pub proof fn law_signed_numbers(n: nat)
    ensures
        signed(n as int) == decimal(n),
        n > 0 ==> signed(-(n as int)) == seq!['-'] + decimal(n),
{
}

/// Replacing keeps the length and every character that is not listed.
pub proof fn law_replacing_touches_the_listed(s: Seq<char>, from: Seq<char>, to: char, i: int)
    requires
        0 <= i < s.len(),
    ensures
        replaced(s, from, to).len() == s.len(),
        from.contains(s[i]) ==> replaced(s, from, to)[i] == to,
        !from.contains(s[i]) ==> replaced(s, from, to)[i] == s[i],
{
}

/// Which ASCII characters are letters or digits.
pub proof fn law_letters_and_digits(c: char)
    requires
        c as u32 <= 0x7f,
    ensures
        letter_or_digit(c) <==> 48 <= c as u32 <= 57 || 65 <= c as u32 <= 90 || 97 <= c as u32
            <= 122,
{
}

} // verus!
