//! Text helpers: searching, joining, replacing, and rendering integers in decimal.

use vstd::prelude::*;
use vstd::string::*;

verus! {

/// The digit `d` as a character.
pub open spec fn digit_char(d: int) -> char {
    (48 + d) as char
}

/// The decimal digits of `n`, most significant first, without leading zeros.
pub open spec fn nat_chars(n: nat) -> Seq<char>
    decreases n,
{
    if n < 10 {
        seq![digit_char(n as int)]
    } else {
        nat_chars(n / 10).push(digit_char((n % 10) as int))
    }
}

/// The decimal rendering of `i`, with a leading minus sign when it is negative.
pub open spec fn int_chars(i: int) -> Seq<char> {
    if i < 0 {
        seq!['-'] + nat_chars((-i) as nat)
    } else {
        nat_chars(i as nat)
    }
}

/// What follows the first occurrence of `c` in `s`, if there is one.
pub open spec fn after_first(s: Seq<char>, c: char) -> Option<Seq<char>>
    decreases s.len(),
{
    if s.len() == 0 {
        None
    } else if s[0] == c {
        Some(s.skip(1))
    } else {
        after_first(s.skip(1), c)
    }
}

/// `parts` in order, with `sep` between neighbours.
pub open spec fn joined(parts: Seq<Seq<char>>, sep: Seq<char>) -> Seq<char>
    decreases parts.len(),
{
    if parts.len() == 0 {
        Seq::empty()
    } else if parts.len() == 1 {
        parts[0]
    } else {
        joined(parts.drop_last(), sep) + sep + parts.last()
    }
}

/// `s` with each occurrence of `pat`, found from left to right without overlap, replaced by `by`.
pub open spec fn replaced(s: Seq<char>, pat: Seq<char>, by: Seq<char>) -> Seq<char>
    decreases s.len(),
{
    if pat.len() == 0 || s.len() < pat.len() {
        s
    } else if s.take(pat.len() as int) == pat {
        by + replaced(s.skip(pat.len() as int), pat, by)
    } else {
        seq![s[0]] + replaced(s.skip(1), pat, by)
    }
}

/// The views of a sequence of strings.
pub open spec fn texts(v: Seq<String>) -> Seq<Seq<char>> {
    v.map_values(|s: String| s@)
}

/// The lower-case form of an ASCII character.
pub open spec fn ascii_lower(c: char) -> char {
    if 'A' <= c && c <= 'Z' {
        (c as int + 32) as char
    } else {
        c
    }
}

/// The upper-case form of an ASCII character.
pub open spec fn ascii_upper(c: char) -> char {
    if 'a' <= c && c <= 'z' {
        (c as int - 32) as char
    } else {
        c
    }
}

/// Whether every character of `s` is ASCII.
pub open spec fn all_ascii(s: Seq<char>) -> bool {
    forall|i: int| 0 <= i < s.len() ==> (#[trigger] s[i]) as int <= 127
}

/// The lower-case form of a string, as Unicode defines it.
pub uninterp spec fn lowercase(s: Seq<char>) -> Seq<char>;

/// The upper-case form of a string, as Unicode defines it.
pub uninterp spec fn uppercase(s: Seq<char>) -> Seq<char>;

/// `String::push` appends the character at the end.
pub assume_specification[ String::push ](s: &mut String, ch: char)
    ensures
        final(s)@ == old(s)@.push(ch),
;

/// Calls `str::to_lowercase`. The result is a function of the characters alone; on ASCII text it
/// is the letter-by-letter mapping of `A`..`Z` to `a`..`z`.
#[verifier::external_body]
pub(crate) fn to_lower(s: &str) -> (r: String)
    ensures
        r@ == lowercase(s@),
        all_ascii(s@) ==> r@ == s@.map_values(|c: char| ascii_lower(c)),
{
    s.to_lowercase()
}

/// Calls `str::to_uppercase`. The result is a function of the characters alone; on ASCII text it
/// is the letter-by-letter mapping of `a`..`z` to `A`..`Z`.
#[verifier::external_body]
pub(crate) fn to_upper(s: &str) -> (r: String)
    ensures
        r@ == uppercase(s@),
        all_ascii(s@) ==> r@ == s@.map_values(|c: char| ascii_upper(c)),
{
    s.to_uppercase()
}

/// The characters of `s`.
pub fn chars_of(s: &str) -> (v: Vec<char>)
    ensures
        v@ == s@,
{
    let mut v: Vec<char> = Vec::new();
    for c in it: s.chars()
        invariant
            v@ == it.seq().take(it.index() as int),
            it.seq() == s@,
    {
        v.push(c);
    }
    v
}

/// The string made of `chars[from..to]`.
pub fn text_of(chars: &Vec<char>, from: usize, to: usize) -> (s: String)
    requires
        from <= to <= chars@.len(),
    ensures
        s@ == chars@.subrange(from as int, to as int),
{
    let mut s = String::new();
    let mut i: usize = from;
    while i < to
        invariant
            from <= i <= to <= chars@.len(),
            s@ == chars@.subrange(from as int, i as int),
        decreases to - i,
    {
        s.push(chars[i]);
        i += 1;
        assert(s@ =~= chars@.subrange(from as int, i as int));
    }
    s
}

/// Whether two strings hold the same characters.
pub fn same(a: &str, b: &str) -> (r: bool)
    ensures
        r == (a@ == b@),
{
    a.to_owned() == b.to_owned()
}

/// Whether `s` begins with `prefix`.
pub fn starts_with(s: &str, prefix: &str) -> (r: bool)
    ensures
        r == prefix@.is_prefix_of(s@),
{
    let sc = chars_of(s);
    let pc = chars_of(prefix);
    if pc.len() > sc.len() {
        return false;
    }
    let mut i: usize = 0;
    while i < pc.len()
        invariant
            i <= pc@.len() <= sc@.len(),
            sc@ == s@,
            pc@ == prefix@,
            forall|j: int| 0 <= j < i ==> pc@[j] == sc@[j],
        decreases pc.len() - i,
    {
        if pc[i] != sc[i] {
            assert(pc@[i as int] != s@.subrange(0, pc@.len() as int)[i as int]);
            return false;
        }
        i += 1;
    }
    assert(prefix@ =~= s@.subrange(0, prefix@.len() as int));
    true
}

/// What follows the first `c` in `s`.
pub fn split_after(s: &str, c: char) -> (r: Option<String>)
    ensures
        match r {
            Some(t) => after_first(s@, c) == Some(t@),
            None => after_first(s@, c) is None,
        },
{
    let chars = chars_of(s);
    let mut i: usize = 0;
    assert(s@.skip(0) =~= s@);
    while i < chars.len()
        invariant
            i <= chars@.len(),
            chars@ == s@,
            after_first(s@, c) == after_first(s@.skip(i as int), c),
        decreases chars.len() - i,
    {
        if chars[i] == c {
            let t = text_of(&chars, i + 1, chars.len());
            assert(t@ =~= s@.skip(i as int).skip(1));
            return Some(t);
        }
        assert(s@.skip(i as int).skip(1) =~= s@.skip(i + 1));
        i += 1;
    }
    None
}

/// `parts` in order, with `sep` between neighbours.
pub fn join(parts: &Vec<String>, sep: &str) -> (s: String)
    ensures
        s@ == joined(texts(parts@), sep@),
{
    let mut s = String::new();
    let mut i: usize = 0;
    while i < parts.len()
        invariant
            i <= parts@.len(),
            s@ == joined(texts(parts@).take(i as int), sep@),
        decreases parts.len() - i,
    {
        let ghost next = texts(parts@).take(i + 1);
        assert(next.drop_last() =~= texts(parts@).take(i as int));
        assert(next.last() == parts@[i as int]@);
        if i > 0 {
            s.append(sep);
        }
        s.append(parts[i].as_str());
        i += 1;
        assert(s@ =~= joined(next, sep@));
    }
    assert(texts(parts@).take(i as int) =~= texts(parts@));
    s
}

/// Whether `pat` stands in `chars` at position `at`.
fn occurs_at(chars: &Vec<char>, at: usize, pat: &Vec<char>) -> (r: bool)
    requires
        at <= chars@.len(),
    ensures
        r == (at + pat@.len() <= chars@.len() && chars@.skip(at as int).take(pat@.len() as int)
            == pat@),
{
    if pat.len() > chars.len() - at {
        return false;
    }
    let mut j: usize = 0;
    while j < pat.len()
        invariant
            j <= pat@.len(),
            at + pat.len() <= chars.len(),
            forall|k: int| 0 <= k < j ==> pat@[k] == chars@[at + k],
        decreases pat.len() - j,
    {
        if pat[j] != chars[at + j] {
            assert(chars@.skip(at as int).take(pat@.len() as int)[j as int] != pat@[j as int]);
            return false;
        }
        j += 1;
    }
    assert(chars@.skip(at as int).take(pat@.len() as int) =~= pat@);
    true
}

/// `s` with each occurrence of `pat` replaced by `by`.
pub fn replace(s: &str, pat: &str, by: &str) -> (r: String)
    ensures
        r@ == replaced(s@, pat@, by@),
{
    let chars = chars_of(s);
    let p = chars_of(pat);
    if p.len() == 0 {
        return s.to_owned();
    }
    let mut out = String::new();
    let mut i: usize = 0;
    assert(s@.skip(0) =~= s@);
    assert(out@ + replaced(s@, pat@, by@) =~= replaced(s@, pat@, by@));
    while i < chars.len()
        invariant
            i <= chars@.len(),
            chars@ == s@,
            p@ == pat@,
            p@.len() > 0,
            out@ + replaced(s@.skip(i as int), pat@, by@) == replaced(s@, pat@, by@),
        decreases chars.len() - i,
    {
        let ghost rest = s@.skip(i as int);
        let ghost before = out@;
        if occurs_at(&chars, i, &p) {
            out.append(by);
            assert(rest.skip(p@.len() as int) =~= s@.skip(i + p@.len()));
            assert(before + (by@ + replaced(s@.skip(i + p@.len()), pat@, by@)) =~= out@ + replaced(
                s@.skip(i + p@.len()),
                pat@,
                by@,
            ));
            i += p.len();
        } else {
            out.push(chars[i]);
            proof {
                if rest.len() < pat@.len() {
                    assert(before + rest =~= out@ + s@.skip(i + 1));
                } else {
                    assert(rest.skip(1) =~= s@.skip(i + 1));
                    assert(before + (seq![rest[0]] + replaced(s@.skip(i + 1), pat@, by@)) =~= out@
                        + replaced(s@.skip(i + 1), pat@, by@));
                }
            }
            i += 1;
        }
    }
    assert(replaced(s@.skip(i as int), pat@, by@) =~= Seq::<char>::empty());
    assert(out@ + Seq::<char>::empty() =~= out@);
    out
}

/// The digit `d` as a character.
pub fn digit(d: u8) -> (c: char)
    requires
        d < 10,
    ensures
        c == digit_char(d as int),
{
    (48 + d) as char
}

/// The decimal digits of `n`.
pub fn nat_text(n: u128) -> (s: String)
    ensures
        s@ == nat_chars(n as nat),
    decreases n,
{
    if n < 10 {
        let mut s = String::new();
        s.push(digit(n as u8));
        assert(s@ =~= nat_chars(n as nat));
        s
    } else {
        let mut s = nat_text(n / 10);
        s.push(digit((n % 10) as u8));
        s
    }
}

/// The decimal rendering of `i`.
pub fn i64_text(i: i64) -> (s: String)
    ensures
        s@ == int_chars(i as int),
{
    if i < 0 {
        let mut s = String::new();
        s.push('-');
        let m: i128 = -(i as i128);
        s.append(nat_text(m as u128).as_str());
        assert(s@ =~= int_chars(i as int));
        s
    } else {
        nat_text(i as u128)
    }
}

/// Whether a text holds another.
pub open spec fn holds(text: Seq<char>, part: Seq<char>) -> bool {
    exists|i: int|
        0 <= i <= text.len() - part.len() && #[trigger] text.subrange(i, i + part.len()) == part
}

/// A text holds what its last line holds.
pub proof fn lemma_holds_within(a: Seq<char>, line: Seq<char>, part: Seq<char>)
    requires
        holds(line, part),
    ensures
        holds(a + line, part),
{
    let i = choose|i: int|
        0 <= i <= line.len() - part.len() && #[trigger] line.subrange(i, i + part.len()) == part;
    let k = a.len() + i;
    assert((a + line).subrange(k, k + part.len()) =~= part);
}

/// A text that goes on holds what it held.
pub proof fn lemma_holds_more(a: Seq<char>, b: Seq<char>, part: Seq<char>)
    requires
        holds(a, part),
    ensures
        holds(a + b, part),
{
    let i = choose|i: int|
        0 <= i <= a.len() - part.len() && #[trigger] a.subrange(i, i + part.len()) == part;
    assert((a + b).subrange(i, i + part.len()) =~= part);
}

/// A text holds whatever is held by what it holds.
pub proof fn lemma_holds_trans(a: Seq<char>, b: Seq<char>, c: Seq<char>)
    requires
        holds(a, b),
        holds(b, c),
    ensures
        holds(a, c),
{
    let i = choose|i: int|
        0 <= i <= a.len() - b.len() && #[trigger] a.subrange(i, i + b.len()) == b;
    let j = choose|j: int|
        0 <= j <= b.len() - c.len() && #[trigger] b.subrange(j, j + c.len()) == c;
    let k = i + j;
    assert(a.subrange(k, k + c.len()) =~= c) by {
        assert forall|n: int| 0 <= n < c.len() implies a[k + n] == c[n] by {
            assert(b[j + n] == c[n]) by {
                assert(b.subrange(j, j + c.len())[n] == b[j + n]);
            }
            assert(a.subrange(i, i + b.len())[j + n] == a[k + n]);
        }
    }
}

/// Texts that are joined hold each of them.
pub proof fn lemma_joined_holds(parts: Seq<Seq<char>>, sep: Seq<char>, i: int)
    requires
        0 <= i < parts.len(),
    ensures
        holds(joined(parts, sep), parts[i]),
    decreases parts.len(),
{
    let last = parts.last();
    if parts.len() == 1 {
        assert(last.subrange(0, 0int + last.len()) =~= last);
    } else if i == parts.len() - 1 {
        assert(last.subrange(0, 0int + last.len()) =~= last);
        lemma_holds_within(joined(parts.drop_last(), sep) + sep, last, last);
    } else {
        lemma_joined_holds(parts.drop_last(), sep, i);
        lemma_holds_more(joined(parts.drop_last(), sep), sep, parts[i]);
        lemma_holds_more(joined(parts.drop_last(), sep) + sep, last, parts[i]);
    }
}

/// A text holds what its last three parts make up.
pub proof fn lemma_holds_three(x: Seq<char>, a: Seq<char>, b: Seq<char>, c: Seq<char>)
    ensures
        holds(x + a + b + c, a + b + c),
{
    let part = a + b + c;
    assert(x + a + b + c =~= x + part);
    assert(part.subrange(0, 0int + part.len()) =~= part);
    lemma_holds_within(x, part, part);
}

/// What is joined goes on with the separator and the next text, and one text is joined as it is.
pub proof fn law_joined_goes_on(parts: Seq<Seq<char>>, sep: Seq<char>, next: Seq<char>)
    ensures
        joined(seq![], sep).len() == 0,
        joined(seq![next], sep) == next,
        parts.len() > 0 ==> joined(parts.push(next), sep) == joined(parts, sep) + sep + next,
{
    assert(parts.push(next).drop_last() =~= parts);
    assert(parts.push(next).last() == next);
}

} // verus!
