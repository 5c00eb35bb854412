//! JSON texts, read and written with `serde_json`.
//!
//! A text is taken apart level by level: what a message does not read stays as it is.

use vstd::prelude::*;
use vstd::string::*;
use crate::decimal::{decimal_value, in_range, parse_decimal};
use crate::text::{
    chars_of, holds, join, joined, lemma_holds_more, lemma_holds_within, lemma_joined_holds, same,
    texts,
};

verus! {

/// A JSON text: a document, or the text of a value in one.
#[derive(Clone, Debug)]
pub struct Json {
    pub text: String,
}

impl View for Json {
    type V = Seq<char>;

    open spec fn view(&self) -> Seq<char> {
        self.text@
    }
}

/// What the members of an object hold: their keys and the texts of their values.
pub type Members = Seq<(Seq<char>, Seq<char>)>;

/// The members of the object that a text spells, each key once; none where it spells no object.
pub uninterp spec fn members(text: Seq<char>) -> Option<Seq<(Seq<char>, Seq<char>)>>;

/// The texts of the elements of the array that a text spells; none where it spells no array.
pub uninterp spec fn elements(text: Seq<char>) -> Option<Seq<Seq<char>>>;

/// The string that a text spells; none where it spells no string.
pub uninterp spec fn string(text: Seq<char>) -> Option<Seq<char>>;

/// The integer of 64 bits with a sign that a text spells; none where it spells no such integer.
pub uninterp spec fn signed(text: Seq<char>) -> Option<i64>;

/// The integer of 64 bits without a sign that a text spells; none where it spells no such integer.
pub uninterp spec fn unsigned(text: Seq<char>) -> Option<u64>;

/// Whether a text spells a document all of whose values can be held.
pub uninterp spec fn is_document(text: Seq<char>) -> bool;

/// The keys and the texts of values.
pub open spec fn member_texts(v: Seq<(String, String)>) -> Seq<(Seq<char>, Seq<char>)> {
    v.map_values(|m: (String, String)| (m.0@, m.1@))
}

/// Calls `serde_json::from_str` for a map from strings to `serde_json::value::RawValue`, which holds
/// the text of a value as it stands there, without the spaces around it. Of a key that is repeated
/// the last value counts. The outcome is a function of the text.
#[verifier::external_body]
fn read_members(text: &str) -> (r: Option<Vec<(String, String)>>)
    ensures
        match r {
            Some(v) => members(text@) == Some(member_texts(v@)),
            None => members(text@) is None,
        },
{
    let map: std::collections::BTreeMap<String, Box<serde_json::value::RawValue>> =
        serde_json::from_str(text).ok()?;
    Some(map.into_iter().map(|(key, raw)| (key, raw.get().to_string())).collect())
}

/// Calls `serde_json::from_str` for a vector of `serde_json::value::RawValue`. The outcome is a
/// function of the text.
#[verifier::external_body]
fn read_elements(text: &str) -> (r: Option<Vec<String>>)
    ensures
        match r {
            Some(v) => elements(text@) == Some(texts(v@)),
            None => elements(text@) is None,
        },
{
    let list: Vec<Box<serde_json::value::RawValue>> = serde_json::from_str(text).ok()?;
    Some(list.into_iter().map(|raw| raw.get().to_string()).collect())
}

/// Calls `serde_json::from_str` for a `String`. The outcome is a function of the text.
#[verifier::external_body]
fn read_string(text: &str) -> (r: Option<String>)
    ensures
        match r {
            Some(s) => string(text@) == Some(s@),
            None => string(text@) is None,
        },
{
    serde_json::from_str(text).ok()
}

/// Calls `serde_json::from_str` for an `i64`. The outcome is a function of the text.
#[verifier::external_body]
fn read_signed(text: &str) -> (r: Option<i64>)
    ensures
        r == signed(text@),
{
    serde_json::from_str(text).ok()
}

/// Calls `serde_json::from_str` for a `u64`. The outcome is a function of the text.
#[verifier::external_body]
fn read_unsigned(text: &str) -> (r: Option<u64>)
    ensures
        r == unsigned(text@),
{
    serde_json::from_str(text).ok()
}

/// Calls `serde_json::from_str` for a `serde_json::Value`. Whether that succeeds is a function of the
/// text.
#[verifier::external_body]
fn read_document(text: &str) -> (r: bool)
    ensures
        r == is_document(text@),
{
    serde_json::from_str::<serde_json::Value>(text).is_ok()
}

/// Whether the literal of a string holds no escape, so that its text is that of the string.
pub open spec fn is_plain(text: Seq<char>) -> bool {
    forall|i: int| 0 <= i < text.len() ==> #[trigger] text[i] != '\\'
}

/// The texts of documents.
pub open spec fn views(v: Seq<Json>) -> Seq<Seq<char>> {
    v.map_values(|x: Json| x@)
}

impl Json {
    /// A JSON text.
    pub fn new(text: &str) -> (j: Json)
        ensures
            j@ == text@,
    {
        Json { text: text.to_owned() }
    }

    /// Whether the text spells a document all of whose values can be held.
    pub fn is_valid(&self) -> (r: bool)
        ensures
            r == is_document(self@),
    {
        read_document(self.text.as_str())
    }

    /// The string that the text spells.
    pub fn as_text(&self) -> (r: Option<String>)
        ensures
            match r {
                Some(s) => string(self@) == Some(s@),
                None => string(self@) is None,
            },
    {
        read_string(self.text.as_str())
    }

    /// Whether the text holds no escape.
    pub fn is_plain(&self) -> (r: bool)
        ensures
            r == is_plain(self@),
    {
        let chars = chars_of(self.text.as_str());
        let mut i: usize = 0;
        while i < chars.len()
            invariant
                i <= chars@.len(),
                chars@ == self@,
                forall|k: int| 0 <= k < i ==> #[trigger] chars@[k] != '\\',
            decreases chars.len() - i,
        {
            if chars[i] == '\\' {
                return false;
            }
            i += 1;
        }
        true
    }

    /// The elements of the array that the text spells.
    pub fn as_list(&self) -> (r: Option<Vec<Json>>)
        ensures
            match r {
                Some(v) => elements(self@) == Some(views(v@)),
                None => elements(self@) is None,
            },
    {
        let items = read_elements(self.text.as_str())?;
        let ghost all = items@;
        let mut out: Vec<Json> = Vec::new();
        for text in it: items
            invariant
                it.seq() == all,
                out@.len() == it.index(),
                forall|i: int| 0 <= i < out@.len() ==> (#[trigger] out@[i])@ == all[i]@,
        {
            out.push(Json { text });
        }
        assert(views(out@) =~= texts(all));
        Some(out)
    }

    /// The members of the object that the text spells.
    pub fn as_record(&self) -> (r: Option<Record>)
        ensures
            match r {
                Some(v) => members(self@) == Some(v@),
                None => members(self@) is None,
            },
    {
        let items = read_members(self.text.as_str())?;
        let ghost all = items@;
        let mut out: Vec<(String, Json)> = Vec::new();
        for item in it: items
            invariant
                it.seq() == all,
                out@.len() == it.index(),
                forall|i: int|
                    0 <= i < out@.len() ==> (#[trigger] out@[i]).0@ == all[i].0@ && out@[i].1@
                        == all[i].1@,
        {
            out.push((item.0, Json { text: item.1 }));
        }
        let record = Record { members: out };
        assert(record@ =~= member_texts(all));
        Some(record)
    }
}

/// The members of an object.
#[derive(Clone, Debug)]
pub struct Record {
    pub members: Vec<(String, Json)>,
}

impl View for Record {
    type V = Seq<(Seq<char>, Seq<char>)>;

    open spec fn view(&self) -> Seq<(Seq<char>, Seq<char>)> {
        self.members@.map_values(|m: (String, Json)| (m.0@, m.1@))
    }
}

/// The text of the value of the first member with a key.
pub open spec fn field(r: Members, key: Seq<char>) -> Option<Seq<char>>
    decreases r.len(),
{
    if r.len() == 0 {
        None
    } else if r[0].0 == key {
        Some(r[0].1)
    } else {
        field(r.skip(1), key)
    }
}

/// The integer member `key` with a sign, where it lies between the bounds.
pub open spec fn int_at(r: Members, key: Seq<char>, lo: int, hi: int) -> Option<int> {
    match field(r, key) {
        Some(v) => match signed(v) {
            Some(i) => if lo <= i <= hi {
                Some(i as int)
            } else {
                None
            },
            None => None,
        },
        None => None,
    }
}

/// The integer member `key` without a sign, where it is no greater than the bound.
pub open spec fn nat_at(r: Members, key: Seq<char>, hi: int) -> Option<int> {
    match field(r, key) {
        Some(v) => match unsigned(v) {
            Some(i) => if i <= hi {
                Some(i as int)
            } else {
                None
            },
            None => None,
        },
        None => None,
    }
}

/// The string member `key`.
pub open spec fn text_at(r: Members, key: Seq<char>) -> Option<Seq<char>> {
    match field(r, key) {
        Some(v) => string(v),
        None => None,
    }
}

/// The string member `key`, where it is written without an escape.
pub open spec fn plain_at(r: Members, key: Seq<char>) -> Option<Seq<char>> {
    match field(r, key) {
        Some(v) => if is_plain(v) {
            string(v)
        } else {
            None
        },
        None => None,
    }
}

/// The boolean member `key`.
pub open spec fn flag_at(r: Members, key: Seq<char>) -> Option<bool> {
    match field(r, key) {
        Some(v) => if v == "true"@ {
            Some(true)
        } else if v == "false"@ {
            Some(false)
        } else {
            None
        },
        None => None,
    }
}

/// The elements of the array member `key`.
pub open spec fn list_at(r: Members, key: Seq<char>) -> Option<Seq<Seq<char>>> {
    match field(r, key) {
        Some(v) => elements(v),
        None => None,
    }
}

/// The value, in units, of the decimal that the string member `key` holds.
pub open spec fn decimal_at(r: Members, key: Seq<char>) -> Option<int> {
    match text_at(r, key) {
        Some(s) => decimal_value(s),
        None => None,
    }
}

/// Whether the member `key` is absent or null.
pub open spec fn absent(r: Members, key: Seq<char>) -> bool {
    match field(r, key) {
        Some(v) => v == "null"@,
        None => true,
    }
}

/// The string member `key`, where absent and null stand for none.
pub open spec fn opt_text_at(r: Members, key: Seq<char>) -> Option<Option<Seq<char>>> {
    if absent(r, key) {
        Some(None)
    } else {
        match text_at(r, key) {
            Some(s) => Some(Some(s)),
            None => None,
        }
    }
}

/// The integer member `key` with a sign, where absent and null stand for none.
pub open spec fn opt_int_at(r: Members, key: Seq<char>, lo: int, hi: int) -> Option<Option<int>> {
    if absent(r, key) {
        Some(None)
    } else {
        match int_at(r, key, lo, hi) {
            Some(i) => Some(Some(i)),
            None => None,
        }
    }
}

/// The integer member `key` without a sign, where absent and null stand for none.
pub open spec fn opt_nat_at(r: Members, key: Seq<char>, hi: int) -> Option<Option<int>> {
    if absent(r, key) {
        Some(None)
    } else {
        match nat_at(r, key, hi) {
            Some(i) => Some(Some(i)),
            None => None,
        }
    }
}

/// The boolean member `key`, where absent and null stand for none.
pub open spec fn opt_flag_at(r: Members, key: Seq<char>) -> Option<Option<bool>> {
    if absent(r, key) {
        Some(None)
    } else {
        match flag_at(r, key) {
            Some(b) => Some(Some(b)),
            None => None,
        }
    }
}

impl Record {
    /// The value of a member.
    pub fn get(&self, key: &str) -> (r: Option<&Json>)
        ensures
            match r {
                Some(v) => field(self@, key@) == Some(v@),
                None => field(self@, key@) is None,
            },
    {
        let mut i: usize = 0;
        assert(self@.skip(0) =~= self@);
        while i < self.members.len()
            invariant
                i <= self.members@.len(),
                field(self@, key@) == field(self@.skip(i as int), key@),
            decreases self.members.len() - i,
        {
            let ghost rest = self@.skip(i as int);
            assert(rest[0] == self@[i as int]);
            if same(self.members[i].0.as_str(), key) {
                return Some(&self.members[i].1);
            }
            assert(rest.skip(1) =~= self@.skip(i + 1));
            i += 1;
        }
        None
    }

    /// Reads an integer member with a sign.
    pub fn get_int(&self, key: &str, lo: i64, hi: i64) -> (r: Option<i64>)
        ensures
            match r {
                Some(i) => int_at(self@, key@, lo as int, hi as int) == Some(i as int),
                None => int_at(self@, key@, lo as int, hi as int) is None,
            },
    {
        let v = self.get(key)?;
        let i: i64 = read_signed(v.text.as_str())?;
        if lo <= i && i <= hi {
            Some(i)
        } else {
            None
        }
    }

    /// Reads an `i64` member.
    pub fn get_i64(&self, key: &str) -> (r: Option<i64>)
        ensures
            match r {
                Some(i) => int_at(self@, key@, i64::MIN as int, i64::MAX as int) == Some(i as int),
                None => int_at(self@, key@, i64::MIN as int, i64::MAX as int) is None,
            },
    {
        self.get_int(key, i64::MIN, i64::MAX)
    }

    /// Reads an `i32` member.
    pub fn get_i32(&self, key: &str) -> (r: Option<i32>)
        ensures
            match r {
                Some(i) => int_at(self@, key@, i32::MIN as int, i32::MAX as int) == Some(i as int),
                None => int_at(self@, key@, i32::MIN as int, i32::MAX as int) is None,
            },
    {
        match self.get_int(key, i32::MIN as i64, i32::MAX as i64) {
            Some(i) => Some(i as i32),
            None => None,
        }
    }

    /// Reads a `u64` member.
    pub fn get_u64(&self, key: &str) -> (r: Option<u64>)
        ensures
            match r {
                Some(i) => nat_at(self@, key@, u64::MAX as int) == Some(i as int),
                None => nat_at(self@, key@, u64::MAX as int) is None,
            },
    {
        let v = self.get(key)?;
        read_unsigned(v.text.as_str())
    }

    /// Reads a `u32` member.
    pub fn get_u32(&self, key: &str) -> (r: Option<u32>)
        ensures
            match r {
                Some(i) => nat_at(self@, key@, u32::MAX as int) == Some(i as int),
                None => nat_at(self@, key@, u32::MAX as int) is None,
            },
    {
        let i: u64 = self.get_u64(key)?;
        if i <= u32::MAX as u64 {
            Some(i as u32)
        } else {
            None
        }
    }

    /// Reads a string member.
    pub fn get_text(&self, key: &str) -> (r: Option<String>)
        ensures
            match r {
                Some(s) => text_at(self@, key@) == Some(s@),
                None => text_at(self@, key@) is None,
            },
    {
        let v = self.get(key)?;
        v.as_text()
    }

    /// Reads a string member that is written without an escape.
    pub fn get_plain(&self, key: &str) -> (r: Option<String>)
        ensures
            match r {
                Some(s) => plain_at(self@, key@) == Some(s@),
                None => plain_at(self@, key@) is None,
            },
    {
        let v = self.get(key)?;
        if v.is_plain() {
            v.as_text()
        } else {
            None
        }
    }

    /// Reads a boolean member.
    pub fn get_flag(&self, key: &str) -> (r: Option<bool>)
        ensures
            r == flag_at(self@, key@),
    {
        let v = self.get(key)?;
        if same(v.text.as_str(), "true") {
            Some(true)
        } else if same(v.text.as_str(), "false") {
            Some(false)
        } else {
            None
        }
    }

    /// Reads an array member.
    pub fn get_list(&self, key: &str) -> (r: Option<Vec<Json>>)
        ensures
            match r {
                Some(v) => list_at(self@, key@) == Some(views(v@)),
                None => list_at(self@, key@) is None,
            },
    {
        let v = self.get(key)?;
        v.as_list()
    }

    /// Reads a decimal from a string member.
    pub fn get_decimal(&self, key: &str) -> (r: Option<i128>)
        ensures
            match r {
                Some(x) => decimal_at(self@, key@) == Some(x as int) && in_range(x as int),
                None => decimal_at(self@, key@) is None,
            },
    {
        let s = self.get_text(key)?;
        parse_decimal(s.as_str())
    }

    /// Whether a member is absent or null.
    pub fn is_absent(&self, key: &str) -> (r: bool)
        ensures
            r == absent(self@, key@),
    {
        match self.get(key) {
            Some(v) => same(v.text.as_str(), "null"),
            None => true,
        }
    }

    /// Reads a string member that may be absent.
    pub fn get_opt_text(&self, key: &str) -> (r: Option<Option<String>>)
        ensures
            match r {
                Some(Some(s)) => opt_text_at(self@, key@) == Some(Some(s@)),
                Some(None) => opt_text_at(self@, key@) == Some(None::<Seq<char>>),
                None => opt_text_at(self@, key@) is None,
            },
    {
        if self.is_absent(key) {
            Some(None)
        } else {
            match self.get_text(key) {
                Some(s) => Some(Some(s)),
                None => None,
            }
        }
    }

    /// Reads an `i64` member that may be absent.
    pub fn get_opt_i64(&self, key: &str) -> (r: Option<Option<i64>>)
        ensures
            match r {
                Some(Some(i)) => opt_int_at(self@, key@, i64::MIN as int, i64::MAX as int) == Some(
                    Some(i as int),
                ),
                Some(None) => opt_int_at(self@, key@, i64::MIN as int, i64::MAX as int) == Some(
                    None::<int>,
                ),
                None => opt_int_at(self@, key@, i64::MIN as int, i64::MAX as int) is None,
            },
    {
        if self.is_absent(key) {
            Some(None)
        } else {
            match self.get_i64(key) {
                Some(i) => Some(Some(i)),
                None => None,
            }
        }
    }

    /// Reads a `u64` member that may be absent.
    pub fn get_opt_u64(&self, key: &str) -> (r: Option<Option<u64>>)
        ensures
            match r {
                Some(Some(i)) => opt_nat_at(self@, key@, u64::MAX as int) == Some(Some(i as int)),
                Some(None) => opt_nat_at(self@, key@, u64::MAX as int) == Some(None::<int>),
                None => opt_nat_at(self@, key@, u64::MAX as int) is None,
            },
    {
        if self.is_absent(key) {
            Some(None)
        } else {
            match self.get_u64(key) {
                Some(i) => Some(Some(i)),
                None => None,
            }
        }
    }

    /// Reads a boolean member that may be absent.
    pub fn get_opt_flag(&self, key: &str) -> (r: Option<Option<bool>>)
        ensures
            r == opt_flag_at(self@, key@),
    {
        if self.is_absent(key) {
            Some(None)
        } else {
            match self.get_flag(key) {
                Some(b) => Some(Some(b)),
                None => None,
            }
        }
    }
}

/// The digit that stands for `d` in lower-case hexadecimal.
pub open spec fn hex_char(d: int) -> char {
    if d < 10 {
        ('0' as u32 + d) as char
    } else {
        ('a' as u32 + d - 10) as char
    }
}

/// How a character is written inside a JSON string literal.
pub open spec fn escaped_char(c: char) -> Seq<char> {
    if c == '"' {
        seq!['\\', '"']
    } else if c == '\\' {
        seq!['\\', '\\']
    } else if c as u32 >= 0x20 {
        seq![c]
    } else if c as u32 == 0x08 {
        seq!['\\', 'b']
    } else if c == '\t' {
        seq!['\\', 't']
    } else if c == '\n' {
        seq!['\\', 'n']
    } else if c as u32 == 0x0c {
        seq!['\\', 'f']
    } else if c == '\r' {
        seq!['\\', 'r']
    } else {
        seq!['\\', 'u', '0', '0', hex_char(c as int / 16), hex_char(c as int % 16)]
    }
}

/// How characters are written inside a JSON string literal.
pub open spec fn escaped(s: Seq<char>) -> Seq<char>
    decreases s.len(),
{
    if s.len() == 0 {
        Seq::empty()
    } else {
        escaped(s.drop_last()) + escaped_char(s.last())
    }
}

/// The JSON string literal for `s`.
pub open spec fn quoted(s: Seq<char>) -> Seq<char> {
    seq!['"'] + escaped(s) + seq!['"']
}

/// Calls `serde_json::to_string` on a string, which cannot fail. It writes the characters between
/// quotes; quotes, backslashes and characters below U+0020 are escaped.
#[verifier::external_body]
pub(crate) fn quote(s: &str) -> (r: String)
    ensures
        r@ == quoted(s@),
{
    serde_json::to_string(s).unwrap()
}

/// A member of a JSON object that is being written.
pub open spec fn member_chars(m: (Seq<char>, Seq<char>)) -> Seq<char> {
    quoted(m.0) + ":"@ + m.1
}

/// The compact JSON object with the given keys and written values, in order.
pub open spec fn object_chars(members: Seq<(Seq<char>, Seq<char>)>) -> Seq<char> {
    "{"@ + joined(members.map_values(|m: (Seq<char>, Seq<char>)| member_chars(m)), ","@) + "}"@
}

/// The keys and written values of the members.
pub open spec fn member_views(v: Seq<(&'static str, String)>) -> Seq<(Seq<char>, Seq<char>)> {
    v.map_values(|m: (&'static str, String)| (m.0@, m.1@))
}

/// Writes a compact JSON object.
pub fn object_text(members: &Vec<(&'static str, String)>) -> (s: String)
    ensures
        s@ == object_chars(member_views(members@)),
{
    let mut parts: Vec<String> = Vec::new();
    let mut i: usize = 0;
    while i < members.len()
        invariant
            i <= members@.len(),
            parts@.len() == i,
            forall|k: int|
                0 <= k < i ==> (#[trigger] parts@[k])@ == member_chars(member_views(members@)[k]),
        decreases members.len() - i,
    {
        let mut part = quote(members[i].0);
        part.append(":");
        part.append(members[i].1.as_str());
        parts.push(part);
        i += 1;
    }
    let mut out = "{".to_owned();
    out.append(join(&parts, ",").as_str());
    out.append("}");
    proof {
        assert(texts(parts@) =~= member_views(members@).map_values(
            |m: (Seq<char>, Seq<char>)| member_chars(m),
        ));
    }
    out
}

/// A message that is sent as compact JSON.
pub trait ToJson {
    /// The JSON of the message.
    spec fn json(&self) -> Seq<char>;

    /// The JSON of the message.
    fn to_json(&self) -> (s: String)
        ensures
            s@ == self.json(),
    ;
}

/// A member of an object that is being written: its key between quotes, a colon, and its value.
pub open spec fn written_member(key: Seq<char>, value: Seq<char>) -> Seq<char> {
    quoted(key) + ":"@ + value
}

/// An object that is written holds every one of its members: its key between quotes, a colon, and
/// its own value, between braces.
pub proof fn law_object_holds_its_members(members: Seq<(Seq<char>, Seq<char>)>, i: int)
    requires
        0 <= i < members.len(),
    ensures
        holds(object_chars(members), written_member(members[i].0, members[i].1)),
        object_chars(members).first() == '{',
        object_chars(members).last() == '}',
{
    let parts = members.map_values(|m: (Seq<char>, Seq<char>)| member_chars(m));
    lemma_joined_holds(parts, ","@, i);
    assert(parts[i] == member_chars(members[i]));
    lemma_holds_within("{"@, joined(parts, ","@), parts[i]);
    lemma_holds_more("{"@ + joined(parts, ","@), "}"@, parts[i]);
    reveal_strlit("{");
    reveal_strlit("}");
}

/// A text without quotes, backslashes and control characters is written between quotes as it is.
pub proof fn law_plain_text_is_written_as_it_is(s: Seq<char>)
    requires
        forall|i: int|
            0 <= i < s.len() ==> #[trigger] s[i] != '"' && s[i] != '\\' && s[i] as u32 >= 0x20,
    ensures
        quoted(s) == seq!['"'] + s + seq!['"'],
{
    lemma_plain_escaped(s);
}

/// Such a text needs no escape.
proof fn lemma_plain_escaped(s: Seq<char>)
    requires
        forall|i: int|
            0 <= i < s.len() ==> #[trigger] s[i] != '"' && s[i] != '\\' && s[i] as u32 >= 0x20,
    ensures
        escaped(s) == s,
    decreases s.len(),
{
    if s.len() > 0 {
        assert forall|i: int| 0 <= i < s.drop_last().len() implies #[trigger] s.drop_last()[i]
            != '"' && s.drop_last()[i] != '\\' && s.drop_last()[i] as u32 >= 0x20 by {
            assert(s.drop_last()[i] == s[i]);
        }
        lemma_plain_escaped(s.drop_last());
        assert(s[s.len() - 1] == s.last());
        assert(escaped(s) =~= s);
    } else {
        assert(escaped(s) =~= s);
    }
}

/// The value of a key is that of the first member with it, and there is one just where a member has
/// the key.
pub proof fn law_first_member_with_the_key_counts(r: Members, key: Seq<char>, i: int)
    requires
        0 <= i < r.len(),
        r[i].0 == key,
    ensures
        field(r, key) is Some,
        (forall|k: int| 0 <= k < i ==> (#[trigger] r[k]).0 != key) ==> field(r, key) == Some(r[i].1),
    decreases r.len(),
{
    if r[0].0 != key {
        let rest = r.skip(1);
        assert(rest[i - 1] == r[i]);
        law_first_member_with_the_key_counts(rest, key, i - 1);
        if forall|k: int| 0 <= k < i ==> (#[trigger] r[k]).0 != key {
            assert forall|k: int| 0 <= k < i - 1 implies (#[trigger] rest[k]).0 != key by {
                assert(rest[k] == r[k + 1]);
            }
        }
    } else if i > 0 {
        assert(r[0].0 == key);
    }
}

/// A key that no member has, has no value.
pub proof fn law_missing_key_has_no_value(r: Members, key: Seq<char>)
    requires
        forall|k: int| 0 <= k < r.len() ==> (#[trigger] r[k]).0 != key,
    ensures
        field(r, key) is None,
    decreases r.len(),
{
    if r.len() > 0 {
        let rest = r.skip(1);
        assert(r[0].0 != key);
        assert forall|k: int| 0 <= k < rest.len() implies (#[trigger] rest[k]).0 != key by {
            assert(rest[k] == r[k + 1]);
        }
        law_missing_key_has_no_value(rest, key);
    }
}

/// What a member holds depends on the text of its value alone: a string is the string that the text
/// spells, a decimal is that of the string, a flag is one of the two words, and a member that may be
/// absent is absent where it is missing or null.
pub proof fn law_members_hold_their_values(r: Members, key: Seq<char>, v: Seq<char>)
    requires
        field(r, key) == Some(v),
    ensures
        text_at(r, key) == string(v),
        list_at(r, key) == elements(v),
        string(v) is Some ==> decimal_at(r, key) == decimal_value(string(v)->0),
        string(v) is None ==> decimal_at(r, key) is None,
        flag_at(r, key) == Some(true) <==> v == "true"@,
        flag_at(r, key) == Some(false) <==> v == "false"@,
        absent(r, key) <==> v == "null"@,
        v == "null"@ ==> opt_text_at(r, key) == Some(None::<Seq<char>>),
        v != "null"@ && string(v) is Some ==> opt_text_at(r, key) == Some(string(v)),
        signed(v) is Some ==> int_at(r, key, i64::MIN as int, i64::MAX as int) == Some(
            signed(v)->0 as int,
        ),
        signed(v) is None ==> int_at(r, key, i64::MIN as int, i64::MAX as int) is None,
        unsigned(v) is Some ==> nat_at(r, key, u64::MAX as int) == Some(unsigned(v)->0 as int),
        unsigned(v) is None ==> nat_at(r, key, u64::MAX as int) is None,
{
    reveal_strlit("true");
    reveal_strlit("false");
    assert("true"@.len() == 4 && "false"@.len() == 5);
}

} // verus!
