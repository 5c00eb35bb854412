//! Messages of the Binance spot interfaces and how they are read from JSON.
//!
//! Each message type says with `shape` which texts spell such a message, and with `reads`, field by
//! field, which message a text spells. `decode` yields the message where there is one. Fields are
//! spelled by an object, or by an array in their order.

pub mod rest;
pub mod stream;
pub mod wsapi;

use vstd::prelude::*;
use vstd::string::*;
use crate::decimal::decimal_value;
use crate::json::{
    absent, decimal_at, elements, field, int_at, is_document, is_plain, list_at, members, string,
    text_at, views, Json, Members, Record,
};
use crate::text::{lowercase, same, to_lower};
use crate::types::{OrdType, Side, Status, TimeInForce};

verus! {

/// The earliest time in milliseconds whose nanoseconds fit 64 bits.
pub const TIME_MIN: i64 = -9_223_372_036_854;

/// The latest time in milliseconds whose nanoseconds fit 64 bits.
pub const TIME_MAX: i64 = 9_223_372_036_854;

/// The side that a name on the wire stands for.
pub open spec fn side_named(s: Seq<char>) -> Side {
    if s == "BUY"@ {
        Side::Buy
    } else if s == "SELL"@ {
        Side::Sell
    } else {
        Side::Unsupported
    }
}

/// The order type that a name on the wire stands for. A `LIMIT_MAKER` order is a limit order.
pub open spec fn type_named(s: Seq<char>) -> OrdType {
    if s == "LIMIT"@ || s == "LIMIT_MAKER"@ {
        OrdType::Limit
    } else if s == "MARKET"@ {
        OrdType::Market
    } else {
        OrdType::Unsupported
    }
}

/// The time in force that a name on the wire stands for.
pub open spec fn tif_named(s: Seq<char>) -> TimeInForce {
    if s == "GTC"@ {
        TimeInForce::GTC
    } else if s == "GTX"@ {
        TimeInForce::GTX
    } else if s == "FOK"@ {
        TimeInForce::FOK
    } else if s == "IOC"@ {
        TimeInForce::IOC
    } else {
        TimeInForce::Unsupported
    }
}

/// The status that a name on the wire stands for.
pub open spec fn status_named(s: Seq<char>) -> Status {
    if s == "NEW"@ {
        Status::New
    } else if s == "PARTIALLY_FILLED"@ {
        Status::PartiallyFilled
    } else if s == "FILLED"@ {
        Status::Filled
    } else if s == "CANCELED"@ {
        Status::Canceled
    } else if s == "REJECTED"@ {
        Status::Rejected
    } else if s == "EXPIRED"@ || s == "EXPIRED_IN_MATCH"@ {
        Status::Expired
    } else {
        Status::Unsupported
    }
}

/// The string member `key` in lower case.
pub open spec fn lower_at(r: Members, key: Seq<char>) -> Option<Seq<char>> {
    match text_at(r, key) {
        Some(s) => Some(lowercase(s)),
        None => None,
    }
}

/// The time member `key`, in milliseconds.
pub open spec fn time_at(r: Members, key: Seq<char>) -> Option<int> {
    int_at(r, key, TIME_MIN as int, TIME_MAX as int)
}

/// The side named by the member `key`.
pub open spec fn side_at(r: Members, key: Seq<char>) -> Option<Side> {
    match text_at(r, key) {
        Some(s) => Some(side_named(s)),
        None => None,
    }
}

/// The order type named by the member `key`.
pub open spec fn type_at(r: Members, key: Seq<char>) -> Option<OrdType> {
    match text_at(r, key) {
        Some(s) => Some(type_named(s)),
        None => None,
    }
}

/// The time in force named by the member `key`.
pub open spec fn tif_at(r: Members, key: Seq<char>) -> Option<TimeInForce> {
    match text_at(r, key) {
        Some(s) => Some(tif_named(s)),
        None => None,
    }
}

/// The status named by the member `key`.
pub open spec fn status_at(r: Members, key: Seq<char>) -> Option<Status> {
    match text_at(r, key) {
        Some(s) => Some(status_named(s)),
        None => None,
    }
}

/// The integer member `key`, or `default` where there is no such member.
pub open spec fn int_or(r: Members, key: Seq<char>, lo: int, hi: int, default: int) -> Option<int> {
    if field(r, key) is None {
        Some(default)
    } else {
        int_at(r, key, lo, hi)
    }
}

/// The decimal member `key`, or zero where there is no such member.
pub open spec fn decimal_or_zero(r: Members, key: Seq<char>) -> Option<int> {
    if field(r, key) is None {
        Some(0)
    } else {
        decimal_at(r, key)
    }
}

/// The string member `key`, or the empty string where there is no such member.
pub open spec fn text_or_empty(r: Members, key: Seq<char>) -> Option<Seq<char>> {
    if field(r, key) is None {
        Some(Seq::empty())
    } else {
        text_at(r, key)
    }
}

/// The pair of strings that an array of two strings spells.
pub open spec fn pair(text: Seq<char>) -> Option<(Seq<char>, Seq<char>)> {
    match elements(text) {
        Some(v) => if v.len() == 2 {
            match (string(v[0]), string(v[1])) {
                (Some(a), Some(b)) => Some((a, b)),
                _ => None,
            }
        } else {
            None
        },
        None => None,
    }
}

/// The pair of strings that an array of two strings spells, where both are written without an
/// escape, if they have to be.
pub open spec fn level(text: Seq<char>, plain: bool) -> Option<(Seq<char>, Seq<char>)> {
    if plain && pair(text) is Some && !(is_plain(elements(text)->0[0]) && is_plain(
        elements(text)->0[1],
    )) {
        None
    } else {
        pair(text)
    }
}

/// Whether `levels` are the price levels that the array member `key` spells.
pub open spec fn levels_at(
    r: Members,
    key: Seq<char>,
    plain: bool,
    levels: Seq<(String, String)>,
) -> bool {
    match list_at(r, key) {
        Some(v) => {
            &&& v.len() == levels.len()
            &&& forall|i: int|
                0 <= i < v.len() ==> level(#[trigger] v[i], plain) == Some(
                    (levels[i].0@, levels[i].1@),
                )
        },
        None => false,
    }
}

/// Whether the array member `key` spells price levels.
pub open spec fn levels_shape(r: Members, key: Seq<char>, plain: bool) -> bool {
    match list_at(r, key) {
        Some(v) => all_levels(v, plain),
        None => false,
    }
}

/// Whether all elements spell price levels.
pub open spec fn all_levels(v: Seq<Seq<char>>, plain: bool) -> bool {
    forall|i: int| 0 <= i < v.len() ==> level(#[trigger] v[i], plain) is Some
}

/// Whether the array member `key` spells strings.
pub open spec fn texts_shape(r: Members, key: Seq<char>) -> bool {
    match list_at(r, key) {
        Some(v) => all_texts(v),
        None => false,
    }
}

/// Whether all elements spell strings.
pub open spec fn all_texts(v: Seq<Seq<char>>) -> bool {
    forall|i: int| 0 <= i < v.len() ==> string(#[trigger] v[i]) is Some
}

/// Whether `items` are the strings that the array member `key` spells.
pub open spec fn texts_at(r: Members, key: Seq<char>, items: Seq<String>) -> bool {
    match list_at(r, key) {
        Some(v) => {
            &&& v.len() == items.len()
            &&& forall|i: int| 0 <= i < v.len() ==> string(#[trigger] v[i]) == Some(items[i]@)
        },
        None => false,
    }
}

/// The characters of a string that may be absent.
pub open spec fn view_of(s: Option<String>) -> Option<Seq<char>> {
    match s {
        Some(s) => Some(s@),
        None => None,
    }
}

/// The value of an `i64` that may be absent.
pub open spec fn int_of(i: Option<i64>) -> Option<int> {
    match i {
        Some(i) => Some(i as int),
        None => None,
    }
}

/// The value of a `u64` that may be absent.
pub open spec fn nat_of(i: Option<u64>) -> Option<int> {
    match i {
        Some(i) => Some(i as int),
        None => None,
    }
}

/// Reads a string member in lower case.
pub(crate) fn get_lower(j: &Record, key: &str) -> (r: Option<String>)
    ensures
        match r {
            Some(s) => lower_at(j@, key@) == Some(s@),
            None => lower_at(j@, key@) is None,
        },
{
    match j.get_text(key) {
        Some(s) => Some(to_lower(s.as_str())),
        None => None,
    }
}

/// Reads a time member.
pub(crate) fn get_time(j: &Record, key: &str) -> (r: Option<i64>)
    ensures
        match r {
            Some(t) => time_at(j@, key@) == Some(t as int) && TIME_MIN <= t <= TIME_MAX,
            None => time_at(j@, key@) is None,
        },
{
    j.get_int(key, TIME_MIN, TIME_MAX)
}

/// Reads the side that a member names.
pub(crate) fn get_side(j: &Record, key: &str) -> (r: Option<Side>)
    ensures
        r == side_at(j@, key@),
{
    match j.get_text(key) {
        Some(s) => if same(s.as_str(), "BUY") {
            Some(Side::Buy)
        } else if same(s.as_str(), "SELL") {
            Some(Side::Sell)
        } else {
            Some(Side::Unsupported)
        },
        None => None,
    }
}

/// Reads the order type that a member names.
pub(crate) fn get_type(j: &Record, key: &str) -> (r: Option<OrdType>)
    ensures
        r == type_at(j@, key@),
{
    match j.get_text(key) {
        Some(s) => if same(s.as_str(), "LIMIT") || same(s.as_str(), "LIMIT_MAKER") {
            Some(OrdType::Limit)
        } else if same(s.as_str(), "MARKET") {
            Some(OrdType::Market)
        } else {
            Some(OrdType::Unsupported)
        },
        None => None,
    }
}

/// Reads the time in force that a member names.
pub(crate) fn get_tif(j: &Record, key: &str) -> (r: Option<TimeInForce>)
    ensures
        r == tif_at(j@, key@),
{
    match j.get_text(key) {
        Some(s) => if same(s.as_str(), "GTC") {
            Some(TimeInForce::GTC)
        } else if same(s.as_str(), "GTX") {
            Some(TimeInForce::GTX)
        } else if same(s.as_str(), "FOK") {
            Some(TimeInForce::FOK)
        } else if same(s.as_str(), "IOC") {
            Some(TimeInForce::IOC)
        } else {
            Some(TimeInForce::Unsupported)
        },
        None => None,
    }
}

/// Reads the status that a member names.
pub(crate) fn get_status(j: &Record, key: &str) -> (r: Option<Status>)
    ensures
        r == status_at(j@, key@),
{
    match j.get_text(key) {
        Some(s) => if same(s.as_str(), "NEW") {
            Some(Status::New)
        } else if same(s.as_str(), "PARTIALLY_FILLED") {
            Some(Status::PartiallyFilled)
        } else if same(s.as_str(), "FILLED") {
            Some(Status::Filled)
        } else if same(s.as_str(), "CANCELED") {
            Some(Status::Canceled)
        } else if same(s.as_str(), "REJECTED") {
            Some(Status::Rejected)
        } else if same(s.as_str(), "EXPIRED") || same(s.as_str(), "EXPIRED_IN_MATCH") {
            Some(Status::Expired)
        } else {
            Some(Status::Unsupported)
        },
        None => None,
    }
}

/// Reads an `i64` member that defaults to zero.
pub(crate) fn get_i64_or_zero(j: &Record, key: &str) -> (r: Option<i64>)
    ensures
        match r {
            Some(i) => int_or(j@, key@, i64::MIN as int, i64::MAX as int, 0) == Some(i as int),
            None => int_or(j@, key@, i64::MIN as int, i64::MAX as int, 0) is None,
        },
{
    match j.get(key) {
        None => Some(0),
        Some(_) => j.get_i64(key),
    }
}

/// Reads a decimal member that defaults to zero.
pub(crate) fn get_decimal_or_zero(j: &Record, key: &str) -> (r: Option<i128>)
    ensures
        match r {
            Some(x) => decimal_or_zero(j@, key@) == Some(x as int),
            None => decimal_or_zero(j@, key@) is None,
        },
{
    match j.get(key) {
        None => Some(0),
        Some(_) => j.get_decimal(key),
    }
}

/// Reads a string member that defaults to the empty string.
pub(crate) fn get_text_or_empty(j: &Record, key: &str) -> (r: Option<String>)
    ensures
        match r {
            Some(s) => text_or_empty(j@, key@) == Some(s@),
            None => text_or_empty(j@, key@) is None,
        },
{
    match j.get(key) {
        None => Some(String::new()),
        Some(_) => j.get_text(key),
    }
}

/// Reads an array of two strings, written without an escape if they have to be.
fn get_level(j: &Json, plain: bool) -> (r: Option<(String, String)>)
    ensures
        match r {
            Some(p) => level(j@, plain) == Some((p.0@, p.1@)),
            None => level(j@, plain) is None,
        },
{
    let v = j.as_list()?;
    if v.len() != 2 {
        return None;
    }
    let a = v[0].as_text()?;
    let b = v[1].as_text()?;
    if plain && !(v[0].is_plain() && v[1].is_plain()) {
        return None;
    }
    Some((a, b))
}

/// Reads the price levels of an array member.
pub(crate) fn get_levels(j: &Record, key: &str, plain: bool) -> (r: Option<Vec<(String, String)>>)
    ensures
        match r {
            Some(v) => levels_shape(j@, key@, plain) && levels_at(j@, key@, plain, v@),
            None => !levels_shape(j@, key@, plain),
        },
{
    let items = j.get_list(key)?;
    let ghost all = views(items@);
    let mut out: Vec<(String, String)> = Vec::new();
    let mut i: usize = 0;
    while i < items.len()
        invariant
            i <= items@.len(),
            all == views(items@),
            list_at(j@, key@) == Some(all),
            out@.len() == i,
            forall|k: int|
                0 <= k < i ==> level(#[trigger] all[k], plain) == Some((out@[k].0@, out@[k].1@)),
        decreases items.len() - i,
    {
        assert(all[i as int] == items@[i as int]@);
        match get_level(&items[i], plain) {
            Some(p) => {
                out.push(p);
            },
            None => {
                assert(!all_levels(all, plain));
                return None;
            },
        }
        i += 1;
    }
    Some(out)
}

/// Reads the strings of an array member.
pub(crate) fn get_texts(j: &Record, key: &str) -> (r: Option<Vec<String>>)
    ensures
        match r {
            Some(v) => texts_shape(j@, key@) && texts_at(j@, key@, v@),
            None => !texts_shape(j@, key@),
        },
{
    let items = j.get_list(key)?;
    let ghost all = views(items@);
    let mut out: Vec<String> = Vec::new();
    let mut i: usize = 0;
    while i < items.len()
        invariant
            i <= items@.len(),
            all == views(items@),
            list_at(j@, key@) == Some(all),
            out@.len() == i,
            forall|k: int| 0 <= k < i ==> string(#[trigger] all[k]) == Some(out@[k]@),
        decreases items.len() - i,
    {
        assert(all[i as int] == items@[i as int]@);
        match items[i].as_text() {
            Some(s) => {
                out.push(s);
            },
            None => {
                assert(!all_texts(all));
                return None;
            },
        }
        i += 1;
    }
    Some(out)
}

/// A message that a JSON text may spell.
pub trait Message: Sized {
    /// Whether a text spells such a message.
    spec fn shape(text: Seq<char>) -> bool;

    /// Whether this is the message that a text spells.
    spec fn reads(&self, text: Seq<char>) -> bool;

    /// Whether the numbers of the message are within the limits that its use needs.
    spec fn wf(&self) -> bool;

    /// Reads a message.
    fn decode(j: &Json) -> (r: Option<Self>)
        ensures
            match r {
                Some(x) => Self::shape(j@) && x.reads(j@) && x.wf(),
                None => !Self::shape(j@),
            },
    ;
}

/// The fields of a message, which an object spells by their keys or an array by their order.
pub trait Fields: Sized {
    /// The keys, in order.
    spec fn keys() -> Seq<Seq<char>>;

    /// How many elements an array holds at least: those left out at the end have defaults.
    spec fn least() -> nat;

    /// Whether members spell the fields.
    spec fn spelled(r: Members) -> bool;

    /// Whether these are the fields that members spell.
    spec fn taken(&self, r: Members) -> bool;

    /// Whether the numbers of the message are within the limits that its use needs.
    spec fn sound(&self) -> bool;

    /// The keys, in order.
    fn key_list() -> (v: Vec<&'static str>)
        ensures
            key_texts(v@) == Self::keys(),
            Self::least() <= v@.len(),
    ;

    /// How many elements an array holds at least.
    fn least_len() -> (n: usize)
        ensures
            n == Self::least(),
    ;

    /// Reads the fields.
    fn take(r: &Record) -> (x: Option<Self>)
        ensures
            match x {
                Some(x) => Self::spelled(r@) && x.taken(r@) && x.sound(),
                None => !Self::spelled(r@),
            },
    ;
}

/// The texts of keys.
pub open spec fn key_texts(v: Seq<&'static str>) -> Seq<Seq<char>> {
    v.map_values(|k: &'static str| k@)
}

/// The members that the elements of an array stand for; none where there are too few or too many.
pub open spec fn positional(
    v: Seq<Seq<char>>,
    keys: Seq<Seq<char>>,
    least: nat,
) -> Option<Members> {
    if least <= v.len() <= keys.len() {
        Some(Seq::new(v.len(), |i: int| (keys[i], v[i])))
    } else {
        None
    }
}

/// The members that a text spells, as an object or as an array.
pub open spec fn named(text: Seq<char>, keys: Seq<Seq<char>>, least: nat) -> Option<Members> {
    match members(text) {
        Some(r) => Some(r),
        None => match elements(text) {
            Some(v) => positional(v, keys, least),
            None => None,
        },
    }
}

/// The members that elements from `from` on stand for.
fn from_elements<T: Fields>(v: &Vec<Json>, from: usize) -> (r: Option<Record>)
    requires
        from <= v@.len(),
    ensures
        match r {
            Some(r) => positional(views(v@).skip(from as int), T::keys(), T::least()) == Some(r@),
            None => positional(views(v@).skip(from as int), T::keys(), T::least()) is None,
        },
{
    let keys = T::key_list();
    let ghost rest = views(v@).skip(from as int);
    let n = v.len() - from;
    if n < T::least_len() || n > keys.len() {
        return None;
    }
    let mut members: Vec<(String, Json)> = Vec::new();
    let mut i: usize = 0;
    while i < n
        invariant
            i <= n,
            from <= v.len(),
            n == v.len() - from,
            n <= keys@.len(),
            rest == views(v@).skip(from as int),
            members@.len() == i,
            forall|k: int|
                0 <= k < i ==> (#[trigger] members@[k]).0@ == key_texts(keys@)[k] && members@[k].1@
                    == rest[k],
        decreases n - i,
    {
        let item = &v[from + i];
        assert(rest[i as int] == item@);
        members.push((keys[i].to_owned(), Json { text: item.text.clone() }));
        i += 1;
    }
    let r = Record { members };
    assert(r@ =~= positional(rest, T::keys(), T::least())->0);
    Some(r)
}

/// The members that a text spells, as an object or as an array.
pub(crate) fn open<T: Fields>(j: &Json) -> (r: Option<Record>)
    ensures
        match r {
            Some(r) => named(j@, T::keys(), T::least()) == Some(r@),
            None => named(j@, T::keys(), T::least()) is None,
        },
{
    match j.as_record() {
        Some(r) => Some(r),
        None => {
            let v = j.as_list()?;
            assert(views(v@).skip(0) =~= views(v@));
            from_elements::<T>(&v, 0)
        },
    }
}

impl<T: Fields> Message for T {
    open spec fn shape(text: Seq<char>) -> bool {
        match named(text, T::keys(), T::least()) {
            Some(r) => T::spelled(r),
            None => false,
        }
    }

    open spec fn reads(&self, text: Seq<char>) -> bool {
        match named(text, T::keys(), T::least()) {
            Some(r) => self.taken(r),
            None => false,
        }
    }

    open spec fn wf(&self) -> bool {
        self.sound()
    }

    fn decode(j: &Json) -> (r: Option<T>) {
        let r = open::<T>(j)?;
        T::take(&r)
    }
}

/// The tag of a text, and the members beside it: the member `e` of an object, which keeps its other
/// members, or the first element of an array, whose others stand for members.
pub open spec fn tagged<T: Fields>(text: Seq<char>) -> Option<(Seq<char>, Members)> {
    match members(text) {
        Some(r) => match text_at(r, "e"@) {
            Some(tag) => Some((tag, r)),
            None => None,
        },
        None => match elements(text) {
            Some(v) => if v.len() > 0 {
                match (string(v[0]), positional(v.skip(1), T::keys(), T::least())) {
                    (Some(tag), Some(r)) => Some((tag, r)),
                    _ => None,
                }
            } else {
                None
            },
            None => None,
        },
    }
}

/// Whether a text spells the fields beside a tag.
pub open spec fn tagged_shape<T: Fields>(text: Seq<char>, tag: Seq<char>) -> bool {
    match tagged::<T>(text) {
        Some((t, r)) => t == tag && T::spelled(r),
        None => false,
    }
}

/// Whether `x` are the fields that a text spells beside a tag.
pub open spec fn tagged_reads<T: Fields>(text: Seq<char>, tag: Seq<char>, x: T) -> bool {
    match tagged::<T>(text) {
        Some((t, r)) => t == tag && x.taken(r),
        None => false,
    }
}

/// Reads the fields beside a tag.
pub(crate) fn get_tagged<T: Fields>(j: &Json, tag: &str) -> (r: Option<T>)
    ensures
        match r {
            Some(x) => tagged_shape::<T>(j@, tag@) && tagged_reads(j@, tag@, x) && x.sound(),
            None => !tagged_shape::<T>(j@, tag@),
        },
{
    match j.as_record() {
        Some(r) => {
            let t = r.get_text("e")?;
            if same(t.as_str(), tag) {
                T::take(&r)
            } else {
                None
            }
        },
        None => {
            let v = j.as_list()?;
            if v.len() == 0 {
                return None;
            }
            assert(views(v@)[0] == v@[0]@);
            let t = v[0].as_text()?;
            let r = from_elements::<T>(&v, 1)?;
            if same(t.as_str(), tag) {
                T::take(&r)
            } else {
                None
            }
        },
    }
}

/// Whether the member `key` spells a message.
pub open spec fn one_shape<T: Message>(r: Members, key: Seq<char>) -> bool {
    match field(r, key) {
        Some(v) => T::shape(v),
        None => false,
    }
}

/// Whether `x` is the message that the member `key` spells.
pub open spec fn one_reads<T: Message>(r: Members, key: Seq<char>, x: T) -> bool {
    match field(r, key) {
        Some(v) => x.reads(v),
        None => false,
    }
}

/// Reads the message of a member.
pub(crate) fn get_one<T: Message>(j: &Record, key: &str) -> (r: Option<T>)
    ensures
        match r {
            Some(x) => one_shape::<T>(j@, key@) && one_reads(j@, key@, x) && x.wf(),
            None => !one_shape::<T>(j@, key@),
        },
{
    match j.get(key) {
        Some(v) => T::decode(v),
        None => None,
    }
}

/// Whether the member `key` spells a message, or is absent or null.
pub open spec fn maybe_shape<T: Message>(r: Members, key: Seq<char>) -> bool {
    absent(r, key) || one_shape::<T>(r, key)
}

/// Whether `x` is the message that the member `key` spells; none where it is absent or null.
pub open spec fn maybe_reads<T: Message>(r: Members, key: Seq<char>, x: Option<T>) -> bool {
    match x {
        Some(x) => !absent(r, key) && one_reads(r, key, x),
        None => absent(r, key),
    }
}

/// Whether a message that may be missing is well-formed.
pub open spec fn maybe_wf<T: Message>(x: Option<T>) -> bool {
    x is Some ==> x->0.wf()
}

/// Reads the message of a member that may be absent.
pub(crate) fn get_maybe<T: Message>(j: &Record, key: &str) -> (r: Option<Option<T>>)
    ensures
        match r {
            Some(x) => maybe_shape::<T>(j@, key@) && maybe_reads(j@, key@, x) && maybe_wf(x),
            None => !maybe_shape::<T>(j@, key@),
        },
{
    if j.is_absent(key) {
        return Some(None);
    }
    match get_one(j, key) {
        Some(x) => Some(Some(x)),
        None => None,
    }
}

/// Whether all elements spell messages.
pub open spec fn all_shape<T: Message>(v: Seq<Seq<char>>) -> bool {
    forall|i: int| 0 <= i < v.len() ==> T::shape(#[trigger] v[i])
}

/// Whether `items` are the messages that the elements spell.
pub open spec fn all_read<T: Message>(v: Seq<Seq<char>>, items: Seq<T>) -> bool {
    &&& v.len() == items.len()
    &&& forall|i: int|
        #![trigger v[i]]
        #![trigger items[i]]
        0 <= i < v.len() ==> items[i].reads(v[i])
}

/// Reads the messages of elements.
fn decode_all<T: Message>(items: &Vec<Json>) -> (r: Option<Vec<T>>)
    ensures
        match r {
            Some(v) => all_shape::<T>(views(items@)) && all_read(views(items@), v@),
            None => !all_shape::<T>(views(items@)),
        },
{
    let mut out: Vec<T> = Vec::new();
    let mut i: usize = 0;
    while i < items.len()
        invariant
            i <= items@.len(),
            out@.len() == i,
            forall|k: int| 0 <= k < i ==> T::shape(#[trigger] views(items@)[k]),
            forall|k: int| 0 <= k < i ==> (#[trigger] out@[k]).reads(views(items@)[k]),
        decreases items.len() - i,
    {
        assert(views(items@)[i as int] == items@[i as int]@);
        match T::decode(&items[i]) {
            Some(x) => {
                out.push(x);
            },
            None => {
                return None;
            },
        }
        i += 1;
    }
    Some(out)
}

/// Whether the array member `key` spells messages.
pub open spec fn many_shape<T: Message>(r: Members, key: Seq<char>) -> bool {
    match list_at(r, key) {
        Some(v) => all_shape::<T>(v),
        None => false,
    }
}

/// Whether `items` are the messages that the array member `key` spells.
pub open spec fn many_read<T: Message>(r: Members, key: Seq<char>, items: Seq<T>) -> bool {
    match list_at(r, key) {
        Some(v) => all_read(v, items),
        None => false,
    }
}

/// Reads the messages of an array member.
pub(crate) fn get_many<T: Message>(j: &Record, key: &str) -> (r: Option<Vec<T>>)
    ensures
        match r {
            Some(v) => many_shape::<T>(j@, key@) && many_read(j@, key@, v@),
            None => !many_shape::<T>(j@, key@),
        },
{
    match j.get_list(key) {
        Some(items) => decode_all(&items),
        None => None,
    }
}

/// Whether the array member `key` spells messages, or there is no such member.
pub open spec fn many_or_none_shape<T: Message>(r: Members, key: Seq<char>) -> bool {
    field(r, key) is None || many_shape::<T>(r, key)
}

/// Whether `items` are the messages that the array member `key` spells; there are none where there
/// is no such member.
pub open spec fn many_or_none_read<T: Message>(
    r: Members,
    key: Seq<char>,
    items: Seq<T>,
) -> bool {
    if field(r, key) is None {
        items.len() == 0
    } else {
        many_read(r, key, items)
    }
}

/// Reads the messages of an array member that may be missing.
pub(crate) fn get_many_or_none<T: Message>(j: &Record, key: &str) -> (r: Option<Vec<T>>)
    ensures
        match r {
            Some(v) => many_or_none_shape::<T>(j@, key@) && many_or_none_read(j@, key@, v@),
            None => !many_or_none_shape::<T>(j@, key@),
        },
{
    if j.get(key).is_none() {
        return Some(Vec::new());
    }
    get_many(j, key)
}

/// Whether the array member `key` spells messages, or is absent or null.
pub open spec fn maybe_many_shape<T: Message>(r: Members, key: Seq<char>) -> bool {
    absent(r, key) || many_shape::<T>(r, key)
}

/// Whether `items` are the messages that the array member `key` spells; none where it is absent or
/// null.
pub open spec fn maybe_many_read<T: Message>(
    r: Members,
    key: Seq<char>,
    items: Option<Vec<T>>,
) -> bool {
    match items {
        Some(v) => !absent(r, key) && many_read(r, key, v@),
        None => absent(r, key),
    }
}

/// Reads the messages of an array member that may be absent.
pub(crate) fn get_maybe_many<T: Message>(j: &Record, key: &str) -> (r: Option<Option<Vec<T>>>)
    ensures
        match r {
            Some(v) => maybe_many_shape::<T>(j@, key@) && maybe_many_read(j@, key@, v),
            None => !maybe_many_shape::<T>(j@, key@),
        },
{
    if j.is_absent(key) {
        return Some(None);
    }
    match get_many(j, key) {
        Some(v) => Some(Some(v)),
        None => None,
    }
}

/// Whether the member `key` is absent or null, or spells a document.
pub open spec fn value_shape(r: Members, key: Seq<char>) -> bool {
    absent(r, key) || is_document(field(r, key)->0)
}

/// Whether `v` is the member `key`; none where it is absent or null.
pub open spec fn value_at(r: Members, key: Seq<char>, v: Option<Json>) -> bool {
    match v {
        Some(v) => !absent(r, key) && field(r, key) == Some(v@),
        None => absent(r, key),
    }
}

/// Reads a member of any kind that may be absent.
pub(crate) fn get_value(j: &Record, key: &str) -> (r: Option<Option<Json>>)
    ensures
        match r {
            Some(v) => value_shape(j@, key@) && value_at(j@, key@, v),
            None => !value_shape(j@, key@),
        },
{
    if j.is_absent(key) {
        return Some(None);
    }
    let v = j.get(key)?;
    if v.is_valid() {
        Some(Some(Json { text: v.text.clone() }))
    } else {
        None
    }
}

/// Reads a message from text.
pub fn from_text<T: Message>(text: &str) -> (r: Option<T>)
    ensures
        match r {
            Some(x) => T::shape(text@) && x.reads(text@) && x.wf(),
            None => !T::shape(text@),
        },
{
    T::decode(&Json::new(text))
}

/// The names on the wire are told apart.
proof fn lemma_names_differ()
    ensures
        "BUY"@ != "SELL"@,
        "LIMIT"@ != "MARKET"@,
        "LIMIT_MAKER"@ != "MARKET"@,
        "LIMIT_MAKER"@ != "LIMIT"@,
        "GTC"@ != "GTX"@,
        "GTC"@ != "FOK"@,
        "GTC"@ != "IOC"@,
        "GTX"@ != "FOK"@,
        "GTX"@ != "IOC"@,
        "FOK"@ != "IOC"@,
{
    reveal_strlit("BUY");
    reveal_strlit("SELL");
    reveal_strlit("LIMIT");
    reveal_strlit("LIMIT_MAKER");
    reveal_strlit("MARKET");
    reveal_strlit("GTC");
    reveal_strlit("GTX");
    reveal_strlit("FOK");
    reveal_strlit("IOC");
    assert("BUY"@.len() == 3 && "SELL"@.len() == 4);
    assert("LIMIT"@.len() == 5 && "MARKET"@.len() == 6 && "LIMIT_MAKER"@.len() == 11);
    assert("GTC"@[2] != "GTX"@[2]);
    assert("GTC"@[0] != "FOK"@[0]);
    assert("GTC"@[0] != "IOC"@[0]);
    assert("GTX"@[0] != "FOK"@[0]);
    assert("GTX"@[0] != "IOC"@[0]);
    assert("FOK"@[0] != "IOC"@[0]);
}

/// The name of a side, of an order type and of a time in force reads back as what it names, so that
/// no two of them have the same name. A limit maker is a limit order.
pub proof fn law_names_read_back(side: Side, order_type: OrdType, tif: TimeInForce)
    ensures
        side.named() ==> side_named(side.name()) == side,
        order_type.named() ==> type_named(order_type.name()) == order_type,
        tif.named() ==> tif_named(tif.name()) == tif,
        type_named("LIMIT_MAKER"@) is Limit,
        side.named() <==> side is Buy || side is Sell,
        order_type.named() <==> order_type is Limit || order_type is Market,
        tif.named() <==> tif is GTC || tif is GTX || tif is FOK || tif is IOC,
{
    lemma_names_differ();
}

/// A name is read as what it names and as nothing else; a name that is not known is none that is
/// supported.
pub proof fn law_names_are_told_apart(s: Seq<char>)
    ensures
        side_named(s) is Buy <==> s == "BUY"@,
        side_named(s) is Sell <==> s == "SELL"@,
        !(side_named(s) is Unset),
        type_named(s) is Limit <==> s == "LIMIT"@ || s == "LIMIT_MAKER"@,
        type_named(s) is Market <==> s == "MARKET"@,
        tif_named(s) is GTC <==> s == "GTC"@,
        tif_named(s) is GTX <==> s == "GTX"@,
        tif_named(s) is FOK <==> s == "FOK"@,
        tif_named(s) is IOC <==> s == "IOC"@,
        status_named(s) is New <==> s == "NEW"@,
        status_named(s) is PartiallyFilled <==> s == "PARTIALLY_FILLED"@,
        status_named(s) is Filled <==> s == "FILLED"@,
        status_named(s) is Canceled <==> s == "CANCELED"@,
        status_named(s) is Rejected <==> s == "REJECTED"@,
        status_named(s) is Expired <==> s == "EXPIRED"@ || s == "EXPIRED_IN_MATCH"@,
        !(status_named(s) is Unset),
        !(status_named(s) is Replaced),
{
    lemma_names_differ();
    reveal_strlit("NEW");
    reveal_strlit("PARTIALLY_FILLED");
    reveal_strlit("FILLED");
    reveal_strlit("CANCELED");
    reveal_strlit("REJECTED");
    reveal_strlit("EXPIRED");
    reveal_strlit("EXPIRED_IN_MATCH");
    assert("NEW"@.len() == 3 && "PARTIALLY_FILLED"@.len() == 16 && "FILLED"@.len() == 6);
    assert("CANCELED"@.len() == 8 && "REJECTED"@.len() == 8 && "EXPIRED"@.len() == 7);
    assert("EXPIRED_IN_MATCH"@.len() == 16);
    assert("PARTIALLY_FILLED"@[0] != "EXPIRED_IN_MATCH"@[0]);
    assert("CANCELED"@[0] != "REJECTED"@[0]);
}

/// The messages of an array are read one by one: there are as many as elements, and the message at a
/// place is what the element at that place spells.
pub proof fn law_lists_are_read_one_by_one<T: Message>(
    r: Members,
    key: Seq<char>,
    items: Seq<T>,
    v: Seq<Seq<char>>,
    i: int,
)
    requires
        many_read(r, key, items),
        list_at(r, key) == Some(v),
        0 <= i < v.len(),
    ensures
        items.len() == v.len(),
        items[i].reads(v[i]),
        many_or_none_read(r, key, items),
{
}

/// The price levels of an array are read one by one: the level at a place is the price and then the
/// quantity that the two strings of the element at that place spell.
pub proof fn law_levels_are_read_one_by_one(
    r: Members,
    key: Seq<char>,
    plain: bool,
    levels: Seq<(String, String)>,
    v: Seq<Seq<char>>,
    i: int,
)
    requires
        levels_at(r, key, plain, levels),
        list_at(r, key) == Some(v),
        0 <= i < v.len(),
    ensures
        levels.len() == v.len(),
        elements(v[i]) is Some,
        elements(v[i])->0.len() == 2,
        string(elements(v[i])->0[0]) == Some(levels[i].0@),
        string(elements(v[i])->0[1]) == Some(levels[i].1@),
        plain ==> is_plain(elements(v[i])->0[0]) && is_plain(elements(v[i])->0[1]),
{
    assert(level(v[i], plain) == Some((levels[i].0@, levels[i].1@)));
}

/// An object spells its members; an array spells, for each of its elements, the member whose key
/// stands at the same place, where it has as many elements as there are keys, or fewer by those that
/// have defaults.
pub proof fn law_arrays_spell_members_by_place(
    text: Seq<char>,
    keys: Seq<Seq<char>>,
    least: nat,
    v: Seq<Seq<char>>,
    i: int,
)
    ensures
        members(text) is Some ==> named(text, keys, least) == members(text),
        members(text) is None && elements(text) == Some(v) ==> {
            &&& named(text, keys, least) is Some <==> least <= v.len() <= keys.len()
            &&& named(text, keys, least) is Some ==> named(text, keys, least)->0.len() == v.len()
            &&& named(text, keys, least) is Some && 0 <= i < v.len() ==> named(
                text,
                keys,
                least,
            )->0[i] == (keys[i], v[i])
        },
        members(text) is None && elements(text) is None ==> named(text, keys, least) is None,
{
}

/// What a member names, and a member in lower case, is found from the string that it spells; a
/// member that may be missing has its default just where it is missing.
pub proof fn law_members_name_what_they_spell(r: Members, key: Seq<char>, s: Seq<char>)
    ensures
        text_at(r, key) == Some(s) ==> {
            &&& lower_at(r, key) == Some(lowercase(s))
            &&& side_at(r, key) == Some(side_named(s))
            &&& type_at(r, key) == Some(type_named(s))
            &&& tif_at(r, key) == Some(tif_named(s))
            &&& status_at(r, key) == Some(status_named(s))
            &&& text_or_empty(r, key) == Some(s)
            &&& decimal_or_zero(r, key) == decimal_value(s)
        },
        field(r, key) is None ==> {
            &&& text_or_empty(r, key) == Some(Seq::<char>::empty())
            &&& decimal_or_zero(r, key) == Some(0int)
            &&& int_or(r, key, i64::MIN as int, i64::MAX as int, 0) == Some(0int)
        },
        field(r, key) is Some ==> int_or(r, key, i64::MIN as int, i64::MAX as int, 0) == int_at(
            r,
            key,
            i64::MIN as int,
            i64::MAX as int,
        ),
{
}

/// A message that may be missing is there just where its member is there and is not null, and then
/// it is what the member spells.
pub proof fn law_optional_messages_are_read_where_present<T: Message>(
    r: Members,
    key: Seq<char>,
    x: Option<T>,
)
    requires
        maybe_reads(r, key, x),
    ensures
        x is Some <==> field(r, key) is Some && field(r, key)->0 != "null"@,
        x is Some ==> x->0.reads(field(r, key)->0),
{
}

/// An event that carries a tag is read by that tag: the member `e` of an object.
pub proof fn law_tags_choose_the_event<T: Fields>(text: Seq<char>, tag: Seq<char>, x: T, r: Members)
    requires
        tagged_reads(text, tag, x),
        members(text) == Some(r),
    ensures
        text_at(r, "e"@) == Some(tag),
        x.taken(r),
{
}

} // verus!
