//! The tables of the order manager, kept in `hashbrown` maps.

use vstd::prelude::*;
use crate::types::Order;

verus! {

/// An order that the connector manages, and which channels have told that it is done.
#[derive(Debug)]
pub struct OrderExt {
    pub symbol: String,
    pub order: Order,
    pub removed_by_ws: bool,
    pub removed_by_rest: bool,
}

/// What an [`OrderExt`] holds.
pub struct Row {
    pub symbol: Seq<char>,
    pub order: Order,
    pub removed_by_ws: bool,
    pub removed_by_rest: bool,
}

impl View for OrderExt {
    type V = Row;

    open spec fn view(&self) -> Row {
        Row {
            symbol: self.symbol@,
            order: self.order,
            removed_by_ws: self.removed_by_ws,
            removed_by_rest: self.removed_by_rest,
        }
    }
}

/// The managed orders by client order identifier.
#[verifier::external_body]
#[derive(Debug)]
pub struct OrderRows {
    map: hashbrown::HashMap<String, OrderExt>,
}

/// What the table of managed orders holds.
pub uninterp spec fn order_rows(t: OrderRows) -> Map<Seq<char>, Row>;

impl OrderRows {
    /// Calls `hashbrown::HashMap::new`, which makes an empty map.
    #[verifier::external_body]
    pub(crate) fn new() -> (t: OrderRows)
        ensures
            order_rows(t).is_empty(),
    {
        OrderRows { map: hashbrown::HashMap::new() }
    }

    /// Calls `hashbrown::HashMap::get`, which gives the value of the key, if any.
    #[verifier::external_body]
    pub(crate) fn get(&self, key: &str) -> (r: Option<&OrderExt>)
        ensures
            match r {
                Some(v) => order_rows(*self).contains_key(key@) && v@ == order_rows(*self)[key@],
                None => !order_rows(*self).contains_key(key@),
            },
    {
        self.map.get(key)
    }

    /// Calls `hashbrown::HashMap::get_mut`, which lends the value of the key, if any: what the
    /// borrower leaves there is what the map then holds.
    #[verifier::external_body]
    pub(crate) fn get_mut(&mut self, key: &str) -> (r: Option<&mut OrderExt>)
        ensures
            match r {
                Some(v) => {
                    &&& order_rows(*old(self)).contains_key(key@)
                    &&& (*v)@ == order_rows(*old(self))[key@]
                    &&& order_rows(*final(self)) == order_rows(*old(self)).insert(
                        key@,
                        (*final(v))@,
                    )
                },
                None => {
                    &&& !order_rows(*old(self)).contains_key(key@)
                    &&& order_rows(*final(self)) == order_rows(*old(self))
                },
            },
    {
        self.map.get_mut(key)
    }

    /// Calls `hashbrown::HashMap::insert`, which sets the value of the key.
    #[verifier::external_body]
    pub(crate) fn insert(&mut self, key: String, value: OrderExt)
        ensures
            order_rows(*final(self)) == order_rows(*old(self)).insert(key@, value@),
    {
        self.map.insert(key, value);
    }

    /// Calls `hashbrown::HashMap::remove`, which takes the key out, if it is there.
    #[verifier::external_body]
    pub(crate) fn remove(&mut self, key: &str)
        ensures
            order_rows(*final(self)) == order_rows(*old(self)).remove(key@),
    {
        self.map.remove(key);
    }

    /// Calls `hashbrown::HashMap::keys`, which gives each key once, in an order that is not
    /// specified.
    #[verifier::external_body]
    pub(crate) fn keys(&self) -> (r: Vec<String>)
        ensures
            forall|i: int, j: int| 0 <= i < j < r@.len() ==> (#[trigger] r@[i])@ != (#[trigger] r@[j])@,
            forall|i: int| 0 <= i < r@.len() ==> order_rows(*self).contains_key((#[trigger] r@[i])@),
            forall|k: Seq<char>| #[trigger]
                order_rows(*self).contains_key(k) ==> exists|i: int|
                    0 <= i < r@.len() && (#[trigger] r@[i])@ == k,
    {
        self.map.keys().cloned().collect()
    }
}

/// The client order identifiers by symbol and order identifier.
#[verifier::external_body]
#[derive(Debug)]
pub struct IdRows {
    map: hashbrown::HashMap<(String, u64), String>,
}

/// What the table of identifiers holds.
pub uninterp spec fn id_rows(t: IdRows) -> Map<(Seq<char>, u64), Seq<char>>;

impl IdRows {
    /// Calls `hashbrown::HashMap::new`, which makes an empty map.
    #[verifier::external_body]
    pub(crate) fn new() -> (t: IdRows)
        ensures
            id_rows(t).is_empty(),
    {
        IdRows { map: hashbrown::HashMap::new() }
    }

    /// Calls `hashbrown::HashMap::get`, which gives the value of the key, if any.
    #[verifier::external_body]
    pub(crate) fn get(&self, symbol: &str, order_id: u64) -> (r: Option<&String>)
        ensures
            match r {
                Some(v) => {
                    &&& id_rows(*self).contains_key((symbol@, order_id))
                    &&& v@ == id_rows(*self)[(symbol@, order_id)]
                },
                None => !id_rows(*self).contains_key((symbol@, order_id)),
            },
    {
        self.map.get(&(symbol.to_string(), order_id))
    }

    /// Calls `hashbrown::HashMap::insert`, which sets the value of the key.
    #[verifier::external_body]
    pub(crate) fn insert(&mut self, symbol: String, order_id: u64, value: String)
        ensures
            id_rows(*final(self)) == id_rows(*old(self)).insert((symbol@, order_id), value@),
    {
        self.map.insert((symbol, order_id), value);
    }

    /// Calls `hashbrown::HashMap::remove`, which takes the key out, if it is there.
    #[verifier::external_body]
    pub(crate) fn remove(&mut self, symbol: &str, order_id: u64)
        ensures
            id_rows(*final(self)) == id_rows(*old(self)).remove((symbol@, order_id)),
    {
        self.map.remove(&(symbol.to_string(), order_id));
    }
}

} // verus!
