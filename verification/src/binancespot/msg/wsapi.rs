//! Orders over the WebSocket API.
//!
//! After a session has logged on, its requests carry no key and no signature.

use vstd::prelude::*;
use vstd::string::*;
use crate::json::{
    field, int_at, law_object_holds_its_members, member_views, members, object_chars, object_text,
    opt_text_at, quote, quoted, text_at, written_member, Members, Record, ToJson,
};
use crate::text::{holds, lemma_holds_trans, lemma_holds_within, nat_chars, nat_text};
use crate::binancespot::BinanceSpotError;
use super::rest::{ErrorResponse, OrderResponse};
use super::{get_maybe, key_texts, maybe_reads, maybe_shape, maybe_wf, view_of, Fields, Message};

verus! {

/// A request of the WebSocket API.
#[derive(Clone, Debug)]
pub struct WsApiRequest<P> {
    pub id: String,
    pub method: String,
    pub params: P,
}

impl<P: ToJson> ToJson for WsApiRequest<P> {
    open spec fn json(&self) -> Seq<char> {
        object_chars(
            seq![
                ("id"@, quoted(self.id@)),
                ("method"@, quoted(self.method@)),
                ("params"@, self.params.json()),
            ],
        )
    }

    fn to_json(&self) -> (s: String) {
        let members: Vec<(&'static str, String)> = vec![
            ("id", quote(self.id.as_str())),
            ("method", quote(self.method.as_str())),
            ("params", self.params.to_json()),
        ];
        proof {
            assert(member_views(members@) =~= seq![
                ("id"@, quoted(self.id@)),
                ("method"@, quoted(self.method@)),
                ("params"@, self.params.json()),
            ]);
        }
        object_text(&members)
    }
}

/// The parameters of `order.place`. A post-only order has no time in force.
#[derive(Clone, Debug)]
pub struct OrderPlaceParams {
    pub symbol: String,
    pub side: String,
    pub order_type: String,
    pub time_in_force: Option<String>,
    pub quantity: String,
    pub price: String,
    pub new_client_order_id: String,
    pub new_order_resp_type: String,
    pub timestamp: u64,
}

impl OrderPlaceParams {
    /// The members of the parameters, in order.
    pub open spec fn members(self) -> Seq<(Seq<char>, Seq<char>)> {
        seq![
            ("symbol"@, quoted(self.symbol@)),
            ("side"@, quoted(self.side@)),
            ("type"@, quoted(self.order_type@)),
        ] + match self.time_in_force {
            Some(tif) => seq![("timeInForce"@, quoted(tif@))],
            None => seq![],
        } + seq![
            ("quantity"@, quoted(self.quantity@)),
            ("price"@, quoted(self.price@)),
            ("newClientOrderId"@, quoted(self.new_client_order_id@)),
            ("newOrderRespType"@, quoted(self.new_order_resp_type@)),
            ("timestamp"@, nat_chars(self.timestamp as nat)),
        ]
    }
}

impl ToJson for OrderPlaceParams {
    open spec fn json(&self) -> Seq<char> {
        object_chars(self.members())
    }

    fn to_json(&self) -> (s: String) {
        let mut members: Vec<(&'static str, String)> = vec![
            ("symbol", quote(self.symbol.as_str())),
            ("side", quote(self.side.as_str())),
            ("type", quote(self.order_type.as_str())),
        ];
        if let Some(tif) = &self.time_in_force {
            members.push(("timeInForce", quote(tif.as_str())));
        }
        members.push(("quantity", quote(self.quantity.as_str())));
        members.push(("price", quote(self.price.as_str())));
        members.push(("newClientOrderId", quote(self.new_client_order_id.as_str())));
        members.push(("newOrderRespType", quote(self.new_order_resp_type.as_str())));
        members.push(("timestamp", nat_text(self.timestamp as u128)));
        proof {
            assert(member_views(members@) =~= self.members());
        }
        object_text(&members)
    }
}

/// The parameters of `order.cancel`.
#[derive(Clone, Debug)]
pub struct OrderCancelParams {
    pub symbol: String,
    pub orig_client_order_id: String,
    pub timestamp: u64,
}

impl ToJson for OrderCancelParams {
    open spec fn json(&self) -> Seq<char> {
        object_chars(
            seq![
                ("symbol"@, quoted(self.symbol@)),
                ("origClientOrderId"@, quoted(self.orig_client_order_id@)),
                ("timestamp"@, nat_chars(self.timestamp as nat)),
            ],
        )
    }

    fn to_json(&self) -> (s: String) {
        let members: Vec<(&'static str, String)> = vec![
            ("symbol", quote(self.symbol.as_str())),
            ("origClientOrderId", quote(self.orig_client_order_id.as_str())),
            ("timestamp", nat_text(self.timestamp as u128)),
        ];
        proof {
            assert(member_views(members@) =~= seq![
                ("symbol"@, quoted(self.symbol@)),
                ("origClientOrderId"@, quoted(self.orig_client_order_id@)),
                ("timestamp"@, nat_chars(self.timestamp as nat)),
            ]);
        }
        object_text(&members)
    }
}

/// The answer to a request that placed or canceled an order. An answer to a cancellation spells an
/// order response too.
#[derive(Clone, Debug)]
pub struct WsApiOrderResponse {
    pub id: String,
    pub status: i32,
    pub result: Option<OrderResponse>,
    pub error: Option<ErrorResponse>,
}

impl Fields for WsApiOrderResponse {
    open spec fn keys() -> Seq<Seq<char>> {
        seq![
            "id"@, "status"@, "result"@, "error"@,
        ]
    }

    open spec fn least() -> nat {
        2
    }

    open spec fn spelled(r: Members) -> bool {
        &&& text_at(r, "id"@) is Some
        &&& int_at(r, "status"@, i32::MIN as int, i32::MAX as int) is Some
        &&& maybe_shape::<OrderResponse>(r, "result"@)
        &&& maybe_shape::<ErrorResponse>(r, "error"@)
    }

    open spec fn taken(&self, r: Members) -> bool {
        &&& text_at(r, "id"@) == Some(self.id@)
        &&& int_at(r, "status"@, i32::MIN as int, i32::MAX as int) == Some(self.status as int)
        &&& maybe_reads(r, "result"@, self.result)
        &&& maybe_reads(r, "error"@, self.error)
    }

    open spec fn sound(&self) -> bool {
        &&& maybe_wf(self.result)
    }

    fn key_list() -> (v: Vec<&'static str>) {
        let v: Vec<&'static str> = vec![
            "id", "status", "result", "error",
        ];
        assert(key_texts(v@) =~= Self::keys());
        v
    }

    fn least_len() -> (n: usize) {
        2
    }

    fn take(r: &Record) -> (x: Option<WsApiOrderResponse>) {
        Some(
            WsApiOrderResponse {
                id: r.get_text("id")?,
                status: r.get_i32("status")?,
                result: get_maybe(r, "result")?,
                error: get_maybe(r, "error")?,
            },
        )
    }
}

/// What a request that placed or canceled an order came to.
#[derive(Debug)]
pub enum WsApiOrderResult {
    Accepted(OrderResponse),
    Refused(BinanceSpotError),
}

impl WsApiOrderResult {
    /// Whether the order response is within the limits that order arithmetic needs.
    pub open spec fn wf(self) -> bool {
        match self {
            WsApiOrderResult::Accepted(resp) => resp.wf(),
            WsApiOrderResult::Refused(_) => true,
        }
    }

    /// Whether the order response is within the limits that order arithmetic needs.
    pub fn is_wf(&self) -> (r: bool)
        ensures
            r == self.wf(),
    {
        match self {
            WsApiOrderResult::Accepted(resp) => resp.is_wf(),
            WsApiOrderResult::Refused(_) => true,
        }
    }
}

impl WsApiOrderResponse {
    /// What the answer says: an order response where the status is 200 and there is one, else the
    /// error that it carries, else the status itself as an error.
    pub open spec fn says(self, r: WsApiOrderResult) -> bool {
        match r {
            WsApiOrderResult::Accepted(resp) => self.status == 200 && self.result == Some(resp),
            WsApiOrderResult::Refused(e) => {
                &&& !(self.status == 200 && self.result is Some)
                &&& e is OrderError
                &&& match self.error {
                    Some(x) => e->OrderError_code == x.code && e->OrderError_msg@ == x.msg@,
                    None => {
                        &&& e->OrderError_code == self.status
                        &&& e->OrderError_msg@ == "ws-api order error (no error body)"@
                    },
                }
            },
        }
    }

    /// What the answer came to.
    pub fn into_result(self) -> (r: WsApiOrderResult)
        ensures
            self.says(r),
    {
        if self.status == 200 {
            if let Some(resp) = self.result {
                return WsApiOrderResult::Accepted(resp);
            }
        }
        match self.error {
            Some(e) => WsApiOrderResult::Refused(
                BinanceSpotError::OrderError { code: e.code, msg: e.msg },
            ),
            None => WsApiOrderResult::Refused(
                BinanceSpotError::OrderError {
                    code: self.status as i64,
                    msg: "ws-api order error (no error body)".to_owned(),
                },
            ),
        }
    }
}

/// The identifier of a frame. A wrapped event has none; an answer to a request has one.
#[derive(Debug)]
pub struct IdProbe {
    pub id: Option<String>,
}

impl Fields for IdProbe {
    open spec fn keys() -> Seq<Seq<char>> {
        seq![
            "id"@,
        ]
    }

    open spec fn least() -> nat {
        1
    }

    open spec fn spelled(r: Members) -> bool {
        &&& opt_text_at(r, "id"@) is Some
    }

    open spec fn taken(&self, r: Members) -> bool {
        &&& opt_text_at(r, "id"@) == Some(view_of(self.id))
    }

    open spec fn sound(&self) -> bool {
        true
    }

    fn key_list() -> (v: Vec<&'static str>) {
        let v: Vec<&'static str> = vec![
            "id",
        ];
        assert(key_texts(v@) =~= Self::keys());
        v
    }

    fn least_len() -> (n: usize) {
        1
    }

    fn take(r: &Record) -> (x: Option<IdProbe>) {
        Some(
            IdProbe {
                id: r.get_opt_text("id")?,
            },
        )
    }
}

/// A request holds its identifier, its method and the whole of its parameters, each under its key.
pub proof fn law_request_holds_its_parts<P: ToJson>(req: WsApiRequest<P>)
    ensures
        holds(req.json(), written_member("id"@, quoted(req.id@))),
        holds(req.json(), written_member("method"@, quoted(req.method@))),
        holds(req.json(), written_member("params"@, req.params.json())),
        holds(req.json(), req.params.json()),
{
    let members = seq![
        ("id"@, quoted(req.id@)),
        ("method"@, quoted(req.method@)),
        ("params"@, req.params.json()),
    ];
    law_object_holds_its_members(members, 0);
    law_object_holds_its_members(members, 1);
    law_object_holds_its_members(members, 2);
    let params = req.params.json();
    assert(params.subrange(0, 0int + params.len()) =~= params);
    lemma_holds_within(quoted("params"@) + ":"@, params, params);
    lemma_holds_trans(req.json(), written_member("params"@, params), params);
}

/// The parameters of an order that is placed hold, under its own key each, the symbol, the side, the
/// type, the quantity, the price, the client order identifier, the kind of answer and the time of
/// the request, and the time in force just where there is one.
pub proof fn law_place_params_are_written(p: OrderPlaceParams)
    ensures
        holds(p.json(), written_member("symbol"@, quoted(p.symbol@))),
        holds(p.json(), written_member("side"@, quoted(p.side@))),
        holds(p.json(), written_member("type"@, quoted(p.order_type@))),
        p.time_in_force is Some ==> holds(
            p.json(),
            written_member("timeInForce"@, quoted(p.time_in_force->0@)),
        ),
        p.time_in_force is None ==> p.members().len() == 8 && forall|i: int|
            0 <= i < 8 ==> (#[trigger] p.members()[i]).0 != "timeInForce"@,
        holds(p.json(), written_member("quantity"@, quoted(p.quantity@))),
        holds(p.json(), written_member("price"@, quoted(p.price@))),
        holds(p.json(), written_member("newClientOrderId"@, quoted(p.new_client_order_id@))),
        holds(p.json(), written_member("newOrderRespType"@, quoted(p.new_order_resp_type@))),
        holds(p.json(), written_member("timestamp"@, nat_chars(p.timestamp as nat))),
{
    let m = p.members();
    let n: int = if p.time_in_force is Some {
        1
    } else {
        0
    };
    assert forall|i: int| 0 <= i < m.len() implies #[trigger] holds(
        p.json(),
        written_member(m[i].0, m[i].1),
    ) by {
        law_object_holds_its_members(m, i);
    }
    assert(m.len() == 8 + n);
    assert(m[0] == ("symbol"@, quoted(p.symbol@)));
    assert(m[1] == ("side"@, quoted(p.side@)));
    assert(m[2] == ("type"@, quoted(p.order_type@)));
    assert(n == 1 ==> m[3] == ("timeInForce"@, quoted(p.time_in_force->0@)));
    assert(m[3 + n] == ("quantity"@, quoted(p.quantity@)));
    assert(m[4 + n] == ("price"@, quoted(p.price@)));
    assert(m[5 + n] == ("newClientOrderId"@, quoted(p.new_client_order_id@)));
    assert(m[6 + n] == ("newOrderRespType"@, quoted(p.new_order_resp_type@)));
    assert(m[7 + n] == ("timestamp"@, nat_chars(p.timestamp as nat)));
    assert(holds(p.json(), written_member(m[0].0, m[0].1)));
    assert(holds(p.json(), written_member(m[1].0, m[1].1)));
    assert(holds(p.json(), written_member(m[2].0, m[2].1)));
    assert(holds(p.json(), written_member(m[3].0, m[3].1)));
    assert(holds(p.json(), written_member(m[3 + n].0, m[3 + n].1)));
    assert(holds(p.json(), written_member(m[4 + n].0, m[4 + n].1)));
    assert(holds(p.json(), written_member(m[5 + n].0, m[5 + n].1)));
    assert(holds(p.json(), written_member(m[6 + n].0, m[6 + n].1)));
    assert(holds(p.json(), written_member(m[7 + n].0, m[7 + n].1)));
    reveal_strlit("timeInForce");
    reveal_strlit("symbol");
    reveal_strlit("side");
    reveal_strlit("type");
    reveal_strlit("quantity");
    reveal_strlit("price");
    reveal_strlit("newClientOrderId");
    reveal_strlit("newOrderRespType");
    reveal_strlit("timestamp");
    assert("timeInForce"@.len() == 11);
    assert("symbol"@.len() == 6 && "side"@.len() == 4 && "type"@.len() == 4);
    assert("quantity"@.len() == 8 && "price"@.len() == 5 && "timestamp"@.len() == 9);
    assert("newClientOrderId"@.len() == 16 && "newOrderRespType"@.len() == 16);
}

/// The parameters of an order that is canceled hold, under its own key each, the symbol, the client
/// order identifier of the order and the time of the request.
pub proof fn law_cancel_params_are_written(p: OrderCancelParams)
    ensures
        holds(p.json(), written_member("symbol"@, quoted(p.symbol@))),
        holds(p.json(), written_member("origClientOrderId"@, quoted(p.orig_client_order_id@))),
        holds(p.json(), written_member("timestamp"@, nat_chars(p.timestamp as nat))),
{
    let members = seq![
        ("symbol"@, quoted(p.symbol@)),
        ("origClientOrderId"@, quoted(p.orig_client_order_id@)),
        ("timestamp"@, nat_chars(p.timestamp as nat)),
    ];
    law_object_holds_its_members(members, 0);
    law_object_holds_its_members(members, 1);
    law_object_holds_its_members(members, 2);
}

/// An answer is taken as accepted just where its status is that of success and it carries an order,
/// and then it is that order. Every other answer is a refusal with the code and the message of the
/// error that it carries, or with its status where it carries none.
pub proof fn law_answer_is_accepted_or_refused(a: WsApiOrderResponse, r: WsApiOrderResult)
    requires
        a.says(r),
    ensures
        r is Accepted <==> a.status == 200 && a.result is Some,
        r is Accepted ==> a.result == Some(r->Accepted_0),
        r is Refused ==> r->Refused_0 is OrderError,
        r is Refused && a.error is Some ==> r->Refused_0->OrderError_code == a.error->0.code
            && r->Refused_0->OrderError_msg@ == a.error->0.msg@,
        r is Refused && a.error is None ==> r->Refused_0->OrderError_code == a.status,
{
}

/// The answer of the session is read from its members, each field from its own key, and its order
/// and its error are there just where their members are there and are not null.
pub proof fn law_session_answer_is_read_by_its_keys(x: WsApiOrderResponse, text: Seq<char>, r: Members)
    requires
        members(text) == Some(r),
        x.reads(text),
    ensures
        text_at(r, "id"@) == Some(x.id@),
        int_at(r, "status"@, i32::MIN as int, i32::MAX as int) == Some(x.status as int),
        x.result is Some <==> field(r, "result"@) is Some && field(r, "result"@)->0 != "null"@,
        x.result is Some ==> x.result->0.reads(field(r, "result"@)->0),
        x.error is Some <==> field(r, "error"@) is Some && field(r, "error"@)->0 != "null"@,
        x.error is Some ==> x.error->0.reads(field(r, "error"@)->0),
{
}

} // verus!
