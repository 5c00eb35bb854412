//! Messages of the REST interface.

use vstd::prelude::*;
use vstd::string::*;
use crate::decimal::{in_range, is_in_range};
use crate::json::{
    decimal_at, flag_at, int_at, is_document, members, nat_at, text_at, Json, Members, Record,
};
use crate::types::{OrdType, Side, Status, TimeInForce};
use super::{
    decimal_or_zero, get_decimal_or_zero, get_i64_or_zero, get_levels, get_lower, get_many,
    get_many_or_none, get_one, get_side, get_status, get_text_or_empty, get_texts, get_tif,
    get_time, get_type, int_or, key_texts, levels_at, levels_shape, lower_at, many_or_none_read,
    many_or_none_shape, many_read, many_shape, one_reads, one_shape, side_at, status_at,
    text_or_empty, texts_at, texts_shape, tif_at, time_at, type_at, Fields, Message, TIME_MAX,
    TIME_MIN,
};

verus! {

/// A snapshot of the book: price and quantity of each level.
#[derive(Clone, Debug)]
pub struct Depth {
    pub last_update_id: i64,
    pub asks: Vec<(String, String)>,
    pub bids: Vec<(String, String)>,
}

impl Fields for Depth {
    open spec fn keys() -> Seq<Seq<char>> {
        seq![
            "lastUpdateId"@, "asks"@, "bids"@,
        ]
    }

    open spec fn least() -> nat {
        3
    }

    open spec fn spelled(r: Members) -> bool {
        &&& int_at(r, "lastUpdateId"@, i64::MIN as int, i64::MAX as int) is Some
        &&& levels_shape(r, "asks"@, false)
        &&& levels_shape(r, "bids"@, false)
    }

    open spec fn taken(&self, r: Members) -> bool {
        &&& int_at(r, "lastUpdateId"@, i64::MIN as int, i64::MAX as int) == Some(
            self.last_update_id as int,
        )
        &&& levels_at(r, "asks"@, false, self.asks@)
        &&& levels_at(r, "bids"@, false, self.bids@)
    }

    open spec fn sound(&self) -> bool {
        true
    }

    fn key_list() -> (v: Vec<&'static str>) {
        let v: Vec<&'static str> = vec![
            "lastUpdateId", "asks", "bids",
        ];
        assert(key_texts(v@) =~= Self::keys());
        v
    }

    fn least_len() -> (n: usize) {
        3
    }

    fn take(r: &Record) -> (x: Option<Depth>) {
        Some(
            Depth {
                last_update_id: r.get_i64("lastUpdateId")?,
                asks: get_levels(r, "asks", false)?,
                bids: get_levels(r, "bids", false)?,
            },
        )
    }
}

/// The refusal of a request.
#[derive(Clone, Debug)]
pub struct ErrorResponse {
    pub code: i64,
    pub msg: String,
}

impl Fields for ErrorResponse {
    open spec fn keys() -> Seq<Seq<char>> {
        seq![
            "code"@, "msg"@,
        ]
    }

    open spec fn least() -> nat {
        2
    }

    open spec fn spelled(r: Members) -> bool {
        &&& int_at(r, "code"@, i64::MIN as int, i64::MAX as int) is Some
        &&& text_at(r, "msg"@) is Some
    }

    open spec fn taken(&self, r: Members) -> bool {
        &&& int_at(r, "code"@, i64::MIN as int, i64::MAX as int) == Some(self.code as int)
        &&& text_at(r, "msg"@) == Some(self.msg@)
    }

    open spec fn sound(&self) -> bool {
        true
    }

    fn key_list() -> (v: Vec<&'static str>) {
        let v: Vec<&'static str> = vec![
            "code", "msg",
        ];
        assert(key_texts(v@) =~= Self::keys());
        v
    }

    fn least_len() -> (n: usize) {
        2
    }

    fn take(r: &Record) -> (x: Option<ErrorResponse>) {
        Some(
            ErrorResponse {
                code: r.get_i64("code")?,
                msg: r.get_text("msg")?,
            },
        )
    }
}

/// One fill of an order.
#[derive(Clone, Debug)]
pub struct Fill {
    pub price: i128,
    pub qty: i128,
    pub commission: i128,
    pub commission_asset: String,
    pub trade_id: u64,
}

impl Fields for Fill {
    open spec fn keys() -> Seq<Seq<char>> {
        seq![
            "price"@, "qty"@, "commission"@, "commissionAsset"@, "tradeId"@,
        ]
    }

    open spec fn least() -> nat {
        5
    }

    open spec fn spelled(r: Members) -> bool {
        &&& decimal_at(r, "price"@) is Some
        &&& decimal_at(r, "qty"@) is Some
        &&& decimal_at(r, "commission"@) is Some
        &&& lower_at(r, "commissionAsset"@) is Some
        &&& nat_at(r, "tradeId"@, u64::MAX as int) is Some
    }

    open spec fn taken(&self, r: Members) -> bool {
        &&& decimal_at(r, "price"@) == Some(self.price as int)
        &&& decimal_at(r, "qty"@) == Some(self.qty as int)
        &&& decimal_at(r, "commission"@) == Some(self.commission as int)
        &&& lower_at(r, "commissionAsset"@) == Some(self.commission_asset@)
        &&& nat_at(r, "tradeId"@, u64::MAX as int) == Some(self.trade_id as int)
    }

    open spec fn sound(&self) -> bool {
        true
    }

    fn key_list() -> (v: Vec<&'static str>) {
        let v: Vec<&'static str> = vec![
            "price", "qty", "commission", "commissionAsset", "tradeId",
        ];
        assert(key_texts(v@) =~= Self::keys());
        v
    }

    fn least_len() -> (n: usize) {
        5
    }

    fn take(r: &Record) -> (x: Option<Fill>) {
        Some(
            Fill {
                price: r.get_decimal("price")?,
                qty: r.get_decimal("qty")?,
                commission: r.get_decimal("commission")?,
                commission_asset: get_lower(r, "commissionAsset")?,
                trade_id: r.get_u64("tradeId")?,
            },
        )
    }
}

/// The acceptance of an order. A response to a new order lacks the original quote quantity, and
/// some responses lack the working time, the self-trade prevention mode or the fills; each of
/// these then has its default.
#[derive(Clone, Debug)]
pub struct OrderResponse {
    pub symbol: String,
    pub order_id: u64,
    pub order_list_id: i64,
    pub client_order_id: String,
    pub transact_time: i64,
    pub price: i128,
    pub orig_qty: i128,
    pub executed_qty: i128,
    pub orig_quote_order_qty: i128,
    pub cummulative_quote_qty: i128,
    pub status: Status,
    pub time_in_force: TimeInForce,
    pub order_type: OrdType,
    pub side: Side,
    pub working_time: i64,
    pub self_trade_prevention_mode: String,
    pub fills: Vec<Fill>,
}

impl Fields for OrderResponse {
    open spec fn keys() -> Seq<Seq<char>> {
        seq![
            "symbol"@, "orderId"@, "orderListId"@, "clientOrderId"@, "transactTime"@, "price"@,
            "origQty"@, "executedQty"@, "origQuoteOrderQty"@, "cummulativeQuoteQty"@, "status"@,
            "timeInForce"@, "type"@, "side"@, "workingTime"@, "selfTradePreventionMode"@, "fills"@,
        ]
    }

    open spec fn least() -> nat {
        14
    }

    open spec fn spelled(r: Members) -> bool {
        &&& lower_at(r, "symbol"@) is Some
        &&& nat_at(r, "orderId"@, u64::MAX as int) is Some
        &&& int_at(r, "orderListId"@, i64::MIN as int, i64::MAX as int) is Some
        &&& text_at(r, "clientOrderId"@) is Some
        &&& time_at(r, "transactTime"@) is Some
        &&& decimal_at(r, "price"@) is Some
        &&& decimal_at(r, "origQty"@) is Some
        &&& decimal_at(r, "executedQty"@) is Some
        &&& decimal_or_zero(r, "origQuoteOrderQty"@) is Some
        &&& decimal_at(r, "cummulativeQuoteQty"@) is Some
        &&& status_at(r, "status"@) is Some
        &&& tif_at(r, "timeInForce"@) is Some
        &&& type_at(r, "type"@) is Some
        &&& side_at(r, "side"@) is Some
        &&& int_or(r, "workingTime"@, i64::MIN as int, i64::MAX as int, 0) is Some
        &&& text_or_empty(r, "selfTradePreventionMode"@) is Some
        &&& many_or_none_shape::<Fill>(r, "fills"@)
    }

    open spec fn taken(&self, r: Members) -> bool {
        &&& lower_at(r, "symbol"@) == Some(self.symbol@)
        &&& nat_at(r, "orderId"@, u64::MAX as int) == Some(self.order_id as int)
        &&& int_at(r, "orderListId"@, i64::MIN as int, i64::MAX as int) == Some(
            self.order_list_id as int,
        )
        &&& text_at(r, "clientOrderId"@) == Some(self.client_order_id@)
        &&& time_at(r, "transactTime"@) == Some(self.transact_time as int)
        &&& decimal_at(r, "price"@) == Some(self.price as int)
        &&& decimal_at(r, "origQty"@) == Some(self.orig_qty as int)
        &&& decimal_at(r, "executedQty"@) == Some(self.executed_qty as int)
        &&& decimal_or_zero(r, "origQuoteOrderQty"@) == Some(self.orig_quote_order_qty as int)
        &&& decimal_at(r, "cummulativeQuoteQty"@) == Some(self.cummulative_quote_qty as int)
        &&& status_at(r, "status"@) == Some(self.status)
        &&& tif_at(r, "timeInForce"@) == Some(self.time_in_force)
        &&& type_at(r, "type"@) == Some(self.order_type)
        &&& side_at(r, "side"@) == Some(self.side)
        &&& int_or(r, "workingTime"@, i64::MIN as int, i64::MAX as int, 0) == Some(
            self.working_time as int,
        )
        &&& text_or_empty(r, "selfTradePreventionMode"@) == Some(self.self_trade_prevention_mode@)
        &&& many_or_none_read(r, "fills"@, self.fills@)
    }

    open spec fn sound(&self) -> bool {
        &&& TIME_MIN <= self.transact_time <= TIME_MAX
        &&& in_range(self.orig_qty as int)
        &&& in_range(self.executed_qty as int)
    }

    fn key_list() -> (v: Vec<&'static str>) {
        let v: Vec<&'static str> = vec![
            "symbol", "orderId", "orderListId", "clientOrderId", "transactTime", "price",
            "origQty", "executedQty", "origQuoteOrderQty", "cummulativeQuoteQty", "status",
            "timeInForce", "type", "side", "workingTime", "selfTradePreventionMode", "fills",
        ];
        assert(key_texts(v@) =~= Self::keys());
        v
    }

    fn least_len() -> (n: usize) {
        14
    }

    fn take(r: &Record) -> (x: Option<OrderResponse>) {
        Some(
            OrderResponse {
                symbol: get_lower(r, "symbol")?,
                order_id: r.get_u64("orderId")?,
                order_list_id: r.get_i64("orderListId")?,
                client_order_id: r.get_text("clientOrderId")?,
                transact_time: get_time(r, "transactTime")?,
                price: r.get_decimal("price")?,
                orig_qty: r.get_decimal("origQty")?,
                executed_qty: r.get_decimal("executedQty")?,
                orig_quote_order_qty: get_decimal_or_zero(r, "origQuoteOrderQty")?,
                cummulative_quote_qty: r.get_decimal("cummulativeQuoteQty")?,
                status: get_status(r, "status")?,
                time_in_force: get_tif(r, "timeInForce")?,
                order_type: get_type(r, "type")?,
                side: get_side(r, "side")?,
                working_time: get_i64_or_zero(r, "workingTime")?,
                self_trade_prevention_mode: get_text_or_empty(r, "selfTradePreventionMode")?,
                fills: get_many_or_none(r, "fills")?,
            },
        )
    }
}

impl OrderResponse {
    /// Whether the numbers of the response are within the limits that order arithmetic needs.
    pub fn is_wf(&self) -> (r: bool)
        ensures
            r == self.wf(),
    {
        TIME_MIN <= self.transact_time && self.transact_time <= TIME_MAX && is_in_range(
            self.orig_qty,
        ) && is_in_range(self.executed_qty)
    }
}

/// The acceptance of a cancellation.
#[derive(Clone, Debug)]
pub struct CancelOrderResponse {
    pub symbol: String,
    pub order_id: u64,
    pub order_list_id: i64,
    pub orig_client_order_id: String,
    pub client_order_id: String,
    pub transact_time: i64,
    pub price: i128,
    pub orig_qty: i128,
    pub executed_qty: i128,
    pub orig_quote_order_qty: i128,
    pub cummulative_quote_qty: i128,
    pub status: Status,
    pub time_in_force: TimeInForce,
    pub order_type: OrdType,
    pub side: Side,
    pub self_trade_prevention_mode: String,
}

impl Fields for CancelOrderResponse {
    open spec fn keys() -> Seq<Seq<char>> {
        seq![
            "symbol"@, "orderId"@, "orderListId"@, "origClientOrderId"@, "clientOrderId"@,
            "transactTime"@, "price"@, "origQty"@, "executedQty"@, "origQuoteOrderQty"@,
            "cummulativeQuoteQty"@, "status"@, "timeInForce"@, "type"@, "side"@,
            "selfTradePreventionMode"@,
        ]
    }

    open spec fn least() -> nat {
        15
    }

    open spec fn spelled(r: Members) -> bool {
        &&& lower_at(r, "symbol"@) is Some
        &&& nat_at(r, "orderId"@, u64::MAX as int) is Some
        &&& int_at(r, "orderListId"@, i64::MIN as int, i64::MAX as int) is Some
        &&& text_at(r, "origClientOrderId"@) is Some
        &&& text_at(r, "clientOrderId"@) is Some
        &&& time_at(r, "transactTime"@) is Some
        &&& decimal_at(r, "price"@) is Some
        &&& decimal_at(r, "origQty"@) is Some
        &&& decimal_at(r, "executedQty"@) is Some
        &&& decimal_or_zero(r, "origQuoteOrderQty"@) is Some
        &&& decimal_at(r, "cummulativeQuoteQty"@) is Some
        &&& status_at(r, "status"@) is Some
        &&& tif_at(r, "timeInForce"@) is Some
        &&& type_at(r, "type"@) is Some
        &&& side_at(r, "side"@) is Some
        &&& text_or_empty(r, "selfTradePreventionMode"@) is Some
    }

    open spec fn taken(&self, r: Members) -> bool {
        &&& lower_at(r, "symbol"@) == Some(self.symbol@)
        &&& nat_at(r, "orderId"@, u64::MAX as int) == Some(self.order_id as int)
        &&& int_at(r, "orderListId"@, i64::MIN as int, i64::MAX as int) == Some(
            self.order_list_id as int,
        )
        &&& text_at(r, "origClientOrderId"@) == Some(self.orig_client_order_id@)
        &&& text_at(r, "clientOrderId"@) == Some(self.client_order_id@)
        &&& time_at(r, "transactTime"@) == Some(self.transact_time as int)
        &&& decimal_at(r, "price"@) == Some(self.price as int)
        &&& decimal_at(r, "origQty"@) == Some(self.orig_qty as int)
        &&& decimal_at(r, "executedQty"@) == Some(self.executed_qty as int)
        &&& decimal_or_zero(r, "origQuoteOrderQty"@) == Some(self.orig_quote_order_qty as int)
        &&& decimal_at(r, "cummulativeQuoteQty"@) == Some(self.cummulative_quote_qty as int)
        &&& status_at(r, "status"@) == Some(self.status)
        &&& tif_at(r, "timeInForce"@) == Some(self.time_in_force)
        &&& type_at(r, "type"@) == Some(self.order_type)
        &&& side_at(r, "side"@) == Some(self.side)
        &&& text_or_empty(r, "selfTradePreventionMode"@) == Some(self.self_trade_prevention_mode@)
    }

    open spec fn sound(&self) -> bool {
        &&& TIME_MIN <= self.transact_time <= TIME_MAX
        &&& in_range(self.orig_qty as int)
        &&& in_range(self.executed_qty as int)
    }

    fn key_list() -> (v: Vec<&'static str>) {
        let v: Vec<&'static str> = vec![
            "symbol", "orderId", "orderListId", "origClientOrderId", "clientOrderId",
            "transactTime", "price", "origQty", "executedQty", "origQuoteOrderQty",
            "cummulativeQuoteQty", "status", "timeInForce", "type", "side",
            "selfTradePreventionMode",
        ];
        assert(key_texts(v@) =~= Self::keys());
        v
    }

    fn least_len() -> (n: usize) {
        15
    }

    fn take(r: &Record) -> (x: Option<CancelOrderResponse>) {
        Some(
            CancelOrderResponse {
                symbol: get_lower(r, "symbol")?,
                order_id: r.get_u64("orderId")?,
                order_list_id: r.get_i64("orderListId")?,
                orig_client_order_id: r.get_text("origClientOrderId")?,
                client_order_id: r.get_text("clientOrderId")?,
                transact_time: get_time(r, "transactTime")?,
                price: r.get_decimal("price")?,
                orig_qty: r.get_decimal("origQty")?,
                executed_qty: r.get_decimal("executedQty")?,
                orig_quote_order_qty: get_decimal_or_zero(r, "origQuoteOrderQty")?,
                cummulative_quote_qty: r.get_decimal("cummulativeQuoteQty")?,
                status: get_status(r, "status")?,
                time_in_force: get_tif(r, "timeInForce")?,
                order_type: get_type(r, "type")?,
                side: get_side(r, "side")?,
                self_trade_prevention_mode: get_text_or_empty(r, "selfTradePreventionMode")?,
            },
        )
    }
}

impl OrderResponse {
    /// Whether this is the response to a cancellation as the response to an order.
    pub open spec fn stands_for(self, order: CancelOrderResponse) -> bool {
        &&& self.symbol@ == order.symbol@
        &&& self.order_id == order.order_id
        &&& self.order_list_id == order.order_list_id
        &&& self.client_order_id@ == order.client_order_id@
        &&& self.transact_time == order.transact_time
        &&& self.price == order.price
        &&& self.orig_qty == order.orig_qty
        &&& self.executed_qty == order.executed_qty
        &&& self.orig_quote_order_qty == order.orig_quote_order_qty
        &&& self.cummulative_quote_qty == order.cummulative_quote_qty
        &&& self.status == order.status
        &&& self.time_in_force == order.time_in_force
        &&& self.order_type == order.order_type
        &&& self.side == order.side
        &&& self.working_time == order.transact_time
        &&& self.self_trade_prevention_mode@ == order.self_trade_prevention_mode@
        &&& self.fills@.len() == 0
    }

    /// The response to a cancellation as the response to an order: the transaction time stands for
    /// the working time, and there are no fills.
    pub fn from(order: CancelOrderResponse) -> (r: OrderResponse)
        ensures
            r.symbol@ == order.symbol@,
            r.order_id == order.order_id,
            r.order_list_id == order.order_list_id,
            r.client_order_id@ == order.client_order_id@,
            r.transact_time == order.transact_time,
            r.price == order.price,
            r.orig_qty == order.orig_qty,
            r.executed_qty == order.executed_qty,
            r.orig_quote_order_qty == order.orig_quote_order_qty,
            r.cummulative_quote_qty == order.cummulative_quote_qty,
            r.status == order.status,
            r.time_in_force == order.time_in_force,
            r.order_type == order.order_type,
            r.side == order.side,
            r.working_time == order.transact_time,
            r.self_trade_prevention_mode@ == order.self_trade_prevention_mode@,
            r.fills@.len() == 0,
            order.wf() ==> r.wf(),
            r.stands_for(order),
    {
        OrderResponse {
            symbol: order.symbol,
            order_id: order.order_id,
            order_list_id: order.order_list_id,
            client_order_id: order.client_order_id,
            transact_time: order.transact_time,
            price: order.price,
            orig_qty: order.orig_qty,
            executed_qty: order.executed_qty,
            orig_quote_order_qty: order.orig_quote_order_qty,
            cummulative_quote_qty: order.cummulative_quote_qty,
            status: order.status,
            time_in_force: order.time_in_force,
            order_type: order.order_type,
            side: order.side,
            working_time: order.transact_time,
            self_trade_prevention_mode: order.self_trade_prevention_mode,
            fills: Vec::new(),
        }
    }
}

/// The answer to an order: the acceptance where the document spells one, else the refusal.
#[derive(Clone, Debug)]
pub enum OrderResponseResult {
    Accepted(OrderResponse),
    Refused(ErrorResponse),
}

impl Message for OrderResponseResult {
    open spec fn shape(text: Seq<char>) -> bool {
        &&& is_document(text)
        &&& OrderResponse::shape(text) || ErrorResponse::shape(text)
    }

    open spec fn reads(&self, text: Seq<char>) -> bool {
        match self {
            OrderResponseResult::Accepted(x) => x.reads(text),
            OrderResponseResult::Refused(x) => x.reads(text) && !OrderResponse::shape(text),
        }
    }

    open spec fn wf(&self) -> bool {
        match self {
            OrderResponseResult::Accepted(x) => x.wf(),
            OrderResponseResult::Refused(x) => x.wf(),
        }
    }

    fn decode(j: &Json) -> (r: Option<OrderResponseResult>) {
        if !j.is_valid() {
            return None;
        }
        if let Some(x) = OrderResponse::decode(j) {
            return Some(OrderResponseResult::Accepted(x));
        }
        match ErrorResponse::decode(j) {
            Some(x) => Some(OrderResponseResult::Refused(x)),
            None => None,
        }
    }
}

/// The answer to a cancellation: the acceptance where the document spells one, else the refusal.
#[derive(Clone, Debug)]
pub enum CancelOrderResponseResult {
    Accepted(CancelOrderResponse),
    Refused(ErrorResponse),
}

impl Message for CancelOrderResponseResult {
    open spec fn shape(text: Seq<char>) -> bool {
        &&& is_document(text)
        &&& CancelOrderResponse::shape(text) || ErrorResponse::shape(text)
    }

    open spec fn reads(&self, text: Seq<char>) -> bool {
        match self {
            CancelOrderResponseResult::Accepted(x) => x.reads(text),
            CancelOrderResponseResult::Refused(x) => {
                &&& x.reads(text)
                &&& !CancelOrderResponse::shape(text)
            },
        }
    }

    open spec fn wf(&self) -> bool {
        match self {
            CancelOrderResponseResult::Accepted(x) => x.wf(),
            CancelOrderResponseResult::Refused(x) => x.wf(),
        }
    }

    fn decode(j: &Json) -> (r: Option<CancelOrderResponseResult>) {
        if !j.is_valid() {
            return None;
        }
        if let Some(x) = CancelOrderResponse::decode(j) {
            return Some(CancelOrderResponseResult::Accepted(x));
        }
        match ErrorResponse::decode(j) {
            Some(x) => Some(CancelOrderResponseResult::Refused(x)),
            None => None,
        }
    }
}

/// The commission rates of an account.
#[derive(Clone, Debug)]
pub struct CommissionRates {
    pub maker: i128,
    pub taker: i128,
    pub buyer: i128,
    pub seller: i128,
}

impl Fields for CommissionRates {
    open spec fn keys() -> Seq<Seq<char>> {
        seq![
            "maker"@, "taker"@, "buyer"@, "seller"@,
        ]
    }

    open spec fn least() -> nat {
        4
    }

    open spec fn spelled(r: Members) -> bool {
        &&& decimal_at(r, "maker"@) is Some
        &&& decimal_at(r, "taker"@) is Some
        &&& decimal_at(r, "buyer"@) is Some
        &&& decimal_at(r, "seller"@) is Some
    }

    open spec fn taken(&self, r: Members) -> bool {
        &&& decimal_at(r, "maker"@) == Some(self.maker as int)
        &&& decimal_at(r, "taker"@) == Some(self.taker as int)
        &&& decimal_at(r, "buyer"@) == Some(self.buyer as int)
        &&& decimal_at(r, "seller"@) == Some(self.seller as int)
    }

    open spec fn sound(&self) -> bool {
        true
    }

    fn key_list() -> (v: Vec<&'static str>) {
        let v: Vec<&'static str> = vec![
            "maker", "taker", "buyer", "seller",
        ];
        assert(key_texts(v@) =~= Self::keys());
        v
    }

    fn least_len() -> (n: usize) {
        4
    }

    fn take(r: &Record) -> (x: Option<CommissionRates>) {
        Some(
            CommissionRates {
                maker: r.get_decimal("maker")?,
                taker: r.get_decimal("taker")?,
                buyer: r.get_decimal("buyer")?,
                seller: r.get_decimal("seller")?,
            },
        )
    }
}

/// The balance of one asset.
#[derive(Clone, Debug)]
pub struct BalanceEntry {
    pub asset: String,
    pub free: i128,
    pub locked: i128,
}

impl Fields for BalanceEntry {
    open spec fn keys() -> Seq<Seq<char>> {
        seq![
            "asset"@, "free"@, "locked"@,
        ]
    }

    open spec fn least() -> nat {
        3
    }

    open spec fn spelled(r: Members) -> bool {
        &&& lower_at(r, "asset"@) is Some
        &&& decimal_at(r, "free"@) is Some
        &&& decimal_at(r, "locked"@) is Some
    }

    open spec fn taken(&self, r: Members) -> bool {
        &&& lower_at(r, "asset"@) == Some(self.asset@)
        &&& decimal_at(r, "free"@) == Some(self.free as int)
        &&& decimal_at(r, "locked"@) == Some(self.locked as int)
    }

    open spec fn sound(&self) -> bool {
        true
    }

    fn key_list() -> (v: Vec<&'static str>) {
        let v: Vec<&'static str> = vec![
            "asset", "free", "locked",
        ];
        assert(key_texts(v@) =~= Self::keys());
        v
    }

    fn least_len() -> (n: usize) {
        3
    }

    fn take(r: &Record) -> (x: Option<BalanceEntry>) {
        Some(
            BalanceEntry {
                asset: get_lower(r, "asset")?,
                free: r.get_decimal("free")?,
                locked: r.get_decimal("locked")?,
            },
        )
    }
}

/// The state of an account.
#[derive(Clone, Debug)]
pub struct AccountInfomation {
    pub maker_commission: u64,
    pub taker_commission: u64,
    pub buyer_commission: u64,
    pub seller_commission: u64,
    pub commission_rates: CommissionRates,
    pub can_trade: bool,
    pub can_withdraw: bool,
    pub can_deposit: bool,
    pub brokered: bool,
    pub require_self_trade_prevention: bool,
    pub prevent_sor: bool,
    pub update_time: i64,
    pub account_type: String,
    pub balances: Vec<BalanceEntry>,
    pub permissions: Vec<String>,
    pub uid: u64,
}

impl Fields for AccountInfomation {
    open spec fn keys() -> Seq<Seq<char>> {
        seq![
            "makerCommission"@, "takerCommission"@, "buyerCommission"@, "sellerCommission"@,
            "commissionRates"@, "canTrade"@, "canWithdraw"@, "canDeposit"@, "brokered"@,
            "requireSelfTradePrevention"@, "preventSor"@, "updateTime"@, "accountType"@,
            "balances"@, "permissions"@, "uid"@,
        ]
    }

    open spec fn least() -> nat {
        16
    }

    open spec fn spelled(r: Members) -> bool {
        &&& nat_at(r, "makerCommission"@, u64::MAX as int) is Some
        &&& nat_at(r, "takerCommission"@, u64::MAX as int) is Some
        &&& nat_at(r, "buyerCommission"@, u64::MAX as int) is Some
        &&& nat_at(r, "sellerCommission"@, u64::MAX as int) is Some
        &&& one_shape::<CommissionRates>(r, "commissionRates"@)
        &&& flag_at(r, "canTrade"@) is Some
        &&& flag_at(r, "canWithdraw"@) is Some
        &&& flag_at(r, "canDeposit"@) is Some
        &&& flag_at(r, "brokered"@) is Some
        &&& flag_at(r, "requireSelfTradePrevention"@) is Some
        &&& flag_at(r, "preventSor"@) is Some
        &&& time_at(r, "updateTime"@) is Some
        &&& text_at(r, "accountType"@) is Some
        &&& many_shape::<BalanceEntry>(r, "balances"@)
        &&& texts_shape(r, "permissions"@)
        &&& nat_at(r, "uid"@, u64::MAX as int) is Some
    }

    open spec fn taken(&self, r: Members) -> bool {
        &&& nat_at(r, "makerCommission"@, u64::MAX as int) == Some(self.maker_commission as int)
        &&& nat_at(r, "takerCommission"@, u64::MAX as int) == Some(self.taker_commission as int)
        &&& nat_at(r, "buyerCommission"@, u64::MAX as int) == Some(self.buyer_commission as int)
        &&& nat_at(r, "sellerCommission"@, u64::MAX as int) == Some(self.seller_commission as int)
        &&& one_reads(r, "commissionRates"@, self.commission_rates)
        &&& flag_at(r, "canTrade"@) == Some(self.can_trade)
        &&& flag_at(r, "canWithdraw"@) == Some(self.can_withdraw)
        &&& flag_at(r, "canDeposit"@) == Some(self.can_deposit)
        &&& flag_at(r, "brokered"@) == Some(self.brokered)
        &&& flag_at(r, "requireSelfTradePrevention"@) == Some(self.require_self_trade_prevention)
        &&& flag_at(r, "preventSor"@) == Some(self.prevent_sor)
        &&& time_at(r, "updateTime"@) == Some(self.update_time as int)
        &&& text_at(r, "accountType"@) == Some(self.account_type@)
        &&& many_read(r, "balances"@, self.balances@)
        &&& texts_at(r, "permissions"@, self.permissions@)
        &&& nat_at(r, "uid"@, u64::MAX as int) == Some(self.uid as int)
    }

    open spec fn sound(&self) -> bool {
        &&& TIME_MIN <= self.update_time <= TIME_MAX
    }

    fn key_list() -> (v: Vec<&'static str>) {
        let v: Vec<&'static str> = vec![
            "makerCommission", "takerCommission", "buyerCommission", "sellerCommission",
            "commissionRates", "canTrade", "canWithdraw", "canDeposit", "brokered",
            "requireSelfTradePrevention", "preventSor", "updateTime", "accountType", "balances",
            "permissions", "uid",
        ];
        assert(key_texts(v@) =~= Self::keys());
        v
    }

    fn least_len() -> (n: usize) {
        16
    }

    fn take(r: &Record) -> (x: Option<AccountInfomation>) {
        Some(
            AccountInfomation {
                maker_commission: r.get_u64("makerCommission")?,
                taker_commission: r.get_u64("takerCommission")?,
                buyer_commission: r.get_u64("buyerCommission")?,
                seller_commission: r.get_u64("sellerCommission")?,
                commission_rates: get_one(r, "commissionRates")?,
                can_trade: r.get_flag("canTrade")?,
                can_withdraw: r.get_flag("canWithdraw")?,
                can_deposit: r.get_flag("canDeposit")?,
                brokered: r.get_flag("brokered")?,
                require_self_trade_prevention: r.get_flag("requireSelfTradePrevention")?,
                prevent_sor: r.get_flag("preventSor")?,
                update_time: get_time(r, "updateTime")?,
                account_type: r.get_text("accountType")?,
                balances: get_many(r, "balances")?,
                permissions: get_texts(r, "permissions")?,
                uid: r.get_u64("uid")?,
            },
        )
    }
}

impl AccountInfomation {
    /// Whether the time of the account fits nanoseconds of 64 bits.
    pub fn is_wf(&self) -> (r: bool)
        ensures
            r == self.wf(),
    {
        TIME_MIN <= self.update_time && self.update_time <= TIME_MAX
    }
}

/// A snapshot of a book is read from its members: its last update, its asks and its bids, each from
/// its own key.
pub proof fn law_snapshot_is_read_by_its_keys(
    x: Depth,
    text: Seq<char>,
    r: Members,
)
    requires
        members(text) == Some(r),
        x.reads(text),
    ensures
        int_at(r, "lastUpdateId"@, i64::MIN as int, i64::MAX as int) == Some(
            x.last_update_id as int,
        ),
        levels_at(r, "asks"@, false, x.asks@),
        levels_at(r, "bids"@, false, x.bids@),
{
}

/// A refusal is read from its members: its code and its message, each from its own key.
pub proof fn law_refusal_is_read_by_its_keys(
    x: ErrorResponse,
    text: Seq<char>,
    r: Members,
)
    requires
        members(text) == Some(r),
        x.reads(text),
    ensures
        int_at(r, "code"@, i64::MIN as int, i64::MAX as int) == Some(x.code as int),
        text_at(r, "msg"@) == Some(x.msg@),
{
}

/// A fill is read from its members, each field from its own key.
pub proof fn law_fill_is_read_by_its_keys(
    x: Fill,
    text: Seq<char>,
    r: Members,
)
    requires
        members(text) == Some(r),
        x.reads(text),
    ensures
        decimal_at(r, "price"@) == Some(x.price as int),
        decimal_at(r, "qty"@) == Some(x.qty as int),
        decimal_at(r, "commission"@) == Some(x.commission as int),
        lower_at(r, "commissionAsset"@) == Some(x.commission_asset@),
        nat_at(r, "tradeId"@, u64::MAX as int) == Some(x.trade_id as int),
{
}

/// The answer to an order is read from its members, each field from its own key: among them the
/// ordered quantity, the executed quantity, the time, the status, the side, the type and the time
/// in force.
pub proof fn law_order_answer_is_read_by_its_keys(
    x: OrderResponse,
    text: Seq<char>,
    r: Members,
)
    requires
        members(text) == Some(r),
        x.reads(text),
    ensures
        lower_at(r, "symbol"@) == Some(x.symbol@),
        nat_at(r, "orderId"@, u64::MAX as int) == Some(x.order_id as int),
        int_at(r, "orderListId"@, i64::MIN as int, i64::MAX as int) == Some(x.order_list_id as int),
        text_at(r, "clientOrderId"@) == Some(x.client_order_id@),
        time_at(r, "transactTime"@) == Some(x.transact_time as int),
        decimal_at(r, "price"@) == Some(x.price as int),
        decimal_at(r, "origQty"@) == Some(x.orig_qty as int),
        decimal_at(r, "executedQty"@) == Some(x.executed_qty as int),
        decimal_or_zero(r, "origQuoteOrderQty"@) == Some(x.orig_quote_order_qty as int),
        decimal_at(r, "cummulativeQuoteQty"@) == Some(x.cummulative_quote_qty as int),
        status_at(r, "status"@) == Some(x.status),
        tif_at(r, "timeInForce"@) == Some(x.time_in_force),
        type_at(r, "type"@) == Some(x.order_type),
        side_at(r, "side"@) == Some(x.side),
        int_or(r, "workingTime"@, i64::MIN as int, i64::MAX as int, 0) == Some(
            x.working_time as int,
        ),
        text_or_empty(r, "selfTradePreventionMode"@) == Some(x.self_trade_prevention_mode@),
        many_or_none_read(r, "fills"@, x.fills@),
{
}

/// The answer to a cancellation is read from its members, each field from its own key.
pub proof fn law_cancellation_answer_is_read_by_its_keys(
    x: CancelOrderResponse,
    text: Seq<char>,
    r: Members,
)
    requires
        members(text) == Some(r),
        x.reads(text),
    ensures
        lower_at(r, "symbol"@) == Some(x.symbol@),
        nat_at(r, "orderId"@, u64::MAX as int) == Some(x.order_id as int),
        int_at(r, "orderListId"@, i64::MIN as int, i64::MAX as int) == Some(x.order_list_id as int),
        text_at(r, "origClientOrderId"@) == Some(x.orig_client_order_id@),
        text_at(r, "clientOrderId"@) == Some(x.client_order_id@),
        time_at(r, "transactTime"@) == Some(x.transact_time as int),
        decimal_at(r, "price"@) == Some(x.price as int),
        decimal_at(r, "origQty"@) == Some(x.orig_qty as int),
        decimal_at(r, "executedQty"@) == Some(x.executed_qty as int),
        decimal_or_zero(r, "origQuoteOrderQty"@) == Some(x.orig_quote_order_qty as int),
        decimal_at(r, "cummulativeQuoteQty"@) == Some(x.cummulative_quote_qty as int),
        status_at(r, "status"@) == Some(x.status),
        tif_at(r, "timeInForce"@) == Some(x.time_in_force),
        type_at(r, "type"@) == Some(x.order_type),
        side_at(r, "side"@) == Some(x.side),
        text_or_empty(r, "selfTradePreventionMode"@) == Some(x.self_trade_prevention_mode@),
{
}

/// A balance of an account is read from its members: the asset, the free amount and the locked
/// amount, each from its own key.
pub proof fn law_account_balance_is_read_by_its_keys(
    x: BalanceEntry,
    text: Seq<char>,
    r: Members,
)
    requires
        members(text) == Some(r),
        x.reads(text),
    ensures
        lower_at(r, "asset"@) == Some(x.asset@),
        decimal_at(r, "free"@) == Some(x.free as int),
        decimal_at(r, "locked"@) == Some(x.locked as int),
{
}

/// An account is read from its members: its time and its balances, each from its own key.
pub proof fn law_account_is_read_by_its_keys(
    x: AccountInfomation,
    text: Seq<char>,
    r: Members,
)
    requires
        members(text) == Some(r),
        x.reads(text),
    ensures
        time_at(r, "updateTime"@) == Some(x.update_time as int),
        many_read(r, "balances"@, x.balances@),
{
}

/// The answer to a cancellation stands for an answer to an order with the same identifiers, time,
/// price, quantities, status, terms and side, and without fills.
pub proof fn law_cancellation_answers_like_an_order(r: OrderResponse, c: CancelOrderResponse)
    requires
        r.stands_for(c),
    ensures
        r.symbol@ == c.symbol@,
        r.order_id == c.order_id,
        r.client_order_id@ == c.client_order_id@,
        r.transact_time == c.transact_time,
        r.working_time == c.transact_time,
        r.price == c.price,
        r.orig_qty == c.orig_qty,
        r.executed_qty == c.executed_qty,
        r.cummulative_quote_qty == c.cummulative_quote_qty,
        r.status == c.status,
        r.side == c.side,
        r.order_type == c.order_type,
        r.time_in_force == c.time_in_force,
        r.fills@.len() == 0,
        c.wf() ==> r.wf(),
{
}

/// An answer is an acceptance wherever the document spells one, and a refusal only where it does
/// not.
pub proof fn law_acceptance_comes_before_refusal(
    x: OrderResponseResult,
    y: CancelOrderResponseResult,
    text: Seq<char>,
)
    ensures
        x.reads(text) && x is Refused ==> !OrderResponse::shape(text) && x->Refused_0.reads(text),
        x.reads(text) && x is Accepted ==> x->Accepted_0.reads(text),
        y.reads(text) && y is Refused ==> !CancelOrderResponse::shape(text) && y->Refused_0.reads(
            text,
        ),
        y.reads(text) && y is Accepted ==> y->Accepted_0.reads(text),
        OrderResponse::shape(text) && is_document(text) ==> OrderResponseResult::shape(text),
        CancelOrderResponse::shape(text) && is_document(text) ==> CancelOrderResponseResult::shape(
            text,
        ),
        ErrorResponse::shape(text) && is_document(text) ==> OrderResponseResult::shape(text)
            && CancelOrderResponseResult::shape(text),
        OrderResponseResult::shape(text) ==> OrderResponse::shape(text) || ErrorResponse::shape(
            text,
        ),
{
}

/// A snapshot of a book is read wherever its last update and its levels are spelled.
pub proof fn law_snapshot_is_read_where_it_is_spelled(text: Seq<char>, r: Members)
    requires
        members(text) == Some(r),
        int_at(r, "lastUpdateId"@, i64::MIN as int, i64::MAX as int) is Some,
        levels_shape(r, "asks"@, false),
        levels_shape(r, "bids"@, false),
    ensures
        Depth::shape(text),
{
}

/// The answer to an order is read wherever each of its keys spells a value of its kind; those that
/// have defaults need not be there.
pub proof fn law_order_answer_is_read_where_it_is_spelled(text: Seq<char>, r: Members)
    requires
        members(text) == Some(r),
        lower_at(r, "symbol"@) is Some,
        nat_at(r, "orderId"@, u64::MAX as int) is Some,
        int_at(r, "orderListId"@, i64::MIN as int, i64::MAX as int) is Some,
        text_at(r, "clientOrderId"@) is Some,
        time_at(r, "transactTime"@) is Some,
        decimal_at(r, "price"@) is Some,
        decimal_at(r, "origQty"@) is Some,
        decimal_at(r, "executedQty"@) is Some,
        decimal_or_zero(r, "origQuoteOrderQty"@) is Some,
        decimal_at(r, "cummulativeQuoteQty"@) is Some,
        status_at(r, "status"@) is Some,
        tif_at(r, "timeInForce"@) is Some,
        type_at(r, "type"@) is Some,
        side_at(r, "side"@) is Some,
        int_or(r, "workingTime"@, i64::MIN as int, i64::MAX as int, 0) is Some,
        text_or_empty(r, "selfTradePreventionMode"@) is Some,
        many_or_none_shape::<Fill>(r, "fills"@),
    ensures
        OrderResponse::shape(text),
{
}

/// The answer to a cancellation is read wherever each of its keys spells a value of its kind; those
/// that have defaults need not be there.
pub proof fn law_cancellation_answer_is_read_where_it_is_spelled(text: Seq<char>, r: Members)
    requires
        members(text) == Some(r),
        lower_at(r, "symbol"@) is Some,
        nat_at(r, "orderId"@, u64::MAX as int) is Some,
        int_at(r, "orderListId"@, i64::MIN as int, i64::MAX as int) is Some,
        text_at(r, "origClientOrderId"@) is Some,
        text_at(r, "clientOrderId"@) is Some,
        time_at(r, "transactTime"@) is Some,
        decimal_at(r, "price"@) is Some,
        decimal_at(r, "origQty"@) is Some,
        decimal_at(r, "executedQty"@) is Some,
        decimal_or_zero(r, "origQuoteOrderQty"@) is Some,
        decimal_at(r, "cummulativeQuoteQty"@) is Some,
        status_at(r, "status"@) is Some,
        tif_at(r, "timeInForce"@) is Some,
        type_at(r, "type"@) is Some,
        side_at(r, "side"@) is Some,
        text_or_empty(r, "selfTradePreventionMode"@) is Some,
    ensures
        CancelOrderResponse::shape(text),
{
}

/// A balance of an account is read wherever its asset and its amounts are spelled.
pub proof fn law_account_balance_is_read_where_it_is_spelled(text: Seq<char>, r: Members)
    requires
        members(text) == Some(r),
        lower_at(r, "asset"@) is Some,
        decimal_at(r, "free"@) is Some,
        decimal_at(r, "locked"@) is Some,
    ensures
        BalanceEntry::shape(text),
{
}

} // verus!
