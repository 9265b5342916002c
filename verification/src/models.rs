//! Data shapes of the probe: feed lines as returned by the pricing API
//! (already converted to plain values), stored records, and configuration
//! carriers. Monetary amounts are integers in milli-units (thousandths)
//! of the primary in-game currency.
use vstd::prelude::*;

verus! {

/// Largest amount (in milli-units) a line may carry; keeps derived
/// computations inside 64 bits.
pub const MAX_AMOUNT_MILLI: i64 = 1000000000000000;

/// Trend of the pay side of a fungible-currency line.
#[derive(Debug, Clone)]
pub struct PaySparkLine {
    pub total_change: i64,
}

/// Trend of the receive side of a fungible-currency line.
#[derive(Debug, Clone)]
pub struct ReceiveSparkLine {
    pub total_change: i64,
}

/// Trend of a discrete-item line.
#[derive(Debug, Clone)]
pub struct SparkLine {
    pub total_change: i64,
}

/// One fungible-currency price line of the feed.
#[derive(Debug, Clone)]
pub struct Line {
    pub currency_type_name: String,
    pub chaos_equivalent: i64,
    pub pay_spark_line: Option<PaySparkLine>,
    pub receive_spark_line: Option<ReceiveSparkLine>,
}

/// Mathematical image of a feed line; absent trends read as zero.
#[verifier::ext_equal]
pub struct LineV {
    pub name: Seq<char>,
    pub chaos: int,
    pub pay: int,
    pub recv: int,
}

impl View for Line {
    type V = LineV;

    open spec fn view(&self) -> LineV {
        LineV {
            name: self.currency_type_name@,
            chaos: self.chaos_equivalent as int,
            pay: match self.pay_spark_line {
                Some(p) => p.total_change as int,
                None => 0,
            },
            recv: match self.receive_spark_line {
                Some(r) => r.total_change as int,
                None => 0,
            },
        }
    }
}

/// The feed lines as a sequence of their mathematical images.
pub open spec fn lines_view(s: Seq<Line>) -> Seq<LineV> {
    s.map_values(|l: Line| l@)
}

/// One discrete-item price line of the feed.
#[derive(Debug, Clone)]
pub struct ItemLine {
    pub name: String,
    pub chaos_value: i64,
    pub divine_value: i64,
    pub sparkline: Option<SparkLine>,
}

/// Mathematical image of an item line.
#[verifier::ext_equal]
pub struct ItemLineV {
    pub name: Seq<char>,
    pub chaos_value: int,
    pub divine_value: int,
    pub total_change: int,
}

impl View for ItemLine {
    type V = ItemLineV;

    open spec fn view(&self) -> ItemLineV {
        ItemLineV {
            name: self.name@,
            chaos_value: self.chaos_value as int,
            divine_value: self.divine_value as int,
            total_change: match self.sparkline {
                Some(s) => s.total_change as int,
                None => 0,
            },
        }
    }
}

/// An item line enters the common pipeline with its single trend standing
/// for both the pay and the receive trend.
pub open spec fn item_line_as_line(l: ItemLineV) -> LineV {
    LineV { name: l.name, chaos: l.chaos_value, pay: l.total_change, recv: l.total_change }
}

/// The item feed lines as common pipeline lines.
pub open spec fn item_lines_view(s: Seq<ItemLine>) -> Seq<LineV> {
    s.map_values(|l: ItemLine| item_line_as_line(l@))
}

/// A currency-category feed response.
#[derive(Debug, Clone)]
pub struct QueryResponse {
    pub lines: Vec<Line>,
}

impl QueryResponse {
    /// The response of a failed or empty fetch: no lines.
    pub fn empty() -> (r: QueryResponse)
        ensures
            r.lines@.len() == 0,
    {
        QueryResponse { lines: Vec::new() }
    }
}

/// An item-category feed response.
#[derive(Debug, Clone)]
pub struct ItemQueryResponse {
    pub lines: Vec<ItemLine>,
}

impl ItemQueryResponse {
    /// The response of a failed or empty fetch: no lines.
    pub fn empty() -> (r: ItemQueryResponse)
        ensures
            r.lines@.len() == 0,
    {
        ItemQueryResponse { lines: Vec::new() }
    }
}

/// Outcome of one fetch: at most one of the two response shapes, chosen by
/// the category's main type.
#[derive(Debug, Clone)]
pub struct ApiResponse {
    pub item_response: Option<ItemQueryResponse>,
    pub currency_response: Option<QueryResponse>,
}

impl ApiResponse {
    /// A response carrying no data at all.
    pub fn empty() -> (r: ApiResponse)
        ensures
            r.item_response is None,
            r.currency_response is None,
    {
        ApiResponse { item_response: None, currency_response: None }
    }

    pub fn set_item_response(&mut self, item_response: ItemQueryResponse)
        ensures
            final(self).item_response == Some(item_response),
            final(self).currency_response == old(self).currency_response,
    {
        self.item_response = Some(item_response);
    }

    pub fn set_currency_response(&mut self, currency_response: QueryResponse)
        ensures
            final(self).currency_response == Some(currency_response),
            final(self).item_response == old(self).item_response,
    {
        self.currency_response = Some(currency_response);
    }
}

/// Extra description of a currency shipped by the feed; carried through
/// unchanged.
#[derive(Debug, Clone)]
pub struct CurrencyDetails {
    pub icon: String,
    pub name: String,
    pub trade_id: String,
}

/// One stored record of a category snapshot.
#[derive(Debug, Clone)]
pub struct DataStore {
    pub name: String,
    pub chaos_equivalent: i64,
    pub divine_equivalent: i64,
    pub pay_total_change: i64,
    pub receive_total_change: i64,
    pub update_time: String,
}

/// Mathematical image of a stored record.
#[verifier::ext_equal]
pub struct DataStoreV {
    pub name: Seq<char>,
    pub chaos_equivalent: int,
    pub divine_equivalent: int,
    pub pay_total_change: int,
    pub receive_total_change: int,
    pub update_time: Seq<char>,
}

impl View for DataStore {
    type V = DataStoreV;

    open spec fn view(&self) -> DataStoreV {
        DataStoreV {
            name: self.name@,
            chaos_equivalent: self.chaos_equivalent as int,
            divine_equivalent: self.divine_equivalent as int,
            pay_total_change: self.pay_total_change as int,
            receive_total_change: self.receive_total_change as int,
            update_time: self.update_time@,
        }
    }
}

impl DataStore {
    pub fn new(
        name: String,
        chaos_equivalent: i64,
        divine_equivalent: i64,
        pay_total_change: i64,
        receive_total_change: i64,
        update_time: String,
    ) -> (r: DataStore)
        ensures
            r@ == (DataStoreV {
                name: name@,
                chaos_equivalent: chaos_equivalent as int,
                divine_equivalent: divine_equivalent as int,
                pay_total_change: pay_total_change as int,
                receive_total_change: receive_total_change as int,
                update_time: update_time@,
            }),
    {
        DataStore {
            name,
            chaos_equivalent,
            divine_equivalent,
            pay_total_change,
            receive_total_change,
            update_time,
        }
    }
}

/// Request body of the "add filter" and "add skip" operations.
#[derive(Debug, Clone)]
pub struct AddFilterRequest {
    pub filter_type: String,
    pub name: String,
}

/// Endpoint configuration of the pricing API: one base URL per main type.
#[derive(Debug, Clone)]
pub struct Ninja {
    pub currency: String,
    pub item: String,
}

/// Connection parameters of the key-value store.
#[derive(Debug, Clone)]
pub struct RedisConfig {
    pub host: String,
    pub port: u16,
    pub db: u8,
    pub password: Option<String>,
}

/// One seeded category with its default allow-list entries.
#[derive(Debug, Clone)]
pub struct DefaultData {
    pub name: String,
    pub default: Vec<String>,
}

/// Bootstrap data: the tracked scope and the seeded categories per main
/// type.
#[derive(Debug, Clone)]
pub struct InitData {
    pub league: String,
    pub currency: Vec<DefaultData>,
    pub item: Vec<DefaultData>,
}

impl InitData {
    pub fn get_league(&self) -> (r: String)
        ensures
            r@ == self.league@,
    {
        self.league.clone()
    }
}

/// Scope and category of one refresh request.
#[derive(Debug, Clone)]
pub struct QueryParams {
    pub league: String,
    pub category: String,
}

impl QueryParams {
    pub fn new(league: String, category: String) -> (r: QueryParams)
        ensures
            r.league@ == league@,
            r.category@ == category@,
    {
        QueryParams { league, category }
    }
}

} // verus!
