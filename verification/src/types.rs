//! Data structures, constants and the event-contract table.
use vstd::prelude::*;

use crate::json::text_opt;
use crate::text::str_eq;
use crate::utils::is_success_code;

verus! {

/// The library's error.
#[derive(Debug)]
pub enum Error {
    /// A network request failed; the transport's message.
    Request(String),
    /// JSON could not be read or written.
    Json(serde_json::Error),
    /// The service answered with an error code.
    Api { errno: String, msg: String },
    /// Configuration is missing.
    Config(String),
    /// Authentication is missing or failed.
    Auth(String),
    /// A file could not be read or written; the system's message.
    Io(String),
    /// An order amount was refused.
    InvalidAmount(String),
    /// Any other failure.
    Other(String),
}

/// The library's result.
pub type Result<T> = core::result::Result<T, Error>;

/// The service's reply envelope: a code (`"200"` on success), a message, and
/// the payload.
#[derive(Debug, Clone)]
pub struct ApiResponse<T> {
    pub errno: Option<String>,
    pub msg: Option<String>,
    pub data: Option<T>,
}

/// The code the service answers success with.
pub open spec fn success_code() -> Seq<char> {
    seq!['2', '0', '0']
}

/// An optional text, or the empty text.
pub open spec fn text_or_empty(t: Option<Seq<char>>) -> Seq<char> {
    match t {
        Some(s) => s,
        None => Seq::empty(),
    }
}

/// Whether an error code is the success code.
pub open spec fn is_success(errno: Option<Seq<char>>) -> bool {
    errno == Some(success_code())
}

impl<T> ApiResponse<T> {
    /// Whether the reply carries the success code.
    pub fn is_ok(&self) -> (r: bool)
        ensures
            r == is_success(text_opt(self.errno)),
    {
        match &self.errno {
            Some(e) => is_success_code(Some(e.as_str())),
            None => is_success_code(None),
        }
    }

    /// The payload of a successful reply; the code and message of a failed
    /// one; an error where a successful reply has no payload.
    pub fn into_result(self) -> (r: Result<T>)
        ensures
            is_success(text_opt(self.errno)) && self.data is Some ==> r == Ok::<T, Error>(
                self.data->0,
            ),
            is_success(text_opt(self.errno)) && self.data is None ==> (r matches Err(
                Error::Other(m),
            ) && m@ == "response data is empty"@),
            !is_success(text_opt(self.errno)) ==> (r matches Err(Error::Api { errno, msg })
                && errno@ == text_or_empty(text_opt(self.errno)) && msg@ == text_or_empty(
                text_opt(self.msg),
            )),
    {
        if self.is_ok() {
            match self.data {
                Some(d) => Ok(d),
                None => Err(Error::Other("response data is empty".to_owned())),
            }
        } else {
            let errno = match self.errno {
                Some(e) => e,
                None => String::new(),
            };
            let msg = match self.msg {
                Some(m) => m,
                None => String::new(),
            };
            Err(Error::Api { errno, msg })
        }
    }
}

/// Credentials: the bearer token, the user id, and the e-mail they were
/// obtained with.
#[derive(Debug, Clone, PartialEq)]
pub struct AuthInfo {
    pub token: String,
    pub user_id: String,
    pub email: String,
}

impl Default for AuthInfo {
    fn default() -> (r: AuthInfo)
        ensures
            r.token@.len() == 0,
            r.user_id@.len() == 0,
            r.email@.len() == 0,
    {
        AuthInfo { token: String::new(), user_id: String::new(), email: String::new() }
    }
}

/// What a trader reports of its credentials.
#[derive(Debug, Clone, PartialEq)]
pub struct AuthStatus {
    pub configured: bool,
    pub user_id: String,
    pub token_preview: String,
    pub expires_at: Option<String>,
}

/// The body of an order submission.
#[derive(Debug, Clone, PartialEq)]
pub struct PlaceOrderRequest {
    pub account_id: String,
    pub amount: String,
    pub duration: i64,
    pub order_way: i32,
    pub pair_id: String,
    pub pool_id: i32,
    pub coin_code: String,
    pub return_rate: Option<i64>,
}

/// The USDT collateral pool orders go to unless told otherwise.
pub const DEFAULT_POOL_ID: i32 = 1;

/// The direction of an event contract: the price ends higher.
pub const ORDER_WAY_HIGHER: i32 = 1;

/// The direction of an event contract: the price ends lower.
pub const ORDER_WAY_LOWER: i32 = 2;

/// Holding periods, in seconds.
pub const DURATION_30S: i64 = 30;

pub const DURATION_60S: i64 = 60;

pub const DURATION_3M: i64 = 180;

pub const DURATION_5M: i64 = 300;

pub const DURATION_10M: i64 = 600;

pub const DURATION_15M: i64 = 900;

pub const DURATION_1H: i64 = 3600;

/// Trading pair ids.
pub const BTC_USDT_PAIR_ID: &'static str = "6";

pub const ETH_USDT_PAIR_ID: &'static str = "5";

pub const XAU_USDT_PAIR_ID: &'static str = "467401036654819328";

/// The terms of one holding period of an event contract. Return rates are
/// in millionths (`872_000` is 87.2%), amounts in whole USDT.
#[derive(Clone, Copy, Debug, PartialEq, Eq, Structural)]
pub struct DurationConfig {
    pub duration: i64,
    pub ask_return_rate_ppm: u32,
    pub bid_return_rate_ppm: u32,
    pub min_amount: u32,
    pub max_amount: u32,
}

/// The terms of an event-contract trading pair.
#[derive(Debug, Clone)]
pub struct EventContractConfig {
    pub pair_id: &'static str,
    pub pair_name: &'static str,
    pub enabled: bool,
    pub durations: Vec<i64>,
    pub order_configs: Vec<DurationConfig>,
}

/// The event-contract trading pairs.
#[derive(Clone, Copy, Debug, PartialEq, Eq, Structural)]
pub enum EventContract {
    BtcUsdt,
    EthUsdt,
    XauUsdt,
}

/// The terms of a holding period.
pub open spec fn dc(d: i64, ask: u32, bid: u32, min: u32, max: u32) -> DurationConfig {
    DurationConfig {
        duration: d,
        ask_return_rate_ppm: ask,
        bid_return_rate_ppm: bid,
        min_amount: min,
        max_amount: max,
    }
}

/// The pair id of each contract.
pub open spec fn spec_pair_id(c: EventContract) -> Seq<char> {
    match c {
        EventContract::BtcUsdt => seq!['6'],
        EventContract::EthUsdt => seq!['5'],
        EventContract::XauUsdt => seq![
            '4', '6', '7', '4', '0', '1', '0', '3', '6', '6', '5', '4', '8', '1', '9', '3', '2', '8'
        ],
    }
}

/// The display name of each contract.
pub open spec fn spec_pair_name(c: EventContract) -> Seq<char> {
    match c {
        EventContract::BtcUsdt => seq!['B', 'T', 'C', '/', 'U', 'S', 'D', 'T'],
        EventContract::EthUsdt => seq!['E', 'T', 'H', '/', 'U', 'S', 'D', 'T'],
        EventContract::XauUsdt => seq!['X', 'A', 'U', '/', 'U', 'S', 'D', 'T'],
    }
}

/// The contract a pair id names.
pub open spec fn spec_from_pair_id(p: Seq<char>) -> Option<EventContract> {
    if p == spec_pair_id(EventContract::BtcUsdt) {
        Some(EventContract::BtcUsdt)
    } else if p == spec_pair_id(EventContract::EthUsdt) {
        Some(EventContract::EthUsdt)
    } else if p == spec_pair_id(EventContract::XauUsdt) {
        Some(EventContract::XauUsdt)
    } else {
        None
    }
}

/// The holding periods each contract offers, with their terms.
pub open spec fn spec_order_configs(c: EventContract) -> Seq<DurationConfig> {
    match c {
        EventContract::BtcUsdt => seq![
            dc(30, 872_000, 887_662, 2, 200),
            dc(60, 868_000, 870_907, 2, 200),
            dc(180, 851_000, 849_000, 2, 400),
            dc(300, 849_000, 851_000, 2, 600),
            dc(600, 858_000, 842_000, 2, 600),
            dc(900, 856_000, 900_000, 2, 800),
            dc(3600, 900_000, 870_000, 2, 1000),
        ],
        EventContract::EthUsdt => seq![
            dc(30, 891_000, 809_000, 2, 200),
            dc(60, 882_000, 820_001, 2, 200),
            dc(180, 870_000, 830_000, 2, 400),
            dc(300, 867_000, 833_000, 2, 400),
            dc(600, 900_000, 840_001, 2, 400),
            dc(900, 891_727, 816_000, 2, 800),
            dc(3600, 900_000, 854_000, 2, 800),
        ],
        EventContract::XauUsdt => seq![
            dc(60, 800_000, 800_000, 2, 200),
            dc(180, 800_000, 800_000, 2, 400),
            dc(300, 800_000, 800_000, 2, 400),
            dc(600, 800_000, 800_000, 2, 400),
            dc(900, 800_000, 800_000, 2, 800),
            dc(3600, 800_000, 800_000, 2, 800),
        ],
    }
}

/// The holding periods each contract offers, in seconds.
pub open spec fn spec_durations(c: EventContract) -> Seq<i64> {
    match c {
        EventContract::XauUsdt => seq![60, 180, 300, 600, 900, 3600],
        _ => seq![30, 60, 180, 300, 600, 900, 3600],
    }
}

/// The terms of the first holding period of `cs` lasting `d` seconds.
pub open spec fn find_duration(cs: Seq<DurationConfig>, d: i64) -> Option<DurationConfig>
    decreases cs.len(),
{
    if cs.len() == 0 {
        None
    } else if cs[0].duration == d {
        Some(cs[0])
    } else {
        find_duration(cs.drop_first(), d)
    }
}

/// The return rate for a direction: the ask rate for "higher" and for any
/// direction it does not know, the bid rate for "lower".
pub open spec fn rate_for_way(cfg: DurationConfig, order_way: i32) -> u32 {
    if order_way == ORDER_WAY_LOWER {
        cfg.bid_return_rate_ppm
    } else {
        cfg.ask_return_rate_ppm
    }
}

impl EventContractConfig {
    /// The table row this configuration holds.
    pub open spec fn matches(self, c: EventContract) -> bool {
        &&& self.pair_id@ == spec_pair_id(c)
        &&& self.pair_name@ == spec_pair_name(c)
        &&& self.enabled
        &&& self.durations@ == spec_durations(c)
        &&& self.order_configs@ == spec_order_configs(c)
    }
}

fn btc_order_configs() -> (r: Vec<DurationConfig>)
    ensures
        r@ == spec_order_configs(EventContract::BtcUsdt),
{
    let mut v: Vec<DurationConfig> = Vec::new();
    v.push(DurationConfig { duration: DURATION_30S, ask_return_rate_ppm: 872_000, bid_return_rate_ppm: 887_662, min_amount: 2, max_amount: 200 });
    v.push(DurationConfig { duration: DURATION_60S, ask_return_rate_ppm: 868_000, bid_return_rate_ppm: 870_907, min_amount: 2, max_amount: 200 });
    v.push(DurationConfig { duration: DURATION_3M, ask_return_rate_ppm: 851_000, bid_return_rate_ppm: 849_000, min_amount: 2, max_amount: 400 });
    v.push(DurationConfig { duration: DURATION_5M, ask_return_rate_ppm: 849_000, bid_return_rate_ppm: 851_000, min_amount: 2, max_amount: 600 });
    v.push(DurationConfig { duration: DURATION_10M, ask_return_rate_ppm: 858_000, bid_return_rate_ppm: 842_000, min_amount: 2, max_amount: 600 });
    v.push(DurationConfig { duration: DURATION_15M, ask_return_rate_ppm: 856_000, bid_return_rate_ppm: 900_000, min_amount: 2, max_amount: 800 });
    v.push(DurationConfig { duration: DURATION_1H, ask_return_rate_ppm: 900_000, bid_return_rate_ppm: 870_000, min_amount: 2, max_amount: 1000 });
    assert(v@ =~= spec_order_configs(EventContract::BtcUsdt));
    v
}

fn eth_order_configs() -> (r: Vec<DurationConfig>)
    ensures
        r@ == spec_order_configs(EventContract::EthUsdt),
{
    let mut v: Vec<DurationConfig> = Vec::new();
    v.push(DurationConfig { duration: DURATION_30S, ask_return_rate_ppm: 891_000, bid_return_rate_ppm: 809_000, min_amount: 2, max_amount: 200 });
    v.push(DurationConfig { duration: DURATION_60S, ask_return_rate_ppm: 882_000, bid_return_rate_ppm: 820_001, min_amount: 2, max_amount: 200 });
    v.push(DurationConfig { duration: DURATION_3M, ask_return_rate_ppm: 870_000, bid_return_rate_ppm: 830_000, min_amount: 2, max_amount: 400 });
    v.push(DurationConfig { duration: DURATION_5M, ask_return_rate_ppm: 867_000, bid_return_rate_ppm: 833_000, min_amount: 2, max_amount: 400 });
    v.push(DurationConfig { duration: DURATION_10M, ask_return_rate_ppm: 900_000, bid_return_rate_ppm: 840_001, min_amount: 2, max_amount: 400 });
    v.push(DurationConfig { duration: DURATION_15M, ask_return_rate_ppm: 891_727, bid_return_rate_ppm: 816_000, min_amount: 2, max_amount: 800 });
    v.push(DurationConfig { duration: DURATION_1H, ask_return_rate_ppm: 900_000, bid_return_rate_ppm: 854_000, min_amount: 2, max_amount: 800 });
    assert(v@ =~= spec_order_configs(EventContract::EthUsdt));
    v
}

fn xau_order_configs() -> (r: Vec<DurationConfig>)
    ensures
        r@ == spec_order_configs(EventContract::XauUsdt),
{
    let mut v: Vec<DurationConfig> = Vec::new();
    v.push(DurationConfig { duration: DURATION_60S, ask_return_rate_ppm: 800_000, bid_return_rate_ppm: 800_000, min_amount: 2, max_amount: 200 });
    v.push(DurationConfig { duration: DURATION_3M, ask_return_rate_ppm: 800_000, bid_return_rate_ppm: 800_000, min_amount: 2, max_amount: 400 });
    v.push(DurationConfig { duration: DURATION_5M, ask_return_rate_ppm: 800_000, bid_return_rate_ppm: 800_000, min_amount: 2, max_amount: 400 });
    v.push(DurationConfig { duration: DURATION_10M, ask_return_rate_ppm: 800_000, bid_return_rate_ppm: 800_000, min_amount: 2, max_amount: 400 });
    v.push(DurationConfig { duration: DURATION_15M, ask_return_rate_ppm: 800_000, bid_return_rate_ppm: 800_000, min_amount: 2, max_amount: 800 });
    v.push(DurationConfig { duration: DURATION_1H, ask_return_rate_ppm: 800_000, bid_return_rate_ppm: 800_000, min_amount: 2, max_amount: 800 });
    assert(v@ =~= spec_order_configs(EventContract::XauUsdt));
    v
}

fn durations_of(c: EventContract) -> (r: Vec<i64>)
    ensures
        r@ == spec_durations(c),
{
    let mut v: Vec<i64> = Vec::new();
    match c {
        EventContract::XauUsdt => {},
        _ => v.push(DURATION_30S),
    }
    v.push(DURATION_60S);
    v.push(DURATION_3M);
    v.push(DURATION_5M);
    v.push(DURATION_10M);
    v.push(DURATION_15M);
    v.push(DURATION_1H);
    assert(v@ =~= spec_durations(c));
    v
}

impl EventContract {
    /// The full terms of this trading pair.
    pub fn config(&self) -> (r: EventContractConfig)
        ensures
            r.matches(*self),
    {
        EventContractConfig {
            pair_id: self.pair_id(),
            pair_name: self.pair_name(),
            enabled: true,
            durations: durations_of(*self),
            order_configs: match self {
                EventContract::BtcUsdt => btc_order_configs(),
                EventContract::EthUsdt => eth_order_configs(),
                EventContract::XauUsdt => xau_order_configs(),
            },
        }
    }

    /// The pair id the service knows this pair by.
    pub fn pair_id(&self) -> (r: &'static str)
        ensures
            r@ == spec_pair_id(*self),
    {
        proof {
            reveal_strlit("6");
            reveal_strlit("5");
            reveal_strlit("467401036654819328");
        }
        match self {
            EventContract::BtcUsdt => {
                assert(BTC_USDT_PAIR_ID@ =~= spec_pair_id(*self));
                BTC_USDT_PAIR_ID
            },
            EventContract::EthUsdt => {
                assert(ETH_USDT_PAIR_ID@ =~= spec_pair_id(*self));
                ETH_USDT_PAIR_ID
            },
            EventContract::XauUsdt => {
                assert(XAU_USDT_PAIR_ID@ =~= spec_pair_id(*self));
                XAU_USDT_PAIR_ID
            },
        }
    }

    /// The display name of this pair.
    pub fn pair_name(&self) -> (r: &'static str)
        ensures
            r@ == spec_pair_name(*self),
    {
        proof {
            reveal_strlit("BTC/USDT");
            reveal_strlit("ETH/USDT");
            reveal_strlit("XAU/USDT");
        }
        match self {
            EventContract::BtcUsdt => {
                assert("BTC/USDT"@ =~= spec_pair_name(*self));
                "BTC/USDT"
            },
            EventContract::EthUsdt => {
                assert("ETH/USDT"@ =~= spec_pair_name(*self));
                "ETH/USDT"
            },
            EventContract::XauUsdt => {
                assert("XAU/USDT"@ =~= spec_pair_name(*self));
                "XAU/USDT"
            },
        }
    }

    /// The pair a pair id names, if any.
    pub fn from_pair_id(pair_id: &str) -> (r: Option<EventContract>)
        ensures
            r == spec_from_pair_id(pair_id@),
    {
        let btc = EventContract::BtcUsdt;
        let eth = EventContract::EthUsdt;
        let xau = EventContract::XauUsdt;
        if str_eq(pair_id, btc.pair_id()) {
            Some(btc)
        } else if str_eq(pair_id, eth.pair_id()) {
            Some(eth)
        } else if str_eq(pair_id, xau.pair_id()) {
            Some(xau)
        } else {
            None
        }
    }

    /// The terms of the holding period lasting `duration` seconds, if this
    /// pair offers it.
    pub fn duration_config(&self, duration: i64) -> (r: Option<DurationConfig>)
        ensures
            r == find_duration(spec_order_configs(*self), duration),
    {
        let cfg = self.config();
        let cs = cfg.order_configs;
        let ghost all = cs@;
        let mut i: usize = 0;
        assert(all.skip(0) =~= all);
        while i < cs.len()
            invariant
                i <= cs.len(),
                all == cs@,
                all == spec_order_configs(*self),
                find_duration(all, duration) == find_duration(all.skip(i as int), duration),
            decreases cs.len() - i,
        {
            proof {
                assert(all.skip(i as int).drop_first() =~= all.skip(i + 1));
            }
            if cs[i].duration == duration {
                return Some(cs[i]);
            }
            i = i + 1;
        }
        None
    }

    /// The return rate, in millionths, of an order in direction `order_way`
    /// held for `duration` seconds: the ask rate for "higher" and for any
    /// direction it does not know, the bid rate for "lower".
    pub fn return_rate_for_way(&self, duration: i64, order_way: i32) -> (r: Option<u32>)
        ensures
            r == (match find_duration(spec_order_configs(*self), duration) {
                Some(cfg) => Some(rate_for_way(cfg, order_way)),
                None => None,
            }),
            r is Some <==> spec_durations(*self).contains(duration),
            order_way == ORDER_WAY_LOWER ==> r == (match find_duration(
                spec_order_configs(*self),
                duration,
            ) {
                Some(cfg) => Some(cfg.bid_return_rate_ppm),
                None => None,
            }),
            order_way != ORDER_WAY_LOWER ==> r == (match find_duration(
                spec_order_configs(*self),
                duration,
            ) {
                Some(cfg) => Some(cfg.ask_return_rate_ppm),
                None => None,
            }),
    {
        proof {
            lemma_durations_have_terms(*self, duration);
        }
        match self.duration_config(duration) {
            Some(cfg) => Some(
                if order_way == ORDER_WAY_HIGHER {
                    cfg.ask_return_rate_ppm
                } else if order_way == ORDER_WAY_LOWER {
                    cfg.bid_return_rate_ppm
                } else {
                    cfg.ask_return_rate_ppm
                },
            ),
            None => None,
        }
    }
}

/// A pair's id names that pair: reading back the id of a pair gives the pair.
pub proof fn lemma_pair_id_round_trip(c: EventContract)
    ensures
        spec_from_pair_id(spec_pair_id(c)) == Some(c),
{
    assert(spec_pair_id(EventContract::BtcUsdt)[0] != spec_pair_id(EventContract::EthUsdt)[0]);
    assert(spec_pair_id(EventContract::XauUsdt).len() != spec_pair_id(EventContract::BtcUsdt).len());
    assert(spec_pair_id(EventContract::XauUsdt).len() != spec_pair_id(EventContract::EthUsdt).len());
}

/// An id that names a pair is that pair's id.
pub proof fn lemma_from_pair_id_is_pair_id(p: Seq<char>, c: EventContract)
    requires
        spec_from_pair_id(p) == Some(c),
    ensures
        spec_pair_id(c) == p,
{
}

/// The terms of a pair list exactly the holding periods the pair offers: a
/// holding period has terms if and only if it is offered, and the terms found
/// for it are for that period.
pub proof fn lemma_durations_have_terms(c: EventContract, d: i64)
    ensures
        find_duration(spec_order_configs(c), d) is Some <==> spec_durations(c).contains(d),
        find_duration(spec_order_configs(c), d) matches Some(cfg) ==> cfg.duration == d,
{
    reveal_with_fuel(find_duration, 8);
    let ds = spec_durations(c);
    if find_duration(spec_order_configs(c), d) is Some {
        assert(ds.contains(d)) by {
            if c == EventContract::XauUsdt {
                if d == 60 { assert(ds[0] == d); } else if d == 180 { assert(ds[1] == d); }
                else if d == 300 { assert(ds[2] == d); } else if d == 600 { assert(ds[3] == d); }
                else if d == 900 { assert(ds[4] == d); } else { assert(ds[5] == d); }
            } else {
                if d == 30 { assert(ds[0] == d); } else if d == 60 { assert(ds[1] == d); }
                else if d == 180 { assert(ds[2] == d); } else if d == 300 { assert(ds[3] == d); }
                else if d == 600 { assert(ds[4] == d); } else if d == 900 { assert(ds[5] == d); }
                else { assert(ds[6] == d); }
            }
        }
    }
}

/// Each holding period a pair offers has its own terms, and the rate of an
/// order is read off them by direction: "lower" gets the period's bid rate,
/// "higher" (and any other direction) its ask rate.
pub proof fn lemma_rate_by_direction(c: EventContract, i: int, order_way: i32)
    requires
        0 <= i < spec_order_configs(c).len(),
    ensures
        find_duration(spec_order_configs(c), spec_order_configs(c)[i].duration) == Some(
            spec_order_configs(c)[i],
        ),
        rate_for_way(spec_order_configs(c)[i], ORDER_WAY_LOWER)
            == spec_order_configs(c)[i].bid_return_rate_ppm,
        rate_for_way(spec_order_configs(c)[i], ORDER_WAY_HIGHER)
            == spec_order_configs(c)[i].ask_return_rate_ppm,
        order_way != ORDER_WAY_LOWER ==> rate_for_way(spec_order_configs(c)[i], order_way)
            == spec_order_configs(c)[i].ask_return_rate_ppm,
        find_duration(spec_order_configs(EventContract::EthUsdt), DURATION_1H) matches Some(cfg)
            && rate_for_way(cfg, ORDER_WAY_LOWER) == 854_000 && rate_for_way(cfg, ORDER_WAY_HIGHER)
            == 900_000,
{
    reveal_with_fuel(find_duration, 8);
}

/// The holding periods the service documents: 30 s, 1, 3, 5, 10 and 15
/// minutes, 1 hour.
pub open spec fn documented_duration(d: i64) -> bool {
    d == 30 || d == 60 || d == 180 || d == 300 || d == 600 || d == 900 || d == 3600
}

/// Every holding period a pair offers is a documented one; BTC and ETH offer
/// all of them, gold all but 30 seconds; every order is at least 2 USDT, and
/// no holding period's maximum is under its minimum.
pub proof fn lemma_terms_documented(c: EventContract, d: i64, i: int)
    ensures
        spec_durations(c).contains(d) ==> documented_duration(d),
        c != EventContract::XauUsdt ==> (documented_duration(d) ==> spec_durations(c).contains(d)),
        c == EventContract::XauUsdt ==> (documented_duration(d) && d != 30 ==> spec_durations(c).contains(d)),
        c == EventContract::XauUsdt ==> !spec_durations(c).contains(30),
        0 <= i < spec_order_configs(c).len() ==> spec_order_configs(c)[i].min_amount == 2,
        0 <= i < spec_order_configs(c).len() ==> spec_order_configs(c)[i].min_amount
            <= spec_order_configs(c)[i].max_amount,
{
    let ds = spec_durations(c);
    if c == EventContract::XauUsdt {
        assert(ds[0] == 60 && ds[1] == 180 && ds[2] == 300 && ds[3] == 600 && ds[4] == 900 && ds[5] == 3600);
    } else {
        assert(ds[0] == 30 && ds[1] == 60 && ds[2] == 180 && ds[3] == 300 && ds[4] == 600 && ds[5] == 900 && ds[6] == 3600);
    }
}

} // verus!
