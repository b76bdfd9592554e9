//! Portfolio leg vocabulary, asset quote keys and the trade-gate rule for
//! indicator legs.

use crate::text::{
    chars_of, contains, contains_chars, ends_with, ends_with_chars, find_ch, lower, lower_of, slice_of, string_of,
};
use crate::ta_uber::TaArchetype;
use vstd::prelude::*;

verus! {

/// Directional exposure encoded in an upstream OTL closure token.
#[derive(Clone, Copy, Debug, PartialEq, Eq, Structural)]
pub enum DirectionalDistribution {
    MarketLong,
    MarketShort,
    Neutral,
}

/// Whether an upstream leg is a tradable asset quote or a child portfolio NAV stream.
#[derive(Clone, Copy, Debug, PartialEq, Eq, Structural)]
pub enum ClosureLegKind {
    Asset,
    SubPortfolio,
}

impl ClosureLegKind {
    pub fn default() -> (r: ClosureLegKind)
        ensures
            r == ClosureLegKind::Asset,
    {
        ClosureLegKind::Asset
    }
}

/// Start of the text after the last `/` from index `i` down (0 when there is none).
pub open spec fn last_segment_start(s: Seq<char>, i: int) -> int
    decreases i,
{
    if i <= 0 || i > s.len() {
        0
    } else if s[i - 1] == '/' {
        i
    } else {
        last_segment_start(s, i - 1)
    }
}

/// Drop every trailing `.csv`.
pub open spec fn strip_csv(s: Seq<char>) -> Seq<char>
    decreases s.len(),
{
    if s.len() >= 4 && ends_with(s, ".csv"@) {
        strip_csv(s.subrange(0, s.len() - 4))
    } else {
        s
    }
}

/// Leaf after the last `/` (the whole id when that leaf is empty), without `.csv`.
pub open spec fn spec_quote_key(asset_id: Seq<char>) -> Seq<char> {
    let leaf = asset_id.subrange(last_segment_start(asset_id, asset_id.len() as int), asset_id.len() as int);
    strip_csv(if leaf.len() > 0 { leaf } else { asset_id })
}

pub proof fn lemma_last_segment_bounds(s: Seq<char>, i: int)
    requires
        0 <= i <= s.len(),
    ensures
        0 <= last_segment_start(s, i) <= i,
    decreases i,
{
    if i > 0 && s[i - 1] != '/' {
        lemma_last_segment_bounds(s, i - 1);
    }
}

/// Stripping `.csv` leaves a prefix that no longer ends in `.csv`.
proof fn lemma_strip_csv_prefix(s: Seq<char>)
    ensures
        strip_csv(s).len() <= s.len(),
        strip_csv(s) == s.subrange(0, strip_csv(s).len() as int),
        strip_csv(strip_csv(s)) == strip_csv(s),
    decreases s.len(),
{
    if s.len() >= 4 && ends_with(s, ".csv"@) {
        let t = s.subrange(0, s.len() - 4);
        lemma_strip_csv_prefix(t);
        assert(t.subrange(0, strip_csv(t).len() as int) =~= s.subrange(0, strip_csv(t).len() as int));
    } else {
        assert(s.subrange(0, s.len() as int) =~= s);
    }
}

/// No `/` lies between the start of the last segment and `i`.
proof fn lemma_segment_has_no_slash(s: Seq<char>, i: int)
    requires
        0 <= i <= s.len(),
    ensures
        forall|k: int| last_segment_start(s, i) <= k < i ==> #[trigger] s[k] != '/',
        i > 0 && s[i - 1] != '/' ==> last_segment_start(s, i) < i,
    decreases i,
{
    if i > 0 && s[i - 1] != '/' {
        lemma_segment_has_no_slash(s, i - 1);
        lemma_last_segment_bounds(s, i - 1);
    }
}

/// Without a `/` the last segment starts at 0.
proof fn lemma_no_slash_whole_segment(s: Seq<char>, i: int)
    requires
        0 <= i <= s.len(),
        forall|k: int| 0 <= k < s.len() ==> #[trigger] s[k] != '/',
    ensures
        last_segment_start(s, i) == 0,
    decreases i,
{
    if i > 0 {
        lemma_no_slash_whole_segment(s, i - 1);
    }
}

/// Normalizing a quote key a second time changes nothing.
pub proof fn lemma_quote_key_idempotent(asset_id: Seq<char>)
    ensures
        spec_quote_key(spec_quote_key(asset_id)) == spec_quote_key(asset_id),
{
    let s = asset_id;
    let n = s.len() as int;
    lemma_last_segment_bounds(s, n);
    lemma_segment_has_no_slash(s, n);
    let st = last_segment_start(s, n);
    let leaf = s.subrange(st, n);
    let r = spec_quote_key(s);
    if leaf.len() > 0 {
        lemma_strip_csv_prefix(leaf);
        assert forall|k: int| 0 <= k < r.len() implies #[trigger] r[k] != '/' by {
            assert(r[k] == leaf[k]);
            assert(leaf[k] == s[st + k]);
        }
        lemma_no_slash_whole_segment(r, r.len() as int);
        assert(r.subrange(0, r.len() as int) =~= r);
    } else {
        reveal_strlit(".csv");
        if n >= 4 {
            assert(s[n - 1] == '/');
            assert(s.subrange(n - 4, n)[3] == s[n - 1]);
            assert(".csv"@[3] == 'v');
            assert(!ends_with(s, ".csv"@));
        }
        assert(r == s);
    }
}

pub fn normalize_asset_quote_key(asset_id: &str) -> (r: String)
    ensures
        r@ == spec_quote_key(asset_id@),
{
    let s = chars_of(asset_id);
    let mut i = s.len();
    proof {
        lemma_last_segment_bounds(s@, i as int);
    }
    while i > 0 && s[i - 1] != '/'
        invariant
            i <= s@.len(),
            last_segment_start(s@, s@.len() as int) == last_segment_start(s@, i as int),
        decreases i,
    {
        i = i - 1;
    }
    proof {
        lemma_last_segment_bounds(s@, s@.len() as int);
    }
    let leaf = slice_of(&s, i, s.len());
    let mut cur = if leaf.len() > 0 { leaf } else { s };
    let suffix = chars_of(".csv");
    proof {
        reveal_strlit(".csv");
    }
    while cur.len() >= 4 && ends_with_chars(&cur, &suffix)
        invariant
            suffix@ == ".csv"@,
            strip_csv(if leaf@.len() > 0 { leaf@ } else { s@ }) == strip_csv(cur@),
        decreases cur.len(),
    {
        cur = slice_of(&cur, 0, cur.len() - 4);
    }
    string_of(&cur)
}

/// How an indicator leg feeding a portfolio is turned into a trade gate.
#[derive(Clone, Copy, Debug, PartialEq, Eq, Structural)]
pub enum TradeGateRule {
    /// No `ta::` call: the series is passed on as it is.
    NotIndicator,
    /// `1` where the price is above the indicator, `-1` below, else `0`
    /// (moving averages).
    PriceCross,
    /// `1` above 50, `-1` below, else `0` (bounded oscillators).
    MidlineCross,
    /// Another `ta::` call: the series is only cut to the length it shares
    /// with the price.
    OtherIndicator,
}

/// The rule for an OTL expression: only `ta::` calls are gated; moving
/// averages (`ta::sma`, `ta::ema`, `ta::wma`, `ta::hma`, `ta::tema`) gate
/// on the price crossing them, `ta::rsi` and `ta::cci` on their midline.
/// The kind is looked up in the lower-cased expression.
pub open spec fn spec_trade_gate_rule(expression: Seq<char>) -> TradeGateRule {
    let lo = lower(expression);
    if !contains(expression, "ta::"@) {
        TradeGateRule::NotIndicator
    } else if contains(lo, "ta::sma"@) || contains(lo, "ta::ema"@) || contains(lo, "ta::wma"@) || contains(
        lo,
        "ta::hma"@,
    ) || contains(lo, "ta::tema"@) {
        TradeGateRule::PriceCross
    } else if contains(lo, "ta::rsi"@) || contains(lo, "ta::cci"@) {
        TradeGateRule::MidlineCross
    } else {
        TradeGateRule::OtherIndicator
    }
}

pub fn trade_gate_rule(expression: &str) -> (r: TradeGateRule)
    ensures
        r == spec_trade_gate_rule(expression@),
{
    let s = chars_of(expression);
    if !contains_chars(&s, &chars_of("ta::")) {
        return TradeGateRule::NotIndicator;
    }
    let lo = lower_of(&s);
    if contains_chars(&lo, &chars_of("ta::sma")) || contains_chars(&lo, &chars_of("ta::ema"))
        || contains_chars(&lo, &chars_of("ta::wma")) || contains_chars(&lo, &chars_of("ta::hma"))
        || contains_chars(&lo, &chars_of("ta::tema")) {
        TradeGateRule::PriceCross
    } else if contains_chars(&lo, &chars_of("ta::rsi")) || contains_chars(&lo, &chars_of("ta::cci")) {
        TradeGateRule::MidlineCross
    } else {
        TradeGateRule::OtherIndicator
    }
}

/// An indicator leg that calls a moving average (any algorithm of the trend
/// archetype, written `ta::<name>` in any case) is gated on the price
/// crossing it.
pub proof fn lemma_trend_legs_gate_on_price_cross(expression: Seq<char>, i: int)
    requires
        0 <= i < TaArchetype::Trend.spec_algorithms().len(),
        contains(expression, "ta::"@),
        contains(lower(expression), "ta::"@ + TaArchetype::Trend.spec_algorithms()[i]),
    ensures
        spec_trade_gate_rule(expression) == TradeGateRule::PriceCross,
{
    reveal_strlit("ta::");
    reveal_strlit("sma");
    reveal_strlit("ema");
    reveal_strlit("wma");
    reveal_strlit("hma");
    reveal_strlit("tema");
    reveal_strlit("ta::sma");
    reveal_strlit("ta::ema");
    reveal_strlit("ta::wma");
    reveal_strlit("ta::hma");
    reveal_strlit("ta::tema");
    let a = TaArchetype::Trend.spec_algorithms();
    assert("ta::"@ + a[0] =~= "ta::sma"@);
    assert("ta::"@ + a[1] =~= "ta::ema"@);
    assert("ta::"@ + a[2] =~= "ta::wma"@);
    assert("ta::"@ + a[3] =~= "ta::hma"@);
    assert("ta::"@ + a[4] =~= "ta::tema"@);
}

/// An indicator leg that calls a bounded oscillator (rsi or cci, the first
/// two oscillator algorithms) and no moving average is gated on crossing its
/// midline.
pub proof fn lemma_bounded_oscillators_gate_on_midline(expression: Seq<char>, i: int)
    requires
        0 <= i < 2,
        contains(expression, "ta::"@),
        contains(lower(expression), "ta::"@ + TaArchetype::Oscillator.spec_algorithms()[i]),
        forall|j: int|
            0 <= j < TaArchetype::Trend.spec_algorithms().len() ==> !contains(
                lower(expression),
                "ta::"@ + #[trigger] TaArchetype::Trend.spec_algorithms()[j],
            ),
    ensures
        spec_trade_gate_rule(expression) == TradeGateRule::MidlineCross,
{
    reveal_strlit("ta::");
    reveal_strlit("sma");
    reveal_strlit("ema");
    reveal_strlit("wma");
    reveal_strlit("hma");
    reveal_strlit("tema");
    reveal_strlit("rsi");
    reveal_strlit("cci");
    reveal_strlit("ta::sma");
    reveal_strlit("ta::ema");
    reveal_strlit("ta::wma");
    reveal_strlit("ta::hma");
    reveal_strlit("ta::tema");
    reveal_strlit("ta::rsi");
    reveal_strlit("ta::cci");
    let a = TaArchetype::Trend.spec_algorithms();
    let o = TaArchetype::Oscillator.spec_algorithms();
    assert("ta::"@ + a[0] =~= "ta::sma"@);
    assert("ta::"@ + a[1] =~= "ta::ema"@);
    assert("ta::"@ + a[2] =~= "ta::wma"@);
    assert("ta::"@ + a[3] =~= "ta::hma"@);
    assert("ta::"@ + a[4] =~= "ta::tema"@);
    assert("ta::"@ + o[0] =~= "ta::rsi"@);
    assert("ta::"@ + o[1] =~= "ta::cci"@);
}

} // verus!
