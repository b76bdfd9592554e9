//! OTL Uber Signal archetypes: fixed port topology, algorithm families and labels.

use crate::text::{
    back_ws_from, chars_of, lemma_lower_trim_settles, lower, lower_of, seq_eq, skip_ws_from, string_of,
    trim, trim_of,
};
use vstd::prelude::*;

verus! {

/// High-level TA node family (immutable port signatures per variant).
#[derive(Debug, Clone, Copy, PartialEq, Eq, Hash, Structural)]
pub enum TaArchetype {
    Trend,
    Volatility,
    Oscillator,
    Channel,
}

/// Which shared hyperparameter slots are active for the current algorithm.
#[derive(Debug, Clone, Copy, PartialEq, Eq, Default, Structural)]
pub struct TaHyperparamVisibility {
    pub period: bool,
    pub multiplier: bool,
    pub annualization: bool,
    pub signal_period: bool,
}

pub open spec fn views_of(v: Seq<&str>) -> Seq<Seq<char>> {
    Seq::new(v.len(), |i: int| v[i]@)
}

/// Case-insensitive (ASCII) equality, as `str::eq_ignore_ascii_case`.
pub open spec fn eq_ignore_case(a: Seq<char>, b: Seq<char>) -> bool {
    lower(a) == lower(b)
}

pub fn eq_ignore_case_of(a: &[char], b: &[char]) -> (r: bool)
    ensures
        r == eq_ignore_case(a@, b@),
{
    let la = lower_of(a);
    let lb = lower_of(b);
    seq_eq(&la, &lb)
}

impl TaArchetype {
    pub open spec fn spec_token(self) -> Seq<char> {
        match self {
            TaArchetype::Trend => "trend"@,
            TaArchetype::Volatility => "volatility"@,
            TaArchetype::Oscillator => "oscillator"@,
            TaArchetype::Channel => "channel"@,
        }
    }

    pub open spec fn spec_from_token(token: Seq<char>) -> Option<TaArchetype> {
        let k = lower(trim(token));
        if k == "trend"@ {
            Some(TaArchetype::Trend)
        } else if k == "volatility"@ {
            Some(TaArchetype::Volatility)
        } else if k == "oscillator"@ {
            Some(TaArchetype::Oscillator)
        } else if k == "channel"@ {
            Some(TaArchetype::Channel)
        } else {
            None
        }
    }

    pub open spec fn spec_default_algorithm(self) -> Seq<char> {
        match self {
            TaArchetype::Trend => "sma"@,
            TaArchetype::Volatility => "stddev"@,
            TaArchetype::Oscillator => "rsi"@,
            TaArchetype::Channel => "bollinger_bands"@,
        }
    }

    pub open spec fn spec_default_period(self) -> u32 {
        match self {
            TaArchetype::Trend | TaArchetype::Oscillator => 14,
            TaArchetype::Volatility | TaArchetype::Channel => 20,
        }
    }

    pub open spec fn spec_algorithms(self) -> Seq<Seq<char>> {
        match self {
            TaArchetype::Trend => seq!["sma"@, "ema"@, "wma"@, "hma"@, "tema"@],
            TaArchetype::Volatility => seq![
                "stddev"@,
                "variance"@,
                "atr"@,
                "historical_volatility"@,
            ],
            TaArchetype::Oscillator => seq!["rsi"@, "cci"@, "stochastic"@, "roc"@, "macd"@],
            TaArchetype::Channel => seq![
                "bollinger_bands"@,
                "keltner_channels"@,
                "donchian_channels"@,
            ],
        }
    }

    pub open spec fn spec_output_ports(self) -> Seq<Seq<char>> {
        match self {
            TaArchetype::Trend | TaArchetype::Volatility => seq!["result"@],
            TaArchetype::Oscillator => seq!["oscillator"@, "signal_line"@],
            TaArchetype::Channel => seq!["upper_band"@, "basis_line"@, "lower_band"@],
        }
    }

    pub open spec fn spec_display_name(self) -> Seq<char> {
        match self {
            TaArchetype::Trend => "Trend & Location"@,
            TaArchetype::Volatility => "Risk & Dispersion"@,
            TaArchetype::Oscillator => "Oscillator"@,
            TaArchetype::Channel => "Channels & Bands"@,
        }
    }

    pub open spec fn spec_spawn_menu_label(self) -> Seq<char> {
        match self {
            TaArchetype::Trend => "Trend & Location Node"@,
            TaArchetype::Volatility => "Risk & Dispersion Node"@,
            TaArchetype::Oscillator => "Oscillator Node"@,
            TaArchetype::Channel => "Channels & Bands Node"@,
        }
    }

    pub open spec fn spec_accent_rgb(self) -> u32 {
        match self {
            TaArchetype::Trend => 0x60a5fa,
            TaArchetype::Volatility => 0xf97316,
            TaArchetype::Oscillator => 0xc084fc,
            TaArchetype::Channel => 0x34d399,
        }
    }

    pub fn as_token(self) -> (r: &'static str)
        ensures
            r@ == self.spec_token(),
    {
        match self {
            TaArchetype::Trend => "trend",
            TaArchetype::Volatility => "volatility",
            TaArchetype::Oscillator => "oscillator",
            TaArchetype::Channel => "channel",
        }
    }

    pub fn from_token(token: &str) -> (r: Option<TaArchetype>)
        ensures
            r == TaArchetype::spec_from_token(token@),
    {
        let t = chars_of(token);
        let t = trim_of(&t);
        let k = lower_of(&t);
        if seq_eq(&k, &chars_of("trend")) {
            Some(TaArchetype::Trend)
        } else if seq_eq(&k, &chars_of("volatility")) {
            Some(TaArchetype::Volatility)
        } else if seq_eq(&k, &chars_of("oscillator")) {
            Some(TaArchetype::Oscillator)
        } else if seq_eq(&k, &chars_of("channel")) {
            Some(TaArchetype::Channel)
        } else {
            None
        }
    }

    pub fn default_algorithm(self) -> (r: &'static str)
        ensures
            r@ == self.spec_default_algorithm(),
    {
        match self {
            TaArchetype::Trend => "sma",
            TaArchetype::Volatility => "stddev",
            TaArchetype::Oscillator => "rsi",
            TaArchetype::Channel => "bollinger_bands",
        }
    }

    pub fn default_period(self) -> (r: u32)
        ensures
            r == self.spec_default_period(),
    {
        match self {
            TaArchetype::Trend | TaArchetype::Oscillator => 14,
            TaArchetype::Volatility | TaArchetype::Channel => 20,
        }
    }

    pub fn algorithms(self) -> (r: &'static [&'static str])
        ensures
            views_of(r@) == self.spec_algorithms(),
    {
        match self {
            TaArchetype::Trend => {
                let r: &'static [&'static str] = &["sma", "ema", "wma", "hma", "tema"];
                assert(views_of(r@) =~= self.spec_algorithms());
                r
            },
            TaArchetype::Volatility => {
                let r: &'static [&'static str] = &[
                    "stddev",
                    "variance",
                    "atr",
                    "historical_volatility",
                ];
                assert(views_of(r@) =~= self.spec_algorithms());
                r
            },
            TaArchetype::Oscillator => {
                let r: &'static [&'static str] = &["rsi", "cci", "stochastic", "roc", "macd"];
                assert(views_of(r@) =~= self.spec_algorithms());
                r
            },
            TaArchetype::Channel => {
                let r: &'static [&'static str] = &[
                    "bollinger_bands",
                    "keltner_channels",
                    "donchian_channels",
                ];
                assert(views_of(r@) =~= self.spec_algorithms());
                r
            },
        }
    }

    pub fn canonical_input_ports(self) -> (r: &'static [&'static str])
        ensures
            views_of(r@) == seq!["source_stream"@],
    {
        let r: &'static [&'static str] = &["source_stream"];
        assert(views_of(r@) =~= seq!["source_stream"@]);
        r
    }

    pub fn canonical_output_ports(self) -> (r: &'static [&'static str])
        ensures
            views_of(r@) == self.spec_output_ports(),
    {
        match self {
            TaArchetype::Trend | TaArchetype::Volatility => {
                let r: &'static [&'static str] = &["result"];
                assert(views_of(r@) =~= self.spec_output_ports());
                r
            },
            TaArchetype::Oscillator => {
                let r: &'static [&'static str] = &["oscillator", "signal_line"];
                assert(views_of(r@) =~= self.spec_output_ports());
                r
            },
            TaArchetype::Channel => {
                let r: &'static [&'static str] = &["upper_band", "basis_line", "lower_band"];
                assert(views_of(r@) =~= self.spec_output_ports());
                r
            },
        }
    }

    pub fn display_name(self) -> (r: &'static str)
        ensures
            r@ == self.spec_display_name(),
    {
        match self {
            TaArchetype::Trend => "Trend & Location",
            TaArchetype::Volatility => "Risk & Dispersion",
            TaArchetype::Oscillator => "Oscillator",
            TaArchetype::Channel => "Channels & Bands",
        }
    }

    pub fn spawn_menu_label(self) -> (r: &'static str)
        ensures
            r@ == self.spec_spawn_menu_label(),
    {
        match self {
            TaArchetype::Trend => "Trend & Location Node",
            TaArchetype::Volatility => "Risk & Dispersion Node",
            TaArchetype::Oscillator => "Oscillator Node",
            TaArchetype::Channel => "Channels & Bands Node",
        }
    }

    /// GPUI header accent (0xRRGGBB).
    pub fn accent_rgb(self) -> (r: u32)
        ensures
            r == self.spec_accent_rgb(),
    {
        match self {
            TaArchetype::Trend => 0x60a5fa,
            TaArchetype::Volatility => 0xf97316,
            TaArchetype::Oscillator => 0xc084fc,
            TaArchetype::Channel => 0x34d399,
        }
    }
}

/// The label table of `algorithm_display_label` (keys already lower-case).
pub open spec fn spec_algorithm_display_label(algorithm: Seq<char>) -> Seq<char> {
    let k = lower(algorithm);
    if k == "sma"@ {
        "SMA"@
    } else if k == "ema"@ {
        "EMA"@
    } else if k == "wma"@ {
        "WMA"@
    } else if k == "hma"@ {
        "HMA"@
    } else if k == "tema"@ {
        "TEMA"@
    } else if k == "stddev"@ {
        "StdDev"@
    } else if k == "variance"@ {
        "Variance"@
    } else if k == "atr"@ {
        "ATR"@
    } else if k == "historical_volatility"@ {
        "Hist. Vol"@
    } else if k == "rsi"@ {
        "RSI"@
    } else if k == "cci"@ {
        "CCI"@
    } else if k == "stochastic"@ {
        "Stochastic"@
    } else if k == "roc"@ {
        "ROC"@
    } else if k == "macd"@ {
        "MACD"@
    } else if k == "bollinger_bands"@ {
        "Bollinger"@
    } else if k == "keltner_channels"@ {
        "Keltner"@
    } else if k == "donchian_channels"@ {
        "Donchian"@
    } else {
        k
    }
}

fn is_key(k: &[char], lit: &str) -> (r: bool)
    ensures
        r == (k@ == lit@),
{
    let l = chars_of(lit);
    seq_eq(k, &l)
}

/// Display label for an algorithm id; unknown ids come back lower-cased.
pub fn algorithm_display_label(algorithm: &str) -> (r: String)
    ensures
        r@ == spec_algorithm_display_label(algorithm@),
{
    let a = chars_of(algorithm);
    let k = lower_of(&a);
    let label: &str = if is_key(&k, "sma") {
        "SMA"
    } else if is_key(&k, "ema") {
        "EMA"
    } else if is_key(&k, "wma") {
        "WMA"
    } else if is_key(&k, "hma") {
        "HMA"
    } else if is_key(&k, "tema") {
        "TEMA"
    } else if is_key(&k, "stddev") {
        "StdDev"
    } else if is_key(&k, "variance") {
        "Variance"
    } else if is_key(&k, "atr") {
        "ATR"
    } else if is_key(&k, "historical_volatility") {
        "Hist. Vol"
    } else if is_key(&k, "rsi") {
        "RSI"
    } else if is_key(&k, "cci") {
        "CCI"
    } else if is_key(&k, "stochastic") {
        "Stochastic"
    } else if is_key(&k, "roc") {
        "ROC"
    } else if is_key(&k, "macd") {
        "MACD"
    } else if is_key(&k, "bollinger_bands") {
        "Bollinger"
    } else if is_key(&k, "keltner_channels") {
        "Keltner"
    } else if is_key(&k, "donchian_channels") {
        "Donchian"
    } else {
        return string_of(&k);
    };
    label.to_owned()
}

/// Some name of `names` equals `id` ignoring ASCII case.
pub open spec fn any_name_matches(names: Seq<Seq<char>>, id: Seq<char>) -> bool {
    exists|i: int| 0 <= i < names.len() && eq_ignore_case(#[trigger] names[i], id)
}

/// Archetype for an algorithm id: the first family (Trend, Volatility,
/// Oscillator, Channel) listing it, else Oscillator.
pub open spec fn spec_infer_archetype(algorithm: Seq<char>) -> TaArchetype {
    let id = lower(trim(algorithm));
    if any_name_matches(TaArchetype::Trend.spec_algorithms(), id) {
        TaArchetype::Trend
    } else if any_name_matches(TaArchetype::Volatility.spec_algorithms(), id) {
        TaArchetype::Volatility
    } else if any_name_matches(TaArchetype::Oscillator.spec_algorithms(), id) {
        TaArchetype::Oscillator
    } else if any_name_matches(TaArchetype::Channel.spec_algorithms(), id) {
        TaArchetype::Channel
    } else {
        TaArchetype::Oscillator
    }
}

fn family_lists(a: TaArchetype, id: &[char]) -> (r: bool)
    ensures
        r == any_name_matches(a.spec_algorithms(), id@),
{
    let names = a.algorithms();
    let mut i: usize = 0;
    while i < names.len()
        invariant
            i <= names@.len(),
            views_of(names@) == a.spec_algorithms(),
            forall|j: int| 0 <= j < i ==> !eq_ignore_case(#[trigger] views_of(names@)[j], id@),
        decreases names.len() - i,
    {
        let n = chars_of(names[i]);
        if eq_ignore_case_of(&n, id) {
            assert(views_of(names@)[i as int] == n@);
            return true;
        }
        assert(views_of(names@)[i as int] == n@);
        i = i + 1;
    }
    false
}

/// Infer archetype from a legacy or canonical algorithm id.
pub fn infer_archetype_from_algorithm(algorithm: &str) -> (r: TaArchetype)
    ensures
        r == spec_infer_archetype(algorithm@),
{
    let a = chars_of(algorithm);
    let t = trim_of(&a);
    let id = lower_of(&t);
    if family_lists(TaArchetype::Trend, &id) {
        TaArchetype::Trend
    } else if family_lists(TaArchetype::Volatility, &id) {
        TaArchetype::Volatility
    } else if family_lists(TaArchetype::Oscillator, &id) {
        TaArchetype::Oscillator
    } else if family_lists(TaArchetype::Channel, &id) {
        TaArchetype::Channel
    } else {
        TaArchetype::Oscillator
    }
}


/// A word of lower-case letters and `_` is unchanged by trimming and lower-casing.
proof fn lemma_plain_word(s: Seq<char>)
    requires
        s.len() > 0,
        forall|k: int| 0 <= k < s.len() ==> ('a' <= #[trigger] s[k] && s[k] <= 'z') || s[k] == '_',
    ensures
        trim(s) == s,
        lower(s) == s,
{
    assert(skip_ws_from(s, 0) == 0);
    assert(s.subrange(0, s.len() as int) =~= s);
    assert(back_ws_from(s, s.len() as int) == s.len());
    assert(lower(s) =~= s);
}

/// Reading an archetype's token gives the archetype back.
pub proof fn lemma_token_roundtrip(a: TaArchetype)
    ensures
        TaArchetype::spec_from_token(a.spec_token()) == Some(a),
{
    reveal_strlit("trend");
    reveal_strlit("volatility");
    reveal_strlit("oscillator");
    reveal_strlit("channel");
    lemma_plain_word(a.spec_token());
    match a {
        TaArchetype::Oscillator => {
            assert("oscillator"@[0] != "volatility"@[0]);
        },
        _ => {},
    }
}

/// Reading a token is unchanged by trimming and lower-casing it first, and a
/// token read as an archetype is that archetype's own token once trimmed
/// and lower-cased.
pub proof fn lemma_token_reading_normalizes(t: Seq<char>)
    ensures
        TaArchetype::spec_from_token(t) == TaArchetype::spec_from_token(lower(trim(t))),
        TaArchetype::spec_from_token(t) matches Some(a) ==> a.spec_token() == lower(trim(t)),
{
    lemma_lower_trim_settles(t);
}

/// Every algorithm name is plain: trimming and lower-casing leave it as it is.
proof fn lemma_algorithms_plain(a: TaArchetype, i: int)
    requires
        0 <= i < a.spec_algorithms().len(),
    ensures
        trim(a.spec_algorithms()[i]) == a.spec_algorithms()[i],
        lower(a.spec_algorithms()[i]) == a.spec_algorithms()[i],
{
    reveal_strlit("sma");
    reveal_strlit("ema");
    reveal_strlit("wma");
    reveal_strlit("hma");
    reveal_strlit("tema");
    reveal_strlit("stddev");
    reveal_strlit("variance");
    reveal_strlit("atr");
    reveal_strlit("historical_volatility");
    reveal_strlit("rsi");
    reveal_strlit("cci");
    reveal_strlit("stochastic");
    reveal_strlit("roc");
    reveal_strlit("macd");
    reveal_strlit("bollinger_bands");
    reveal_strlit("keltner_channels");
    reveal_strlit("donchian_channels");
    lemma_plain_word(a.spec_algorithms()[i]);
}

/// No two families list the same algorithm.
proof fn lemma_families_disjoint(a: TaArchetype, i: int, b: TaArchetype, j: int)
    requires
        0 <= i < a.spec_algorithms().len(),
        0 <= j < b.spec_algorithms().len(),
        a != b,
    ensures
        a.spec_algorithms()[i] != b.spec_algorithms()[j],
{
    reveal_strlit("sma");
    reveal_strlit("ema");
    reveal_strlit("wma");
    reveal_strlit("hma");
    reveal_strlit("tema");
    reveal_strlit("stddev");
    reveal_strlit("variance");
    reveal_strlit("atr");
    reveal_strlit("historical_volatility");
    reveal_strlit("rsi");
    reveal_strlit("cci");
    reveal_strlit("stochastic");
    reveal_strlit("roc");
    reveal_strlit("macd");
    reveal_strlit("bollinger_bands");
    reveal_strlit("keltner_channels");
    reveal_strlit("donchian_channels");
    let x = a.spec_algorithms()[i];
    let y = b.spec_algorithms()[j];
    if x.len() == y.len() && x.len() > 0 {
        assert(x[0] != y[0] || x[1] != y[1] || x[2] != y[2]);
    }
}

/// A family lists a plain name of another family only if it is that family.
proof fn lemma_listed_only_by_own_family(a: TaArchetype, i: int, b: TaArchetype)
    requires
        0 <= i < a.spec_algorithms().len(),
        any_name_matches(b.spec_algorithms(), a.spec_algorithms()[i]),
    ensures
        b == a,
{
    let x = a.spec_algorithms()[i];
    let j = choose|j: int| 0 <= j < b.spec_algorithms().len() && eq_ignore_case(#[trigger] b.spec_algorithms()[j], x);
    lemma_algorithms_plain(a, i);
    lemma_algorithms_plain(b, j);
    if a != b {
        lemma_families_disjoint(a, i, b, j);
    }
}

/// An algorithm a family lists, written with any padding and in any case,
/// infers that family.
pub proof fn lemma_listed_algorithm_infers_its_family(a: TaArchetype, i: int, x: Seq<char>)
    requires
        0 <= i < a.spec_algorithms().len(),
        lower(trim(x)) == a.spec_algorithms()[i],
    ensures
        spec_infer_archetype(x) == a,
{
    let id = lower(trim(x));
    lemma_algorithms_plain(a, i);
    assert(eq_ignore_case(a.spec_algorithms()[i], id));
    assert(any_name_matches(a.spec_algorithms(), id));
    if any_name_matches(TaArchetype::Trend.spec_algorithms(), id) {
        lemma_listed_only_by_own_family(a, i, TaArchetype::Trend);
    } else if any_name_matches(TaArchetype::Volatility.spec_algorithms(), id) {
        lemma_listed_only_by_own_family(a, i, TaArchetype::Volatility);
    } else if any_name_matches(TaArchetype::Oscillator.spec_algorithms(), id) {
        lemma_listed_only_by_own_family(a, i, TaArchetype::Oscillator);
    } else if any_name_matches(TaArchetype::Channel.spec_algorithms(), id) {
        lemma_listed_only_by_own_family(a, i, TaArchetype::Channel);
    }
}

/// An archetype's default algorithm is the first of its family, is allowed
/// for it, and infers it.
pub proof fn lemma_default_algorithm_agrees(a: TaArchetype)
    ensures
        a.spec_default_algorithm() == a.spec_algorithms()[0],
        any_name_matches(a.spec_algorithms(), a.spec_default_algorithm()),
        spec_infer_archetype(a.spec_default_algorithm()) == a,
{
    assert(eq_ignore_case(a.spec_algorithms()[0], a.spec_default_algorithm()));
    lemma_algorithms_plain(a, 0);
    lemma_listed_algorithm_infers_its_family(a, 0, a.spec_default_algorithm());
}

} // verus!
