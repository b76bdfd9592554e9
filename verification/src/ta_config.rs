//! Typed TA configuration of an Uber Signal node and the OTL script it
//! composes.
//!
//! The two real-valued hyperparameters (channel multiplier, annualization
//! factor) are held as the text `{}` prints for them; they only ever reach the
//! script as that text.

use crate::ta_uber::{
    algorithm_display_label, any_name_matches, eq_ignore_case, eq_ignore_case_of,
    spec_algorithm_display_label, views_of, TaArchetype, TaHyperparamVisibility,
};
use crate::text::{append_chars, chars_of, decimal, decimal_of, lower, lower_of, seq_eq, string_of};
use vstd::prelude::*;

verus! {

/// Typed TA configuration stored on canvas nodes and serialized to USD.
#[derive(Debug, Clone, PartialEq)]
pub struct TaUberSignalConfig {
    pub archetype: TaArchetype,
    pub algorithm: String,
    pub period: u32,
    /// Band multiplier, as printed (`"2"` for 2.0).
    pub multiplier: String,
    /// Annualization factor, as printed (`"252"` for 252.0).
    pub annualization: String,
    pub signal_period: u32,
}

pub struct TaConfigModel {
    pub archetype: TaArchetype,
    pub algorithm: Seq<char>,
    pub period: u32,
    pub multiplier: Seq<char>,
    pub annualization: Seq<char>,
    pub signal_period: u32,
}

impl View for TaUberSignalConfig {
    type V = TaConfigModel;

    open spec fn view(&self) -> TaConfigModel {
        TaConfigModel {
            archetype: self.archetype,
            algorithm: self.algorithm@,
            period: self.period,
            multiplier: self.multiplier@,
            annualization: self.annualization@,
            signal_period: self.signal_period,
        }
    }
}

/// The first name of `names` equal to `id` ignoring ASCII case.
pub open spec fn first_match(names: Seq<Seq<char>>, id: Seq<char>) -> Option<Seq<char>>
    decreases names.len(),
{
    if names.len() == 0 {
        None
    } else if eq_ignore_case(names[0], id) {
        Some(names[0])
    } else {
        first_match(names.drop_first(), id)
    }
}

pub open spec fn at_least_one(n: u32) -> u32 {
    if n < 1 {
        1
    } else {
        n
    }
}

impl TaUberSignalConfig {
    /// The archetype's default algorithm and period, multiplier 2,
    /// annualization 252 and signal period 9.
    pub fn new(archetype: TaArchetype) -> (c: TaUberSignalConfig)
        ensures
            c@.archetype == archetype,
            c@.algorithm == archetype.spec_default_algorithm(),
            c@.period == archetype.spec_default_period(),
            c@.multiplier == "2"@,
            c@.annualization == "252"@,
            c@.signal_period == 9,
    {
        TaUberSignalConfig {
            archetype,
            algorithm: archetype.default_algorithm().to_owned(),
            period: archetype.default_period(),
            multiplier: "2".to_owned(),
            annualization: "252".to_owned(),
            signal_period: 9,
        }
    }

    /// A trend configuration running `algorithm`.
    pub fn trend(algorithm: String) -> (c: TaUberSignalConfig)
        ensures
            c@.archetype == TaArchetype::Trend,
            c@.algorithm == algorithm@,
            c@.period == TaArchetype::Trend.spec_default_period(),
            c@.multiplier == "2"@,
            c@.annualization == "252"@,
            c@.signal_period == 9,
    {
        let mut config = TaUberSignalConfig::new(TaArchetype::Trend);
        config.algorithm = algorithm;
        config
    }

    /// The same configuration with `period` (at least 1).
    pub fn with_period(self, period: u32) -> (c: TaUberSignalConfig)
        ensures
            c@.period == at_least_one(period),
            c@.archetype == self@.archetype,
            c@.algorithm == self@.algorithm,
            c@.multiplier == self@.multiplier,
            c@.annualization == self@.annualization,
            c@.signal_period == self@.signal_period,
    {
        let mut c = self;
        c.period = if period < 1 {
            1
        } else {
            period
        };
        c
    }

    /// The algorithm is one of the archetype's family (ignoring case).
    pub fn algorithm_allowed(&self) -> (r: bool)
        ensures
            r == any_name_matches(self.archetype.spec_algorithms(), self.algorithm@),
    {
        let names = self.archetype.algorithms();
        let a = chars_of(self.algorithm.as_str());
        let mut i: usize = 0;
        while i < names.len()
            invariant
                i <= names@.len(),
                a@ == self.algorithm@,
                views_of(names@) == self.archetype.spec_algorithms(),
                forall|j: int|
                    0 <= j < i ==> !eq_ignore_case(#[trigger] views_of(names@)[j], a@),
            decreases names.len() - i,
        {
            let n = chars_of(names[i]);
            assert(views_of(names@)[i as int] == n@);
            if eq_ignore_case_of(&n, &a) {
                return true;
            }
            i = i + 1;
        }
        false
    }

    /// Replace the algorithm by the family's own spelling of it, or by the
    /// archetype's default when the family does not list it.
    pub fn normalize_algorithm(&mut self)
        ensures
            final(self)@.algorithm == match first_match(
                old(self).archetype.spec_algorithms(),
                lower(old(self).algorithm@),
            ) {
                Some(n) => n,
                None => old(self).archetype.spec_default_algorithm(),
            },
            final(self)@.archetype == old(self)@.archetype,
            final(self)@.period == old(self)@.period,
            final(self)@.multiplier == old(self)@.multiplier,
            final(self)@.annualization == old(self)@.annualization,
            final(self)@.signal_period == old(self)@.signal_period,
    {
        let target = lower_of(&chars_of(self.algorithm.as_str()));
        let names = self.archetype.algorithms();
        let ghost all = self.archetype.spec_algorithms();
        let mut i: usize = 0;
        assert(all.subrange(0, all.len() as int) =~= all);
        while i < names.len()
            invariant
                i <= names@.len(),
                views_of(names@) == all,
                all == old(self).archetype.spec_algorithms(),
                target@ == lower(old(self).algorithm@),
                first_match(all, target@) == first_match(all.subrange(i as int, all.len() as int), target@),
                self == old(self),
            decreases names.len() - i,
        {
            let n = chars_of(names[i]);
            assert(views_of(names@)[i as int] == n@);
            let ghost rest = all.subrange(i as int, all.len() as int);
            assert(rest[0] == n@);
            assert(rest.drop_first() =~= all.subrange(i + 1, all.len() as int));
            if eq_ignore_case_of(&n, &target) {
                self.algorithm = names[i].to_owned();
                return;
            }
            i = i + 1;
        }
        self.algorithm = self.archetype.default_algorithm().to_owned();
    }

    /// Stable prim leaf segment: `{archetype}_{algorithm}_{period}`.
    pub fn leaf_signature(&self) -> (r: String)
        ensures
            r@ == self.archetype.spec_token() + "_"@ + self.algorithm@ + "_"@ + decimal(
                self.period as nat,
            ),
    {
        let mut out = chars_of(self.archetype.as_token());
        append_chars(&mut out, &chars_of("_"));
        append_chars(&mut out, &chars_of(self.algorithm.as_str()));
        append_chars(&mut out, &chars_of("_"));
        append_chars(&mut out, &decimal_of(self.period as usize));
        string_of(&out)
    }
}

pub open spec fn spec_visibility(archetype: TaArchetype, algorithm: Seq<char>) -> TaHyperparamVisibility {
    let alg = lower(algorithm);
    TaHyperparamVisibility {
        period: true,
        multiplier: archetype == TaArchetype::Channel && (alg == "bollinger_bands"@ || alg
            == "keltner_channels"@),
        annualization: alg == "historical_volatility"@,
        signal_period: archetype == TaArchetype::Oscillator && (alg == "macd"@ || alg
            == "stochastic"@),
    }
}

fn lowered_is(alg: &[char], lit: &str) -> (r: bool)
    ensures
        r == (alg@ == lit@),
{
    seq_eq(alg, &chars_of(lit))
}

/// Which shared hyperparameter slots are active for the current algorithm.
pub fn hyperparameter_visibility(config: &TaUberSignalConfig) -> (r: TaHyperparamVisibility)
    ensures
        r == spec_visibility(config.archetype, config.algorithm@),
{
    let alg = lower_of(&chars_of(config.algorithm.as_str()));
    let multiplier = match config.archetype {
        TaArchetype::Channel => lowered_is(&alg, "bollinger_bands") || lowered_is(
            &alg,
            "keltner_channels",
        ),
        _ => false,
    };
    let signal_period = match config.archetype {
        TaArchetype::Oscillator => lowered_is(&alg, "macd") || lowered_is(&alg, "stochastic"),
        _ => false,
    };
    TaHyperparamVisibility {
        period: true,
        multiplier,
        annualization: lowered_is(&alg, "historical_volatility"),
        signal_period,
    }
}

/// `"{archetype display name} · {algorithm label}"`.
pub fn node_display_name(config: &TaUberSignalConfig) -> (r: String)
    ensures
        r@ == config.archetype.spec_display_name() + " · "@ + spec_algorithm_display_label(
            config.algorithm@,
        ),
{
    let mut out = chars_of(config.archetype.display_name());
    append_chars(&mut out, &chars_of(" · "));
    let label = algorithm_display_label(config.algorithm.as_str());
    append_chars(&mut out, &chars_of(label.as_str()));
    string_of(&out)
}

/// `ta::{alg}(input, {period}` followed by `extra` and `)`.
pub open spec fn ta_call(alg: Seq<char>, period: u32, extra: Seq<char>) -> Seq<char> {
    "ta::"@ + alg + "(input, "@ + decimal(period as nat) + extra + ")"@
}

/// Canonical `inputs:script_src` of a configuration.
pub open spec fn spec_compose_script(c: TaConfigModel) -> Seq<char> {
    let period = at_least_one(c.period);
    let alg = lower(c.algorithm);
    let signal = ", "@ + decimal(at_least_one(c.signal_period) as nat);
    match c.archetype {
        TaArchetype::Trend => ta_call(alg, period, Seq::empty()),
        TaArchetype::Volatility => if alg == "historical_volatility"@ {
            ta_call(alg, period, ", "@ + c.annualization)
        } else {
            ta_call(alg, period, Seq::empty())
        },
        TaArchetype::Oscillator => if alg == "macd"@ || alg == "stochastic"@ {
            ta_call(alg, period, signal)
        } else {
            ta_call(alg, period, Seq::empty())
        },
        TaArchetype::Channel => ta_call(alg, period, ", "@ + c.multiplier),
    }
}

fn ta_call_of(alg: &[char], period: u32, extra: &[char]) -> (r: Vec<char>)
    ensures
        r@ == ta_call(alg@, period, extra@),
{
    let mut out = chars_of("ta::");
    append_chars(&mut out, alg);
    append_chars(&mut out, &chars_of("(input, "));
    append_chars(&mut out, &decimal_of(period as usize));
    append_chars(&mut out, extra);
    append_chars(&mut out, &chars_of(")"));
    out
}

fn comma_then(text: &[char]) -> (r: Vec<char>)
    ensures
        r@ == ", "@ + text@,
{
    let mut out = chars_of(", ");
    append_chars(&mut out, text);
    out
}

/// Build canonical `inputs:script_src` for the vectorized OTL compiler.
pub fn compose_uber_script_src(config: &TaUberSignalConfig) -> (r: String)
    ensures
        r@ == spec_compose_script(config@),
{
    let period = if config.period < 1 {
        1
    } else {
        config.period
    };
    let signal_period = if config.signal_period < 1 {
        1
    } else {
        config.signal_period
    };
    let alg = lower_of(&chars_of(config.algorithm.as_str()));
    let none: Vec<char> = Vec::new();
    assert(none@ =~= Seq::<char>::empty());
    let out = match config.archetype {
        TaArchetype::Trend => ta_call_of(&alg, period, &none),
        TaArchetype::Volatility => {
            if lowered_is(&alg, "historical_volatility") {
                ta_call_of(&alg, period, &comma_then(&chars_of(config.annualization.as_str())))
            } else {
                ta_call_of(&alg, period, &none)
            }
        },
        TaArchetype::Oscillator => {
            if lowered_is(&alg, "macd") || lowered_is(&alg, "stochastic") {
                ta_call_of(&alg, period, &comma_then(&decimal_of(signal_period as usize)))
            } else {
                ta_call_of(&alg, period, &none)
            }
        },
        TaArchetype::Channel => ta_call_of(
            &alg,
            period,
            &comma_then(&chars_of(config.multiplier.as_str())),
        ),
    };
    string_of(&out)
}

} // verus!
