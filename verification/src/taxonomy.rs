//! Taxonomy resolution: a symbol's class chain flattened into metadata opinions.

use crate::text::{chars_of, seq_eq, upper, upper_of};
use vstd::prelude::*;

verus! {

/// Flattened asset metadata applied to operational `FinancialAsset` prims.
#[derive(Clone, Debug, PartialEq, Eq, Default)]
pub struct FlattenedAssetMetadata {
    pub asset_class: String,
    pub provider: String,
    pub category: String,
    pub sub_category: String,
    pub exchange_mic: String,
    pub exchange_region: String,
    pub trading_currency: String,
}

/// Field texts of a [`FlattenedAssetMetadata`].
pub struct MetaModel {
    pub asset_class: Seq<char>,
    pub provider: Seq<char>,
    pub category: Seq<char>,
    pub sub_category: Seq<char>,
    pub exchange_mic: Seq<char>,
    pub exchange_region: Seq<char>,
    pub trading_currency: Seq<char>,
}

impl View for FlattenedAssetMetadata {
    type V = MetaModel;

    open spec fn view(&self) -> MetaModel {
        MetaModel {
            asset_class: self.asset_class@,
            provider: self.provider@,
            category: self.category@,
            sub_category: self.sub_category@,
            exchange_mic: self.exchange_mic@,
            exchange_region: self.exchange_region@,
            trading_currency: self.trading_currency@,
        }
    }
}

/// The classes of the metadata library that carry opinions.
#[derive(Clone, Copy, Debug, PartialEq, Eq, Structural)]
pub enum TaxonomyClass {
    EquityBase,
    EtfBase,
    SectorTechnology,
    IndustrySoftware,
    IndustrySemiconductors,
    SectorFinancials,
    IndustryBanks,
    IndustryCapitalMarkets,
    EtfEquityLargeCap,
    EtfFixedIncomeTreasury,
    ExchangeNasdaq,
    ExchangeNyq,
    ExchangeFra,
}

pub open spec fn empty_meta() -> MetaModel {
    MetaModel {
        asset_class: Seq::empty(),
        provider: Seq::empty(),
        category: Seq::empty(),
        sub_category: Seq::empty(),
        exchange_mic: Seq::empty(),
        exchange_region: Seq::empty(),
        trading_currency: Seq::empty(),
    }
}

/// The opinions one class writes.
pub open spec fn spec_apply(c: TaxonomyClass, m: MetaModel) -> MetaModel {
    match c {
        TaxonomyClass::EquityBase => MetaModel { asset_class: "Equity"@, provider: "yahoo"@, ..m },
        TaxonomyClass::EtfBase => MetaModel { asset_class: "ETF"@, provider: "yahoo"@, ..m },
        TaxonomyClass::SectorTechnology => MetaModel { category: "Information Technology"@, ..m },
        TaxonomyClass::IndustrySoftware => MetaModel {
            sub_category: "Software Application & Systems"@,
            ..m
        },
        TaxonomyClass::IndustrySemiconductors => MetaModel {
            sub_category: "Semiconductors & Equipment"@,
            ..m
        },
        TaxonomyClass::SectorFinancials => MetaModel { category: "Financials"@, ..m },
        TaxonomyClass::IndustryBanks => MetaModel { sub_category: "Diversified Banks"@, ..m },
        TaxonomyClass::IndustryCapitalMarkets => MetaModel {
            sub_category: "Capital Markets & Asset Management"@,
            ..m
        },
        TaxonomyClass::EtfEquityLargeCap => MetaModel {
            category: "Equity"@,
            sub_category: "Large Cap Blend"@,
            ..m
        },
        TaxonomyClass::EtfFixedIncomeTreasury => MetaModel {
            category: "Fixed Income"@,
            sub_category: "Government US Treasury"@,
            ..m
        },
        TaxonomyClass::ExchangeNasdaq => MetaModel {
            exchange_mic: "XNAS"@,
            exchange_region: "US"@,
            trading_currency: "USD"@,
            ..m
        },
        TaxonomyClass::ExchangeNyq => MetaModel {
            exchange_mic: "XNYS"@,
            exchange_region: "US"@,
            trading_currency: "USD"@,
            ..m
        },
        TaxonomyClass::ExchangeFra => MetaModel {
            exchange_mic: "XFRA"@,
            exchange_region: "Germany"@,
            trading_currency: "EUR"@,
            ..m
        },
    }
}

pub open spec fn apply_all(cs: Seq<TaxonomyClass>, m: MetaModel) -> MetaModel
    decreases cs.len(),
{
    if cs.len() == 0 {
        m
    } else {
        apply_all(cs.subrange(1, cs.len() as int), spec_apply(cs[0], m))
    }
}

/// Symbol-specific class chain (by upper-cased symbol) and exchange class.
pub open spec fn spec_chain(symbol: Seq<char>) -> (Seq<TaxonomyClass>, TaxonomyClass) {
    let u = upper(symbol);
    if u == "AAPL"@ || u == "MSFT"@ || u == "GOOG"@ || u == "GOOGL"@ {
        (
            seq![
                TaxonomyClass::EquityBase,
                TaxonomyClass::SectorTechnology,
                TaxonomyClass::IndustrySoftware,
            ],
            TaxonomyClass::ExchangeNasdaq,
        )
    } else if u == "NVDA"@ || u == "AMD"@ || u == "INTC"@ {
        (
            seq![
                TaxonomyClass::EquityBase,
                TaxonomyClass::SectorTechnology,
                TaxonomyClass::IndustrySemiconductors,
            ],
            TaxonomyClass::ExchangeNasdaq,
        )
    } else if u == "JPM"@ || u == "BAC"@ || u == "WFC"@ {
        (
            seq![
                TaxonomyClass::EquityBase,
                TaxonomyClass::SectorFinancials,
                TaxonomyClass::IndustryBanks,
            ],
            TaxonomyClass::ExchangeNyq,
        )
    } else if u == "GS"@ || u == "MS"@ {
        (
            seq![
                TaxonomyClass::EquityBase,
                TaxonomyClass::SectorFinancials,
                TaxonomyClass::IndustryCapitalMarkets,
            ],
            TaxonomyClass::ExchangeNyq,
        )
    } else if u == "SPY"@ || u == "QQQ"@ || u == "IVV"@ {
        (seq![TaxonomyClass::EtfBase, TaxonomyClass::EtfEquityLargeCap], TaxonomyClass::ExchangeNyq)
    } else if u == "TLT"@ || u == "IEF"@ || u == "SHY"@ {
        (
            seq![TaxonomyClass::EtfBase, TaxonomyClass::EtfFixedIncomeTreasury],
            TaxonomyClass::ExchangeNyq,
        )
    } else if u == "SAP"@ {
        (
            seq![
                TaxonomyClass::EquityBase,
                TaxonomyClass::SectorTechnology,
                TaxonomyClass::IndustrySoftware,
            ],
            TaxonomyClass::ExchangeFra,
        )
    } else {
        (seq![TaxonomyClass::EquityBase], TaxonomyClass::ExchangeNyq)
    }
}

/// What `flatten_asset_metadata` returns.
pub open spec fn spec_flatten(symbol: Seq<char>, declared: Option<Seq<char>>) -> MetaModel {
    let (cs, ex) = spec_chain(symbol);
    let m1 = spec_apply(ex, apply_all(cs, empty_meta()));
    let m2 = match declared {
        Some(d) => if d.len() > 0 {
            MetaModel { asset_class: d, ..m1 }
        } else {
            m1
        },
        None => m1,
    };
    let m3 = if m2.asset_class.len() == 0 {
        MetaModel { asset_class: "Equity"@, ..m2 }
    } else {
        m2
    };
    if m3.provider.len() == 0 {
        MetaModel { provider: "yahoo"@, ..m3 }
    } else {
        m3
    }
}

fn apply_class_defaults(c: TaxonomyClass, meta: &mut FlattenedAssetMetadata)
    ensures
        final(meta)@ == spec_apply(c, old(meta)@),
{
    match c {
        TaxonomyClass::EquityBase => {
            meta.asset_class = "Equity".to_owned();
            meta.provider = "yahoo".to_owned();
        },
        TaxonomyClass::EtfBase => {
            meta.asset_class = "ETF".to_owned();
            meta.provider = "yahoo".to_owned();
        },
        TaxonomyClass::SectorTechnology => meta.category = "Information Technology".to_owned(),
        TaxonomyClass::IndustrySoftware => meta.sub_category =
        "Software Application & Systems".to_owned(),
        TaxonomyClass::IndustrySemiconductors => meta.sub_category =
        "Semiconductors & Equipment".to_owned(),
        TaxonomyClass::SectorFinancials => meta.category = "Financials".to_owned(),
        TaxonomyClass::IndustryBanks => meta.sub_category = "Diversified Banks".to_owned(),
        TaxonomyClass::IndustryCapitalMarkets => {
            meta.sub_category = "Capital Markets & Asset Management".to_owned();
        },
        TaxonomyClass::EtfEquityLargeCap => {
            meta.category = "Equity".to_owned();
            meta.sub_category = "Large Cap Blend".to_owned();
        },
        TaxonomyClass::EtfFixedIncomeTreasury => {
            meta.category = "Fixed Income".to_owned();
            meta.sub_category = "Government US Treasury".to_owned();
        },
        TaxonomyClass::ExchangeNasdaq => {
            meta.exchange_mic = "XNAS".to_owned();
            meta.exchange_region = "US".to_owned();
            meta.trading_currency = "USD".to_owned();
        },
        TaxonomyClass::ExchangeNyq => {
            meta.exchange_mic = "XNYS".to_owned();
            meta.exchange_region = "US".to_owned();
            meta.trading_currency = "USD".to_owned();
        },
        TaxonomyClass::ExchangeFra => {
            meta.exchange_mic = "XFRA".to_owned();
            meta.exchange_region = "Germany".to_owned();
            meta.trading_currency = "EUR".to_owned();
        },
    }
}

fn is_sym(u: &[char], lit: &str) -> (r: bool)
    ensures
        r == (u@ == lit@),
{
    let l = chars_of(lit);
    seq_eq(u, &l)
}

fn symbol_taxonomy_chain(symbol: &str) -> (r: (Vec<TaxonomyClass>, TaxonomyClass))
    ensures
        (r.0@, r.1) == spec_chain(symbol@),
{
    let s = chars_of(symbol);
    let u = upper_of(&s);
    let r = if is_sym(&u, "AAPL") || is_sym(&u, "MSFT") || is_sym(&u, "GOOG") || is_sym(&u, "GOOGL") {
        (
            vec![
                TaxonomyClass::EquityBase,
                TaxonomyClass::SectorTechnology,
                TaxonomyClass::IndustrySoftware,
            ],
            TaxonomyClass::ExchangeNasdaq,
        )
    } else if is_sym(&u, "NVDA") || is_sym(&u, "AMD") || is_sym(&u, "INTC") {
        (
            vec![
                TaxonomyClass::EquityBase,
                TaxonomyClass::SectorTechnology,
                TaxonomyClass::IndustrySemiconductors,
            ],
            TaxonomyClass::ExchangeNasdaq,
        )
    } else if is_sym(&u, "JPM") || is_sym(&u, "BAC") || is_sym(&u, "WFC") {
        (
            vec![
                TaxonomyClass::EquityBase,
                TaxonomyClass::SectorFinancials,
                TaxonomyClass::IndustryBanks,
            ],
            TaxonomyClass::ExchangeNyq,
        )
    } else if is_sym(&u, "GS") || is_sym(&u, "MS") {
        (
            vec![
                TaxonomyClass::EquityBase,
                TaxonomyClass::SectorFinancials,
                TaxonomyClass::IndustryCapitalMarkets,
            ],
            TaxonomyClass::ExchangeNyq,
        )
    } else if is_sym(&u, "SPY") || is_sym(&u, "QQQ") || is_sym(&u, "IVV") {
        (vec![TaxonomyClass::EtfBase, TaxonomyClass::EtfEquityLargeCap], TaxonomyClass::ExchangeNyq)
    } else if is_sym(&u, "TLT") || is_sym(&u, "IEF") || is_sym(&u, "SHY") {
        (
            vec![TaxonomyClass::EtfBase, TaxonomyClass::EtfFixedIncomeTreasury],
            TaxonomyClass::ExchangeNyq,
        )
    } else if is_sym(&u, "SAP") {
        (
            vec![
                TaxonomyClass::EquityBase,
                TaxonomyClass::SectorTechnology,
                TaxonomyClass::IndustrySoftware,
            ],
            TaxonomyClass::ExchangeFra,
        )
    } else {
        (vec![TaxonomyClass::EquityBase], TaxonomyClass::ExchangeNyq)
    };
    assert((r.0@, r.1) =~~= spec_chain(symbol@));
    r
}

/// Resolve a multi-inheritance taxonomy chain into flattened token/string opinions.
pub fn flatten_asset_metadata(symbol: &str, declared_asset_class: Option<&str>) -> (r:
    FlattenedAssetMetadata)
    ensures
        r@ == spec_flatten(
            symbol@,
            match declared_asset_class {
                Some(d) => Some(d@),
                None => None,
            },
        ),
{
    let (classes, exchange_class) = symbol_taxonomy_chain(symbol);
    let mut meta = FlattenedAssetMetadata {
        asset_class: String::new(),
        provider: String::new(),
        category: String::new(),
        sub_category: String::new(),
        exchange_mic: String::new(),
        exchange_region: String::new(),
        trading_currency: String::new(),
    };
    let mut i: usize = 0;
    assert(classes@.subrange(0, classes@.len() as int) =~= classes@);
    assert(meta@ =~~= empty_meta());
    while i < classes.len()
        invariant
            i <= classes@.len(),
            apply_all(classes@, empty_meta()) == apply_all(
                classes@.subrange(i as int, classes@.len() as int),
                meta@,
            ),
        decreases classes.len() - i,
    {
        let ghost rest = classes@.subrange(i as int, classes@.len() as int);
        assert(rest.subrange(1, rest.len() as int) =~= classes@.subrange(
            i + 1,
            classes@.len() as int,
        ));
        apply_class_defaults(classes[i], &mut meta);
        i = i + 1;
    }
    apply_class_defaults(exchange_class, &mut meta);
    match declared_asset_class {
        Some(d) => {
            if d.unicode_len() > 0 {
                meta.asset_class = d.to_owned();
            }
        },
        None => {},
    }
    if meta.asset_class.as_str().unicode_len() == 0 {
        meta.asset_class = "Equity".to_owned();
    }
    if meta.provider.as_str().unicode_len() == 0 {
        meta.provider = "yahoo".to_owned();
    }
    meta
}

/// Three classes applied in turn.
proof fn lemma_apply_three(a: TaxonomyClass, b: TaxonomyClass, c: TaxonomyClass, m: MetaModel)
    ensures
        apply_all(seq![a, b, c], m) == spec_apply(c, spec_apply(b, spec_apply(a, m))),
{
    reveal_with_fuel(apply_all, 4);
    let s = seq![a, b, c];
    assert(s.subrange(1, 3) =~= seq![b, c]);
    assert(seq![b, c].subrange(1, 2) =~= seq![c]);
    assert(seq![c].subrange(1, 1) =~= Seq::<TaxonomyClass>::empty());
}

/// Two classes applied in turn.
proof fn lemma_apply_two(a: TaxonomyClass, b: TaxonomyClass, m: MetaModel)
    ensures
        apply_all(seq![a, b], m) == spec_apply(b, spec_apply(a, m)),
{
    reveal_with_fuel(apply_all, 3);
    assert(seq![a, b].subrange(1, 2) =~= seq![b]);
    assert(seq![b].subrange(1, 1) =~= Seq::<TaxonomyClass>::empty());
}

/// The asset class a flattened record carries: a non-empty declared one, else
/// the one its classes give.
pub open spec fn declared_or(declared: Option<Seq<char>>, given: Seq<char>) -> Seq<char> {
    match declared {
        Some(d) => if d.len() > 0 {
            d
        } else {
            given
        },
        None => given,
    }
}

/// AAPL, MSFT, GOOG, GOOGL: Information Technology / Software Application & Systems, listed on XNAS (US, USD), a Equity unless declared otherwise.
pub proof fn lemma_flatten_software(symbol: Seq<char>, declared: Option<Seq<char>>)
    requires
        upper(symbol) == "AAPL"@ || upper(symbol) == "MSFT"@ || upper(symbol) == "GOOG"@ || upper(symbol) == "GOOGL"@,
    ensures
        spec_flatten(symbol, declared).asset_class == declared_or(declared, "Equity"@),
        spec_flatten(symbol, declared).provider == "yahoo"@,
        spec_flatten(symbol, declared).category == "Information Technology"@,
        spec_flatten(symbol, declared).sub_category == "Software Application & Systems"@,
        spec_flatten(symbol, declared).exchange_mic == "XNAS"@,
        spec_flatten(symbol, declared).exchange_region == "US"@,
        spec_flatten(symbol, declared).trading_currency == "USD"@,
{
    reveal_strlit("AAPL");
    reveal_strlit("MSFT");
    reveal_strlit("GOOG");
    reveal_strlit("GOOGL");
    reveal_strlit("Equity");
    reveal_strlit("yahoo");
    assert(spec_chain(symbol).0 =~= seq![TaxonomyClass::EquityBase, TaxonomyClass::SectorTechnology, TaxonomyClass::IndustrySoftware]);
    assert(spec_chain(symbol).1 == TaxonomyClass::ExchangeNasdaq);
    lemma_apply_three(TaxonomyClass::EquityBase, TaxonomyClass::SectorTechnology, TaxonomyClass::IndustrySoftware, empty_meta());
}

/// NVDA, AMD, INTC: Information Technology / Semiconductors & Equipment, listed on XNAS (US, USD), a Equity unless declared otherwise.
pub proof fn lemma_flatten_chip(symbol: Seq<char>, declared: Option<Seq<char>>)
    requires
        upper(symbol) == "NVDA"@ || upper(symbol) == "AMD"@ || upper(symbol) == "INTC"@,
    ensures
        spec_flatten(symbol, declared).asset_class == declared_or(declared, "Equity"@),
        spec_flatten(symbol, declared).provider == "yahoo"@,
        spec_flatten(symbol, declared).category == "Information Technology"@,
        spec_flatten(symbol, declared).sub_category == "Semiconductors & Equipment"@,
        spec_flatten(symbol, declared).exchange_mic == "XNAS"@,
        spec_flatten(symbol, declared).exchange_region == "US"@,
        spec_flatten(symbol, declared).trading_currency == "USD"@,
{
    reveal_strlit("AAPL");
    reveal_strlit("MSFT");
    reveal_strlit("GOOG");
    reveal_strlit("GOOGL");
    reveal_strlit("NVDA");
    reveal_strlit("AMD");
    reveal_strlit("INTC");
    reveal_strlit("Equity");
    reveal_strlit("yahoo");
    assert("NVDA"@[0] != "AAPL"@[0]);
    assert("NVDA"@[0] != "MSFT"@[0]);
    assert("NVDA"@[0] != "GOOG"@[0]);
    assert("NVDA"@.len() != "GOOGL"@.len());
    assert("AMD"@.len() != "AAPL"@.len());
    assert("AMD"@.len() != "MSFT"@.len());
    assert("AMD"@.len() != "GOOG"@.len());
    assert("AMD"@.len() != "GOOGL"@.len());
    assert("INTC"@[0] != "AAPL"@[0]);
    assert("INTC"@[0] != "MSFT"@[0]);
    assert("INTC"@[0] != "GOOG"@[0]);
    assert("INTC"@.len() != "GOOGL"@.len());
    assert(spec_chain(symbol).0 =~= seq![TaxonomyClass::EquityBase, TaxonomyClass::SectorTechnology, TaxonomyClass::IndustrySemiconductors]);
    assert(spec_chain(symbol).1 == TaxonomyClass::ExchangeNasdaq);
    lemma_apply_three(TaxonomyClass::EquityBase, TaxonomyClass::SectorTechnology, TaxonomyClass::IndustrySemiconductors, empty_meta());
}

/// JPM, BAC, WFC: Financials / Diversified Banks, listed on XNYS (US, USD), a Equity unless declared otherwise.
pub proof fn lemma_flatten_bank(symbol: Seq<char>, declared: Option<Seq<char>>)
    requires
        upper(symbol) == "JPM"@ || upper(symbol) == "BAC"@ || upper(symbol) == "WFC"@,
    ensures
        spec_flatten(symbol, declared).asset_class == declared_or(declared, "Equity"@),
        spec_flatten(symbol, declared).provider == "yahoo"@,
        spec_flatten(symbol, declared).category == "Financials"@,
        spec_flatten(symbol, declared).sub_category == "Diversified Banks"@,
        spec_flatten(symbol, declared).exchange_mic == "XNYS"@,
        spec_flatten(symbol, declared).exchange_region == "US"@,
        spec_flatten(symbol, declared).trading_currency == "USD"@,
{
    reveal_strlit("AAPL");
    reveal_strlit("MSFT");
    reveal_strlit("GOOG");
    reveal_strlit("GOOGL");
    reveal_strlit("NVDA");
    reveal_strlit("AMD");
    reveal_strlit("INTC");
    reveal_strlit("JPM");
    reveal_strlit("BAC");
    reveal_strlit("WFC");
    reveal_strlit("Equity");
    reveal_strlit("yahoo");
    assert("JPM"@.len() != "AAPL"@.len());
    assert("JPM"@.len() != "MSFT"@.len());
    assert("JPM"@.len() != "GOOG"@.len());
    assert("JPM"@.len() != "GOOGL"@.len());
    assert("JPM"@.len() != "NVDA"@.len());
    assert("JPM"@[0] != "AMD"@[0]);
    assert("JPM"@.len() != "INTC"@.len());
    assert("BAC"@.len() != "AAPL"@.len());
    assert("BAC"@.len() != "MSFT"@.len());
    assert("BAC"@.len() != "GOOG"@.len());
    assert("BAC"@.len() != "GOOGL"@.len());
    assert("BAC"@.len() != "NVDA"@.len());
    assert("BAC"@[0] != "AMD"@[0]);
    assert("BAC"@.len() != "INTC"@.len());
    assert("WFC"@.len() != "AAPL"@.len());
    assert("WFC"@.len() != "MSFT"@.len());
    assert("WFC"@.len() != "GOOG"@.len());
    assert("WFC"@.len() != "GOOGL"@.len());
    assert("WFC"@.len() != "NVDA"@.len());
    assert("WFC"@[0] != "AMD"@[0]);
    assert("WFC"@.len() != "INTC"@.len());
    assert(spec_chain(symbol).0 =~= seq![TaxonomyClass::EquityBase, TaxonomyClass::SectorFinancials, TaxonomyClass::IndustryBanks]);
    assert(spec_chain(symbol).1 == TaxonomyClass::ExchangeNyq);
    lemma_apply_three(TaxonomyClass::EquityBase, TaxonomyClass::SectorFinancials, TaxonomyClass::IndustryBanks, empty_meta());
}

/// GS, MS: Financials / Capital Markets & Asset Management, listed on XNYS (US, USD), a Equity unless declared otherwise.
pub proof fn lemma_flatten_markets(symbol: Seq<char>, declared: Option<Seq<char>>)
    requires
        upper(symbol) == "GS"@ || upper(symbol) == "MS"@,
    ensures
        spec_flatten(symbol, declared).asset_class == declared_or(declared, "Equity"@),
        spec_flatten(symbol, declared).provider == "yahoo"@,
        spec_flatten(symbol, declared).category == "Financials"@,
        spec_flatten(symbol, declared).sub_category == "Capital Markets & Asset Management"@,
        spec_flatten(symbol, declared).exchange_mic == "XNYS"@,
        spec_flatten(symbol, declared).exchange_region == "US"@,
        spec_flatten(symbol, declared).trading_currency == "USD"@,
{
    reveal_strlit("AAPL");
    reveal_strlit("MSFT");
    reveal_strlit("GOOG");
    reveal_strlit("GOOGL");
    reveal_strlit("NVDA");
    reveal_strlit("AMD");
    reveal_strlit("INTC");
    reveal_strlit("JPM");
    reveal_strlit("BAC");
    reveal_strlit("WFC");
    reveal_strlit("GS");
    reveal_strlit("MS");
    reveal_strlit("Equity");
    reveal_strlit("yahoo");
    assert("GS"@.len() != "AAPL"@.len());
    assert("GS"@.len() != "MSFT"@.len());
    assert("GS"@.len() != "GOOG"@.len());
    assert("GS"@.len() != "GOOGL"@.len());
    assert("GS"@.len() != "NVDA"@.len());
    assert("GS"@.len() != "AMD"@.len());
    assert("GS"@.len() != "INTC"@.len());
    assert("GS"@.len() != "JPM"@.len());
    assert("GS"@.len() != "BAC"@.len());
    assert("GS"@.len() != "WFC"@.len());
    assert("MS"@.len() != "AAPL"@.len());
    assert("MS"@.len() != "MSFT"@.len());
    assert("MS"@.len() != "GOOG"@.len());
    assert("MS"@.len() != "GOOGL"@.len());
    assert("MS"@.len() != "NVDA"@.len());
    assert("MS"@.len() != "AMD"@.len());
    assert("MS"@.len() != "INTC"@.len());
    assert("MS"@.len() != "JPM"@.len());
    assert("MS"@.len() != "BAC"@.len());
    assert("MS"@.len() != "WFC"@.len());
    assert(spec_chain(symbol).0 =~= seq![TaxonomyClass::EquityBase, TaxonomyClass::SectorFinancials, TaxonomyClass::IndustryCapitalMarkets]);
    assert(spec_chain(symbol).1 == TaxonomyClass::ExchangeNyq);
    lemma_apply_three(TaxonomyClass::EquityBase, TaxonomyClass::SectorFinancials, TaxonomyClass::IndustryCapitalMarkets, empty_meta());
}

/// SPY, QQQ, IVV: Equity / Large Cap Blend, listed on XNYS (US, USD), a ETF unless declared otherwise.
pub proof fn lemma_flatten_large_cap(symbol: Seq<char>, declared: Option<Seq<char>>)
    requires
        upper(symbol) == "SPY"@ || upper(symbol) == "QQQ"@ || upper(symbol) == "IVV"@,
    ensures
        spec_flatten(symbol, declared).asset_class == declared_or(declared, "ETF"@),
        spec_flatten(symbol, declared).provider == "yahoo"@,
        spec_flatten(symbol, declared).category == "Equity"@,
        spec_flatten(symbol, declared).sub_category == "Large Cap Blend"@,
        spec_flatten(symbol, declared).exchange_mic == "XNYS"@,
        spec_flatten(symbol, declared).exchange_region == "US"@,
        spec_flatten(symbol, declared).trading_currency == "USD"@,
{
    reveal_strlit("AAPL");
    reveal_strlit("MSFT");
    reveal_strlit("GOOG");
    reveal_strlit("GOOGL");
    reveal_strlit("NVDA");
    reveal_strlit("AMD");
    reveal_strlit("INTC");
    reveal_strlit("JPM");
    reveal_strlit("BAC");
    reveal_strlit("WFC");
    reveal_strlit("GS");
    reveal_strlit("MS");
    reveal_strlit("SPY");
    reveal_strlit("QQQ");
    reveal_strlit("IVV");
    reveal_strlit("ETF");
    reveal_strlit("yahoo");
    assert("SPY"@.len() != "AAPL"@.len());
    assert("SPY"@.len() != "MSFT"@.len());
    assert("SPY"@.len() != "GOOG"@.len());
    assert("SPY"@.len() != "GOOGL"@.len());
    assert("SPY"@.len() != "NVDA"@.len());
    assert("SPY"@[0] != "AMD"@[0]);
    assert("SPY"@.len() != "INTC"@.len());
    assert("SPY"@[0] != "JPM"@[0]);
    assert("SPY"@[0] != "BAC"@[0]);
    assert("SPY"@[0] != "WFC"@[0]);
    assert("SPY"@.len() != "GS"@.len());
    assert("SPY"@.len() != "MS"@.len());
    assert("QQQ"@.len() != "AAPL"@.len());
    assert("QQQ"@.len() != "MSFT"@.len());
    assert("QQQ"@.len() != "GOOG"@.len());
    assert("QQQ"@.len() != "GOOGL"@.len());
    assert("QQQ"@.len() != "NVDA"@.len());
    assert("QQQ"@[0] != "AMD"@[0]);
    assert("QQQ"@.len() != "INTC"@.len());
    assert("QQQ"@[0] != "JPM"@[0]);
    assert("QQQ"@[0] != "BAC"@[0]);
    assert("QQQ"@[0] != "WFC"@[0]);
    assert("QQQ"@.len() != "GS"@.len());
    assert("QQQ"@.len() != "MS"@.len());
    assert("IVV"@.len() != "AAPL"@.len());
    assert("IVV"@.len() != "MSFT"@.len());
    assert("IVV"@.len() != "GOOG"@.len());
    assert("IVV"@.len() != "GOOGL"@.len());
    assert("IVV"@.len() != "NVDA"@.len());
    assert("IVV"@[0] != "AMD"@[0]);
    assert("IVV"@.len() != "INTC"@.len());
    assert("IVV"@[0] != "JPM"@[0]);
    assert("IVV"@[0] != "BAC"@[0]);
    assert("IVV"@[0] != "WFC"@[0]);
    assert("IVV"@.len() != "GS"@.len());
    assert("IVV"@.len() != "MS"@.len());
    assert(spec_chain(symbol).0 =~= seq![TaxonomyClass::EtfBase, TaxonomyClass::EtfEquityLargeCap]);
    assert(spec_chain(symbol).1 == TaxonomyClass::ExchangeNyq);
    lemma_apply_two(TaxonomyClass::EtfBase, TaxonomyClass::EtfEquityLargeCap, empty_meta());
}

/// TLT, IEF, SHY: Fixed Income / Government US Treasury, listed on XNYS (US, USD), a ETF unless declared otherwise.
pub proof fn lemma_flatten_treasury(symbol: Seq<char>, declared: Option<Seq<char>>)
    requires
        upper(symbol) == "TLT"@ || upper(symbol) == "IEF"@ || upper(symbol) == "SHY"@,
    ensures
        spec_flatten(symbol, declared).asset_class == declared_or(declared, "ETF"@),
        spec_flatten(symbol, declared).provider == "yahoo"@,
        spec_flatten(symbol, declared).category == "Fixed Income"@,
        spec_flatten(symbol, declared).sub_category == "Government US Treasury"@,
        spec_flatten(symbol, declared).exchange_mic == "XNYS"@,
        spec_flatten(symbol, declared).exchange_region == "US"@,
        spec_flatten(symbol, declared).trading_currency == "USD"@,
{
    reveal_strlit("AAPL");
    reveal_strlit("MSFT");
    reveal_strlit("GOOG");
    reveal_strlit("GOOGL");
    reveal_strlit("NVDA");
    reveal_strlit("AMD");
    reveal_strlit("INTC");
    reveal_strlit("JPM");
    reveal_strlit("BAC");
    reveal_strlit("WFC");
    reveal_strlit("GS");
    reveal_strlit("MS");
    reveal_strlit("SPY");
    reveal_strlit("QQQ");
    reveal_strlit("IVV");
    reveal_strlit("TLT");
    reveal_strlit("IEF");
    reveal_strlit("SHY");
    reveal_strlit("ETF");
    reveal_strlit("yahoo");
    assert("TLT"@.len() != "AAPL"@.len());
    assert("TLT"@.len() != "MSFT"@.len());
    assert("TLT"@.len() != "GOOG"@.len());
    assert("TLT"@.len() != "GOOGL"@.len());
    assert("TLT"@.len() != "NVDA"@.len());
    assert("TLT"@[0] != "AMD"@[0]);
    assert("TLT"@.len() != "INTC"@.len());
    assert("TLT"@[0] != "JPM"@[0]);
    assert("TLT"@[0] != "BAC"@[0]);
    assert("TLT"@[0] != "WFC"@[0]);
    assert("TLT"@.len() != "GS"@.len());
    assert("TLT"@.len() != "MS"@.len());
    assert("TLT"@[0] != "SPY"@[0]);
    assert("TLT"@[0] != "QQQ"@[0]);
    assert("TLT"@[0] != "IVV"@[0]);
    assert("IEF"@.len() != "AAPL"@.len());
    assert("IEF"@.len() != "MSFT"@.len());
    assert("IEF"@.len() != "GOOG"@.len());
    assert("IEF"@.len() != "GOOGL"@.len());
    assert("IEF"@.len() != "NVDA"@.len());
    assert("IEF"@[0] != "AMD"@[0]);
    assert("IEF"@.len() != "INTC"@.len());
    assert("IEF"@[0] != "JPM"@[0]);
    assert("IEF"@[0] != "BAC"@[0]);
    assert("IEF"@[0] != "WFC"@[0]);
    assert("IEF"@.len() != "GS"@.len());
    assert("IEF"@.len() != "MS"@.len());
    assert("IEF"@[0] != "SPY"@[0]);
    assert("IEF"@[0] != "QQQ"@[0]);
    assert("IEF"@[1] != "IVV"@[1]);
    assert("SHY"@.len() != "AAPL"@.len());
    assert("SHY"@.len() != "MSFT"@.len());
    assert("SHY"@.len() != "GOOG"@.len());
    assert("SHY"@.len() != "GOOGL"@.len());
    assert("SHY"@.len() != "NVDA"@.len());
    assert("SHY"@[0] != "AMD"@[0]);
    assert("SHY"@.len() != "INTC"@.len());
    assert("SHY"@[0] != "JPM"@[0]);
    assert("SHY"@[0] != "BAC"@[0]);
    assert("SHY"@[0] != "WFC"@[0]);
    assert("SHY"@.len() != "GS"@.len());
    assert("SHY"@.len() != "MS"@.len());
    assert("SHY"@[1] != "SPY"@[1]);
    assert("SHY"@[0] != "QQQ"@[0]);
    assert("SHY"@[0] != "IVV"@[0]);
    assert(spec_chain(symbol).0 =~= seq![TaxonomyClass::EtfBase, TaxonomyClass::EtfFixedIncomeTreasury]);
    assert(spec_chain(symbol).1 == TaxonomyClass::ExchangeNyq);
    lemma_apply_two(TaxonomyClass::EtfBase, TaxonomyClass::EtfFixedIncomeTreasury, empty_meta());
}

/// SAP: Information Technology / Software Application & Systems, listed on XFRA (Germany, EUR), a Equity unless declared otherwise.
pub proof fn lemma_flatten_frankfurt_software(symbol: Seq<char>, declared: Option<Seq<char>>)
    requires
        upper(symbol) == "SAP"@,
    ensures
        spec_flatten(symbol, declared).asset_class == declared_or(declared, "Equity"@),
        spec_flatten(symbol, declared).provider == "yahoo"@,
        spec_flatten(symbol, declared).category == "Information Technology"@,
        spec_flatten(symbol, declared).sub_category == "Software Application & Systems"@,
        spec_flatten(symbol, declared).exchange_mic == "XFRA"@,
        spec_flatten(symbol, declared).exchange_region == "Germany"@,
        spec_flatten(symbol, declared).trading_currency == "EUR"@,
{
    reveal_strlit("AAPL");
    reveal_strlit("MSFT");
    reveal_strlit("GOOG");
    reveal_strlit("GOOGL");
    reveal_strlit("NVDA");
    reveal_strlit("AMD");
    reveal_strlit("INTC");
    reveal_strlit("JPM");
    reveal_strlit("BAC");
    reveal_strlit("WFC");
    reveal_strlit("GS");
    reveal_strlit("MS");
    reveal_strlit("SPY");
    reveal_strlit("QQQ");
    reveal_strlit("IVV");
    reveal_strlit("TLT");
    reveal_strlit("IEF");
    reveal_strlit("SHY");
    reveal_strlit("SAP");
    reveal_strlit("Equity");
    reveal_strlit("yahoo");
    assert("SAP"@.len() != "AAPL"@.len());
    assert("SAP"@.len() != "MSFT"@.len());
    assert("SAP"@.len() != "GOOG"@.len());
    assert("SAP"@.len() != "GOOGL"@.len());
    assert("SAP"@.len() != "NVDA"@.len());
    assert("SAP"@[0] != "AMD"@[0]);
    assert("SAP"@.len() != "INTC"@.len());
    assert("SAP"@[0] != "JPM"@[0]);
    assert("SAP"@[0] != "BAC"@[0]);
    assert("SAP"@[0] != "WFC"@[0]);
    assert("SAP"@.len() != "GS"@.len());
    assert("SAP"@.len() != "MS"@.len());
    assert("SAP"@[1] != "SPY"@[1]);
    assert("SAP"@[0] != "QQQ"@[0]);
    assert("SAP"@[0] != "IVV"@[0]);
    assert("SAP"@[0] != "TLT"@[0]);
    assert("SAP"@[0] != "IEF"@[0]);
    assert("SAP"@[1] != "SHY"@[1]);
    assert(spec_chain(symbol).0 =~= seq![TaxonomyClass::EquityBase, TaxonomyClass::SectorTechnology, TaxonomyClass::IndustrySoftware]);
    assert(spec_chain(symbol).1 == TaxonomyClass::ExchangeFra);
    lemma_apply_three(TaxonomyClass::EquityBase, TaxonomyClass::SectorTechnology, TaxonomyClass::IndustrySoftware, empty_meta());
}

/// Any other symbol is a bare equity listed on NYSE, with no sector opinion.
pub proof fn lemma_flatten_unlisted(symbol: Seq<char>, declared: Option<Seq<char>>)
    requires
        upper(symbol) != "AAPL"@,
        upper(symbol) != "MSFT"@,
        upper(symbol) != "GOOG"@,
        upper(symbol) != "GOOGL"@,
        upper(symbol) != "NVDA"@,
        upper(symbol) != "AMD"@,
        upper(symbol) != "INTC"@,
        upper(symbol) != "JPM"@,
        upper(symbol) != "BAC"@,
        upper(symbol) != "WFC"@,
        upper(symbol) != "GS"@,
        upper(symbol) != "MS"@,
        upper(symbol) != "SPY"@,
        upper(symbol) != "QQQ"@,
        upper(symbol) != "IVV"@,
        upper(symbol) != "TLT"@,
        upper(symbol) != "IEF"@,
        upper(symbol) != "SHY"@,
        upper(symbol) != "SAP"@,
    ensures
        spec_flatten(symbol, declared).asset_class == declared_or(declared, "Equity"@),
        spec_flatten(symbol, declared).provider == "yahoo"@,
        spec_flatten(symbol, declared).category.len() == 0,
        spec_flatten(symbol, declared).sub_category.len() == 0,
        spec_flatten(symbol, declared).exchange_mic == "XNYS"@,
        spec_flatten(symbol, declared).exchange_region == "US"@,
        spec_flatten(symbol, declared).trading_currency == "USD"@,
{
    reveal_strlit("Equity");
    reveal_strlit("yahoo");
    assert(spec_chain(symbol).0 =~= seq![TaxonomyClass::EquityBase]);
    assert(seq![TaxonomyClass::EquityBase].subrange(1, 1) =~= Seq::<TaxonomyClass>::empty());
    reveal_with_fuel(apply_all, 2);
    assert(apply_all(seq![TaxonomyClass::EquityBase], empty_meta()) == spec_apply(
        TaxonomyClass::EquityBase,
        empty_meta(),
    ));
}

} // verus!
