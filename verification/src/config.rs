//! The settings of one trading pair.
use crate::error::ContractError;
use crate::market_maker::Denoms;
use crate::market_makers::MarketMakers;
use crate::math::DECIMAL_ONE;
use crate::tick::Tick;
use vstd::prelude::*;
use vstd::string::StringExecFns;

verus! {

/// The two assets whose oracle prices give the pair's reference price.
#[derive(Clone, Debug, PartialEq)]
pub struct OraclePair {
    pub base: String,
    pub quote: String,
}

/// The settings of a pair. Fees are ratios in atomic units.
#[derive(Clone, Debug, PartialEq)]
pub struct Config {
    pub denoms: Denoms,
    pub oracles: Option<OraclePair>,
    pub market_makers: MarketMakers,
    pub tick: Tick,
    pub fee_maker: u128,
    pub fee_taker: u128,
    pub fee_address: String,
}

impl Config {
    /// The settings of a new pair. The market makers are kept as a set.
    pub fn new(
        denoms: Denoms,
        oracles: Option<OraclePair>,
        market_makers: Vec<String>,
        tick: Tick,
        fee_taker: u128,
        fee_maker: u128,
        fee_address: String,
    ) -> (r: Self)
        ensures
            r.denoms == denoms,
            r.oracles == oracles,
            r.market_makers.wf(),
            r.tick == tick,
            r.fee_taker == fee_taker,
            r.fee_maker == fee_maker,
            r.fee_address == fee_address,
    {
        Self {
            denoms,
            oracles,
            market_makers: MarketMakers::new(market_makers),
            tick,
            fee_taker,
            fee_maker,
            fee_address,
        }
    }

    /// Whether the settings can be used: the denominations differ, the
    /// oracle prices resolve where oracles are set, and each fee is below
    /// the whole.
    pub open spec fn valid(self, oracles_resolve: bool) -> bool {
        &&& self.denoms.base@ != self.denoms.quote@
        &&& (self.oracles is Some ==> oracles_resolve)
        &&& self.fee_maker < DECIMAL_ONE
        &&& self.fee_taker < DECIMAL_ONE
    }

    /// Checks the settings. `oracles_resolve` says whether the reference
    /// price of the configured oracles could be read.
    pub fn validate(&self, oracles_resolve: bool) -> (r: Result<(), ContractError>)
        ensures
            r is Ok <==> self.valid(oracles_resolve),
            self.denoms.base@ == self.denoms.quote@ ==> r matches Err(ContractError::Std),
            self.denoms.base@ != self.denoms.quote@ && self.oracles is Some && !oracles_resolve
                ==> r matches Err(ContractError::Oracle),
            self.denoms.base@ != self.denoms.quote@ && (self.oracles is Some ==> oracles_resolve)
                && self.fee_maker >= DECIMAL_ONE ==> (r matches Err(ContractError::Invalid(text))
                && text@ == "fee_maker >= 1"@),
            self.denoms.base@ != self.denoms.quote@ && (self.oracles is Some ==> oracles_resolve)
                && self.fee_maker < DECIMAL_ONE && self.fee_taker >= DECIMAL_ONE ==> (r matches Err(
                ContractError::Invalid(text),
            ) && text@ == "fee_take >= 1"@),
    {
        if !self.denoms.validate() {
            return Err(ContractError::Std);
        }
        if self.oracles.is_some() && !oracles_resolve {
            return Err(ContractError::Oracle);
        }
        if self.fee_maker >= DECIMAL_ONE {
            return Err(ContractError::Invalid(String::from_str("fee_maker >= 1")));
        }
        if self.fee_taker >= DECIMAL_ONE {
            return Err(ContractError::Invalid(String::from_str("fee_take >= 1")));
        }
        Ok(())
    }

    /// Replaces each setting for which a new value is given.
    pub fn update(
        &mut self,
        tick: Option<Tick>,
        market_makers: Option<MarketMakers>,
        fee_taker: Option<u128>,
        fee_maker: Option<u128>,
        fee_address: Option<String>,
        oracles: Option<OraclePair>,
    )
        ensures
            final(self).denoms == old(self).denoms,
            final(self).tick == (match tick {
                Some(v) => v,
                None => old(self).tick,
            }),
            final(self).market_makers == (match market_makers {
                Some(v) => v,
                None => old(self).market_makers,
            }),
            final(self).fee_taker == (match fee_taker {
                Some(v) => v,
                None => old(self).fee_taker,
            }),
            final(self).fee_maker == (match fee_maker {
                Some(v) => v,
                None => old(self).fee_maker,
            }),
            final(self).fee_address == (match fee_address {
                Some(v) => v,
                None => old(self).fee_address,
            }),
            final(self).oracles == (match oracles {
                Some(v) => Some(v),
                None => old(self).oracles,
            }),
    {
        if let Some(tick) = tick {
            self.tick = tick;
        }
        if let Some(market_makers) = market_makers {
            self.market_makers = market_makers;
        }
        if let Some(fee_taker) = fee_taker {
            self.fee_taker = fee_taker;
        }
        if let Some(fee_maker) = fee_maker {
            self.fee_maker = fee_maker;
        }
        if let Some(fee_address) = fee_address {
            self.fee_address = fee_address;
        }
        if let Some(oracles) = oracles {
            self.oracles = Some(oracles);
        }
    }
}

} // verus!
