//! Configuration of the two matching passes: the lot-matching method and
//! the lot scope for each tracker.  Only FIFO matching is implemented, so
//! any other method is rejected when the configuration is built.
use vstd::prelude::*;

verus! {

use crate::model::Scope;


/// Which scope each tracker's FIFO pass uses.  Built only through
/// `LotConfig::new`, which rejects unsupported methods and scopes.
#[derive(Clone, Copy, PartialEq, Eq, Structural, Debug)]
pub struct LotConfig {
    pub tax_lot_scope: Scope,
    pub gaap_lot_scope: Scope,
}

/// Why a configuration was rejected.
#[derive(Debug, PartialEq, Eq, Structural)]
pub enum ConfigError {
    UnsupportedTaxLotMethod,
    UnsupportedGaapLotMethod,
    UnsupportedTaxLotScope,
    UnsupportedGaapLotScope,
}

/// The scope named by a configuration string, if it names one.
pub open spec fn scope_of(s: Seq<char>) -> Option<Scope> {
    if s == "wallet"@ {
        Some(Scope::Wallet)
    } else if s == "universal"@ {
        Some(Scope::Universal)
    } else {
        None
    }
}

/// Parse one scope string.
fn parse_scope(s: &String) -> (r: Option<Scope>)
    ensures
        r == scope_of(s@),
{
    broadcast use vstd::string::group_string_axioms;

    proof {
        reveal_strlit("wallet");
        reveal_strlit("universal");
    }
    if *s == "wallet".to_string() {
        Some(Scope::Wallet)
    } else if *s == "universal".to_string() {
        Some(Scope::Universal)
    } else {
        None
    }
}

impl LotConfig {
    /// Build a configuration from the four configuration strings.  Returns
    /// the configuration exactly when both methods are `fifo` and both
    /// scopes name a supported scope; only FIFO matching is implemented, so
    /// anything else is rejected before any ledger exists.
    pub fn new(
        tax_lot_method: &String,
        tax_lot_scope: &String,
        gaap_lot_method: &String,
        gaap_lot_scope: &String,
    ) -> (r: Result<LotConfig, ConfigError>)
        ensures
            r is Ok <==> tax_lot_method@ == "fifo"@ && gaap_lot_method@ == "fifo"@ && scope_of(
                tax_lot_scope@,
            ) is Some && scope_of(gaap_lot_scope@) is Some,
            r is Ok ==> r.unwrap().tax_lot_scope == scope_of(tax_lot_scope@).unwrap()
                && r.unwrap().gaap_lot_scope == scope_of(gaap_lot_scope@).unwrap(),
            (r matches Err(ConfigError::UnsupportedTaxLotMethod)) <==> tax_lot_method@ != "fifo"@,
            (r matches Err(ConfigError::UnsupportedGaapLotMethod)) <==> (tax_lot_method@ == "fifo"@
                && gaap_lot_method@ != "fifo"@),
    {
        broadcast use vstd::string::group_string_axioms;

        proof {
            reveal_strlit("fifo");
        }
        let fifo = "fifo".to_string();
        if *tax_lot_method != fifo {
            return Err(ConfigError::UnsupportedTaxLotMethod);
        }
        if *gaap_lot_method != fifo {
            return Err(ConfigError::UnsupportedGaapLotMethod);
        }
        let tax = match parse_scope(tax_lot_scope) {
            Some(s) => s,
            None => {
                return Err(ConfigError::UnsupportedTaxLotScope);
            },
        };
        let gaap = match parse_scope(gaap_lot_scope) {
            Some(s) => s,
            None => {
                return Err(ConfigError::UnsupportedGaapLotScope);
            },
        };
        Ok(LotConfig { tax_lot_scope: tax, gaap_lot_scope: gaap })
    }
}

impl Default for LotConfig {
    /// The default configuration: wallet-scoped tax matching, universal
    /// GAAP matching.
    fn default() -> (r: Self)
        ensures
            r.tax_lot_scope == Scope::Wallet,
            r.gaap_lot_scope == Scope::Universal,
    {
        LotConfig { tax_lot_scope: Scope::Wallet, gaap_lot_scope: Scope::Universal }
    }
}

} // verus!
