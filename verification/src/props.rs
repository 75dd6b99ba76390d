use vstd::prelude::*;

verus! {

broadcast use vstd::string::to_string_from_display_ensures_for_str;

/// The token-facing properties a chain specification carries: currency
/// symbol, decimal places, and address format identifier.
pub struct ParachainProperties {
    /// Currency symbol.
    pub token_symbol: String,
    /// Decimal places of the currency unit.
    pub token_decimals: u32,
    /// Address format (SS58) identifier.
    pub ss58_format: u32,
}

/// Builds the properties record a chain specification is filled with.
pub fn parachain_properties(symbol: &str, decimals: u32, ss58format: u32) -> (r: Option<
    ParachainProperties,
>)
    ensures
        r matches Some(p) && p.token_symbol@ == symbol@ && p.token_decimals == decimals
            && p.ss58_format == ss58format,
{
    Some(
        ParachainProperties {
            token_symbol: symbol.to_string(),
            token_decimals: decimals,
            ss58_format: ss58format,
        },
    )
}

/// The default parachain properties: the LIT token with twelve decimal
/// places under address format 131.
pub fn default_parachain_properties() -> (r: Option<ParachainProperties>)
    ensures
        r matches Some(p) && p.token_symbol@ == "LIT"@ && p.token_decimals == 12 && p.ss58_format
            == 131,
{
    parachain_properties("LIT", 12, 131)
}

} // verus!
