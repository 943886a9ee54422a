use vstd::prelude::*;

verus! {

/// The blockchains whose height probes the proxy knows how to issue.
#[derive(Clone, Copy, Debug, PartialEq, Eq, Hash, Structural)]
pub enum ChainType {
    Ethereum,
    Bitcoin,
    Solana,
    Cosmos,
    Ton,
    Tron,
    Aptos,
    Sui,
    Xrp,
    Near,
}

/// The configuration name of a chain: its variant name in lower case.
pub open spec fn chain_name(c: ChainType) -> Seq<char> {
    match c {
        ChainType::Ethereum => "ethereum"@,
        ChainType::Bitcoin => "bitcoin"@,
        ChainType::Solana => "solana"@,
        ChainType::Cosmos => "cosmos"@,
        ChainType::Ton => "ton"@,
        ChainType::Tron => "tron"@,
        ChainType::Aptos => "aptos"@,
        ChainType::Sui => "sui"@,
        ChainType::Xrp => "xrp"@,
        ChainType::Near => "near"@,
    }
}

/// The chain whose configuration name is `s`, if any.
pub open spec fn chain_of_name(s: Seq<char>) -> Option<ChainType> {
    if s == "ethereum"@ {
        Some(ChainType::Ethereum)
    } else if s == "bitcoin"@ {
        Some(ChainType::Bitcoin)
    } else if s == "solana"@ {
        Some(ChainType::Solana)
    } else if s == "cosmos"@ {
        Some(ChainType::Cosmos)
    } else if s == "ton"@ {
        Some(ChainType::Ton)
    } else if s == "tron"@ {
        Some(ChainType::Tron)
    } else if s == "aptos"@ {
        Some(ChainType::Aptos)
    } else if s == "sui"@ {
        Some(ChainType::Sui)
    } else if s == "xrp"@ {
        Some(ChainType::Xrp)
    } else if s == "near"@ {
        Some(ChainType::Near)
    } else {
        None
    }
}

impl ChainType {
    /// Parses a configuration name such as `"ethereum"`; names are case-sensitive.
    pub fn from_name(name: &str) -> (r: Option<ChainType>)
        ensures
            r == chain_of_name(name@),
    {
        let s = name.to_owned();
        if s == "ethereum".to_owned() {
            Some(ChainType::Ethereum)
        } else if s == "bitcoin".to_owned() {
            Some(ChainType::Bitcoin)
        } else if s == "solana".to_owned() {
            Some(ChainType::Solana)
        } else if s == "cosmos".to_owned() {
            Some(ChainType::Cosmos)
        } else if s == "ton".to_owned() {
            Some(ChainType::Ton)
        } else if s == "tron".to_owned() {
            Some(ChainType::Tron)
        } else if s == "aptos".to_owned() {
            Some(ChainType::Aptos)
        } else if s == "sui".to_owned() {
            Some(ChainType::Sui)
        } else if s == "xrp".to_owned() {
            Some(ChainType::Xrp)
        } else if s == "near".to_owned() {
            Some(ChainType::Near)
        } else {
            None
        }
    }
}

} // verus!
