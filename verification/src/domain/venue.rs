//! Trading venues.
use vstd::prelude::*;

verus! {

#[derive(Clone, Copy, Debug, Eq, Hash, PartialEq, Structural)]
pub enum Venue {
    Aster,
    Binance,
    Hyperliquid,
    Lighter,
}

impl Venue {
    /// The display name of the venue.
    pub open spec fn display_name(self) -> Seq<char> {
        match self {
            Venue::Aster => "Aster"@,
            Venue::Binance => "Binance"@,
            Venue::Hyperliquid => "Hyperliquid"@,
            Venue::Lighter => "Lighter"@,
        }
    }

    pub fn to_text(&self) -> (text: String)
        ensures
            text@ == self.display_name(),
    {
        match self {
            Venue::Aster => "Aster".to_owned(),
            Venue::Binance => "Binance".to_owned(),
            Venue::Hyperliquid => "Hyperliquid".to_owned(),
            Venue::Lighter => "Lighter".to_owned(),
        }
    }
}

/// No two venues go by the same name.
pub proof fn lemma_names_distinct(left: Venue, right: Venue)
    ensures
        left.display_name() == right.display_name() <==> left == right,
{
    reveal_strlit("Aster");
    reveal_strlit("Binance");
    reveal_strlit("Hyperliquid");
    reveal_strlit("Lighter");
    assert("Aster"@[0] == 'A' && "Binance"@[0] == 'B' && "Hyperliquid"@[0] == 'H'
        && "Lighter"@[0] == 'L');
}

} // verus!
