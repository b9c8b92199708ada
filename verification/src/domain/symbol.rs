//! Market identifiers.
use vstd::prelude::*;

use crate::text::{chars_of, control, is_control, is_white_space, white_space};

verus! {

/// A venue-defined identifier of a perpetual market. Case and punctuation are
/// significant and preserved exactly.
#[derive(Debug, Eq, Hash, Ord, PartialEq, PartialOrd)]
pub struct MarketCoin(String);

/// Why a text is not a market coin.
#[derive(Clone, Copy, Debug, Eq, PartialEq, Structural)]
pub enum MarketCoinError {
    Empty,
    Whitespace,
    ControlCharacter,
}

/// Why a text is not a market coin, if it is not.
pub open spec fn market_coin_error(text: Seq<char>) -> Option<MarketCoinError> {
    if text.len() == 0 {
        Some(MarketCoinError::Empty)
    } else if exists|i: int| 0 <= i < text.len() && is_white_space(#[trigger] text[i]) {
        Some(MarketCoinError::Whitespace)
    } else if exists|i: int| 0 <= i < text.len() && is_control(#[trigger] text[i]) {
        Some(MarketCoinError::ControlCharacter)
    } else {
        None
    }
}

impl View for MarketCoin {
    type V = Seq<char>;

    closed spec fn view(&self) -> Seq<char> {
        self.0@
    }
}

impl Clone for MarketCoin {
    fn clone(&self) -> (copy: Self)
        ensures
            copy@ == self@,
    {
        proof {
            use_type_invariant(self);
        }
        MarketCoin(self.0.clone())
    }
}

impl MarketCoin {
    #[verifier::type_invariant]
    spec fn identifies(self) -> bool {
        market_coin_error(self@) is None
    }

    /// Accepts a non-empty text without white space and control characters.
    pub fn try_new(value: &str) -> (result: Result<Self, MarketCoinError>)
        ensures
            match result {
                Ok(coin) => market_coin_error(value@) is None && coin@ == value@,
                Err(error) => market_coin_error(value@) == Some(error),
            },
    {
        let chars: Vec<char> = chars_of(value);
        if chars.len() == 0 {
            return Err(MarketCoinError::Empty);
        }
        let mut i: usize = 0;
        while i < chars.len()
            invariant
                i <= chars.len(),
                chars@ == value@,
                value@.len() > 0,
                forall|j: int| 0 <= j < i ==> !is_white_space(#[trigger] value@[j]),
            decreases chars.len() - i,
        {
            if white_space(chars[i]) {
                assert(is_white_space(value@[i as int]));
                return Err(MarketCoinError::Whitespace);
            }
            i = i + 1;
        }
        let mut i: usize = 0;
        while i < chars.len()
            invariant
                i <= chars.len(),
                chars@ == value@,
                value@.len() > 0,
                forall|j: int| 0 <= j < value@.len() ==> !is_white_space(#[trigger] value@[j]),
                forall|j: int| 0 <= j < i ==> !is_control(#[trigger] value@[j]),
            decreases chars.len() - i,
        {
            if control(chars[i]) {
                assert(is_control(value@[i as int]));
                return Err(MarketCoinError::ControlCharacter);
            }
            i = i + 1;
        }
        Ok(MarketCoin(value.to_owned()))
    }

    pub fn as_str(&self) -> (text: &str)
        ensures
            text@ == self@,
            market_coin_error(self@) is None,
    {
        proof {
            use_type_invariant(self);
        }
        self.0.as_str()
    }
}

impl MarketCoinError {
    /// The message of the error.
    pub open spec fn message(self) -> Seq<char> {
        match self {
            MarketCoinError::Empty => "market coin is empty"@,
            MarketCoinError::Whitespace => "market coin contains whitespace"@,
            MarketCoinError::ControlCharacter => "market coin contains a control character"@,
        }
    }

    pub fn to_text(&self) -> (text: String)
        ensures
            text@ == self.message(),
    {
        match self {
            MarketCoinError::Empty => "market coin is empty".to_owned(),
            MarketCoinError::Whitespace => "market coin contains whitespace".to_owned(),
            MarketCoinError::ControlCharacter => "market coin contains a control character".to_owned(),
        }
    }
}

/// An instrument: the perpetual of a market coin.
#[derive(Debug, Eq, Hash, PartialEq)]
pub enum Symbol {
    Perpetual(MarketCoin),
}

impl View for Symbol {
    type V = Seq<char>;

    open spec fn view(&self) -> Seq<char> {
        match self {
            Symbol::Perpetual(coin) => coin@,
        }
    }
}

impl Clone for Symbol {
    fn clone(&self) -> (copy: Self)
        ensures
            copy@ == self@,
    {
        match self {
            Symbol::Perpetual(coin) => Symbol::Perpetual(coin.clone()),
        }
    }
}

impl Symbol {
    pub fn perpetual(market_coin: MarketCoin) -> (symbol: Self)
        ensures
            symbol@ == market_coin@,
    {
        Symbol::Perpetual(market_coin)
    }

    pub fn market_coin(&self) -> (coin: &MarketCoin)
        ensures
            coin@ == self@,
    {
        match self {
            Symbol::Perpetual(market_coin) => market_coin,
        }
    }
}

/// A text is a market coin if and only if it is not empty and none of its characters is white
/// space or a control character; so is every text of printable ASCII characters but the space.
pub proof fn lemma_coin_accepted(text: Seq<char>)
    ensures
        market_coin_error(text) is None <==> text.len() > 0 && forall|i: int|
            0 <= i < text.len() ==> !is_white_space(#[trigger] text[i]) && !is_control(text[i]),
        market_coin_error(text) == Some(MarketCoinError::Empty) <==> text.len() == 0,
        text.len() > 0 && (forall|i: int| 0 <= i < text.len() ==> '!' <= #[trigger] text[i] <= '~')
            ==> market_coin_error(text) is None,
        (exists|i: int|
            0 <= i < text.len() && (#[trigger] text[i] == ' ' || text[i] == '\t' || text[i] == '\n'))
            ==> market_coin_error(text) == Some(MarketCoinError::Whitespace),
{
    if market_coin_error(text) is None {
        assert forall|i: int| 0 <= i < text.len() implies !is_white_space(#[trigger] text[i])
            && !is_control(text[i]) by {}
    }
    if exists|i: int|
        0 <= i < text.len() && (#[trigger] text[i] == ' ' || text[i] == '\t' || text[i] == '\n') {
        let k = choose|i: int|
            0 <= i < text.len() && (#[trigger] text[i] == ' ' || text[i] == '\t' || text[i]
                == '\n');
        assert(is_white_space(text[k]));
    }
}

} // verus!
