//! The closed set of chains the bootstrapper can prepare, with its textual
//! encoding: case-insensitive on input, fixed-case on output.

use vstd::prelude::*;
use crate::report::{ErrorKind, Report};

verus! {

/// The chain a node participates in. Selects the peer source strategy and
/// the binary distribution endpoint.
#[derive(Clone, Copy, Debug, PartialEq, Eq, Structural)]
pub enum HyperliquidChain {
    Mainnet,
    Testnet,
}

/// ASCII lowercase of one character; all others unchanged.
pub open spec fn lower_char(c: char) -> char {
    if 'A' <= c && c <= 'Z' {
        (((c as u8) + 32) as char)
    } else {
        c
    }
}

/// ASCII lowercase of a text.
pub open spec fn lower_text(s: Seq<char>) -> Seq<char> {
    s.map_values(|c: char| lower_char(c))
}

impl HyperliquidChain {
    /// The fixed-case name this chain is written as.
    pub open spec fn spec_name(self) -> Seq<char> {
        match self {
            HyperliquidChain::Mainnet => "Mainnet"@,
            HyperliquidChain::Testnet => "Testnet"@,
        }
    }

    /// The chain a text denotes, ignoring ASCII case; `None` if it denotes
    /// no chain.
    pub open spec fn spec_of_text(s: Seq<char>) -> Option<HyperliquidChain> {
        if lower_text(s) == "mainnet"@ {
            Some(HyperliquidChain::Mainnet)
        } else if lower_text(s) == "testnet"@ {
            Some(HyperliquidChain::Testnet)
        } else {
            None
        }
    }

    /// Render the chain under its fixed-case name.
    pub fn to_string(&self) -> (r: String)
        ensures
            r@ == self.spec_name(),
    {
        match self {
            HyperliquidChain::Mainnet => "Mainnet".to_owned(),
            HyperliquidChain::Testnet => "Testnet".to_owned(),
        }
    }

    /// Parse a chain name, ignoring ASCII case. Any other text is a
    /// configuration error.
    pub fn from_str(s: &str) -> (r: Result<HyperliquidChain, Report>)
        ensures
            match r {
                Ok(c) => HyperliquidChain::spec_of_text(s@) == Some(c),
                Err(e) => HyperliquidChain::spec_of_text(s@) is None && e.kind
                    == ErrorKind::Configuration,
            },
    {
        proof {
            reveal_strlit("mainnet");
            reveal_strlit("testnet");
        }
        if text_matches_lowered(s, "mainnet") {
            Ok(HyperliquidChain::Mainnet)
        } else if text_matches_lowered(s, "testnet") {
            Ok(HyperliquidChain::Testnet)
        } else {
            Err(Report::new(ErrorKind::Configuration, "unsupported chain".to_owned()))
        }
    }
}

/// Whether `s`, lowered character by character, is exactly `expect`
/// (`expect` is assumed already lowercase).
fn text_matches_lowered(s: &str, expect: &str) -> (r: bool)
    ensures
        r == (lower_text(s@) == expect@),
{
    let n = s.unicode_len();
    let m = expect.unicode_len();
    if n != m {
        proof {
            assert(lower_text(s@).len() == s@.len());
        }
        return false;
    }
    let mut i: usize = 0;
    while i < n
        invariant
            n == s@.len(),
            n == expect@.len(),
            i <= n,
            forall|j: int| 0 <= j < i ==> lower_text(s@)[j] == expect@[j],
        decreases n - i,
    {
        let c = s.get_char(i);
        let lowered: char = if 'A' <= c && c <= 'Z' {
            (((c as u8) + 32) as char)
        } else {
            c
        };
        let e = expect.get_char(i);
        if lowered != e {
            proof {
                assert(lower_text(s@)[i as int] == lower_char(s@[i as int]));
                assert(lower_text(s@)[i as int] != expect@[i as int]);
            }
            return false;
        }
        proof {
            assert(lower_text(s@)[i as int] == lower_char(s@[i as int]));
        }
        i += 1;
    }
    proof {
        assert(lower_text(s@) =~= expect@);
    }
    true
}

/// Law: the textual encoding round-trips — parsing the fixed-case name of
/// any chain, ignoring case, yields that same chain.
pub proof fn lemma_chain_name_round_trip(c: HyperliquidChain)
    ensures
        HyperliquidChain::spec_of_text(c.spec_name()) == Some(c),
{
    reveal_strlit("Mainnet");
    reveal_strlit("Testnet");
    reveal_strlit("mainnet");
    reveal_strlit("testnet");
    match c {
        HyperliquidChain::Mainnet => {
            assert(lower_text("Mainnet"@) =~= "mainnet"@);
            assert(lower_text(c.spec_name()) == "mainnet"@);
            assert(HyperliquidChain::spec_of_text(c.spec_name()) == Some(c));
        }
        HyperliquidChain::Testnet => {
            assert(lower_text("Testnet"@) =~= "testnet"@);
            assert(lower_text(c.spec_name()) == "testnet"@);
            assert(lower_text("Testnet"@)[0] == 't');
            assert("mainnet"@[0] == 'm');
            assert(lower_text("Testnet"@) != "mainnet"@);
            assert(HyperliquidChain::spec_of_text(c.spec_name()) == Some(c));
        }
    }
}

} // verus!
