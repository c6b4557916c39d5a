//! Chains that an engine runs on.
use vstd::prelude::*;

verus! {

/// Chain type.
#[derive(Debug, Copy, Clone, PartialEq, Eq, Structural)]
pub enum Chain {
    /// For local tests involving database operations.
    Testbed,
    /// For signet.
    Signet,
    /// For mainnet.
    Mainnet,
    /// For a local regtest network.
    Regtest,
}

impl Chain {
    /// The name of the chain.
    pub fn to_string(&self) -> (r: String)
        ensures
            r@ == match self {
                Chain::Testbed => "testbed"@,
                Chain::Signet => "signet"@,
                Chain::Mainnet => "mainnet"@,
                Chain::Regtest => "regtest"@,
            },
    {
        match self {
            Chain::Testbed => "testbed".to_owned(),
            Chain::Signet => "signet".to_owned(),
            Chain::Mainnet => "mainnet".to_owned(),
            Chain::Regtest => "regtest".to_owned(),
        }
    }
}

/// Different chains have different names.
pub proof fn theorem_chain_names_differ(a: Chain, b: Chain, name_a: String, name_b: String)
    requires
        call_ensures(Chain::to_string, (&a,), name_a),
        call_ensures(Chain::to_string, (&b,), name_b),
    ensures
        a != b ==> name_a@ != name_b@,
        a == Chain::Testbed ==> name_a@ == seq!['t', 'e', 's', 't', 'b', 'e', 'd'],
        a == Chain::Signet ==> name_a@ == seq!['s', 'i', 'g', 'n', 'e', 't'],
        a == Chain::Mainnet ==> name_a@ == seq!['m', 'a', 'i', 'n', 'n', 'e', 't'],
        a == Chain::Regtest ==> name_a@ == seq!['r', 'e', 'g', 't', 'e', 's', 't'],
{
    reveal_strlit("testbed");
    reveal_strlit("signet");
    reveal_strlit("mainnet");
    reveal_strlit("regtest");
    assert("testbed"@ =~= seq!['t', 'e', 's', 't', 'b', 'e', 'd']);
    assert("signet"@ =~= seq!['s', 'i', 'g', 'n', 'e', 't']);
    assert("mainnet"@ =~= seq!['m', 'a', 'i', 'n', 'n', 'e', 't']);
    assert("regtest"@ =~= seq!['r', 'e', 'g', 't', 'e', 's', 't']);
    assert("testbed"@[0] == 't');
    assert("signet"@[0] == 's');
    assert("mainnet"@[0] == 'm');
    assert("regtest"@[0] == 'r');
}

} // verus!
