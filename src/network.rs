//! Networks that keys and allowlists are bound to.

use vstd::prelude::*;

verus! {

/// A network, identified on the wire by a single byte.
#[derive(Clone, Copy, Debug, PartialEq, Eq, Structural)]
pub enum Network {
    Kusama,
    Polkadot,
    Custom(u8),
}

/// The wire byte of the Polkadot network.
pub const POLKADOT_TAG: u8 = 0;

/// The wire byte of the Kusama network.
pub const KUSAMA_TAG: u8 = 2;

/// The byte that stands for `n` on the wire.
pub open spec fn tag_of(n: Network) -> u8 {
    match n {
        Network::Kusama => KUSAMA_TAG,
        Network::Polkadot => POLKADOT_TAG,
        Network::Custom(b) => b,
    }
}

/// The network that the wire byte `b` stands for.
pub open spec fn network_of(b: u8) -> Network {
    if b == KUSAMA_TAG {
        Network::Kusama
    } else if b == POLKADOT_TAG {
        Network::Polkadot
    } else {
        Network::Custom(b)
    }
}

/// A well-formed network: a custom byte never shadows a named network.
pub open spec fn network_wf(n: Network) -> bool {
    match n {
        Network::Custom(b) => b != KUSAMA_TAG && b != POLKADOT_TAG,
        _ => true,
    }
}

impl Network {
    /// The wire byte of this network.
    pub fn to_byte(self) -> (r: u8)
        ensures
            r == tag_of(self),
    {
        match self {
            Network::Kusama => KUSAMA_TAG,
            Network::Polkadot => POLKADOT_TAG,
            Network::Custom(b) => b,
        }
    }

    /// The network of a wire byte; total, unknown bytes give `Custom`.
    pub fn from_byte(b: u8) -> (r: Network)
        ensures
            r == network_of(b),
            network_wf(r),
            tag_of(r) == b,
    {
        if b == KUSAMA_TAG {
            Network::Kusama
        } else if b == POLKADOT_TAG {
            Network::Polkadot
        } else {
            Network::Custom(b)
        }
    }
}

/// The name of a network in key files, where it has one.
pub open spec fn display_name(tag: u8) -> Option<Seq<char>> {
    if tag == KUSAMA_TAG {
        Some("Kusama"@)
    } else if tag == POLKADOT_TAG {
        Some("Polkadot"@)
    } else {
        None
    }
}

impl Network {
    /// The name of this network in key files; a custom network has none.
    pub fn name(self) -> (r: Option<&'static str>)
        ensures
            match r {
                Some(s) => display_name(tag_of(self)) == Some(s@),
                None => display_name(tag_of(self)) is None,
            },
    {
        let tag = self.to_byte();
        if tag == KUSAMA_TAG {
            Some("Kusama")
        } else if tag == POLKADOT_TAG {
            Some("Polkadot")
        } else {
            None
        }
    }
}

} // verus!
