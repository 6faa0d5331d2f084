//! The pure cores of the two configuration commands: looking an alias up for
//! display, and normalizing a forwarder-creation request before it is sent.

use vstd::prelude::*;
use vstd::string::StrSliceExecFns;
use crate::error::{Error, ErrorV, oview};
use crate::segment::SegV;
use crate::lookup::{ConfigLookup, ia_text, spec_get};
use crate::segment::MultiAddr;
use crate::util::{clean_multiaddr, resolve_of};

verus! {

/// Index of the last `/` in `s`, or `-1` when there is none.
pub open spec fn spec_rfind_slash(s: Seq<char>) -> int
    decreases s.len(),
{
    if s.len() == 0 {
        -1
    } else if s.last() == '/' {
        s.len() - 1
    } else {
        spec_rfind_slash(s.drop_last())
    }
}

/// The part of `s` after its last `/`; the whole of `s` when it has none.
pub open spec fn final_element(s: Seq<char>) -> Seq<char> {
    if spec_rfind_slash(s) < 0 {
        s
    } else {
        s.subrange(spec_rfind_slash(s) + 1, s.len() as int)
    }
}

/// The last `/`-separated element of `s`: the node name from a `/node/<name>`
/// path, or `s` itself when it is already bare.
pub fn get_final_element(s: &str) -> (r: &str)
    ensures
        r@ == final_element(s@),
{
    let n = s.unicode_len();
    let mut i: usize = n;
    proof {
        assert(s@.take(n as int) =~= s@);
    }
    while i > 0
        invariant
            i <= n,
            n == s@.len(),
            spec_rfind_slash(s@) == spec_rfind_slash(s@.take(i as int)),
        decreases i,
    {
        i = i - 1;
        proof {
            assert(s@.take(i + 1).last() == s@[i as int]);
            assert(s@.take(i + 1).drop_last() =~= s@.take(i as int));
        }
        if s.get_char(i) == '/' {
            let r = s.substring_char(i + 1, n);
            proof {
                assert(spec_rfind_slash(s@) == i);
            }
            return r;
        }
    }
    proof {
        assert(s@.take(0) =~= Seq::<char>::empty());
        assert(spec_rfind_slash(s@) == -1);
    }
    s
}

/// Asks for the endpoint stored under an alias.
#[derive(Debug, PartialEq)]
pub struct GetCommand {
    /// Alias name of the node.
    pub alias: String,
}

impl GetCommand {
    /// The command's lookup step: the display text of the aliased endpoint,
    /// or nothing when the alias is unknown.
    pub fn run(&self, lookup: &ConfigLookup) -> (r: Option<String>)
        ensures
            match spec_get(lookup@, self.alias@) {
                Some(e) => r matches Some(s) && s@ == ia_text(e),
                None => r is None,
            },
    {
        match lookup.get_node(&self.alias) {
            Some(entry) => Some(entry.display_string()),
            None => None,
        }
    }
}

/// Asks for a forwarder to be created for a node, reachable over a route.
#[derive(Debug, PartialEq)]
pub struct CreateCommand {
    /// Node for which to create the forwarder.
    pub for_node: String,
    /// Route to the node on which to create the forwarder.
    pub at: MultiAddr,
    /// Forwarding address, when the forwarder runs at this node.
    pub from: Option<String>,
    /// Forwarding address, otherwise.
    pub address: Option<String>,
}

impl CreateCommand {
    /// The command's pure step: resolves the `at` route against the lookup
    /// table and strips the `from` address down to its final path element;
    /// the other fields pass through unchanged.
    pub fn run(&self, lookup: &ConfigLookup) -> (r: Result<CreateCommand, Error>)
        ensures
            match r {
                Ok(c) => resolve_of(self.at@, lookup@) == Ok::<Seq<SegV>, ErrorV>(c.at@)
                    && c.for_node@ == self.for_node@ && oview(c.address) == oview(self.address)
                    && (match (self.from, c.from) {
                    (Some(f), Some(g)) => g@ == final_element(f@),
                    (None, None) => true,
                    _ => false,
                }),
                Err(e) => resolve_of(self.at@, lookup@) == Err::<Seq<SegV>, ErrorV>(e@),
            },
    {
        match clean_multiaddr(&self.at, lookup) {
            Ok(at) => Ok(
                CreateCommand {
                    for_node: self.for_node.clone(),
                    at,
                    from: match &self.from {
                        Some(f) => Some(get_final_element(f.as_str()).to_owned()),
                        None => None,
                    },
                    address: match &self.address {
                        Some(a) => Some(a.clone()),
                        None => None,
                    },
                },
            ),
            Err(e) => Err(e),
        }
    }

    /// The request-body selection: forward from the explicit `from` address
    /// when one was given, else from the positional `address`; the flag says
    /// which was chosen.
    pub fn body_args(&self) -> (r: (bool, Option<String>))
        ensures
            r.0 == (self.from matches Some(_)),
            oview(r.1) == (if self.from matches Some(_) {
                oview(self.from)
            } else {
                oview(self.address)
            }),
    {
        match &self.from {
            Some(f) => (true, Some(f.clone())),
            None => (
                false,
                match &self.address {
                    Some(a) => Some(a.clone()),
                    None => None,
                },
            ),
        }
    }
}

} // verus!
