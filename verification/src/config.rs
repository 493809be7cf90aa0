//! The configuration surface: a table from `node{N}` keys to addresses.
//!
//! Reading and parsing the configuration file happens outside the core; the
//! table itself and the key scheme are the library's, so a node's address
//! lookup is verified against the table's contents.

use crate::assoc::assoc_lookup;
use crate::assoc::lemma_assoc_lookup_found;
use crate::assoc::lemma_assoc_lookup_none;
use crate::decimal::decimal_chars;
use crate::decimal::u32_to_string;
use vstd::prelude::*;
use vstd::string::StringExecFns;

verus! {

/// The loaded configuration: `node{N}` keys mapped to network addresses, in
/// file order.
pub struct Config {
    pub servers: Vec<(String, String)>,
}

/// The key naming a node in the table.
pub open spec fn node_key(id: nat) -> Seq<char> {
    "node"@ + decimal_chars(id)
}

/// Renders the key naming `node_id`.
fn make_node_key(node_id: u32) -> (r: String)
    ensures
        r@ == node_key(node_id as nat),
{
    let mut k = String::from_str("node");
    let digits = u32_to_string(node_id);
    k.append(digits.as_str());
    k
}

impl Config {
    /// The table's view: key/address pairs as character sequences.
    pub open spec fn table(self) -> Seq<(Seq<char>, Seq<char>)> {
        self.servers@.map_values(|p: (String, String)| (p.0@, p.1@))
    }

    /// The address at the first entry named `node{id}`, if any.
    pub open spec fn spec_address(self, id: nat) -> Option<Seq<char>> {
        assoc_lookup(self.table(), node_key(id))
    }

    /// Looks the node's address up by its `node{N}` key.
    pub fn get_server_address(&self, node_id: u32) -> (r: Option<String>)
        ensures
            match r {
                Some(a) => self.spec_address(node_id as nat) == Some(a@),
                None => self.spec_address(node_id as nat) is None,
            },
    {
        let key = make_node_key(node_id);
        let mut i: usize = 0;
        while i < self.servers.len()
            invariant
                0 <= i <= self.servers@.len(),
                key@ == node_key(node_id as nat),
                forall|j: int| 0 <= j < i ==> (#[trigger] self.table()[j]).0 != key@,
            decreases self.servers@.len() - i,
        {
            proof {
                assert(self.table()[i as int] == (self.servers@[i as int].0@,
                self.servers@[i as int].1@));
            }
            if self.servers[i].0 == key {
                proof {
                    lemma_assoc_lookup_found(self.table(), key@, i as int);
                }
                return Some(self.servers[i].1.clone());
            }
            i += 1;
        }
        proof {
            lemma_assoc_lookup_none(self.table(), key@);
        }
        None
    }

    /// The addresses recorded for nodes 1, 2 and 3, in that order, skipping
    /// absent ones.
    pub open spec fn spec_address_list(self, id: nat) -> Seq<Seq<char>> {
        match self.spec_address(id) {
            Some(a) => seq![a],
            None => Seq::empty(),
        }
    }

    /// The addresses of the three configurable nodes, in node order.
    pub fn get_all_server_addresses(&self) -> (r: Vec<String>)
        ensures
            r@.map_values(|s: String| s@) == self.spec_address_list(1) + self.spec_address_list(2)
                + self.spec_address_list(3),
    {
        let mut out: Vec<String> = Vec::new();
        if let Some(a) = self.get_server_address(1) {
            out.push(a);
        }
        if let Some(a) = self.get_server_address(2) {
            out.push(a);
        }
        if let Some(a) = self.get_server_address(3) {
            out.push(a);
        }
        proof {
            assert(out@.map_values(|s: String| s@) =~= self.spec_address_list(1)
                + self.spec_address_list(2) + self.spec_address_list(3));
        }
        out
    }
}

} // verus!
