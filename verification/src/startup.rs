//! What a node does at start, as far as it follows from its role.
//!
//! A bootnode is a fixed meeting point: it listens on a well-known port on
//! every interface, keeps an identity of its own and serves no clients. Any
//! other node listens on a port of the system's choice on the loopback
//! interface, may dial a bootnode, and serves clients.

use vstd::prelude::*;

verus! {

/// The file that holds the node's key pair.
pub open spec fn key_file_name(bootnode: bool) -> Seq<char> {
    if bootnode {
        "bootnode_key.json"@
    } else {
        "node_key.json"@
    }
}

/// The address on which the node listens for other nodes.
pub open spec fn listen_address(bootnode: bool) -> Seq<char> {
    if bootnode {
        "/ip4/0.0.0.0/tcp/58455"@
    } else {
        "/ip4/127.0.0.1/tcp/0"@
    }
}

/// The decisions that a node's role settles.
#[derive(Clone, Debug, PartialEq, Eq)]
pub struct StartupPlan {
    /// The file that holds the node's key pair.
    pub key_file: String,
    /// The address on which to listen for other nodes.
    pub listen_on: String,
    /// The bootnode to dial, if any.
    pub dial: Option<String>,
    /// Whether to accept socket clients.
    pub serve_clients: bool,
}

/// Plans the start of a node. A bootnode dials nobody, whatever address it
/// was given, and serves no clients; another node dials the bootnode
/// address that it was given, if any.
pub fn startup_plan(bootnode: bool, bootnode_addr: Option<String>) -> (plan: StartupPlan)
    ensures
        plan.key_file@ == key_file_name(bootnode),
        plan.listen_on@ == listen_address(bootnode),
        plan.dial == if bootnode {
            None
        } else {
            bootnode_addr
        },
        plan.serve_clients == !bootnode,
{
    if bootnode {
        StartupPlan {
            key_file: "bootnode_key.json".to_owned(),
            listen_on: "/ip4/0.0.0.0/tcp/58455".to_owned(),
            dial: None,
            serve_clients: false,
        }
    } else {
        StartupPlan {
            key_file: "node_key.json".to_owned(),
            listen_on: "/ip4/127.0.0.1/tcp/0".to_owned(),
            dial: bootnode_addr,
            serve_clients: true,
        }
    }
}

} // verus!
