//! The client: the endpoints it starts from and the retry limit it gives
//! to its requests.

use crate::endpoint::{endpoint_name, node_endpoint};
use crate::error::ClusterError;
use crate::pool::{with_name, EndpointSet};
use vstd::prelude::*;

verus! {

/// The retry limit of a client that was not told another.
pub const DEFAULT_RETRIES: u32 = 16;

#[verifier::external_type_specification]
#[verifier::external_body]
pub struct ExRedisError(redis::RedisError);

/// How a node is reached.
#[derive(Debug, PartialEq, Eq)]
pub enum NodeAddr {
    /// Over TCP, at `host` and `port`.
    Tcp { host: String, port: u16 },
    /// Over TCP with TLS, at `host` and `port`.
    TcpTls { host: String, port: u16 },
    /// Over a UNIX domain socket.
    Unix,
}

/// Mathematical model of a `NodeAddr`.
pub enum NodeAddrView {
    Tcp { host: Seq<char>, port: u16 },
    TcpTls { host: Seq<char>, port: u16 },
    Unix,
}

impl View for NodeAddr {
    type V = NodeAddrView;

    open spec fn view(&self) -> NodeAddrView {
        match self {
            NodeAddr::Tcp { host, port } => NodeAddrView::Tcp { host: host@, port: *port },
            NodeAddr::TcpTls { host, port } => NodeAddrView::TcpTls { host: host@, port: *port },
            NodeAddr::Unix => NodeAddrView::Unix,
        }
    }
}

/// The name by which the pool knows the node at `addr`. A UNIX domain
/// socket has none.
pub open spec fn name_of(addr: NodeAddrView) -> Option<Seq<char>> {
    match addr {
        NodeAddrView::Tcp { host, port } => Some(endpoint_name(false, host, port as int)),
        NodeAddrView::TcpTls { host, port } => Some(endpoint_name(true, host, port as int)),
        NodeAddrView::Unix => None,
    }
}

impl NodeAddr {
    /// Copies the address.
    pub fn duplicate(&self) -> (copy: NodeAddr)
        ensures
            copy@ == self@,
    {
        match self {
            NodeAddr::Tcp { host, port } => NodeAddr::Tcp { host: host.clone(), port: *port },
            NodeAddr::TcpTls { host, port } => NodeAddr::TcpTls {
                host: host.clone(),
                port: *port,
            },
            NodeAddr::Unix => NodeAddr::Unix,
        }
    }

    /// Names the endpoint of the node.
    pub fn endpoint(&self) -> (name: Option<String>)
        ensures
            match name {
                Some(text) => name_of(self@) == Some(text@),
                None => name_of(self@) is None,
            },
    {
        match self {
            NodeAddr::Tcp { host, port } => Some(node_endpoint(false, host.as_str(), *port as i64)),
            NodeAddr::TcpTls { host, port } => Some(
                node_endpoint(true, host.as_str(), *port as i64),
            ),
            NodeAddr::Unix => None,
        }
    }
}

/// How the `redis` crate's `IntoConnectionInfo::into_connection_info` for
/// `&str` reads a text as the address of a node: `None` where it reports
/// an error, and otherwise the way to the node that the connection
/// information holds.
pub uninterp spec fn parsed_node(url: Seq<char>) -> Option<NodeAddrView>;

/// Reads an address of a node with the `redis` crate's
/// `IntoConnectionInfo::into_connection_info` for `&str`, and keeps of the
/// connection information how the node is reached. The crate reads
/// nothing but the text, so the outcome is a function of it; the contract
/// gives that function the name `parsed_node` and claims nothing else of
/// it. Which texts are accepted is the crate's affair.
#[verifier::external_body]
fn parse_node(url: &str) -> (parsed: Result<NodeAddr, redis::RedisError>)
    ensures
        match parsed {
            Ok(addr) => parsed_node(url@) == Some(addr@),
            Err(_) => parsed_node(url@) is None,
        },
{
    match redis::IntoConnectionInfo::into_connection_info(url) {
        Ok(info) => Ok(
            match info.addr {
                redis::ConnectionAddr::Tcp(host, port) => NodeAddr::Tcp { host, port },
                redis::ConnectionAddr::TcpTls { host, port, .. } => NodeAddr::TcpTls { host, port },
                redis::ConnectionAddr::Unix(_) => NodeAddr::Unix,
            },
        ),
        Err(error) => Err(error),
    }
}

/// The views of a sequence of addresses, element by element.
pub open spec fn addr_views(nodes: Seq<NodeAddr>) -> Seq<NodeAddrView> {
    Seq::new(nodes.len(), |i: int| nodes[i]@)
}

/// The views of a sequence of addresses that may be missing.
pub open spec fn parsed_views(parsed: Seq<Option<NodeAddr>>) -> Seq<Option<NodeAddrView>> {
    Seq::new(
        parsed.len(),
        |i: int|
            match parsed[i] {
                Some(addr) => Some(addr@),
                None => None,
            },
    )
}

/// Whether a client can start from the endpoint: it has to be an address,
/// and not that of a UNIX domain socket.
pub open spec fn usable(endpoint: Option<NodeAddrView>) -> bool {
    endpoint is Some && endpoint != Some(NodeAddrView::Unix)
}

/// How each text of a list reads as the address of a node.
pub open spec fn parsed_nodes(urls: Seq<String>) -> Seq<Option<NodeAddrView>> {
    Seq::new(urls.len(), |i: int| parsed_node(urls[i]@))
}

/// Position of the first endpoint at or after `from` that a client cannot
/// start from; the length of the list if there is none.
pub open spec fn first_unusable(parsed: Seq<Option<NodeAddrView>>, from: int) -> int
    decreases parsed.len() - from,
{
    if from >= parsed.len() {
        parsed.len() as int
    } else if !usable(parsed[from]) {
        from
    } else {
        first_unusable(parsed, from + 1)
    }
}

/// Mathematical model of a `Client`.
pub struct ClientView {
    pub initial_nodes: Seq<NodeAddrView>,
    pub retries: Option<u32>,
}

/// What a list of endpoints makes: a client with the default retry limit
/// if every endpoint is an address over TCP, and otherwise the error for
/// the first endpoint that is not.
pub open spec fn client_of(parsed: Seq<Option<NodeAddrView>>) -> Result<ClientView, ClusterError> {
    let bad = first_unusable(parsed, 0);
    if bad < parsed.len() {
        if parsed[bad] is None {
            Err(ClusterError::InvalidUrl { index: bad as usize })
        } else {
            Err(ClusterError::UnixSocket { index: bad as usize })
        }
    } else {
        Ok(
            ClientView {
                initial_nodes: Seq::new(parsed.len(), |i: int| parsed[i]->Some_0),
                retries: Some(DEFAULT_RETRIES),
            },
        )
    }
}

/// The pool that the initial endpoints give: the names of the nodes that
/// could be connected to, in order, each once. `connected` says for each
/// node whether it could; a node without an entry could not.
pub open spec fn pool_of(nodes: Seq<NodeAddrView>, connected: Seq<bool>) -> Seq<Seq<char>>
    decreases nodes.len(),
{
    if nodes.len() == 0 {
        Seq::empty()
    } else {
        let init = pool_of(nodes.drop_last(), connected);
        let last = nodes.len() - 1;
        if last < connected.len() && connected[last] && name_of(nodes[last]) is Some {
            with_name(init, name_of(nodes[last])->Some_0)
        } else {
            init
        }
    }
}

/// A cluster client before it is connected.
#[derive(Debug)]
pub struct Client {
    initial_nodes: Vec<NodeAddr>,
    retries: Option<u32>,
}

impl View for Client {
    type V = ClientView;

    closed spec fn view(&self) -> ClientView {
        ClientView { initial_nodes: addr_views(self.initial_nodes@), retries: self.retries }
    }
}

impl Client {
    /// Makes a client from endpoints that were read already: `None`
    /// stands for a text that is no address. Every endpoint has to be an
    /// address over TCP; the first that is not decides the error.
    pub fn with_nodes(parsed: Vec<Option<NodeAddr>>) -> (made: Result<Client, ClusterError>)
        ensures
            match made {
                Ok(client) => client_of(parsed_views(parsed@)) == Ok::<ClientView, ClusterError>(
                    client@,
                ),
                Err(error) => client_of(parsed_views(parsed@)) == Err::<ClientView, ClusterError>(
                    error,
                ),
            },
    {
        let ghost views = parsed_views(parsed@);
        let mut nodes: Vec<NodeAddr> = Vec::new();
        let mut i: usize = 0;
        while i < parsed.len()
            invariant
                i <= parsed@.len(),
                views == parsed_views(parsed@),
                first_unusable(views, 0) == first_unusable(views, i as int),
                nodes@.len() == i,
                forall|k: int| 0 <= k < i ==> views[k] == Some(#[trigger] nodes@[k]@),
            decreases parsed@.len() - i,
        {
            match &parsed[i] {
                None => {
                    return Err(ClusterError::InvalidUrl { index: i });
                },
                Some(NodeAddr::Unix) => {
                    return Err(ClusterError::UnixSocket { index: i });
                },
                Some(addr) => {
                    nodes.push(addr.duplicate());
                },
            }
            i = i + 1;
        }
        let client = Client { initial_nodes: nodes, retries: Some(DEFAULT_RETRIES) };
        proof {
            assert(client@.initial_nodes =~= Seq::new(views.len(), |k: int| views[k]->Some_0));
        }
        Ok(client)
    }

    /// Makes a client that starts from the given endpoints. No connection
    /// is opened yet; the endpoints are read and checked. Every endpoint
    /// has to read as an address over TCP: the first that does not read as
    /// an address, or reads as a UNIX domain socket, decides the error.
    /// The endpoints after it are not read.
    pub fn open(initial_nodes: Vec<String>) -> (made: Result<Client, ClusterError>)
        ensures
            match made {
                Ok(client) => client_of(parsed_nodes(initial_nodes@)) == Ok::<
                    ClientView,
                    ClusterError,
                >(client@),
                Err(error) => client_of(parsed_nodes(initial_nodes@)) == Err::<
                    ClientView,
                    ClusterError,
                >(error),
            },
    {
        let ghost all = parsed_nodes(initial_nodes@);
        let mut parsed: Vec<Option<NodeAddr>> = Vec::new();
        let mut i: usize = 0;
        let mut refused = false;
        while i < initial_nodes.len() && !refused
            invariant
                i <= initial_nodes@.len(),
                all == parsed_nodes(initial_nodes@),
                parsed_views(parsed@) == all.take(i as int),
                refused ==> i > 0 && !usable(all[i - 1]),
            decreases initial_nodes@.len() - i,
        {
            let ghost before = parsed_views(parsed@);
            let outcome = match parse_node(initial_nodes[i].as_str()) {
                Ok(addr) => Some(addr),
                Err(_) => None,
            };
            refused = match &outcome {
                Some(NodeAddr::Unix) => true,
                Some(_) => false,
                None => true,
            };
            parsed.push(outcome);
            proof {
                assert(parsed_views(parsed@) =~= before.push(all[i as int]));
                assert(all.take(i + 1) =~= all.take(i as int).push(all[i as int]));
            }
            i = i + 1;
        }
        proof {
            if refused {
                let read = all.take(i as int);
                let bad = first_unusable(read, 0);
                lemma_first_unusable(read, 0);
                assert(read[i - 1] == all[i - 1]);
                lemma_first_unusable_in_prefix(all, i as int, 0);
                assert(read[bad] == all[bad]);
            } else {
                assert(all.take(i as int) =~= all);
            }
        }
        Client::with_nodes(parsed)
    }

    /// Sets after how many failed attempts a request gives up; `None`
    /// makes requests retry for ever.
    pub fn set_retries(&mut self, retries: Option<u32>) -> (client: &mut Client)
        ensures
            client@ == (ClientView { retries, ..old(self)@ }),
            *final(self) == *final(client),
    {
        self.retries = retries;
        self
    }

    /// Copies the client, retry limit included.
    pub fn duplicate(&self) -> (copy: Client)
        ensures
            copy@ == self@,
    {
        let mut nodes: Vec<NodeAddr> = Vec::new();
        let mut i: usize = 0;
        while i < self.initial_nodes.len()
            invariant
                i <= self.initial_nodes@.len(),
                addr_views(nodes@) == self@.initial_nodes.take(i as int),
            decreases self.initial_nodes@.len() - i,
        {
            let node = self.initial_nodes[i].duplicate();
            nodes.push(node);
            proof {
                assert(self@.initial_nodes.take(i + 1) =~= self@.initial_nodes.take(i as int).push(
                    self@.initial_nodes[i as int],
                ));
            }
            i = i + 1;
        }
        proof {
            assert(self@.initial_nodes.take(self.initial_nodes@.len() as int)
                =~= self@.initial_nodes);
        }
        Client { initial_nodes: nodes, retries: self.retries }
    }

    /// After how many failed attempts a request gives up.
    pub fn retries(&self) -> (retries: Option<u32>)
        ensures
            retries == self@.retries,
    {
        self.retries
    }

    /// The endpoints that the client starts from.
    pub fn initial_nodes(&self) -> (nodes: &Vec<NodeAddr>)
        ensures
            addr_views(nodes@) == self@.initial_nodes,
    {
        &self.initial_nodes
    }

    /// Makes the first pool out of the initial endpoints that could be
    /// connected to. `connected` says for each endpoint, by position,
    /// whether it could. Fails if none could.
    pub fn create_initial_connections(&self, connected: &Vec<bool>) -> (made: Result<
        EndpointSet,
        ClusterError,
    >)
        ensures
            match made {
                Ok(pool) => pool@ == pool_of(self@.initial_nodes, connected@) && pool@.len() > 0,
                Err(error) => error == ClusterError::NoInitialConnections && pool_of(
                    self@.initial_nodes,
                    connected@,
                ).len() == 0,
            },
    {
        let mut pool = EndpointSet::new();
        let mut i: usize = 0;
        let ghost nodes = self@.initial_nodes;
        while i < self.initial_nodes.len()
            invariant
                i <= self.initial_nodes@.len(),
                nodes == self@.initial_nodes,
                pool@ == pool_of(nodes.take(i as int), connected@),
            decreases self.initial_nodes@.len() - i,
        {
            proof {
                assert(nodes.take(i + 1).drop_last() =~= nodes.take(i as int));
            }
            if i < connected.len() && connected[i] {
                match self.initial_nodes[i].endpoint() {
                    Some(name) => {
                        pool.insert(name);
                    },
                    None => {},
                }
            }
            i = i + 1;
        }
        proof {
            assert(nodes.take(self.initial_nodes@.len() as int) =~= nodes);
        }
        if pool.len() == 0 {
            Err(ClusterError::NoInitialConnections)
        } else {
            Ok(pool)
        }
    }
}

/// The search for an unusable endpoint stays within the list; what it
/// finds is unusable, and everything before it is an address over TCP.
pub proof fn lemma_first_unusable(parsed: Seq<Option<NodeAddrView>>, from: int)
    requires
        0 <= from <= parsed.len(),
    ensures
        from <= first_unusable(parsed, from) <= parsed.len(),
        first_unusable(parsed, from) < parsed.len() ==> !usable(
            parsed[first_unusable(parsed, from)],
        ),
        forall|i: int| from <= i < first_unusable(parsed, from) ==> usable(#[trigger] parsed[i]),
    decreases parsed.len() - from,
{
    if from < parsed.len() && usable(parsed[from]) {
        lemma_first_unusable(parsed, from + 1);
    }
}

/// Where the first `n` endpoints of a list hold one that is unusable, the
/// search in the whole list finds what the search in those `n` finds.
proof fn lemma_first_unusable_in_prefix(parsed: Seq<Option<NodeAddrView>>, n: int, from: int)
    requires
        0 <= from <= n <= parsed.len(),
        first_unusable(parsed.take(n), from) < n,
    ensures
        first_unusable(parsed, from) == first_unusable(parsed.take(n), from),
    decreases n - from,
{
    if from < n && usable(parsed[from]) {
        lemma_first_unusable_in_prefix(parsed, n, from + 1);
    }
}

} // verus!
