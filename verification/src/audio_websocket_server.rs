//! The connection server's shared state: per-connection stream bindings,
//! the stream registry and the buffer pool.
//!
//! The socket loop itself is I/O and lives outside this crate; it hands
//! every received frame to this state, which binds connections to
//! streams, dispatches frames through the message handler, and says what
//! to send back.

use crate::memory_pool_manager::MemoryPoolManager;
use crate::memory_pool_manager::PoolModel;
use crate::stream_manager::spec_write_chunk;
use crate::stream_manager::ManagerModel;
use crate::stream_manager::StreamManager;
use crate::websocket_message_handler::spec_handle_text;
use crate::websocket_message_handler::HandlerReply;
use crate::websocket_message_handler::WebSocketMessageHandler;
use vstd::prelude::*;

verus! {

/// Index of the binding for connection `id`, or `-1` if there is none.
pub open spec fn find_client(s: Seq<(usize, Seq<char>)>, id: usize) -> int
    decreases s.len(),
{
    if s.len() == 0 {
        -1
    } else if s[0].0 == id {
        0
    } else {
        let r = find_client(s.drop_first(), id);
        if r == -1 {
            -1
        } else {
            r + 1
        }
    }
}

/// What `find_client` returns: `-1` exactly when the id is absent, and
/// otherwise the first index carrying it.
pub proof fn lemma_find_client_props(s: Seq<(usize, Seq<char>)>, id: usize)
    ensures
        find_client(s, id) == -1 ==> forall|i: int| 0 <= i < s.len() ==> s[i].0 != id,
        find_client(s, id) != -1 ==> {
            &&& 0 <= find_client(s, id) < s.len()
            &&& s[find_client(s, id)].0 == id
            &&& forall|j: int| 0 <= j < find_client(s, id) ==> s[j].0 != id
        },
    decreases s.len(),
{
    if s.len() > 0 {
        lemma_find_client_props(s.drop_first(), id);
        if s[0].0 != id {
            assert forall|i: int| 1 <= i < s.len() implies s.drop_first()[i - 1] == s[i] by {}
        }
    }
}

/// `find_client` returns `k` whenever `k` is the first index carrying `id`.
pub proof fn lemma_find_client_first(s: Seq<(usize, Seq<char>)>, id: usize, k: int)
    requires
        0 <= k < s.len(),
        s[k].0 == id,
        forall|j: int| 0 <= j < k ==> s[j].0 != id,
    ensures
        find_client(s, id) == k,
    decreases s.len(),
{
    if k > 0 {
        assert(s[0].0 != id);
        assert forall|i: int| 1 <= i < s.len() implies s.drop_first()[i - 1] == s[i] by {}
        lemma_find_client_first(s.drop_first(), id, k - 1);
    }
}

/// The abstract state of the server.
#[verifier::ext_equal]
pub ghost struct ServerModel {
    /// TCP port the server listens on.
    pub port: u16,
    /// URL path of the WebSocket endpoint.
    pub path: Seq<char>,
    /// Per-connection active-stream bindings; an empty string means no
    /// stream is bound.
    pub clients: Seq<(usize, Seq<char>)>,
    /// The stream registry.
    pub manager: ManagerModel,
    /// The buffer pool.
    pub pool: PoolModel,
}

impl ServerModel {
    /// The registry and the pool are well-formed and each connection has
    /// at most one binding.
    pub open spec fn wf(self) -> bool {
        &&& self.manager.wf()
        &&& self.pool.wf()
        &&& (forall|i: int, j: int| 0 <= i < j < self.clients.len() ==> self.clients[i].0 != self.clients[j].0)
    }

    /// The active-stream binding of connection `id`, if it has one.
    pub open spec fn binding(self, id: usize) -> Option<Seq<char>> {
        if find_client(self.clients, id) == -1 {
            None
        } else {
            Some(self.clients[find_client(self.clients, id)].1)
        }
    }
}

/// WebSocket server state for audio stream uploads and downloads.
pub struct AudioWebSocketServer {
    port: u16,
    path: String,
    clients: Vec<(usize, String)>,
    stream_manager: StreamManager,
    memory_pool: MemoryPoolManager,
}

impl View for AudioWebSocketServer {
    type V = ServerModel;

    closed spec fn view(&self) -> ServerModel {
        ServerModel {
            port: self.port,
            path: self.path@,
            clients: Seq::new(
                self.clients@.len(),
                |i: int| (self.clients@[i].0, self.clients@[i].1@),
            ),
            manager: self.stream_manager@,
            pool: self.memory_pool@,
        }
    }
}

impl AudioWebSocketServer {
    /// A server on `port` and `path` over the given registry and pool,
    /// with no connections yet.
    pub fn new(
        port: u16,
        path: String,
        stream_manager: StreamManager,
        memory_pool: MemoryPoolManager,
    ) -> (r: Self)
        ensures
            r@ == (ServerModel {
                port,
                path: path@,
                clients: Seq::empty(),
                manager: stream_manager@,
                pool: memory_pool@,
            }),
    {
        let r = AudioWebSocketServer { port, path, clients: Vec::new(), stream_manager, memory_pool };
        proof {
            assert(r@.clients =~= Seq::<(usize, Seq<char>)>::empty());
            assert(r@ =~= (ServerModel {
                port: r@.port,
                path: r@.path,
                clients: Seq::empty(),
                manager: r@.manager,
                pool: r@.pool,
            }));
        }
        r
    }

    /// The port the server listens on.
    pub fn get_port(&self) -> (r: u16)
        ensures
            r == self@.port,
    {
        self.port
    }

    /// The URL path of the WebSocket endpoint.
    pub fn get_path(&self) -> (r: &str)
        ensures
            r@ == self@.path,
    {
        self.path.as_str()
    }

    /// Index of the binding for connection `client_id`, if any.
    fn find(&self, client_id: usize) -> (r: Option<usize>)
        ensures
            match r {
                Some(i) => {
                    &&& 0 <= i < self@.clients.len()
                    &&& find_client(self@.clients, client_id) == i
                },
                None => find_client(self@.clients, client_id) == -1,
            },
    {
        let mut i: usize = 0;
        while i < self.clients.len()
            invariant
                i <= self@.clients.len(),
                self@.clients.len() == self.clients@.len(),
                forall|j: int| 0 <= j < i ==> self@.clients[j].0 != client_id,
            decreases self@.clients.len() - i,
        {
            if self.clients[i].0 == client_id {
                proof {
                    lemma_find_client_first(self@.clients, client_id, i as int);
                }
                return Some(i);
            }
            i += 1;
        }
        proof {
            lemma_find_client_props(self@.clients, client_id);
            if find_client(self@.clients, client_id) != -1 {
                assert(false);
            }
        }
        None
    }

    /// Register a connection with an empty binding; a connection already
    /// known has its binding reset.
    pub fn client_connected(&mut self, client_id: usize)
        requires
            old(self)@.wf(),
        ensures
            final(self)@.wf(),
            final(self)@ == (ServerModel {
                clients: if find_client(old(self)@.clients, client_id) == -1 {
                    old(self)@.clients.push((client_id, Seq::<char>::empty()))
                } else {
                    old(self)@.clients.update(
                        find_client(old(self)@.clients, client_id),
                        (client_id, Seq::<char>::empty()),
                    )
                },
                ..old(self)@
            }),
    {
        match self.find(client_id) {
            None => {
                proof {
                    lemma_find_client_props(old(self)@.clients, client_id);
                }
                self.clients.push((client_id, String::new()));
                proof {
                    assert(self@.clients =~= old(self)@.clients.push(
                        (client_id, Seq::<char>::empty()),
                    ));
                    assert(self@ =~= (ServerModel {
                        clients: old(self)@.clients.push((client_id, Seq::<char>::empty())),
                        ..old(self)@
                    }));
                }
            },
            Some(i) => {
                proof {
                    lemma_find_client_props(old(self)@.clients, client_id);
                }
                self.clients.remove(i);
                self.clients.insert(i, (client_id, String::new()));
                proof {
                    assert(self@.clients =~= old(self)@.clients.update(
                        i as int,
                        (client_id, Seq::<char>::empty()),
                    ));
                    assert(self@ =~= (ServerModel {
                        clients: old(self)@.clients.update(
                            i as int,
                            (client_id, Seq::<char>::empty()),
                        ),
                        ..old(self)@
                    }));
                    assert forall|p: int, q: int|
                        0 <= p < q < self@.clients.len() implies self@.clients[p].0
                        != self@.clients[q].0 by {
                        assert(old(self)@.clients[p].0 != old(self)@.clients[q].0);
                    }
                }
            },
        }
    }

    /// Drop a connection's binding when it goes away; its unfinalized
    /// streams stay in the registry until they age out.
    pub fn client_disconnected(&mut self, client_id: usize)
        requires
            old(self)@.wf(),
        ensures
            final(self)@.wf(),
            final(self)@ == (ServerModel {
                clients: if find_client(old(self)@.clients, client_id) == -1 {
                    old(self)@.clients
                } else {
                    old(self)@.clients.remove(find_client(old(self)@.clients, client_id))
                },
                ..old(self)@
            }),
    {
        match self.find(client_id) {
            None => {
                proof {
                    assert(self@ =~= (ServerModel { clients: old(self)@.clients, ..old(self)@ }));
                }
            },
            Some(i) => {
                self.clients.remove(i);
                proof {
                    assert(self@.clients =~= old(self)@.clients.remove(i as int));
                    assert(self@ =~= (ServerModel {
                        clients: old(self)@.clients.remove(i as int),
                        ..old(self)@
                    }));
                    assert forall|p: int, q: int|
                        0 <= p < q < self@.clients.len() implies self@.clients[p].0
                        != self@.clients[q].0 by {
                        let p0 = if p < i as int { p } else { p + 1 };
                        let q0 = if q < i as int { q } else { q + 1 };
                        assert(self@.clients[p] == old(self)@.clients[p0]);
                        assert(self@.clients[q] == old(self)@.clients[q0]);
                    }
                }
            },
        }
    }

    /// Dispatch one text frame from connection `client_id`; the reply to
    /// send back, or `None` for an unknown connection.
    pub fn handle_text_frame(&mut self, client_id: usize, message: &str, now_ms: u64) -> (r: Option<
        HandlerReply,
    >)
        requires
            old(self)@.wf(),
        ensures
            final(self)@.wf(),
            find_client(old(self)@.clients, client_id) == -1 ==> final(self)@ == old(self)@ && r
                is None,
            find_client(old(self)@.clients, client_id) != -1 ==> {
                let i = find_client(old(self)@.clients, client_id);
                let h = spec_handle_text(
                    old(self)@.manager,
                    old(self)@.clients[i].1,
                    message@,
                    now_ms,
                );
                &&& final(self)@ == (ServerModel {
                    manager: h.0,
                    clients: old(self)@.clients.update(i, (client_id, h.1)),
                    ..old(self)@
                })
                &&& (r matches Some(rep) && rep@ == h.2)
            },
    {
        match self.find(client_id) {
            None => None,
            Some(i) => {
                proof {
                    lemma_find_client_props(old(self)@.clients, client_id);
                }
                let (cid, mut binding) = self.clients.remove(i);
                let reply = WebSocketMessageHandler::handle_text_message(
                    &mut self.stream_manager,
                    &mut binding,
                    message,
                    now_ms,
                );
                self.clients.insert(i, (cid, binding));
                proof {
                    let h = spec_handle_text(
                        old(self)@.manager,
                        old(self)@.clients[i as int].1,
                        message@,
                        now_ms,
                    );
                    assert(self@.clients =~= old(self)@.clients.update(
                        i as int,
                        (client_id, h.1),
                    ));
                    assert(self@ =~= (ServerModel {
                        manager: h.0,
                        clients: old(self)@.clients.update(i as int, (client_id, h.1)),
                        ..old(self)@
                    }));
                    assert forall|p: int, q: int|
                        0 <= p < q < self@.clients.len() implies self@.clients[p].0
                        != self@.clients[q].0 by {
                        assert(old(self)@.clients[p].0 != old(self)@.clients[q].0);
                    }
                }
                Some(reply)
            },
        }
    }

    /// Route one binary frame from connection `client_id` to its bound
    /// stream; without a binding the frame is discarded.
    pub fn handle_binary_frame(&mut self, client_id: usize, data: &[u8], now_ms: u64)
        requires
            old(self)@.wf(),
            match old(self)@.binding(client_id) {
                Some(id) => old(self)@.manager.has_stream(id) ==> old(self)@.manager.stream_at(
                    id,
                ).current_offset + data@.len() <= usize::MAX,
                None => true,
            },
        ensures
            final(self)@.wf(),
            match old(self)@.binding(client_id) {
                None => final(self)@ == old(self)@,
                Some(id) => if id.len() == 0 {
                    final(self)@ == old(self)@
                } else {
                    final(self)@ == (ServerModel {
                        manager: spec_write_chunk(old(self)@.manager, id, data@, now_ms).0,
                        ..old(self)@
                    })
                },
            },
    {
        match self.find(client_id) {
            None => {
                proof {
                    assert(self@ =~= old(self)@);
                }
            },
            Some(i) => {
                proof {
                    lemma_find_client_props(old(self)@.clients, client_id);
                }
                let binding = self.clients[i].1.clone();
                WebSocketMessageHandler::handle_binary_message(
                    &mut self.stream_manager,
                    &binding,
                    data,
                    now_ms,
                );
                proof {
                    if binding@.len() == 0 {
                        assert(self@ =~= old(self)@);
                    } else {
                        assert(self@ =~= (ServerModel {
                            manager: spec_write_chunk(
                                old(self)@.manager,
                                binding@,
                                data@,
                                now_ms,
                            ).0,
                            ..old(self)@
                        }));
                    }
                }
            },
        }
    }
}

} // verus!
