//! The registry of proxy bindings and the decisions of its REST API.
use vstd::prelude::*;
use std::collections::HashMap;
use crate::error::ProxyError;
use crate::text::{decimal, decimal_string};
use crate::upstream::opt_view;

verus! {

broadcast use vstd::std_specs::hash::group_hash_axioms;

/// The HTTP method of an API request.
#[derive(Clone, Copy, PartialEq, Eq, Debug)]
pub enum ApiMethod {
    Post,
    Put,
    Delete,
    /// Any other method.
    Other,
}

/// What the JSON body of an API request holds: its `port` field where that is
/// an unsigned integer, and its `upstream` field where that is a string.
pub struct BindingRequest {
    pub port: Option<u64>,
    pub upstream: Option<String>,
}

/// What an accepted API request did.
#[derive(Clone, Copy, PartialEq, Eq, Debug)]
pub enum ReplyStatus {
    Created,
    Updated,
    Deleted,
}

/// The word that names a status in the API's answers.
pub open spec fn status_word(status: ReplyStatus) -> Seq<char> {
    match status {
        ReplyStatus::Created => "created"@,
        ReplyStatus::Updated => "updated"@,
        ReplyStatus::Deleted => "deleted"@,
    }
}

impl ReplyStatus {
    /// `created`, `updated` or `deleted`.
    pub fn word(&self) -> (w: &'static str)
        ensures
            w@ == status_word(*self),
    {
        match self {
            ReplyStatus::Created => "created",
            ReplyStatus::Updated => "updated",
            ReplyStatus::Deleted => "deleted",
        }
    }
}

/// The answer to an accepted API request; the upstream is absent for a
/// deletion.
pub struct ApiReply {
    pub status: ReplyStatus,
    pub port: u16,
    pub upstream: Option<String>,
}

/// One active binding, as the health check lists it.
pub struct BindingInfo {
    pub port: u16,
    pub upstream: String,
}

/// The answer to a health check.
pub struct HealthReply {
    /// Always `ok`.
    pub status: String,
    /// Every active binding, once each.
    pub bindings: Vec<BindingInfo>,
}

/// The active proxy bindings: each port that a listener serves, with the
/// upstream proxy it forwards to and the handle `H` by which the caller runs
/// that listener.
pub struct BindingRegistry<H> {
    bindings: HashMap<u16, (String, H)>,
}

impl<H> View for BindingRegistry<H> {
    type V = Map<u16, Seq<char>>;

    /// Each bound port with its upstream.
    closed spec fn view(&self) -> Map<u16, Seq<char>> {
        Map::new(|p: u16| self.bindings@.contains_key(p), |p: u16| self.bindings@[p].0@)
    }
}

/// The port that a `port` field names: its value taken modulo 2^16, as a cast
/// to `u16` does.
pub open spec fn body_port(p: u64) -> u16 {
    (p % 65536) as u16
}

/// `Binding on port <port> already exists`
pub open spec fn already_exists_message(port: u16) -> Seq<char> {
    "Binding on port "@ + decimal(port as nat) + " already exists"@
}

/// `No binding found for port <port>`
pub open spec fn not_found_message(port: u16) -> Seq<char> {
    "No binding found for port "@ + decimal(port as nat)
}

/// An accepted request's answer as plain values.
pub open spec fn reply_view(r: ApiReply) -> (ReplyStatus, u16, Option<Seq<char>>) {
    (r.status, r.port, opt_view(r.upstream))
}

/// The answer to an API request, a refusal taken by its message.
pub open spec fn api_result_view(r: Result<ApiReply, ProxyError>) -> Result<
    (ReplyStatus, u16, Option<Seq<char>>),
    Seq<char>,
> {
    match r {
        Ok(a) => Ok(reply_view(a)),
        Err(ProxyError::Custom(m)) => Err(m@),
        Err(_) => Err(Seq::empty()),
    }
}

/// The registry after an API request, and the request's answer or the
/// message of its refusal. `path_port` is the port in the request's path (0
/// where it has none); a creation takes its port from the body instead.
pub open spec fn api_outcome(
    reg: Map<u16, Seq<char>>,
    path_port: u16,
    method: ApiMethod,
    port_field: Option<u64>,
    upstream_field: Option<Seq<char>>,
) -> (Map<u16, Seq<char>>, Result<(ReplyStatus, u16, Option<Seq<char>>), Seq<char>>) {
    match method {
        ApiMethod::Post => match port_field {
            None => (reg, Err("Missing port"@)),
            Some(p) => match upstream_field {
                None => (reg, Err("Missing upstream"@)),
                Some(u) => {
                    let port = body_port(p);
                    if reg.contains_key(port) {
                        (reg, Err(already_exists_message(port)))
                    } else {
                        (reg.insert(port, u), Ok((ReplyStatus::Created, port, Some(u))))
                    }
                },
            },
        },
        ApiMethod::Put => if path_port == 0 {
            (reg, Err("Missing port in path"@))
        } else {
            match upstream_field {
                None => (reg, Err("Missing upstream"@)),
                Some(u) => if reg.contains_key(path_port) {
                    (reg.insert(path_port, u), Ok((ReplyStatus::Updated, path_port, Some(u))))
                } else {
                    (reg, Err(not_found_message(path_port)))
                },
            }
        },
        ApiMethod::Delete => if path_port == 0 {
            (reg, Err("Missing port in path"@))
        } else if reg.contains_key(path_port) {
            (reg.remove(path_port), Ok((ReplyStatus::Deleted, path_port, None)))
        } else {
            (reg, Err(not_found_message(path_port)))
        },
        ApiMethod::Other => (reg, Err("Method not allowed"@)),
    }
}

fn already_exists_error(port: u16) -> (e: ProxyError)
    ensures
        e matches ProxyError::Custom(m) && m@ == already_exists_message(port),
{
    ProxyError::Custom(
        "Binding on port ".to_owned().concat(decimal_string(port as u64).as_str()).concat(
            " already exists",
        ),
    )
}

fn not_found_error(port: u16) -> (e: ProxyError)
    ensures
        e matches ProxyError::Custom(m) && m@ == not_found_message(port),
{
    ProxyError::Custom(
        "No binding found for port ".to_owned().concat(decimal_string(port as u64).as_str()),
    )
}

impl<H> BindingRegistry<H> {
    /// Each bound port with the handle of its listener.
    pub closed spec fn handles(&self) -> Map<u16, H> {
        Map::new(|p: u16| self.bindings@.contains_key(p), |p: u16| self.bindings@[p].1)
    }

    /// Every bound port has the handle of its listener, and only a bound
    /// port has one.
    pub proof fn lemma_handles_match_bindings(&self)
        ensures
            self.handles().dom() == self@.dom(),
    {
        assert(self.handles().dom() =~= self@.dom());
    }

    /// A registry with no bindings.
    pub fn new() -> (r: BindingRegistry<H>)
        ensures
            r@ == Map::<u16, Seq<char>>::empty(),
            r.handles() == Map::<u16, H>::empty(),
    {
        let r = BindingRegistry { bindings: HashMap::new() };
        proof {
            assert(r@ =~= Map::<u16, Seq<char>>::empty());
            assert(r.handles() =~= Map::<u16, H>::empty());
        }
        r
    }

    /// The upstream bound to `port`, if any.
    pub fn upstream_of(&self, port: u16) -> (r: Option<String>)
        ensures
            opt_view(r) == (if self@.contains_key(port) {
                Some(self@[port])
            } else {
                None
            }),
    {
        match self.bindings.get(&port) {
            Some(b) => Some(b.0.clone()),
            None => None,
        }
    }

    /// The handle of the listener on `port`, if any.
    pub fn handle_of(&self, port: u16) -> (r: Option<&H>)
        ensures
            match r {
                Some(h) => self.handles().contains_key(port) && *h == self.handles()[port],
                None => !self.handles().contains_key(port),
            },
    {
        match self.bindings.get(&port) {
            Some(b) => Some(&b.1),
            None => None,
        }
    }

    /// The number of active bindings.
    pub fn len(&self) -> (n: usize)
        ensures
            n == self@.dom().len(),
    {
        proof {
            assert(self@.dom() =~= self.bindings@.dom());
        }
        self.bindings.len()
    }

    /// Carries out a request to the binding API: creation (`POST`, port and
    /// upstream from the body), update of the upstream (`PUT`, port from the
    /// path) or deletion (`DELETE`, port from the path). A refusal leaves the
    /// registry as it was and is a `Custom` error whose message says why.
    ///
    /// `handle` is the handle for the listener of a binding that this request
    /// creates; a creation keeps it. The second result is the handle that
    /// the registry gives up: the deleted binding's on a deletion, and
    /// `handle` itself, unused, on any request that creates nothing.
    pub fn handle_proxy_request(
        &mut self,
        path_port: u16,
        method: ApiMethod,
        body: &BindingRequest,
        handle: H,
    ) -> (r: (Result<ApiReply, ProxyError>, Option<H>))
        ensures
            (final(self)@, api_result_view(r.0)) == api_outcome(
                old(self)@,
                path_port,
                method,
                body.port,
                opt_view(body.upstream),
            ),
            r.0 matches Err(e) ==> e is Custom,
            match r.0 {
                Ok(reply) => match reply.status {
                    ReplyStatus::Created => final(self).handles() == old(self).handles().insert(
                        reply.port,
                        handle,
                    ) && r.1 is None,
                    ReplyStatus::Updated => final(self).handles() == old(self).handles() && r.1
                        == Some(handle),
                    ReplyStatus::Deleted => final(self).handles() == old(self).handles().remove(
                        reply.port,
                    ) && r.1 == Some(old(self).handles()[reply.port]),
                },
                Err(_) => final(self).handles() == old(self).handles() && r.1 == Some(handle),
            },
            forall|q: u16|
                #[trigger] old(self).handles().contains_key(q) ==> (final(self).handles().contains_key(q)
                    && final(self).handles()[q] == old(self).handles()[q]) || (r.0 matches Ok(reply)
                    && reply.status is Deleted && reply.port == q),
    {
        let ghost old_view = self@;
        let ghost old_handles = self.handles();
        match method {
            ApiMethod::Post => {
                let p = match body.port {
                    Some(p) => p,
                    None => {
                        return (Err(ProxyError::custom("Missing port")), Some(handle));
                    },
                };
                let upstream = match &body.upstream {
                    Some(u) => u.clone(),
                    None => {
                        return (Err(ProxyError::custom("Missing upstream")), Some(handle));
                    },
                };
                let port = (p % 65536) as u16;
                if self.bindings.contains_key(&port) {
                    return (Err(already_exists_error(port)), Some(handle));
                }
                self.bindings.insert(port, (upstream.clone(), handle));
                proof {
                    assert(self@ =~= old_view.insert(port, upstream@));
                    assert(self.handles() =~= old_handles.insert(port, handle));
                }
                (Ok(ApiReply { status: ReplyStatus::Created, port, upstream: Some(upstream) }), None)
            },
            ApiMethod::Put => {
                if path_port == 0 {
                    return (Err(ProxyError::custom("Missing port in path")), Some(handle));
                }
                let upstream = match &body.upstream {
                    Some(u) => u.clone(),
                    None => {
                        return (Err(ProxyError::custom("Missing upstream")), Some(handle));
                    },
                };
                match self.bindings.remove(&path_port) {
                    None => (Err(not_found_error(path_port)), Some(handle)),
                    Some(old_binding) => {
                        let (_, live) = old_binding;
                        self.bindings.insert(path_port, (upstream.clone(), live));
                        proof {
                            assert(self@ =~= old_view.insert(path_port, upstream@));
                            assert(self.handles() =~= old_handles);
                        }
                        (
                            Ok(
                                ApiReply {
                                    status: ReplyStatus::Updated,
                                    port: path_port,
                                    upstream: Some(upstream),
                                },
                            ),
                            Some(handle),
                        )
                    },
                }
            },
            ApiMethod::Delete => {
                if path_port == 0 {
                    return (Err(ProxyError::custom("Missing port in path")), Some(handle));
                }
                match self.bindings.remove(&path_port) {
                    Some(old_binding) => {
                        proof {
                            assert(self@ =~= old_view.remove(path_port));
                            assert(self.handles() =~= old_handles.remove(path_port));
                        }
                        let (_, live) = old_binding;
                        (
                            Ok(
                                ApiReply {
                                    status: ReplyStatus::Deleted,
                                    port: path_port,
                                    upstream: None,
                                },
                            ),
                            Some(live),
                        )
                    },
                    None => (Err(not_found_error(path_port)), Some(handle)),
                }
            },
            ApiMethod::Other => (Err(ProxyError::custom("Method not allowed")), Some(handle)),
        }
    }

    /// The health check: status `ok` and every active binding exactly once,
    /// in no particular order.
    pub fn handle_health_request(&self) -> (h: HealthReply)
        ensures
            h.status@ == "ok"@,
            h.bindings@.len() == self@.dom().len(),
            forall|i: int|
                0 <= i < h.bindings@.len() ==> self@.contains_key(#[trigger] h.bindings@[i].port)
                    && self@[h.bindings@[i].port] == h.bindings@[i].upstream@,
            forall|i: int, j: int|
                0 <= i < j < h.bindings@.len() ==> #[trigger] h.bindings@[i].port
                    != #[trigger] h.bindings@[j].port,
            forall|p: u16|
                #[trigger] self@.contains_key(p) ==> exists|i: int|
                    0 <= i < h.bindings@.len() && #[trigger] h.bindings@[i].port == p,
    {
        let mut out: Vec<BindingInfo> = Vec::new();
        let ghost m = self.bindings@;
        for entry in it: self.bindings.iter()
            invariant
                m == self.bindings@,
                out@.len() == it.index(),
                forall|i: int|
                    #![trigger it.seq()[i]]
                    #![trigger out@[i]]
                    0 <= i < it.index() ==> out@[i].port == *it.seq()[i].0 && out@[i].upstream@ == (
                    (*it.seq()[i].1).0)@,
                it.seq().len() == m.dom().len(),
                it.seq().no_duplicates(),
                forall|p: u16|
                    #[trigger] m.contains_key(p) ==> it.seq().contains((&p, &m[p])),
                forall|i: int, j: int|
                    0 <= i < j < it.index() ==> #[trigger] out@[i].port != #[trigger] out@[j].port,
        {
            let (port, binding) = entry;
            let ghost v = it.seq();
            let ghost k = it.index();
            out.push(BindingInfo { port: *port, upstream: binding.0.clone() });
            proof {
                assert forall|i: int, j: int|
                    0 <= i < j < out@.len() implies #[trigger] out@[i].port
                        != #[trigger] out@[j].port by {
                    if j == k && out@[i].port == out@[j].port {
                        assert(out@[i].port == *v[i].0);
                        assert(out@[j].port == *v[j].0);
                        assert(m.contains_key(*v[i].0) && m[*v[i].0] == *v[i].1);
                        assert(m.contains_key(*v[j].0) && m[*v[j].0] == *v[j].1);
                        assert(v[i] == v[j]);
                    }
                }
            }
        }
        proof {
            assert(self@.dom() =~= m.dom());
            assert forall|p: u16| #[trigger] self@.contains_key(p) implies exists|i: int|
                0 <= i < out@.len() && #[trigger] out@[i].port == p by {
                assert(m.contains_key(p));
            }
        }
        HealthReply { status: "ok".to_owned(), bindings: out }
    }
}

/// The port that a request may change: the body's port for a creation, the
/// path's port otherwise.
pub open spec fn affected_port(method: ApiMethod, path_port: u16, port_field: Option<u64>) -> u16 {
    match method {
        ApiMethod::Post => match port_field {
            Some(p) => body_port(p),
            None => path_port,
        },
        _ => path_port,
    }
}

/// A creation on a free port binds it to the given upstream and answers
/// `created` with that port and upstream.
pub proof fn law_create_binds(reg: Map<u16, Seq<char>>, path_port: u16, p: u64, u: Seq<char>)
    requires
        !reg.contains_key(body_port(p)),
    ensures
        ({
            let (after, reply) = api_outcome(reg, path_port, ApiMethod::Post, Some(p), Some(u));
            &&& after.contains_key(body_port(p))
            &&& after[body_port(p)] == u
            &&& after.dom() == reg.dom().insert(body_port(p))
            &&& reply == Ok::<_, Seq<char>>((ReplyStatus::Created, body_port(p), Some(u)))
        }),
{
    let (after, _) = api_outcome(reg, path_port, ApiMethod::Post, Some(p), Some(u));
    assert(after.dom() =~= reg.dom().insert(body_port(p)));
}

/// A creation on a port that is already bound is refused, says which port,
/// and leaves the registry as it was.
pub proof fn law_create_on_bound_port_refused(
    reg: Map<u16, Seq<char>>,
    path_port: u16,
    p: u64,
    u: Seq<char>,
)
    requires
        reg.contains_key(body_port(p)),
    ensures
        api_outcome(reg, path_port, ApiMethod::Post, Some(p), Some(u)) == (
            reg,
            Err::<(ReplyStatus, u16, Option<Seq<char>>), _>(already_exists_message(body_port(p))),
        ),
{
}

/// Deleting a binding just created gives back the registry as it was before.
pub proof fn law_create_then_delete_restores(
    reg: Map<u16, Seq<char>>,
    path_port: u16,
    p: u64,
    u: Seq<char>,
)
    requires
        !reg.contains_key(body_port(p)),
        body_port(p) != 0,
    ensures
        ({
            let after_create = api_outcome(reg, path_port, ApiMethod::Post, Some(p), Some(u)).0;
            let (after_delete, reply) = api_outcome(
                after_create,
                body_port(p),
                ApiMethod::Delete,
                None,
                None,
            );
            &&& after_delete == reg
            &&& reply == Ok::<_, Seq<char>>((ReplyStatus::Deleted, body_port(p), None::<Seq<char>>))
        }),
{
    let after_create = api_outcome(reg, path_port, ApiMethod::Post, Some(p), Some(u)).0;
    assert(after_create.remove(body_port(p)) =~= reg);
}

/// Updating a binding replaces its upstream and keeps the set of bound
/// ports; of two updates in a row the later one wins.
pub proof fn law_update_replaces(
    reg: Map<u16, Seq<char>>,
    port: u16,
    u1: Seq<char>,
    u2: Seq<char>,
)
    requires
        reg.contains_key(port),
        port != 0,
    ensures
        ({
            let once = api_outcome(reg, port, ApiMethod::Put, None, Some(u1)).0;
            let twice = api_outcome(once, port, ApiMethod::Put, None, Some(u2)).0;
            &&& once.dom() == reg.dom()
            &&& once[port] == u1
            &&& twice == api_outcome(reg, port, ApiMethod::Put, None, Some(u2)).0
        }),
{
    let once = api_outcome(reg, port, ApiMethod::Put, None, Some(u1)).0;
    assert(once.dom() =~= reg.dom());
    assert(once.insert(port, u2) =~= reg.insert(port, u2));
}

/// A refused request leaves the registry as it was.
pub proof fn law_refusal_changes_nothing(
    reg: Map<u16, Seq<char>>,
    path_port: u16,
    method: ApiMethod,
    port_field: Option<u64>,
    upstream_field: Option<Seq<char>>,
)
    requires
        api_outcome(reg, path_port, method, port_field, upstream_field).1 is Err,
    ensures
        api_outcome(reg, path_port, method, port_field, upstream_field).0 == reg,
{
}

/// A request changes at most the binding of its own port.
pub proof fn law_other_ports_untouched(
    reg: Map<u16, Seq<char>>,
    path_port: u16,
    method: ApiMethod,
    port_field: Option<u64>,
    upstream_field: Option<Seq<char>>,
    q: u16,
)
    requires
        q != affected_port(method, path_port, port_field),
    ensures
        ({
            let after = api_outcome(reg, path_port, method, port_field, upstream_field).0;
            &&& after.contains_key(q) == reg.contains_key(q)
            &&& reg.contains_key(q) ==> after[q] == reg[q]
        }),
{
}

/// Port 0 cannot be named in a request path, so a binding on port 0, which a
/// creation whose port field is a multiple of 65536 makes, is never updated
/// or deleted by any later request.
pub proof fn law_port_zero_binding_is_permanent(
    reg: Map<u16, Seq<char>>,
    path_port: u16,
    method: ApiMethod,
    port_field: Option<u64>,
    upstream_field: Option<Seq<char>>,
)
    requires
        reg.contains_key(0),
    ensures
        ({
            let after = api_outcome(reg, path_port, method, port_field, upstream_field).0;
            &&& after.contains_key(0)
            &&& after[0] == reg[0]
        }),
{
}

/// An accepted request answers with what the registry holds after it, and
/// with the upstream that the request itself gave: a creation or an update
/// names the port and the request's upstream, now bound to that port; a
/// deletion names a port that is no longer bound.
pub proof fn law_reply_reports_new_binding(
    reg: Map<u16, Seq<char>>,
    path_port: u16,
    method: ApiMethod,
    port_field: Option<u64>,
    upstream_field: Option<Seq<char>>,
)
    ensures
        ({
            let (after, reply) = api_outcome(reg, path_port, method, port_field, upstream_field);
            match reply {
                Ok((status, port, Some(u))) => {
                    &&& status !is Deleted
                    &&& upstream_field == Some(u)
                    &&& after.contains_key(port)
                    &&& after[port] == u
                },
                Ok((status, port, None)) => {
                    &&& status is Deleted
                    &&& reg.contains_key(port)
                    &&& !after.contains_key(port)
                },
                Err(_) => true,
            }
        }),
{
}

/// Updating a bound port (not 0) with upstream `u` succeeds, answers with
/// `u` itself, and binds the port to `u`, whatever the body's port field.
pub proof fn law_update_answers_with_new_upstream(
    reg: Map<u16, Seq<char>>,
    port: u16,
    port_field: Option<u64>,
    u: Seq<char>,
)
    requires
        reg.contains_key(port),
        port != 0,
    ensures
        ({
            let (after, reply) = api_outcome(reg, port, ApiMethod::Put, port_field, Some(u));
            &&& reply == Ok::<_, Seq<char>>((ReplyStatus::Updated, port, Some(u)))
            &&& after == reg.insert(port, u)
        }),
{
}

} // verus!
