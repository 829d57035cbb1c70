use metaproxy::api::{ApiMethod, BindingRegistry, BindingRequest, ReplyStatus};
use metaproxy::error::ProxyError;

fn call(
    reg: &mut BindingRegistry<()>,
    port: u16,
    method: ApiMethod,
    body: &BindingRequest,
) -> Result<metaproxy::api::ApiReply, ProxyError> {
    reg.handle_proxy_request(port, method, body, ()).0
}

fn body(port: Option<u64>, upstream: Option<&str>) -> BindingRequest {
    BindingRequest { port, upstream: upstream.map(|u| u.to_string()) }
}

fn refusal(r: Result<metaproxy::api::ApiReply, ProxyError>) -> String {
    match r {
        Err(ProxyError::Custom(m)) => m,
        Err(other) => panic!("unexpected error {:?}", other),
        Ok(_) => panic!("expected a refusal"),
    }
}

#[test]
fn health_of_empty_registry() {
    let reg: BindingRegistry<()> = BindingRegistry::new();
    let health = reg.handle_health_request();
    assert_eq!(health.status, "ok");
    assert!(health.bindings.is_empty());
}

#[test]
fn create_binding() {
    let mut reg: BindingRegistry<()> = BindingRegistry::new();
    let reply = call(&mut reg, 0, ApiMethod::Post, &body(Some(9000), Some("http://127.0.0.1:8080")))
        .ok()
        .unwrap();
    assert_eq!(reply.status, ReplyStatus::Created);
    assert_eq!(reply.port, 9000);
    assert_eq!(reply.upstream.as_deref(), Some("http://127.0.0.1:8080"));
    assert_eq!(reg.upstream_of(9000).as_deref(), Some("http://127.0.0.1:8080"));
    assert_eq!(reg.len(), 1);
    let health = reg.handle_health_request();
    assert_eq!(health.bindings.len(), 1);
    assert_eq!(health.bindings[0].port, 9000);
    assert_eq!(health.bindings[0].upstream, "http://127.0.0.1:8080");
}

#[test]
fn update_and_delete_binding() {
    let mut reg: BindingRegistry<()> = BindingRegistry::new();
    call(&mut reg, 0, ApiMethod::Post, &body(Some(9000), Some("http://127.0.0.1:8080")))
        .ok()
        .unwrap();
    let reply = call(&mut reg, 9000, ApiMethod::Put, &body(None, Some("http://127.0.0.1:9090")))
        .ok()
        .unwrap();
    assert_eq!(reply.status, ReplyStatus::Updated);
    assert_eq!(reg.upstream_of(9000).as_deref(), Some("http://127.0.0.1:9090"));
    let reply = call(&mut reg, 9000, ApiMethod::Delete, &body(None, None)).ok().unwrap();
    assert_eq!(reply.status, ReplyStatus::Deleted);
    assert_eq!(reply.port, 9000);
    assert!(reply.upstream.is_none());
    assert_eq!(reg.upstream_of(9000), None);
    assert_eq!(reg.len(), 0);
}

#[test]
fn refusals_name_their_reason() {
    let mut reg: BindingRegistry<()> = BindingRegistry::new();
    assert_eq!(refusal(call(&mut reg, 0, ApiMethod::Post, &body(None, Some("u")))), "Missing port");
    assert_eq!(refusal(call(&mut reg, 0, ApiMethod::Post, &body(Some(1), None))), "Missing upstream");
    call(&mut reg, 0, ApiMethod::Post, &body(Some(9000), Some("u"))).ok().unwrap();
    assert_eq!(
        refusal(call(&mut reg, 0, ApiMethod::Post, &body(Some(9000), Some("v")))),
        "Binding on port 9000 already exists"
    );
    assert_eq!(reg.upstream_of(9000).as_deref(), Some("u"));
    assert_eq!(refusal(call(&mut reg, 0, ApiMethod::Put, &body(None, Some("v")))), "Missing port in path");
    assert_eq!(refusal(call(&mut reg, 9000, ApiMethod::Put, &body(None, None))), "Missing upstream");
    assert_eq!(
        refusal(call(&mut reg, 9001, ApiMethod::Put, &body(None, Some("v")))),
        "No binding found for port 9001"
    );
    assert_eq!(refusal(call(&mut reg, 0, ApiMethod::Delete, &body(None, None))), "Missing port in path");
    assert_eq!(
        refusal(call(&mut reg, 7, ApiMethod::Delete, &body(None, None))),
        "No binding found for port 7"
    );
    assert_eq!(refusal(call(&mut reg, 9000, ApiMethod::Other, &body(None, None))), "Method not allowed");
    assert_eq!(reg.len(), 1);
}

#[test]
fn creation_port_is_taken_modulo_65536() {
    let mut reg: BindingRegistry<()> = BindingRegistry::new();
    let reply = call(&mut reg, 0, ApiMethod::Post, &body(Some(65536 + 9000), Some("u")))
        .ok()
        .unwrap();
    assert_eq!(reply.port, 9000);
    let reply = call(&mut reg, 0, ApiMethod::Post, &body(Some(65536), Some("z"))).ok().unwrap();
    assert_eq!(reply.port, 0);
    assert_eq!(refusal(call(&mut reg, 0, ApiMethod::Delete, &body(None, None))), "Missing port in path");
    assert_eq!(reg.upstream_of(0).as_deref(), Some("z"));
}

#[test]
fn create_then_delete_restores_registry() {
    let mut reg: BindingRegistry<()> = BindingRegistry::new();
    call(&mut reg, 0, ApiMethod::Post, &body(Some(1), Some("a"))).ok().unwrap();
    call(&mut reg, 0, ApiMethod::Post, &body(Some(2), Some("b"))).ok().unwrap();
    call(&mut reg, 2, ApiMethod::Delete, &body(None, None)).ok().unwrap();
    assert_eq!(reg.len(), 1);
    assert_eq!(reg.upstream_of(1).as_deref(), Some("a"));
    let health = reg.handle_health_request();
    assert_eq!(health.bindings.len(), 1);
    assert_eq!(health.bindings[0].port, 1);
}

#[test]
fn health_lists_every_binding_once() {
    let mut reg: BindingRegistry<()> = BindingRegistry::new();
    for p in 1..=20u64 {
        call(&mut reg, 0, ApiMethod::Post, &body(Some(p), Some(&format!("u{}", p)))).ok().unwrap();
    }
    let health = reg.handle_health_request();
    let mut ports: Vec<u16> = health.bindings.iter().map(|b| b.port).collect();
    ports.sort();
    assert_eq!(ports, (1..=20u16).collect::<Vec<_>>());
    for b in &health.bindings {
        assert_eq!(b.upstream, format!("u{}", b.port));
    }
}

#[test]
fn status_words() {
    assert_eq!(ReplyStatus::Created.word(), "created");
    assert_eq!(ReplyStatus::Updated.word(), "updated");
    assert_eq!(ReplyStatus::Deleted.word(), "deleted");
}

#[test]
fn later_update_wins() {
    let mut reg: BindingRegistry<()> = BindingRegistry::new();
    call(&mut reg, 0, ApiMethod::Post, &body(Some(9000), Some("a"))).ok().unwrap();
    call(&mut reg, 9000, ApiMethod::Put, &body(None, Some("b"))).ok().unwrap();
    call(&mut reg, 9000, ApiMethod::Put, &body(None, Some("c"))).ok().unwrap();
    assert_eq!(reg.upstream_of(9000).as_deref(), Some("c"));
    assert_eq!(reg.len(), 1);
}

#[test]
fn registry_keeps_and_gives_back_listener_handles() {
    let mut reg: BindingRegistry<u32> = BindingRegistry::new();
    let (r, released) = reg.handle_proxy_request(0, ApiMethod::Post, &body(Some(9000), Some("a")), 7);
    assert!(r.is_ok());
    assert_eq!(released, None);
    assert_eq!(reg.handle_of(9000), Some(&7));
    let (r, released) = reg.handle_proxy_request(0, ApiMethod::Post, &body(Some(9000), Some("b")), 8);
    assert!(r.is_err());
    assert_eq!(released, Some(8));
    assert_eq!(reg.handle_of(9000), Some(&7));
    let (r, released) = reg.handle_proxy_request(9000, ApiMethod::Put, &body(None, Some("c")), 9);
    assert!(r.is_ok());
    assert_eq!(released, Some(9));
    assert_eq!(reg.handle_of(9000), Some(&7));
    let (r, released) = reg.handle_proxy_request(9000, ApiMethod::Delete, &body(None, None), 10);
    assert!(r.is_ok());
    assert_eq!(released, Some(7));
    assert_eq!(reg.handle_of(9000), None);
}
