//! The requests, answered by a server in memory.
use std::collections::BTreeMap;

use carson::agent::session::{AgentError, AgentSessions, SessionConfig};
use carson::agent::turn::{Answer, Ask, Turn};
use carson::api::agents;
use carson::api::auth::{authorize, generate_token, resolve_api_token, token_from, TokenSource};
use carson::api::message::{done_item, failure_item, Gathered, MessageReq};
use carson::api::providers;
use carson::api::reply::{config_info, health, response_headers, status, Reply, Server};
use carson::api::sessions::{
    self, ChangeOutcome, Place, SandboxReq, SessionEntry, SessionResponse, SessionUpdateReq,
};
use carson::api::tools::{self, Saved, ToolListResponse, ToolReq};
use carson::guest::time;
use carson::host::builtin;
use carson::host::drivers::Usage;
use carson::host::echo::EchoDriver;
use carson::host::hub::{sse_frame, SseItem};
use carson::host::registry::{AgentDef, ProviderDef};
use carson::host::state::{event_item, LlmHost};
use carson::host::store::Sandbox;
use carson::host::tools::{invoke_target, list_tools, Capabilities, ToolDef, ToolError, ToolRunner};
use carson::json::{self, Json};
use carson::shell::vars::Env;

fn text(j: &Json, key: &str) -> String {
    j.get(key).and_then(|x| x.as_str()).unwrap_or_default().to_string()
}

fn texts(j: &Json, key: &str) -> Vec<String> {
    j.get(key)
        .and_then(|x| x.as_array())
        .map(|v| v.iter().filter_map(|x| x.as_str().map(String::from)).collect())
        .unwrap_or_default()
}

fn maybe(j: &Json, key: &str) -> Option<String> {
    j.get(key).and_then(|x| x.as_str()).map(String::from)
}

struct World {
    llm: LlmHost,
    runner: ToolRunner,
    versions: Vec<AgentDef>,
    current: BTreeMap<String, String>,
    customs: Vec<ToolDef>,
    providers: Vec<ProviderDef>,
    entries: Vec<(String, SessionEntry)>,
    agents: AgentSessions,
    sandboxes: Vec<Sandbox>,
    clock: u64,
}

impl World {
    fn new() -> Self {
        let mut llm = LlmHost::new();
        llm.register_driver("mock");
        let mut runner = ToolRunner::new();
        runner.register(
            &ToolDef {
                id: builtin::builtin_id("time"),
                name: "time".into(),
                description: String::new(),
                parameters: Json::Obj(vec![]),
                env: Env::new(),
            },
            false,
        );
        World {
            llm,
            runner,
            versions: Vec::new(),
            current: BTreeMap::new(),
            customs: Vec::new(),
            providers: Vec::new(),
            entries: Vec::new(),
            agents: AgentSessions::new(),
            sandboxes: Vec::new(),
            clock: 1_000,
        }
    }

    fn with_coder() -> Self {
        let mut w = World::new();
        let body = format!(
            r#"{{"name":"coder","model":"mock/mock","system_prompt":"You are a coding agent.","capabilities":["{}"]}}"#,
            builtin::builtin_id("time")
        );
        let (status, v) = w.post("/api/agents", &body);
        assert_eq!(status, 201, "{v:?}");
        w
    }

    fn def(&self, id: &str) -> Option<&AgentDef> {
        self.versions.iter().find(|d| d.id == id)
    }

    fn read_agent(&self, j: &Json) -> AgentDef {
        let mut def = AgentDef::named(text(j, "name"), text(j, "model"));
        def.id = sessions::new_id();
        def.system_prompt = text(j, "system_prompt");
        def.capabilities = texts(j, "capabilities");
        def
    }

    fn stored_names(&self, def: &AgentDef) -> Vec<Option<String>> {
        def.capabilities
            .iter()
            .map(|id| self.customs.iter().find(|t| &t.id == id).map(|t| t.name.clone()))
            .collect()
    }

    fn config_of(&self, def: &AgentDef) -> SessionConfig {
        SessionConfig {
            agent_version_id: def.id.clone(),
            system_prompt: def.system_prompt.clone(),
            model: def.model.clone(),
            capabilities_json: "[]".into(),
            max_history: def.max_history as u32,
            compact_at: 102_400,
            auto_compact: def.auto_compact,
        }
    }

    fn entry(&self, id: &str) -> Option<SessionEntry> {
        self.entries.iter().find(|(k, _)| k == id).map(|(_, e)| e.copy())
    }

    fn put_entry(&mut self, id: &str, e: SessionEntry) {
        self.entries.retain(|(k, _)| k != id);
        self.entries.push((id.to_string(), e));
    }

    /// Moves a session onto the current version of its agent before a turn.
    fn sync(&mut self, id: &str) {
        let entry = self.entry(id).unwrap();
        let current = self.current.get(&entry.agent_name).cloned();
        if sessions::must_move(&entry, &current) {
            let version = current.unwrap();
            let state = self.agents.session_state(id).unwrap();
            let config = self.config_of(self.def(&version).unwrap());
            self.agents.destroy_session(id).unwrap();
            self.agents.restore_session(id.to_string(), config, state);
            let moved = sessions::moved_entry(&entry, &entry.agent_name, &version);
            self.put_entry(id, moved);
        }
    }

    fn turn(&mut self, id: &str, content: &str) -> Result<Vec<SseItem>, AgentError> {
        self.sync(id);
        let version = self.entry(id).unwrap().agent_version_id;
        let caps = Capabilities::from_ids(self.def(&version).unwrap().capabilities.clone());
        let mut session = self.agents.check_out(id)?;
        session.open_turn(content.to_string(), self.clock);
        let mut turn = Turn::new(session);
        let mut items = Vec::new();
        while !turn.is_over() {
            let answer = match turn.ask() {
                Ask::Cancelled => Answer::Flag(false),
                Ask::ListTools => Answer::Tools(list_tools(&caps, &self.runner.specs())),
                Ask::StreamStart(request) => {
                    let started = self.llm.stream_start(request);
                    match started {
                        Ok(s) => {
                            let (events, usage) = EchoDriver.stream(&s.request);
                            for e in events {
                                self.llm.deliver(s.handle, e);
                            }
                            self.llm.settle(s.handle, Ok(usage));
                            Answer::Opened(Ok(s.handle))
                        }
                        Err(e) => Answer::Opened(Err(e)),
                    }
                }
                Ask::StreamNext(h) => Answer::Next(self.llm.stream_next(h)),
                Ask::StreamUsage(h) => Answer::Usage(self.llm.stream_usage(h).ok()),
                Ask::StreamClose(h) => {
                    self.llm.stream_close(h);
                    Answer::Done
                }
                Ask::Emit { kind, data } => {
                    items.push(event_item(kind, data));
                    Answer::Done
                }
                Ask::Invoke { name, .. } => {
                    Answer::Ran(match invoke_target(&caps, &self.runner.specs(), &name) {
                        Ok(_) => Ok(time::run()),
                        Err(e) => Err(e),
                    })
                }
                Ask::Nothing => Answer::Done,
            };
            self.clock += 1;
            turn = turn.step(answer, self.clock);
        }
        let mut session = turn.session;
        session.conclude_turn(self.clock);
        self.agents.check_in(id.to_string(), session);
        let usage = self.agents.session_usage(id)?;
        items.push(done_item(&usage));
        Ok(items)
    }

    fn save_tool(&mut self, j: &Json, id: Option<String>) -> Reply {
        let req = ToolReq {
            name: text(j, "name"),
            description: text(j, "description"),
            parameters: Json::Obj(vec![]),
            env: Env::new(),
            wasm_b64: maybe(j, "wasm_b64"),
        };
        let refused = match &id {
            None => tools::refuse_new_tool(&req.name, &self.customs),
            Some(id) => {
                let was = self.customs.iter().find(|t| &t.id == id).map(|t| t.name.clone());
                tools::refuse_change(id, &req.name, tools::is_bundled(id), &was, &self.customs)
            }
        };
        if let Some(r) = refused {
            return r;
        }
        if let Err(r) = tools::tool_module(&req.wasm_b64, id.is_none(), None) {
            return r;
        }
        let def = tools::tool_of(&req, &id);
        let reply = tools::tool_saved(&def.id, &def.name, id.is_none(), Saved::Done);
        self.customs.retain(|t| t.id != def.id);
        self.customs.push(def);
        reply
    }

    fn save_provider(&mut self, j: &Json, path: Option<String>) -> Reply {
        let def = ProviderDef {
            name: text(j, "name"),
            base_url: text(j, "base_url"),
            api_key: maybe(j, "api_key"),
        };
        if let Some(r) = providers::refuse_provider(&def, &path) {
            return r;
        }
        let name = def.name.clone();
        self.providers.retain(|p| p.name != name);
        self.providers.push(def);
        providers::provider_saved(&name, path.is_none(), Ok(()))
    }

    fn handle(&mut self, method: &str, uri: &str, body: &str) -> Reply {
        let j = json::read(body).unwrap_or(Json::Null);
        let parts: Vec<&str> = uri.trim_start_matches("/api/").split('/').collect();
        match (method, parts.as_slice()) {
            ("GET", ["health"]) => health(),
            ("GET", ["status"]) => status(
                self.current.len(),
                self.entries.len(),
                self.providers.len(),
                self.customs.len(),
                &Server::default().bind(),
            ),
            ("GET", ["config"]) => config_info(&Server::default().bind()),
            ("GET", ["agents"]) => {
                let found = self.current.values().map(|v| self.def(v).unwrap().copy()).collect();
                agents::list_agents(Ok(found))
            }
            ("GET", ["agents", name, "versions"]) => {
                let found =
                    self.versions.iter().filter(|d| d.name == *name).map(|d| d.copy()).collect();
                agents::list_agent_versions(Ok(found))
            }
            ("POST", ["agents"]) => {
                let def = self.read_agent(&j);
                let taken = self.current.contains_key(&def.name);
                let stored = self.stored_names(&def);
                if let Some(r) = agents::refuse_new_agent(&def, taken, &self.llm, &stored) {
                    return r;
                }
                self.current.insert(def.name.clone(), def.id.clone());
                let reply = agents::agent_saved(&def.name, &def.id, true, Ok(()));
                self.versions.push(def);
                reply
            }
            ("PUT", ["agents", name]) => {
                let def = self.read_agent(&j);
                let known = self.current.contains_key(*name);
                let stored = self.stored_names(&def);
                if let Some(r) = agents::refuse_new_version(&def, name, known, &self.llm, &stored) {
                    return r;
                }
                self.current.insert(def.name.clone(), def.id.clone());
                let reply = agents::agent_saved(&def.name, &def.id, false, Ok(()));
                self.versions.push(def);
                reply
            }
            ("DELETE", ["agents", name]) => {
                let n = usize::from(self.current.remove(*name).is_some());
                agents::agent_deleted(name, Ok(n))
            }
            ("GET", ["providers"]) => providers::list_providers(Ok(self
                .providers
                .iter()
                .map(|p| ProviderDef {
                    name: p.name.clone(),
                    base_url: p.base_url.clone(),
                    api_key: p.api_key.clone(),
                })
                .collect())),
            ("POST", ["providers"]) => self.save_provider(&j, None),
            ("PUT", ["providers", name]) => self.save_provider(&j, Some(name.to_string())),
            ("DELETE", ["providers", name]) => {
                self.providers.retain(|p| p.name != *name);
                providers::provider_deleted(name, Ok(()))
            }
            ("GET", ["tools"]) => {
                tools::list_tools(&self.runner, Ok(self.customs.iter().map(|t| t.copy()).collect()))
            }
            ("POST", ["tools"]) => self.save_tool(&j, None),
            ("PUT", ["tools", id]) => self.save_tool(&j, Some(id.to_string())),
            ("DELETE", ["tools", id]) => {
                let before = self.customs.len();
                if !tools::is_bundled(id) {
                    self.customs.retain(|t| t.id != *id);
                }
                let removed = before - self.customs.len();
                tools::tool_deleted(id, tools::is_bundled(id), Ok(removed))
            }
            ("GET", ["sessions"]) => sessions::list_sessions(&self.entries),
            ("POST", ["sessions"]) => {
                let agent = text(&j, "agent");
                let Some(version) = self.current.get(&agent).cloned() else {
                    return sessions::agent_missing();
                };
                let wanted = maybe(&j, "sandbox_id");
                let known = self.sandboxes.iter().any(|s| Some(&s.id) == wanted.as_ref());
                let place = match sessions::place_session(&wanted, known, sessions::new_id()) {
                    Ok(p) => p,
                    Err(r) => return r,
                };
                let sandbox = match place {
                    Place::Shared(id) => id,
                    Place::Fresh { id, name } => {
                        self.sandboxes.push(Sandbox { id: id.clone(), name, created_at: 0 });
                        id
                    }
                };
                let id = sessions::new_id();
                let config = self.config_of(self.def(&version).unwrap());
                let made = self.agents.create_session(id.clone(), config);
                match sessions::session_created(&id, &agent, &version, &sandbox, made, 0) {
                    Ok((entry, reply)) => {
                        self.put_entry(&id, entry);
                        reply
                    }
                    Err(r) => r,
                }
            }
            (_, ["sessions", id, ..]) if self.entry(id).is_none() => sessions::session_missing(),
            ("GET", ["sessions", id]) => {
                let entry = self.entry(id).unwrap();
                let model = self.def(&entry.agent_version_id).map(|d| d.model.clone());
                sessions::get_session(id, &entry, model, &self.agents.session_history(id).unwrap())
            }
            ("DELETE", ["sessions", id]) => {
                self.agents.destroy_session(id).unwrap();
                self.entries.retain(|(k, _)| k != id);
                sessions::session_destroyed(id)
            }
            ("PUT", ["sessions", id]) => {
                let req = SessionUpdateReq { name: maybe(&j, "name"), sandbox_id: maybe(&j, "sandbox_id") };
                let known = self.sandboxes.iter().any(|s| Some(&s.id) == req.sandbox_id.as_ref());
                let done = ChangeOutcome { renamed: true, sandbox_known: known, moved: true };
                match sessions::update_session(id, &self.entry(id).unwrap(), &req, &done) {
                    Ok((entry, reply)) => {
                        self.put_entry(id, entry);
                        reply
                    }
                    Err(r) => r,
                }
            }
            ("POST", ["sessions", id, "stop"]) => sessions::session_stopped(id),
            ("POST", ["sessions", id, "reset"]) => {
                sessions::session_reset(id, self.agents.reset_session(id))
            }
            ("POST", ["sessions", id, "compact"]) => {
                let done = self.agents.check_out(id).map(|s| {
                    let over = Turn::compact(s);
                    let session = over.session;
                    self.agents.check_in(id.to_string(), session);
                });
                sessions::session_compacted(id, done)
            }
            ("POST", ["sessions", id, "message"]) => {
                let req = MessageReq { content: text(&j, "content") };
                let mut gathered = Gathered::new();
                for item in self.turn(id, &req.content).unwrap() {
                    gathered.take(&item);
                }
                gathered.finish(None)
            }
            ("POST", ["sandboxes"]) => {
                let req = SandboxReq { name: text(&j, "name") };
                let id = sessions::new_id();
                let reply = sessions::sandbox_created(&id, &req, Ok(()));
                self.sandboxes.push(Sandbox { id, name: req.name, created_at: 0 });
                reply
            }
            ("GET", ["sandboxes"]) => sessions::list_sandboxes(Ok(self
                .sandboxes
                .iter()
                .map(|s| Sandbox { id: s.id.clone(), name: s.name.clone(), created_at: s.created_at })
                .collect())),
            ("PUT", ["sandboxes", id]) => {
                let req = SandboxReq { name: text(&j, "name") };
                let known = self.sandboxes.iter().any(|s| s.id == *id);
                sessions::sandbox_renamed(id, &req, known, known)
            }
            _ => Reply::error(404, "not found"),
        }
    }

    fn get(&mut self, uri: &str) -> (u16, String) {
        let r = self.handle("GET", uri, "");
        (r.status, r.text())
    }

    fn call(&mut self, method: &str, uri: &str, body: &str) -> (u16, Json) {
        let r = self.handle(method, uri, body);
        (r.status, json::read(&r.text()).unwrap())
    }

    fn post(&mut self, uri: &str, body: &str) -> (u16, Json) {
        self.call("POST", uri, body)
    }

    fn put(&mut self, uri: &str, body: &str) -> (u16, Json) {
        self.call("PUT", uri, body)
    }

    fn del(&mut self, uri: &str) -> (u16, Json) {
        self.call("DELETE", uri, "")
    }

    fn stream(&mut self, id: &str, content: &str) -> String {
        self.turn(id, content).unwrap().iter().map(sse_frame).collect()
    }
}

/// Some bytes in base64.
const WASM: &str = "AGFzbQEAAAA=";

#[test]
fn api_health_is_public_and_carries_security_headers() {
    let mut app = World::new();
    let (status, body) = app.get("/api/health");
    assert_eq!(status, 200);
    assert!(body.contains("\"status\":\"ok\""));
    let key = Some("sekret".to_string());
    assert!(authorize(&key, "/api/health", &None).is_none());
    let id = sessions::new_id();
    let headers = response_headers(id.clone());
    let header = |name: &str| headers.iter().any(|(k, _)| k == name);
    assert!(header("x-request-id"));
    assert!(header("x-frame-options"));
    assert!(header("content-security-policy"));
    assert!(header("x-content-type-options"));
    assert_eq!(
        headers,
        vec![
            ("x-request-id".to_string(), id.clone()),
            ("x-content-type-options".to_string(), "nosniff".to_string()),
            ("x-frame-options".to_string(), "DENY".to_string()),
            ("content-security-policy".to_string(), "default-src 'self'".to_string()),
        ]
    );
    assert_ne!(id, sessions::new_id());
}

#[test]
fn auth_requires_valid_bearer_token() {
    let key = Some("sekret".to_string());
    let refused = |bearer: Option<&str>| {
        authorize(&key, "/api/agents", &bearer.map(String::from)).map(|r| r.status)
    };
    assert_eq!(refused(None), Some(401));
    assert_eq!(refused(Some("wrong")), Some(401));
    assert_eq!(refused(Some("sekret")), None);
}

#[test]
fn no_auth_required_when_api_key_unset() {
    assert!(authorize(&Some(String::new()), "/api/agents", &None).is_none());
    assert!(authorize(&None, "/api/agents", &None).is_none());
}

#[test]
fn api_read_endpoints_with_empty_registry() {
    let mut app = World::new();
    for path in [
        "/api/agents",
        "/api/sessions",
        "/api/status",
        "/api/config",
        "/api/providers",
        "/api/tools",
    ] {
        let (status, body) = app.get(path);
        assert_eq!(status, 200, "{path}: {body}");
    }
}

#[test]
fn api_unknown_path_is_404() {
    let mut app = World::new();
    assert_eq!(app.get("/api/nope").0, 404);
}

#[test]
fn provider_crud_roundtrip() {
    let mut app = World::new();
    let (status, body) = app.post(
        "/api/providers",
        r#"{"name":"groq","base_url":"https://api.groq.com/openai/v1","api_key":"gsk-secret"}"#,
    );
    assert_eq!(status, 201, "{body:?}");
    let (status, body) = app.get("/api/providers");
    assert_eq!(status, 200);
    assert!(body.contains("groq"), "{body}");
    assert!(body.contains("gsk-secret"), "api key is echoed back so edits round-trip: {body}");

    // Updating only the base URL keeps the stored key.
    let (status, _) = app.put(
        "/api/providers/groq",
        r#"{"name":"groq","base_url":"https://changed.example","api_key":"gsk-secret"}"#,
    );
    assert_eq!(status, 200);
    let (_, body) = app.get("/api/providers");
    assert!(body.contains("changed.example"), "{body}");
    assert!(body.contains("gsk-secret"), "key survives base_url edit: {body}");

    // Explicitly blanking the key clears it.
    let (status, _) = app.put(
        "/api/providers/groq",
        r#"{"name":"groq","base_url":"https://changed.example","api_key":null}"#,
    );
    assert_eq!(status, 200);
    let (_, body) = app.get("/api/providers");
    assert!(!body.contains("gsk-secret"), "{body}");
    let (status, _) = app.del("/api/providers/groq");
    assert_eq!(status, 200);
}

#[test]
fn provider_requires_base_url() {
    let mut app = World::new();
    let (status, body) =
        app.post("/api/providers", r#"{"name":"groq","base_url":"","api_key":null}"#);
    assert_eq!(status, 400, "{body:?}");
}

fn tool_body(name: &str) -> String {
    format!(r#"{{"name":"{name}","description":"d","parameters":{{}},"env":{{}},"wasm_b64":"{WASM}"}}"#)
}

#[test]
fn custom_tool_name_charset_is_validated() {
    let mut app = World::new();
    for bad in ["bad.name", "", "a b", "ns/x"] {
        let (status, body) = app.post("/api/tools", &tool_body(bad));
        assert_eq!(status, 400, "{bad}: {body:?}");
    }
    // A legal name passes validation (201).
    let (status, body) = app.post("/api/tools", &tool_body("good-name_1"));
    assert_eq!(status, 201, "{body:?}");
}

#[test]
fn custom_tool_roundtrip() {
    let mut app = World::new();
    let (status, created) = app.post("/api/tools", &tool_body("x"));
    assert_eq!(status, 201, "{created:?}");
    let id = text(&created, "id");

    let (status, body) = app.get("/api/tools");
    assert_eq!(status, 200);
    assert!(body.contains("\"x\""), "{body}");

    // Same name again conflicts.
    let (status, _) = app.post("/api/tools", &tool_body("x"));
    assert_eq!(status, 409);

    let (status, _) = app.del(&format!("/api/tools/{id}"));
    assert_eq!(status, 200);
}

/// A custom tool may reuse a bundled tool's bare name; agents are the
/// disambiguation point.
#[test]
fn custom_tool_may_reuse_a_bundled_name() {
    let mut app = World::new();
    let (status, body) = app.post("/api/tools", &tool_body("time"));
    assert_eq!(status, 201, "{body:?}");
}

#[test]
fn a_module_has_to_be_sent_in_base64() {
    let mut app = World::new();
    let (status, body) = app.post("/api/tools", r#"{"name":"x","wasm_b64":"***"}"#);
    assert_eq!(status, 400);
    assert!(text(&body, "error").starts_with("invalid base64 wasm: "), "{body:?}");
    let (status, body) = app.post("/api/tools", r#"{"name":"x","wasm_b64":""}"#);
    assert_eq!(status, 400);
    assert_eq!(text(&body, "error"), "wasm must not be empty");
    let (status, body) = app.post("/api/tools", r#"{"name":"x"}"#);
    assert_eq!(status, 400);
    assert_eq!(text(&body, "error"), "wasm_b64 is required");
    assert_eq!(
        tools::tool_module(&Some(WASM.to_string()), true, None).unwrap(),
        b"\0asm\x01\0\0\0".to_vec()
    );
    assert_eq!(tools::tool_module(&None, false, Some(vec![1])).unwrap(), vec![1]);
}

// ---- sessions ----

fn new_session(app: &mut World, agent: &str) -> (u16, Json) {
    app.post("/api/sessions", &format!(r#"{{"agent":"{agent}"}}"#))
}

#[test]
fn session_ids_are_uuids() {
    let mut app = World::with_coder();
    let (status, created) = new_session(&mut app, "coder");
    assert_eq!(status, 201, "{created:?}");
    let id = text(&created, "session_id");
    assert_eq!(id.len(), 36, "uuid format: {id}");
    assert!(created.get("agent_version_id").and_then(|x| x.as_str()).is_some());
}

#[test]
fn session_create_and_stream_roundtrip() {
    let mut app = World::with_coder();
    let (_, created) = new_session(&mut app, "coder");
    let body = app.stream(&text(&created, "session_id"), "hello");
    assert!(body.contains("event: chunk"), "{body}");
    assert!(body.contains("Echo: "), "{body}");
    assert!(body.contains("\"hello\""), "{body}");
    assert!(body.contains("event: done"), "{body}");
    assert!(body.contains("\"done\":true"), "{body}");
    assert!(body.contains("\"usage\""), "{body}");
}

#[test]
fn message_returns_the_echo_reply() {
    let mut app = World::with_coder();
    let (_, created) = new_session(&mut app, "coder");
    let id = text(&created, "session_id");
    let (status, body) = app.post(&format!("/api/sessions/{id}/message"), r#"{"content":"hello"}"#);
    assert_eq!(status, 200, "{body:?}");
    assert_eq!(text(&body, "response"), "Echo: hello");
    let usage = body.get("usage").unwrap();
    assert!(usage.get("input_tokens").unwrap().as_u64().unwrap() > 0);
}

#[test]
fn unknown_agent_is_404() {
    let mut app = World::with_coder();
    let (status, body) = new_session(&mut app, "nope");
    assert_eq!(status, 404, "{body:?}");
}

#[test]
fn deleting_an_unknown_agent_is_404() {
    let mut app = World::with_coder();
    let (status, body) = app.del("/api/agents/nope");
    assert_eq!(status, 404, "{body:?}");
    assert_eq!(text(&body, "error"), "unknown agent name");
    let (status, body) = app.del("/api/agents/coder");
    assert_eq!(status, 200, "{body:?}");
    assert_eq!(text(&body, "status"), "deleted");
    let (status, _) = app.del("/api/agents/coder");
    assert_eq!(status, 404);
    assert_eq!(agents::agent_deleted("coder", Err("locked".to_string())).status, 500);
}

#[test]
fn counts_are_told_as_they_are_given() {
    let list = ToolListResponse { builtins: Vec::new(), customs: Vec::new(), total: 7 };
    assert_eq!(json::write(&list.to_json()), r#"{"builtins":[],"customs":[],"total":7}"#);
    let session = SessionResponse {
        session_id: "s".to_string(),
        agent: "a".to_string(),
        agent_version_id: "v".to_string(),
        name: None,
        sandbox_id: "b".to_string(),
        model: None,
        message_count: 3,
        messages: Vec::new(),
    };
    assert!(json::write(&session.to_json()).contains("\"message_count\":3"));
}

#[test]
fn session_lifecycle_endpoints() {
    let mut app = World::with_coder();
    let (_, created) = new_session(&mut app, "coder");
    let uri = format!("/api/sessions/{}", text(&created, "session_id"));

    let (status, body) = app.get(&uri);
    assert_eq!(status, 200, "{body}");
    assert!(body.contains("\"message_count\":0"));

    let (status, _) = app.post(&format!("{uri}/reset"), "{}");
    assert_eq!(status, 200);
    let (status, _) = app.post(&format!("{uri}/stop"), "{}");
    assert_eq!(status, 200);
    let (status, _) = app.del(&uri);
    assert_eq!(status, 200);
    let (status, _) = app.get(&uri);
    assert_eq!(status, 404);
}

/// The block log records every message kind in stream order, with metadata.
#[test]
fn get_session_returns_ordered_blocks_with_metadata() {
    let mut app = World::with_coder();
    let (_, created) = new_session(&mut app, "coder");
    let id = text(&created, "session_id");
    let (status, _) =
        app.post(&format!("/api/sessions/{id}/message"), r#"{"content":"what time is it?"}"#);
    assert_eq!(status, 200);

    let (status, body) = app.get(&format!("/api/sessions/{id}"));
    assert_eq!(status, 200, "{body}");
    let v = json::read(&body).unwrap();
    assert_eq!(text(&v, "model"), "mock/mock");
    let msgs = v.get("messages").unwrap().as_array().unwrap();
    let kinds: Vec<String> = msgs.iter().map(|b| text(b, "kind")).collect();
    assert_eq!(kinds, ["user", "tool-use", "tool-result", "text"]);
    assert_eq!(msgs[2].get("tool_call_id"), msgs[1].get("tool_call_id"), "result links to its call");
    assert_eq!(text(&msgs[1], "tool_name"), "time");
    assert!(msgs[1].get("created_at_ms").unwrap().as_u64().unwrap() > 0);
    // The final text carries its LLM usage.
    assert!(msgs[3].get("output_tokens").unwrap().as_u64().unwrap() > 0);

    // Reload via a second GET — thinking/tool data survives because it is persisted.
    let (status, body2) = app.get(&format!("/api/sessions/{id}"));
    assert_eq!(status, 200);
    assert_eq!(body, body2);
}

#[test]
fn agent_model_requires_known_provider() {
    let mut app = World::with_coder();
    let (status, body) = app.post(
        "/api/agents",
        r#"{"name":"writer","model":"ghost/model","system_prompt":"x"}"#,
    );
    assert_eq!(status, 400, "{body:?}");
}

#[test]
fn compact_endpoint() {
    let mut app = World::with_coder();
    let (status, created) = new_session(&mut app, "coder");
    assert_eq!(status, 201);
    let id = text(&created, "session_id");
    let (status, body) = app.post(&format!("/api/sessions/{id}/compact"), "{}");
    assert_eq!(status, 200, "{body:?}");
    assert_eq!(text(&body, "status"), "compacted");

    let (status, body) =
        app.post("/api/sessions/00000000-0000-0000-0000-000000000000/compact", "{}");
    assert_eq!(status, 404, "{body:?}");
}

fn writer(prompt: &str, caps: &[String]) -> String {
    let caps: Vec<String> = caps.iter().map(|c| format!("\"{c}\"")).collect();
    format!(
        r#"{{"name":"writer","model":"mock/mock","system_prompt":"{prompt}","capabilities":[{}]}}"#,
        caps.join(",")
    )
}

#[test]
fn agent_crud_via_api() {
    let mut app = World::with_coder();
    let time_id = builtin::builtin_id("time");
    let (status, created) = app.post("/api/agents", &writer("write", &[time_id]));
    assert_eq!(status, 201, "{created:?}");
    let v1 = text(&created, "version_id");

    let (status, body) = app.get("/api/agents");
    assert_eq!(status, 200);
    assert!(body.contains("\"name\":\"writer\""), "{body}");
    assert!(body.contains("\"name\":\"coder\""), "{body}");

    let (status, sess) = new_session(&mut app, "writer");
    assert_eq!(status, 201, "{sess:?}");

    // Update creates a NEW version and repoints the name.
    let (status, updated) = app.put("/api/agents/writer", &writer("new prompt", &[]));
    assert_eq!(status, 200, "{updated:?}");
    let v2 = text(&updated, "version_id");
    assert_ne!(v1, v2);

    let (_, body) = app.get("/api/agents");
    assert!(body.contains("\"system_prompt\":\"new prompt\""), "{body}");

    // History keeps both versions.
    let (status, body) = app.get("/api/agents/writer/versions");
    assert_eq!(status, 200, "{body}");
    let versions = json::read(&body).unwrap();
    assert_eq!(versions.get("total").unwrap().as_u64(), Some(2));
}

/// Sessions resolve their agent by name on every turn: after the name is
/// repointed, the next message runs against the new version's config while
/// prior blocks stay in the log.
#[test]
fn sessions_follow_the_current_agent_version() {
    let mut app = World::with_coder();
    let time_id = builtin::builtin_id("time");
    let (status, created) = app.post("/api/agents", &writer("v1", &[time_id]));
    assert_eq!(status, 201, "{created:?}");
    let v1 = text(&created, "version_id");

    let (_, sess) = new_session(&mut app, "writer");
    let session_id = text(&sess, "session_id");
    assert_eq!(text(&sess, "agent_version_id"), v1);

    // Repoint: v2 drops every capability.
    let (status, updated) = app.put("/api/agents/writer", &writer("v2", &[]));
    assert_eq!(status, 200, "{updated:?}");
    let v2 = text(&updated, "version_id");
    assert_ne!(v1, v2);

    // New sessions land on v2 immediately.
    let (_, new_sess) = new_session(&mut app, "writer");
    assert_eq!(text(&new_sess, "agent_version_id"), v2);

    // The existing session still reports its pinned version until its next
    // turn syncs it.
    let (_, view) = app.get(&format!("/api/sessions/{session_id}"));
    assert_eq!(text(&json::read(&view).unwrap(), "agent_version_id"), v1);

    // The next message migrates it onto v2 and keeps the block history.
    let body = app.stream(&session_id, "hi");
    assert!(body.contains("Echo: "), "{body}");

    let (_, view) = app.get(&format!("/api/sessions/{session_id}"));
    let view = json::read(&view).unwrap();
    assert_eq!(text(&view, "agent_version_id"), v2);
    let msgs = view.get("messages").unwrap().as_array().unwrap();
    assert_eq!(text(&msgs[0], "kind"), "user", "history preserved");
}

/// Deleting an agent removes only the pointer; its versions and pinned
/// sessions remain fully functional.
#[test]
fn delete_agent_keeps_history_rows_and_sessions() {
    let mut app = World::with_coder();
    let (status, _) =
        app.post("/api/agents", r#"{"name":"temp","model":"mock/mock","system_prompt":"temp"}"#);
    assert_eq!(status, 201);
    let (status, sess) = new_session(&mut app, "temp");
    assert_eq!(status, 201, "{sess:?}");
    let session_id = text(&sess, "session_id");

    let (status, deleted) = app.del("/api/agents/temp");
    assert_eq!(status, 200, "{deleted:?}");
    assert_eq!(text(&deleted, "status"), "deleted");

    // The pointer is gone: no more new sessions on this name…
    let (status, _) = new_session(&mut app, "temp");
    assert_eq!(status, 404);

    // …and it no longer lists among current agents.
    let (_, body) = app.get("/api/agents");
    assert!(!body.contains("\"name\":\"temp\""), "{body}");

    // But the existing session keeps working against its kept version.
    let (status, body) = app.get(&format!("/api/sessions/{session_id}"));
    assert_eq!(status, 200, "{body}");
    let stream = app.stream(&session_id, "hi");
    assert!(stream.contains("Echo: "), "{stream}");
}

#[test]
fn update_agent_name_mismatch_rejected() {
    let mut app = World::with_coder();
    let (status, body) = app.put("/api/agents/coder", r#"{"name":"other","model":"mock/mock"}"#);
    assert_eq!(status, 400, "{body:?}");
}

/// Tools are listed as two distinct groups; bundled tools carry their
/// deterministic ids and cannot be modified or deleted.
#[test]
fn tools_are_grouped_and_bundled_tools_are_immutable() {
    let mut app = World::with_coder();
    let (status, body) = app.get("/api/tools");
    assert_eq!(status, 200, "{body}");
    let v = json::read(&body).unwrap();
    let builtins = v.get("builtins").unwrap().as_array().unwrap();
    assert_eq!(builtins.len(), 1);
    assert_eq!(text(&builtins[0], "name"), "time");
    assert_eq!(v.get("customs").unwrap().as_array().unwrap().len(), 0);

    // Bundled tools are immutable (PUT carries a valid body to pass
    // extraction and reach the guard).
    let uri = format!("/api/tools/{}", text(&builtins[0], "id"));
    let (status, body) = app.put(&uri, &tool_body("time"));
    assert_eq!(status, 400, "{body:?}");
    let (status, body) = app.del(&uri);
    assert_eq!(status, 400, "{body:?}");
}

#[test]
fn every_bundled_tool_that_runs_is_listed() {
    let mut app = World::new();
    for t in builtin::builtin_tools() {
        app.runner.register(&t, t.name == "bash");
    }
    let (_, body) = app.get("/api/tools");
    let v = json::read(&body).unwrap();
    assert_eq!(v.get("builtins").unwrap().as_array().unwrap().len(), 2);
    assert_eq!(v.get("total").unwrap().as_u64(), Some(2));
}

/// Custom tools may reuse a bundled tool's name (agents disambiguate by id),
/// but duplicate custom names are rejected.
#[test]
fn custom_tools_can_shadow_builtin_names_but_not_each_other() {
    let mut app = World::with_coder();
    // Reusing the bundled name "time" is fine.
    let (status, created) = app.post("/api/tools", &tool_body("time"));
    assert_eq!(status, 201, "{created:?}");
    assert_ne!(text(&created, "id"), builtin::builtin_id("time"));

    // A second custom with the same name conflicts.
    let (status, body) = app.post("/api/tools", &tool_body("time"));
    assert_eq!(status, 409, "{body:?}");

    // The customs array now holds it.
    let (_, body) = app.get("/api/tools");
    let v = json::read(&body).unwrap();
    assert_eq!(v.get("customs").unwrap().as_array().unwrap().len(), 1);
}

/// An agent cannot select a bundled and a custom tool that share a bare name.
#[test]
fn agent_rejects_two_tools_with_the_same_name() {
    let mut app = World::with_coder();
    let (_, created) = app.post("/api/tools", &tool_body("time"));
    let caps = [builtin::builtin_id("time"), text(&created, "id")];
    let body = writer("x", &caps).replace("writer", "ambiguous");
    let (status, body) = app.post("/api/agents", &body);
    assert_eq!(status, 400, "{body:?}");
    assert!(
        text(&body, "error").contains("duplicate tool 'time'"),
        "expected duplicate-name error: {body:?}"
    );
}

/// Per-block provenance survives an agent edit: messages generated before a
/// repoint keep the old version id, only new turns stamp the new one.
#[test]
fn message_blocks_keep_their_original_agent_version() {
    let mut app = World::with_coder();
    let (status, created) = app.post("/api/agents", &writer("v1", &[]));
    assert_eq!(status, 201, "{created:?}");
    let v1 = text(&created, "version_id");
    let (_, sess) = new_session(&mut app, "writer");
    let id = text(&sess, "session_id");

    // Turn 1 under v1.
    let (status, _) = app.post(&format!("/api/sessions/{id}/message"), r#"{"content":"first"}"#);
    assert_eq!(status, 200);

    // Repoint to v2.
    let (_, updated) = app.put("/api/agents/writer", &writer("v2", &[]));
    let v2 = text(&updated, "version_id");

    // Turn 2 runs on v2 and syncs the session.
    let (status, _) = app.post(&format!("/api/sessions/{id}/message"), r#"{"content":"second"}"#);
    assert_eq!(status, 200);

    let blocks = app.agents.session_history(&id).unwrap();
    let v1_count = blocks.iter().filter(|b| b.agent_version_id == v1).count();
    let v2_count = blocks.iter().filter(|b| b.agent_version_id == v2).count();
    assert!(v1_count >= 2, "turn-1 blocks keep v1");
    assert!(v2_count >= 1, "turn-2 blocks stamped v2");
}

// ---- edges ----

#[test]
fn a_session_is_renamed_and_moved() {
    let mut app = World::with_coder();
    let (_, created) = new_session(&mut app, "coder");
    let uri = format!("/api/sessions/{}", text(&created, "session_id"));
    let (status, body) = app.put(&uri, r#"{"name":"  mine  "}"#);
    assert_eq!(status, 200);
    assert_eq!(text(&body, "name"), "mine");
    let (_, made) = app.post("/api/sandboxes", r#"{"name":"shared"}"#);
    let sid = text(&made, "id");
    let (status, body) = app.put(&uri, &format!(r#"{{"sandbox_id":"{sid}"}}"#));
    assert_eq!(status, 200);
    assert_eq!(text(&body, "sandbox_id"), sid);
    let (status, body) = app.put(&uri, r#"{"sandbox_id":"nope"}"#);
    assert_eq!(status, 404);
    assert_eq!(text(&body, "error"), "sandbox not found");
    let (status, _) = app.put("/api/sandboxes/nope", r#"{"name":"x"}"#);
    assert_eq!(status, 404);
    let (_, body) = app.get("/api/sandboxes");
    assert!(body.contains("shared"), "{body}");
}

#[test]
fn a_session_needs_a_known_sandbox() {
    let mut app = World::with_coder();
    let (status, body) = app.post("/api/sessions", r#"{"agent":"coder","sandbox_id":"nope"}"#);
    assert_eq!(status, 404);
    assert_eq!(text(&body, "error"), "sandbox not found");
}

#[test]
fn a_failed_turn_is_told() {
    let item = failure_item("boom");
    assert_eq!(item.event, "error");
    assert_eq!(text(&item.data, "message"), "agent run failed: boom");
    let mut g = Gathered::new();
    g.take(&item);
    let usage = Usage { input_tokens: 1, ..Default::default() };
    let reply = g.finish(Some(usage));
    assert_eq!(text(&reply.body, "response"), "");
    assert_eq!(
        reply.body.get("usage").unwrap().get("input_tokens").unwrap().as_u64(),
        Some(1)
    );
}

#[test]
fn faults_of_the_store_are_told() {
    let reply = providers::list_providers(Err("locked".into()));
    assert_eq!(reply.status, 500);
    assert_eq!(text(&reply.body, "error"), "db error: locked");
    let reply = tools::tool_saved("i", "n", true, Saved::NotCompiled("bad module".into()));
    assert!(reply.status >= 400);
    let reply = sessions::session_reset("s", Err(AgentError::NotFound));
    assert!(reply.status >= 400);
    assert_eq!(carson::host::tools::invoke_outcome(None), Err(ToolError::NotFound));
}

#[test]
fn the_token_is_given_kept_or_made() {
    let s = |t: &str| Some(t.to_string());
    assert!(matches!(resolve_api_token(s("a"), s("b"), s("c")), TokenSource::Given(t) if t == "a"));
    assert!(matches!(resolve_api_token(s(""), s("b"), s("c")), TokenSource::Given(t) if t == "b"));
    assert!(matches!(resolve_api_token(None, None, s(" c\n")), TokenSource::Kept(t) if t == "c"));
    assert!(matches!(resolve_api_token(None, s(""), s(" ")), TokenSource::Fresh));
    assert_eq!(token_from("ab", 255), "ab00000000000000ff");
    assert_eq!(generate_token(1).len(), 48);
    assert_ne!(generate_token(1), generate_token(1));
}

#[test]
fn the_server_listens_on_its_own_machine() {
    let s = Server::default();
    assert_eq!(s.bind(), "127.0.0.1:8000");
    let reply = config_info(&s.bind());
    assert_eq!(text(&reply.body, "bind"), "127.0.0.1:8000");
}

/// The server of a configuration, with the defaults for what it leaves out.
fn configured(text: &str) -> Server {
    let table: toml::Table = toml::from_str(text).unwrap();
    let mut s = Server::default();
    if let Some(section) = table.get("server") {
        if let Some(ip) = section.get("ip").and_then(|v| v.as_str()) {
            s.ip = ip.to_string();
        }
        if let Some(port) = section.get("port").and_then(|v| v.as_integer()) {
            s.port = port as u16;
        }
        s.token = section.get("token").and_then(|v| v.as_str()).map(String::from);
    }
    s
}

#[test]
fn parse_config() {
    let text = r#"
[server]
ip = "127.0.0.1"
port = 9000
"#;
    assert_eq!(configured(text).bind(), "127.0.0.1:9000");
}

#[test]
fn empty_config_uses_defaults() {
    assert_eq!(configured("").bind(), "127.0.0.1:8000");
}

#[test]
fn a_sandbox_is_labelled_with_eight_bytes_of_its_id() {
    assert_eq!(sessions::default_label("0123abcd-ffff"), "Sandbox 0123abcd");
    assert_eq!(sessions::default_label("\u{e9}\u{e9}\u{e9}\u{e9}rest"), "Sandbox \u{e9}\u{e9}\u{e9}\u{e9}");
    let id = sessions::new_id();
    assert_eq!(sessions::default_label(&id), format!("Sandbox {}", &id[..8]));
}
