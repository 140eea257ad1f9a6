//! Requests about providers.
use crate::api::reply::{self, Reply};
use crate::host::openai::OpenAiCompatDriver;
use crate::host::registry::{ProviderDef, ProviderDefV};
use crate::json::{self, Json, JsonV};
use crate::text;
use vstd::prelude::*;

verus! {

broadcast use crate::text::views_push;

pub open spec fn provider_value(p: ProviderDefV) -> JsonV {
    JsonV::Obj(
        seq![
            ("api_key"@, json::opt_string(p.api_key)),
            ("base_url"@, JsonV::Str(p.base_url)),
            ("name"@, JsonV::Str(p.name)),
        ],
    )
}

pub open spec fn provider_values(v: Seq<ProviderDef>) -> Seq<JsonV> {
    v.map_values(|p: ProviderDef| provider_value(p@))
}

fn provider_json(p: &ProviderDef) -> (r: Json)
    ensures
        r@ == provider_value(p@),
{
    json::obj3(
        "api_key",
        json::string_or_null(&p.api_key),
        "base_url",
        json::string(p.base_url.as_str()),
        "name",
        json::string(p.name.as_str()),
    )
}

/// The providers, with their number.
pub struct ProviderListResponse {
    pub providers: Vec<ProviderDef>,
    pub total: usize,
}

impl ProviderListResponse {
    pub fn to_json(&self) -> (r: Json)
        ensures
            r@ == JsonV::Obj(
                seq![
                    ("providers"@, JsonV::Arr(provider_values(self.providers@))),
                    ("total"@, reply::number(self.total as int)),
                ],
            ),
    {
        let ghost all = provider_values(self.providers@);
        let mut out: Vec<Json> = Vec::new();
        let mut i: usize = 0;
        assert(json::items_view(out@) =~= all.take(0));
        while i < self.providers.len()
            invariant
                i <= self.providers@.len(),
                all == provider_values(self.providers@),
                json::items_view(out@) == all.take(i as int),
            decreases self.providers@.len() - i,
        {
            let j = provider_json(&self.providers[i]);
            assert(j@ == all[i as int]);
            proof {
                json::lemma_items_push(out@, j);
            }
            out.push(j);
            i = i + 1;
            assert(json::items_view(out@) =~= all.take(i as int));
        }
        assert(all.take(i as int) =~= all);
        json::obj2("providers", Json::Arr(out), "total", json::unsigned(self.total as u64))
    }
}

pub fn list_providers(found: Result<Vec<ProviderDef>, String>) -> (r: Reply)
    ensures
        r@ == match found {
            Ok(v) => reply::said_ok(
                JsonV::Obj(
                    seq![
                        ("providers"@, JsonV::Arr(provider_values(v@))),
                        ("total"@, reply::number(v@.len() as int)),
                    ],
                ),
            ),
            Err(e) => reply::db_refused(e@),
        },
{
    match found {
        Ok(v) => {
            let n: usize = v.len();
            Reply::ok(ProviderListResponse { providers: v, total: n }.to_json())
        },
        Err(e) => Reply::db_error(e.as_str()),
    }
}

/// Why a provider is refused. `path_name` is the name that an update goes to.
pub fn refuse_provider(def: &ProviderDef, path_name: &Option<String>) -> (r: Option<Reply>)
    ensures
        reply::opt_reply(r) == if text::opt_text(*path_name) is Some && text::opt_text(*path_name)
            != Some(def@.name) {
            Some(reply::refused(400, "name in body must match path"@))
        } else if def@.base_url.len() == 0 {
            Some(reply::refused(400, "base_url is required"@))
        } else {
            None
        },
{
    if let Some(p) = path_name {
        if !text::same(def.name.as_str(), p.as_str()) {
            return Some(Reply::error(400, "name in body must match path"));
        }
    }
    if def.base_url.as_str().is_empty() {
        return Some(Reply::error(400, "base_url is required"));
    }
    None
}

/// The driver of a provider; without a key it authorises nothing.
pub fn openai_driver(def: &ProviderDef) -> (r: OpenAiCompatDriver)
    ensures
        r.base_url@ == def@.base_url,
        r.api_key@ == match def@.api_key {
            Some(k) => k,
            None => seq![],
        },
{
    let key = match &def.api_key {
        Some(k) => k.clone(),
        None => {
            let e = String::new();
            assert(e@ =~= seq![]);
            e
        },
    };
    OpenAiCompatDriver { base_url: def.base_url.clone(), api_key: key }
}

/// What was done with a provider.
pub struct ProviderCommandResponse {
    pub name: String,
    pub status: String,
}

pub open spec fn provider_done(name: Seq<char>, status: Seq<char>) -> JsonV {
    JsonV::Obj(seq![("name"@, JsonV::Str(name)), ("status"@, JsonV::Str(status))])
}

impl ProviderCommandResponse {
    pub fn to_json(&self) -> (r: Json)
        ensures
            r@ == provider_done(self.name@, self.status@),
    {
        json::obj2(
            "name",
            json::string(self.name.as_str()),
            "status",
            json::string(self.status.as_str()),
        )
    }
}

/// A provider was stored.
pub fn provider_saved(name: &str, is_new: bool, done: Result<(), String>) -> (r: Reply)
    ensures
        r@ == match done {
            Ok(_) => if is_new {
                reply::said_created(provider_done(name@, "created"@))
            } else {
                reply::said_ok(provider_done(name@, "updated"@))
            },
            Err(e) => reply::db_refused(e@),
        },
{
    match done {
        Ok(_) => {
            let status = if is_new {
                text::owned("created")
            } else {
                text::owned("updated")
            };
            let body = ProviderCommandResponse { name: text::owned(name), status }.to_json();
            if is_new {
                Reply::created(body)
            } else {
                Reply::ok(body)
            }
        },
        Err(e) => Reply::db_error(e.as_str()),
    }
}

pub fn provider_deleted(name: &str, done: Result<(), String>) -> (r: Reply)
    ensures
        r@ == match done {
            Ok(_) => reply::said_ok(provider_done(name@, "deleted"@)),
            Err(e) => reply::db_refused(e@),
        },
{
    match done {
        Ok(_) => Reply::ok(
            ProviderCommandResponse {
                name: text::owned(name),
                status: text::owned("deleted"),
            }.to_json(),
        ),
        Err(e) => Reply::db_error(e.as_str()),
    }
}

} // verus!
