//! Configuring the Codex engine: where its configuration lives, and the
//! replies to a configuration request.
use vstd::prelude::*;
use crate::history::cat;
use crate::json::{obj2, obj3, Json, JsonV};
use crate::state::{join, join_path};
use crate::text::{blank, is_blank};

use crate::history::unsupported_message;

verus! {

/// A request to configure the Codex engine; absent fields are empty.
pub struct ConfigureCodexRequest {
    pub files_dir: String,
    pub config_toml: String,
    pub auth_json: String,
}

/// The Codex home inside the Linux sandbox of `files_dir`.
pub open spec fn codex_config_dir_text(files_dir: Seq<char>) -> Seq<char> {
    join_path(join_path(join_path(join_path(files_dir, "linux-env"@), "rootfs"@), "root"@), ".codex"@)
}

pub fn codex_config_dir(files_dir: &str) -> (r: String)
    ensures
        r@ == codex_config_dir_text(files_dir@),
{
    let a = join(files_dir, "linux-env");
    let b = join(a.as_str(), "rootfs");
    let c = join(b.as_str(), "root");
    join(c.as_str(), ".codex")
}

/// What a configuration request is answered before any file is written:
/// a request that could not be read, one without a files directory, or
/// (where the engine cannot run) the platform's refusal. The files directory
/// of the engine handle, when there is one, stands in for the request's.
pub open spec fn configure_reply(
    request: Result<ConfigureCodexRequest, String>,
    handle_files_dir: Option<String>,
) -> JsonV {
    match request {
        Err(e) => JsonV::Obj(
            seq![
                ("error"@, JsonV::Str("Invalid Codex config request JSON: "@ + e@)),
                ("success"@, JsonV::Bool(false)),
            ],
        ),
        Ok(r) => {
            let files_dir = match handle_files_dir {
                Some(d) => d@,
                None => r.files_dir@,
            };
            if blank(files_dir) {
                JsonV::Obj(
                    seq![
                        ("error"@, JsonV::Str("invalid engine handle or missing files_dir"@)),
                        ("providerAvailable"@, JsonV::Bool(false)),
                        ("success"@, JsonV::Bool(false)),
                    ],
                )
            } else {
                JsonV::Obj(
                    seq![
                        ("error"@, JsonV::Str(unsupported_message())),
                        ("providerAvailable"@, JsonV::Bool(false)),
                        ("success"@, JsonV::Bool(false)),
                    ],
                )
            }
        },
    }
}

/// Answers a configuration request where the Codex engine cannot run.
pub fn configure_request_reply(
    handle_files_dir: Option<String>,
    request: Result<ConfigureCodexRequest, String>,
) -> (r: String)
    ensures
        r@ == crate::json::json_text(configure_reply(request, handle_files_dir)),
{
    let ghost spec_reply = configure_reply(request, handle_files_dir);
    let reply = match request {
        Err(e) => obj2(
            "error",
            Json::string(cat("Invalid Codex config request JSON: ", e.as_str()).as_str()),
            "success",
            Json::Bool(false),
        ),
        Ok(req) => {
            let files_dir = match handle_files_dir {
                Some(d) => d,
                None => req.files_dir,
            };
            if is_blank(files_dir.as_str()) {
                obj3(
                    "error",
                    Json::string("invalid engine handle or missing files_dir"),
                    "providerAvailable",
                    Json::Bool(false),
                    "success",
                    Json::Bool(false),
                )
            } else {
                obj3(
                    "error",
                    Json::string("napaxi.agent_engine.codex is unsupported on this platform"),
                    "providerAvailable",
                    Json::Bool(false),
                    "success",
                    Json::Bool(false),
                )
            }
        },
    };
    assert(reply@ == spec_reply);
    reply.to_text()
}

/// Where the engine can run, the files directory the configuration goes to:
/// the handle's, else the request's; nothing when that is blank.
pub fn configure_target(handle_files_dir: Option<String>, request: &ConfigureCodexRequest) -> (r: Option<String>)
    ensures
        match r {
            Some(d) => d@ == (match handle_files_dir {
                Some(h) => h@,
                None => request.files_dir@,
            }) && !blank(d@),
            None => blank(
                match handle_files_dir {
                    Some(h) => h@,
                    None => request.files_dir@,
                },
            ),
        },
{
    let files_dir = match handle_files_dir {
        Some(d) => d,
        None => request.files_dir.clone(),
    };
    if is_blank(files_dir.as_str()) {
        None
    } else {
        Some(files_dir)
    }
}

/// The reply once the configuration files were written, or failed to be
/// with `error`.
pub open spec fn written_reply(result: Result<(), String>) -> JsonV {
    match result {
        Ok(()) => JsonV::Obj(seq![("providerAvailable"@, JsonV::Bool(true)), ("success"@, JsonV::Bool(true))]),
        Err(e) => JsonV::Obj(
            seq![
                ("error"@, JsonV::Str(e@)),
                ("providerAvailable"@, JsonV::Bool(true)),
                ("success"@, JsonV::Bool(false)),
            ],
        ),
    }
}

pub fn configure_written_reply(result: Result<(), String>) -> (r: String)
    ensures
        r@ == crate::json::json_text(written_reply(result)),
{
    let ghost spec_reply = written_reply(result);
    let reply = match result {
        Ok(()) => obj2("providerAvailable", Json::Bool(true), "success", Json::Bool(true)),
        Err(e) => obj3(
            "error",
            Json::string(e.as_str()),
            "providerAvailable",
            Json::Bool(true),
            "success",
            Json::Bool(false),
        ),
    };
    assert(reply@ == spec_reply);
    reply.to_text()
}

} // verus!
