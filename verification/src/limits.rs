//! The numbers that users and clients can rely on.

use vstd::prelude::*;

use crate::audit;
use crate::commands;
use crate::dir_cache;
use crate::global_server;
use crate::host;
use crate::incoming_auth;
use crate::listing;
use crate::models;
use crate::notes;
use crate::oauth;
use crate::outline;
use crate::rpc;
use crate::search;
use crate::security;
use crate::tunnel;

verus! {

/// How much the tools read, report and remember.
pub proof fn limits_of_tools()
    ensures
        host::MAX_FILE_SIZE == 10_485_760,
        notes::MAX_LINE_SPAN == 500 && notes::TITLE_BYTES == 512,
        listing::MAX_LISTED == 1000 && listing::MAX_READ == 1001,
        search::MAX_QUERY == 256 && search::PATTERN_SIZE_LIMIT == 1_000_000,
        search::MAX_FILES == 50 && search::MAX_LINES == 5,
        search::MAX_RESULT_SIZE == 8000 && search::MAX_ANSWER == 8000,
        outline::MAX_COUNT == 300 && outline::DEFAULT_DEPTH == 2 && outline::MAX_DEPTH == 5,
        security::MAX_SYMLINK_DEPTH == 40,
        dir_cache::CACHE_SECONDS == 30 && dir_cache::CACHE_CAPACITY == 500,
        audit::RING_CAPACITY == 500 && audit::DEFAULT_LIMIT == 200,
        audit::MAX_LOG_SIZE == 5_242_880 && audit::CHECK_EVERY == 100,
{
}

/// The ports, sizes and times of the bridge.
pub proof fn limits_of_the_bridge()
    ensures
        models::DEFAULT_PORT == 51552 && global_server::DEFAULT_PORT == 51552,
        global_server::STOP_SECONDS == 2,
        rpc::MAX_BODY_SIZE == 1_048_576 && rpc::REQUEST_SECONDS == 30,
        rpc::PARSE_ERROR == -32700 && rpc::METHOD_NOT_FOUND == -32601 && rpc::INTERNAL_ERROR == -32603,
        incoming_auth::TOKEN_SECONDS == 86_400 && incoming_auth::TOKEN_TTL == 86_400_000_000_000,
        incoming_auth::CODE_TTL == 600_000_000_000,
        oauth::CALLBACK_PORT == 59876 && oauth::FLOW_SECONDS == 120,
        tunnel::MAX_RETRIES == 5 && tunnel::RETRY_DELAY_SECS == 15,
        commands::MAX_PATH == 64,
{
}

} // verus!
