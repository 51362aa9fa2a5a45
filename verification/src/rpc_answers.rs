//! Answers of the control socket that do not depend on the daemon's state:
//! the methods the dispatcher answers itself, the parameter errors of
//! `messages.send` and `peers.import_identity`, and the error code of a
//! failed send.
use vstd::prelude::*;
use vstd::string::StringExecFns;
use vstd::string::StringSliceAdditionalSpecFns;

use crate::auth::{error_pair, pair_is_text, parse_x25519_hex, HexKeyError};
use crate::decimal::{dec, push_decimal};
use crate::hex::{decode_byte_pairs, first_bad_pair};
use crate::messaging::MAX_BODY_BYTES;
use crate::node_id::parse_node_id_hex;
use crate::rpc::{INTERNAL_ERROR, INVALID_PARAMS, MESSAGE_BODY_TOO_LARGE, MESSAGE_PEER_UNKNOWN, MESSAGE_STORAGE_ERROR, METHOD_NOT_FOUND};
use crate::runtime::SubscriptionIds;
use crate::text::{contains_text, contains_text_exec, push_char, str_eq};

verus! {

/// An error answer: a JSON-RPC code and its message.
pub type RpcFailure = (i32, String);

/// Methods answered with a fresh subscription id.
pub open spec fn subscribe_methods() -> Seq<Seq<char>> {
    seq!["status.subscribe"@, "peers.subscribe"@, "gateway.subscribe"@, "messages.subscribe"@]
}

/// Methods answered with `null`.
pub open spec fn unsubscribe_methods() -> Seq<Seq<char>> {
    seq![
        "status.unsubscribe"@,
        "peers.unsubscribe"@,
        "gateway.unsubscribe"@,
        "logs.unsubscribe"@,
        "messages.unsubscribe"@,
    ]
}

/// Methods with a handler of their own.
pub open spec fn handled_methods() -> Seq<Seq<char>> {
    seq![
        "rpc.hello"@,
        "status"@,
        "peers.list"@,
        "peers.add_static"@,
        "peers.connect_dynamic"@,
        "peers.remove"@,
        "peers.discovered"@,
        "peers.import_identity"@,
        "peers.forget"@,
        "peers.broadcast_identity_now"@,
        "peers.set_broadcast_config"@,
        "peers.get_broadcast_state"@,
        "route.set_split_default"@,
        "route.table"@,
        "gateway.preflight"@,
        "gateway.enable"@,
        "gateway.disable"@,
        "gateway.status"@,
        "config.get"@,
        "config.save"@,
        "mesh.status"@,
        "logs.subscribe"@,
        "messages.list_conversations"@,
        "messages.history"@,
        "messages.send"@,
        "messages.mark_read"@,
        "messages.delete_conversation"@,
        "messages.delete_all"@,
    ]
}

/// A successful answer the dispatcher gives itself.
#[derive(Debug, Clone, PartialEq, Eq)]
pub enum BuiltinAnswer {
    /// `{ "subscription_id": id }`.
    Subscribed(String),
    /// `null`.
    Null,
}

/// What the dispatcher answers for `method` before any handler runs:
/// `None` for a method with a handler of its own.
pub open spec fn builtin_answer(method: Seq<char>, next_id: u64) -> Option<Result<Seq<char>, (i32, Seq<char>)>> {
    if handled_methods().contains(method) {
        None
    } else if subscribe_methods().contains(method) {
        Some(Ok("rpc-sub-"@ + dec(next_id as nat)))
    } else if unsubscribe_methods().contains(method) {
        Some(Ok(Seq::empty()))
    } else if method == "peers.pair"@ {
        Some(Err((INTERNAL_ERROR, "peers.pair: not yet implemented in this RPC server"@)))
    } else {
        Some(Err((METHOD_NOT_FOUND, "method not found: "@ + method)))
    }
}

/// Every method the daemon has a handler for reaches that handler: the
/// dispatcher answers none of them itself, so none is refused as unknown.
pub proof fn lemma_handled_methods_reach_handlers(next_id: u64)
    ensures
        builtin_answer("rpc.hello"@, next_id) is None,
        builtin_answer("status"@, next_id) is None,
        builtin_answer("peers.list"@, next_id) is None,
        builtin_answer("peers.add_static"@, next_id) is None,
        builtin_answer("peers.connect_dynamic"@, next_id) is None,
        builtin_answer("peers.remove"@, next_id) is None,
        builtin_answer("peers.discovered"@, next_id) is None,
        builtin_answer("peers.import_identity"@, next_id) is None,
        builtin_answer("peers.forget"@, next_id) is None,
        builtin_answer("peers.broadcast_identity_now"@, next_id) is None,
        builtin_answer("peers.set_broadcast_config"@, next_id) is None,
        builtin_answer("peers.get_broadcast_state"@, next_id) is None,
        builtin_answer("route.set_split_default"@, next_id) is None,
        builtin_answer("route.table"@, next_id) is None,
        builtin_answer("gateway.preflight"@, next_id) is None,
        builtin_answer("gateway.enable"@, next_id) is None,
        builtin_answer("gateway.disable"@, next_id) is None,
        builtin_answer("gateway.status"@, next_id) is None,
        builtin_answer("config.get"@, next_id) is None,
        builtin_answer("config.save"@, next_id) is None,
        builtin_answer("mesh.status"@, next_id) is None,
        builtin_answer("logs.subscribe"@, next_id) is None,
        builtin_answer("messages.list_conversations"@, next_id) is None,
        builtin_answer("messages.history"@, next_id) is None,
        builtin_answer("messages.send"@, next_id) is None,
        builtin_answer("messages.mark_read"@, next_id) is None,
        builtin_answer("messages.delete_conversation"@, next_id) is None,
        builtin_answer("messages.delete_all"@, next_id) is None,
{
    assert(handled_methods()[0] == "rpc.hello"@);
    assert(handled_methods()[1] == "status"@);
    assert(handled_methods()[2] == "peers.list"@);
    assert(handled_methods()[3] == "peers.add_static"@);
    assert(handled_methods()[4] == "peers.connect_dynamic"@);
    assert(handled_methods()[5] == "peers.remove"@);
    assert(handled_methods()[6] == "peers.discovered"@);
    assert(handled_methods()[7] == "peers.import_identity"@);
    assert(handled_methods()[8] == "peers.forget"@);
    assert(handled_methods()[9] == "peers.broadcast_identity_now"@);
    assert(handled_methods()[10] == "peers.set_broadcast_config"@);
    assert(handled_methods()[11] == "peers.get_broadcast_state"@);
    assert(handled_methods()[12] == "route.set_split_default"@);
    assert(handled_methods()[13] == "route.table"@);
    assert(handled_methods()[14] == "gateway.preflight"@);
    assert(handled_methods()[15] == "gateway.enable"@);
    assert(handled_methods()[16] == "gateway.disable"@);
    assert(handled_methods()[17] == "gateway.status"@);
    assert(handled_methods()[18] == "config.get"@);
    assert(handled_methods()[19] == "config.save"@);
    assert(handled_methods()[20] == "mesh.status"@);
    assert(handled_methods()[21] == "logs.subscribe"@);
    assert(handled_methods()[22] == "messages.list_conversations"@);
    assert(handled_methods()[23] == "messages.history"@);
    assert(handled_methods()[24] == "messages.send"@);
    assert(handled_methods()[25] == "messages.mark_read"@);
    assert(handled_methods()[26] == "messages.delete_conversation"@);
    assert(handled_methods()[27] == "messages.delete_all"@);
}

/// A subscribe method has no handler of its own.
proof fn lemma_subscribe_not_handled(m: Seq<char>)
    requires
        subscribe_methods().contains(m),
    ensures
        !handled_methods().contains(m),
{
    lemma_builtin_names_apart();
    let k = choose|k: int| 0 <= k < subscribe_methods().len() && subscribe_methods()[k] == m;
    if k == 0 {
        assert(m == "status.subscribe"@);
    } else if k == 1 {
        assert(m == "peers.subscribe"@);
    } else if k == 2 {
        assert(m == "gateway.subscribe"@);
    } else {
        assert(m == "messages.subscribe"@);
    }
}

proof fn lemma_builtin_names_apart()
    ensures
        !handled_methods().contains("status.subscribe"@),
        !handled_methods().contains("peers.subscribe"@),
        !handled_methods().contains("gateway.subscribe"@),
        !handled_methods().contains("messages.subscribe"@),
        !handled_methods().contains("status.unsubscribe"@),
        !handled_methods().contains("peers.unsubscribe"@),
        !handled_methods().contains("gateway.unsubscribe"@),
        !handled_methods().contains("logs.unsubscribe"@),
        !handled_methods().contains("messages.unsubscribe"@),
        !handled_methods().contains("peers.pair"@),
        !subscribe_methods().contains("status.unsubscribe"@),
        !subscribe_methods().contains("peers.unsubscribe"@),
        !subscribe_methods().contains("gateway.unsubscribe"@),
        !subscribe_methods().contains("logs.unsubscribe"@),
        !subscribe_methods().contains("messages.unsubscribe"@),
        !subscribe_methods().contains("peers.pair"@),
        !unsubscribe_methods().contains("peers.pair"@),
{
    reveal_strlit("config.get");
    reveal_strlit("config.save");
    reveal_strlit("gateway.disable");
    reveal_strlit("gateway.enable");
    reveal_strlit("gateway.preflight");
    reveal_strlit("gateway.status");
    reveal_strlit("gateway.subscribe");
    reveal_strlit("gateway.unsubscribe");
    reveal_strlit("logs.subscribe");
    reveal_strlit("logs.unsubscribe");
    reveal_strlit("mesh.status");
    reveal_strlit("messages.delete_all");
    reveal_strlit("messages.delete_conversation");
    reveal_strlit("messages.history");
    reveal_strlit("messages.list_conversations");
    reveal_strlit("messages.mark_read");
    reveal_strlit("messages.send");
    reveal_strlit("messages.subscribe");
    reveal_strlit("messages.unsubscribe");
    reveal_strlit("peers.add_static");
    reveal_strlit("peers.broadcast_identity_now");
    reveal_strlit("peers.connect_dynamic");
    reveal_strlit("peers.discovered");
    reveal_strlit("peers.forget");
    reveal_strlit("peers.get_broadcast_state");
    reveal_strlit("peers.import_identity");
    reveal_strlit("peers.list");
    reveal_strlit("peers.pair");
    reveal_strlit("peers.remove");
    reveal_strlit("peers.set_broadcast_config");
    reveal_strlit("peers.subscribe");
    reveal_strlit("peers.unsubscribe");
    reveal_strlit("route.set_split_default");
    reveal_strlit("route.table");
    reveal_strlit("rpc.hello");
    reveal_strlit("status");
    reveal_strlit("status.subscribe");
    reveal_strlit("status.unsubscribe");
    assert("config.get"@.len() == 10 && "config.get"@[0] == 'c');
    assert("config.save"@.len() == 11 && "config.save"@[0] == 'c');
    assert("gateway.disable"@.len() == 15 && "gateway.disable"@[0] == 'g');
    assert("gateway.enable"@.len() == 14 && "gateway.enable"@[0] == 'g');
    assert("gateway.preflight"@.len() == 17 && "gateway.preflight"@[0] == 'g');
    assert("gateway.status"@.len() == 14 && "gateway.status"@[0] == 'g');
    assert("gateway.subscribe"@.len() == 17 && "gateway.subscribe"@[0] == 'g');
    assert("gateway.unsubscribe"@.len() == 19 && "gateway.unsubscribe"@[0] == 'g');
    assert("logs.subscribe"@.len() == 14 && "logs.subscribe"@[0] == 'l');
    assert("logs.unsubscribe"@.len() == 16 && "logs.unsubscribe"@[0] == 'l');
    assert("mesh.status"@.len() == 11 && "mesh.status"@[0] == 'm');
    assert("messages.delete_all"@.len() == 19 && "messages.delete_all"@[0] == 'm');
    assert("messages.delete_conversation"@.len() == 28 && "messages.delete_conversation"@[0] == 'm');
    assert("messages.history"@.len() == 16 && "messages.history"@[0] == 'm');
    assert("messages.list_conversations"@.len() == 27 && "messages.list_conversations"@[0] == 'm');
    assert("messages.mark_read"@.len() == 18 && "messages.mark_read"@[0] == 'm');
    assert("messages.send"@.len() == 13 && "messages.send"@[0] == 'm');
    assert("messages.subscribe"@.len() == 18 && "messages.subscribe"@[0] == 'm');
    assert("messages.unsubscribe"@.len() == 20 && "messages.unsubscribe"@[0] == 'm');
    assert("peers.add_static"@.len() == 16 && "peers.add_static"@[0] == 'p');
    assert("peers.broadcast_identity_now"@.len() == 28 && "peers.broadcast_identity_now"@[0] == 'p');
    assert("peers.connect_dynamic"@.len() == 21 && "peers.connect_dynamic"@[0] == 'p');
    assert("peers.discovered"@.len() == 16 && "peers.discovered"@[0] == 'p');
    assert("peers.forget"@.len() == 12 && "peers.forget"@[0] == 'p');
    assert("peers.get_broadcast_state"@.len() == 25 && "peers.get_broadcast_state"@[0] == 'p');
    assert("peers.import_identity"@.len() == 21 && "peers.import_identity"@[0] == 'p');
    assert("peers.list"@.len() == 10 && "peers.list"@[0] == 'p');
    assert("peers.pair"@.len() == 10 && "peers.pair"@[0] == 'p');
    assert("peers.remove"@.len() == 12 && "peers.remove"@[0] == 'p');
    assert("peers.set_broadcast_config"@.len() == 26 && "peers.set_broadcast_config"@[0] == 'p');
    assert("peers.subscribe"@.len() == 15 && "peers.subscribe"@[0] == 'p');
    assert("peers.unsubscribe"@.len() == 17 && "peers.unsubscribe"@[0] == 'p');
    assert("route.set_split_default"@.len() == 23 && "route.set_split_default"@[0] == 'r');
    assert("route.table"@.len() == 11 && "route.table"@[0] == 'r');
    assert("rpc.hello"@.len() == 9 && "rpc.hello"@[0] == 'r');
    assert("status"@.len() == 6 && "status"@[0] == 's');
    assert("status.subscribe"@.len() == 16 && "status.subscribe"@[0] == 's');
    assert("status.unsubscribe"@.len() == 18 && "status.unsubscribe"@[0] == 's');
    assert("gateway.preflight"@[8] == 'p');
    assert("gateway.subscribe"@[8] == 's');
    assert("messages.mark_read"@[9] == 'm');
    assert("messages.subscribe"@[9] == 's');
    assert("peers.list"@[6] == 'l');
    assert("peers.pair"@[6] == 'p');
    assert(!handled_methods().contains("status.subscribe"@)) by {
        assert forall|i: int| 0 <= i < handled_methods().len() implies handled_methods()[i] != "status.subscribe"@ by {
            if i == 0 {
                assert(handled_methods()[0] == "rpc.hello"@);
            } else if i == 1 {
                assert(handled_methods()[1] == "status"@);
            } else if i == 2 {
                assert(handled_methods()[2] == "peers.list"@);
            } else if i == 3 {
                assert(handled_methods()[3] == "peers.add_static"@);
            } else if i == 4 {
                assert(handled_methods()[4] == "peers.connect_dynamic"@);
            } else if i == 5 {
                assert(handled_methods()[5] == "peers.remove"@);
            } else if i == 6 {
                assert(handled_methods()[6] == "peers.discovered"@);
            } else if i == 7 {
                assert(handled_methods()[7] == "peers.import_identity"@);
            } else if i == 8 {
                assert(handled_methods()[8] == "peers.forget"@);
            } else if i == 9 {
                assert(handled_methods()[9] == "peers.broadcast_identity_now"@);
            } else if i == 10 {
                assert(handled_methods()[10] == "peers.set_broadcast_config"@);
            } else if i == 11 {
                assert(handled_methods()[11] == "peers.get_broadcast_state"@);
            } else if i == 12 {
                assert(handled_methods()[12] == "route.set_split_default"@);
            } else if i == 13 {
                assert(handled_methods()[13] == "route.table"@);
            } else if i == 14 {
                assert(handled_methods()[14] == "gateway.preflight"@);
            } else if i == 15 {
                assert(handled_methods()[15] == "gateway.enable"@);
            } else if i == 16 {
                assert(handled_methods()[16] == "gateway.disable"@);
            } else if i == 17 {
                assert(handled_methods()[17] == "gateway.status"@);
            } else if i == 18 {
                assert(handled_methods()[18] == "config.get"@);
            } else if i == 19 {
                assert(handled_methods()[19] == "config.save"@);
            } else if i == 20 {
                assert(handled_methods()[20] == "mesh.status"@);
            } else if i == 21 {
                assert(handled_methods()[21] == "logs.subscribe"@);
            } else if i == 22 {
                assert(handled_methods()[22] == "messages.list_conversations"@);
            } else if i == 23 {
                assert(handled_methods()[23] == "messages.history"@);
            } else if i == 24 {
                assert(handled_methods()[24] == "messages.send"@);
            } else if i == 25 {
                assert(handled_methods()[25] == "messages.mark_read"@);
            } else if i == 26 {
                assert(handled_methods()[26] == "messages.delete_conversation"@);
            } else if i == 27 {
                assert(handled_methods()[27] == "messages.delete_all"@);
            }
        }
    }
    assert(!handled_methods().contains("peers.subscribe"@)) by {
        assert forall|i: int| 0 <= i < handled_methods().len() implies handled_methods()[i] != "peers.subscribe"@ by {
            if i == 0 {
                assert(handled_methods()[0] == "rpc.hello"@);
            } else if i == 1 {
                assert(handled_methods()[1] == "status"@);
            } else if i == 2 {
                assert(handled_methods()[2] == "peers.list"@);
            } else if i == 3 {
                assert(handled_methods()[3] == "peers.add_static"@);
            } else if i == 4 {
                assert(handled_methods()[4] == "peers.connect_dynamic"@);
            } else if i == 5 {
                assert(handled_methods()[5] == "peers.remove"@);
            } else if i == 6 {
                assert(handled_methods()[6] == "peers.discovered"@);
            } else if i == 7 {
                assert(handled_methods()[7] == "peers.import_identity"@);
            } else if i == 8 {
                assert(handled_methods()[8] == "peers.forget"@);
            } else if i == 9 {
                assert(handled_methods()[9] == "peers.broadcast_identity_now"@);
            } else if i == 10 {
                assert(handled_methods()[10] == "peers.set_broadcast_config"@);
            } else if i == 11 {
                assert(handled_methods()[11] == "peers.get_broadcast_state"@);
            } else if i == 12 {
                assert(handled_methods()[12] == "route.set_split_default"@);
            } else if i == 13 {
                assert(handled_methods()[13] == "route.table"@);
            } else if i == 14 {
                assert(handled_methods()[14] == "gateway.preflight"@);
            } else if i == 15 {
                assert(handled_methods()[15] == "gateway.enable"@);
            } else if i == 16 {
                assert(handled_methods()[16] == "gateway.disable"@);
            } else if i == 17 {
                assert(handled_methods()[17] == "gateway.status"@);
            } else if i == 18 {
                assert(handled_methods()[18] == "config.get"@);
            } else if i == 19 {
                assert(handled_methods()[19] == "config.save"@);
            } else if i == 20 {
                assert(handled_methods()[20] == "mesh.status"@);
            } else if i == 21 {
                assert(handled_methods()[21] == "logs.subscribe"@);
            } else if i == 22 {
                assert(handled_methods()[22] == "messages.list_conversations"@);
            } else if i == 23 {
                assert(handled_methods()[23] == "messages.history"@);
            } else if i == 24 {
                assert(handled_methods()[24] == "messages.send"@);
            } else if i == 25 {
                assert(handled_methods()[25] == "messages.mark_read"@);
            } else if i == 26 {
                assert(handled_methods()[26] == "messages.delete_conversation"@);
            } else if i == 27 {
                assert(handled_methods()[27] == "messages.delete_all"@);
            }
        }
    }
    assert(!handled_methods().contains("gateway.subscribe"@)) by {
        assert forall|i: int| 0 <= i < handled_methods().len() implies handled_methods()[i] != "gateway.subscribe"@ by {
            if i == 0 {
                assert(handled_methods()[0] == "rpc.hello"@);
            } else if i == 1 {
                assert(handled_methods()[1] == "status"@);
            } else if i == 2 {
                assert(handled_methods()[2] == "peers.list"@);
            } else if i == 3 {
                assert(handled_methods()[3] == "peers.add_static"@);
            } else if i == 4 {
                assert(handled_methods()[4] == "peers.connect_dynamic"@);
            } else if i == 5 {
                assert(handled_methods()[5] == "peers.remove"@);
            } else if i == 6 {
                assert(handled_methods()[6] == "peers.discovered"@);
            } else if i == 7 {
                assert(handled_methods()[7] == "peers.import_identity"@);
            } else if i == 8 {
                assert(handled_methods()[8] == "peers.forget"@);
            } else if i == 9 {
                assert(handled_methods()[9] == "peers.broadcast_identity_now"@);
            } else if i == 10 {
                assert(handled_methods()[10] == "peers.set_broadcast_config"@);
            } else if i == 11 {
                assert(handled_methods()[11] == "peers.get_broadcast_state"@);
            } else if i == 12 {
                assert(handled_methods()[12] == "route.set_split_default"@);
            } else if i == 13 {
                assert(handled_methods()[13] == "route.table"@);
            } else if i == 14 {
                assert(handled_methods()[14] == "gateway.preflight"@);
            } else if i == 15 {
                assert(handled_methods()[15] == "gateway.enable"@);
            } else if i == 16 {
                assert(handled_methods()[16] == "gateway.disable"@);
            } else if i == 17 {
                assert(handled_methods()[17] == "gateway.status"@);
            } else if i == 18 {
                assert(handled_methods()[18] == "config.get"@);
            } else if i == 19 {
                assert(handled_methods()[19] == "config.save"@);
            } else if i == 20 {
                assert(handled_methods()[20] == "mesh.status"@);
            } else if i == 21 {
                assert(handled_methods()[21] == "logs.subscribe"@);
            } else if i == 22 {
                assert(handled_methods()[22] == "messages.list_conversations"@);
            } else if i == 23 {
                assert(handled_methods()[23] == "messages.history"@);
            } else if i == 24 {
                assert(handled_methods()[24] == "messages.send"@);
            } else if i == 25 {
                assert(handled_methods()[25] == "messages.mark_read"@);
            } else if i == 26 {
                assert(handled_methods()[26] == "messages.delete_conversation"@);
            } else if i == 27 {
                assert(handled_methods()[27] == "messages.delete_all"@);
            }
        }
    }
    assert(!handled_methods().contains("messages.subscribe"@)) by {
        assert forall|i: int| 0 <= i < handled_methods().len() implies handled_methods()[i] != "messages.subscribe"@ by {
            if i == 0 {
                assert(handled_methods()[0] == "rpc.hello"@);
            } else if i == 1 {
                assert(handled_methods()[1] == "status"@);
            } else if i == 2 {
                assert(handled_methods()[2] == "peers.list"@);
            } else if i == 3 {
                assert(handled_methods()[3] == "peers.add_static"@);
            } else if i == 4 {
                assert(handled_methods()[4] == "peers.connect_dynamic"@);
            } else if i == 5 {
                assert(handled_methods()[5] == "peers.remove"@);
            } else if i == 6 {
                assert(handled_methods()[6] == "peers.discovered"@);
            } else if i == 7 {
                assert(handled_methods()[7] == "peers.import_identity"@);
            } else if i == 8 {
                assert(handled_methods()[8] == "peers.forget"@);
            } else if i == 9 {
                assert(handled_methods()[9] == "peers.broadcast_identity_now"@);
            } else if i == 10 {
                assert(handled_methods()[10] == "peers.set_broadcast_config"@);
            } else if i == 11 {
                assert(handled_methods()[11] == "peers.get_broadcast_state"@);
            } else if i == 12 {
                assert(handled_methods()[12] == "route.set_split_default"@);
            } else if i == 13 {
                assert(handled_methods()[13] == "route.table"@);
            } else if i == 14 {
                assert(handled_methods()[14] == "gateway.preflight"@);
            } else if i == 15 {
                assert(handled_methods()[15] == "gateway.enable"@);
            } else if i == 16 {
                assert(handled_methods()[16] == "gateway.disable"@);
            } else if i == 17 {
                assert(handled_methods()[17] == "gateway.status"@);
            } else if i == 18 {
                assert(handled_methods()[18] == "config.get"@);
            } else if i == 19 {
                assert(handled_methods()[19] == "config.save"@);
            } else if i == 20 {
                assert(handled_methods()[20] == "mesh.status"@);
            } else if i == 21 {
                assert(handled_methods()[21] == "logs.subscribe"@);
            } else if i == 22 {
                assert(handled_methods()[22] == "messages.list_conversations"@);
            } else if i == 23 {
                assert(handled_methods()[23] == "messages.history"@);
            } else if i == 24 {
                assert(handled_methods()[24] == "messages.send"@);
            } else if i == 25 {
                assert(handled_methods()[25] == "messages.mark_read"@);
            } else if i == 26 {
                assert(handled_methods()[26] == "messages.delete_conversation"@);
            } else if i == 27 {
                assert(handled_methods()[27] == "messages.delete_all"@);
            }
        }
    }
    assert(!handled_methods().contains("status.unsubscribe"@)) by {
        assert forall|i: int| 0 <= i < handled_methods().len() implies handled_methods()[i] != "status.unsubscribe"@ by {
            if i == 0 {
                assert(handled_methods()[0] == "rpc.hello"@);
            } else if i == 1 {
                assert(handled_methods()[1] == "status"@);
            } else if i == 2 {
                assert(handled_methods()[2] == "peers.list"@);
            } else if i == 3 {
                assert(handled_methods()[3] == "peers.add_static"@);
            } else if i == 4 {
                assert(handled_methods()[4] == "peers.connect_dynamic"@);
            } else if i == 5 {
                assert(handled_methods()[5] == "peers.remove"@);
            } else if i == 6 {
                assert(handled_methods()[6] == "peers.discovered"@);
            } else if i == 7 {
                assert(handled_methods()[7] == "peers.import_identity"@);
            } else if i == 8 {
                assert(handled_methods()[8] == "peers.forget"@);
            } else if i == 9 {
                assert(handled_methods()[9] == "peers.broadcast_identity_now"@);
            } else if i == 10 {
                assert(handled_methods()[10] == "peers.set_broadcast_config"@);
            } else if i == 11 {
                assert(handled_methods()[11] == "peers.get_broadcast_state"@);
            } else if i == 12 {
                assert(handled_methods()[12] == "route.set_split_default"@);
            } else if i == 13 {
                assert(handled_methods()[13] == "route.table"@);
            } else if i == 14 {
                assert(handled_methods()[14] == "gateway.preflight"@);
            } else if i == 15 {
                assert(handled_methods()[15] == "gateway.enable"@);
            } else if i == 16 {
                assert(handled_methods()[16] == "gateway.disable"@);
            } else if i == 17 {
                assert(handled_methods()[17] == "gateway.status"@);
            } else if i == 18 {
                assert(handled_methods()[18] == "config.get"@);
            } else if i == 19 {
                assert(handled_methods()[19] == "config.save"@);
            } else if i == 20 {
                assert(handled_methods()[20] == "mesh.status"@);
            } else if i == 21 {
                assert(handled_methods()[21] == "logs.subscribe"@);
            } else if i == 22 {
                assert(handled_methods()[22] == "messages.list_conversations"@);
            } else if i == 23 {
                assert(handled_methods()[23] == "messages.history"@);
            } else if i == 24 {
                assert(handled_methods()[24] == "messages.send"@);
            } else if i == 25 {
                assert(handled_methods()[25] == "messages.mark_read"@);
            } else if i == 26 {
                assert(handled_methods()[26] == "messages.delete_conversation"@);
            } else if i == 27 {
                assert(handled_methods()[27] == "messages.delete_all"@);
            }
        }
    }
    assert(!handled_methods().contains("peers.unsubscribe"@)) by {
        assert forall|i: int| 0 <= i < handled_methods().len() implies handled_methods()[i] != "peers.unsubscribe"@ by {
            if i == 0 {
                assert(handled_methods()[0] == "rpc.hello"@);
            } else if i == 1 {
                assert(handled_methods()[1] == "status"@);
            } else if i == 2 {
                assert(handled_methods()[2] == "peers.list"@);
            } else if i == 3 {
                assert(handled_methods()[3] == "peers.add_static"@);
            } else if i == 4 {
                assert(handled_methods()[4] == "peers.connect_dynamic"@);
            } else if i == 5 {
                assert(handled_methods()[5] == "peers.remove"@);
            } else if i == 6 {
                assert(handled_methods()[6] == "peers.discovered"@);
            } else if i == 7 {
                assert(handled_methods()[7] == "peers.import_identity"@);
            } else if i == 8 {
                assert(handled_methods()[8] == "peers.forget"@);
            } else if i == 9 {
                assert(handled_methods()[9] == "peers.broadcast_identity_now"@);
            } else if i == 10 {
                assert(handled_methods()[10] == "peers.set_broadcast_config"@);
            } else if i == 11 {
                assert(handled_methods()[11] == "peers.get_broadcast_state"@);
            } else if i == 12 {
                assert(handled_methods()[12] == "route.set_split_default"@);
            } else if i == 13 {
                assert(handled_methods()[13] == "route.table"@);
            } else if i == 14 {
                assert(handled_methods()[14] == "gateway.preflight"@);
            } else if i == 15 {
                assert(handled_methods()[15] == "gateway.enable"@);
            } else if i == 16 {
                assert(handled_methods()[16] == "gateway.disable"@);
            } else if i == 17 {
                assert(handled_methods()[17] == "gateway.status"@);
            } else if i == 18 {
                assert(handled_methods()[18] == "config.get"@);
            } else if i == 19 {
                assert(handled_methods()[19] == "config.save"@);
            } else if i == 20 {
                assert(handled_methods()[20] == "mesh.status"@);
            } else if i == 21 {
                assert(handled_methods()[21] == "logs.subscribe"@);
            } else if i == 22 {
                assert(handled_methods()[22] == "messages.list_conversations"@);
            } else if i == 23 {
                assert(handled_methods()[23] == "messages.history"@);
            } else if i == 24 {
                assert(handled_methods()[24] == "messages.send"@);
            } else if i == 25 {
                assert(handled_methods()[25] == "messages.mark_read"@);
            } else if i == 26 {
                assert(handled_methods()[26] == "messages.delete_conversation"@);
            } else if i == 27 {
                assert(handled_methods()[27] == "messages.delete_all"@);
            }
        }
    }
    assert(!handled_methods().contains("gateway.unsubscribe"@)) by {
        assert forall|i: int| 0 <= i < handled_methods().len() implies handled_methods()[i] != "gateway.unsubscribe"@ by {
            if i == 0 {
                assert(handled_methods()[0] == "rpc.hello"@);
            } else if i == 1 {
                assert(handled_methods()[1] == "status"@);
            } else if i == 2 {
                assert(handled_methods()[2] == "peers.list"@);
            } else if i == 3 {
                assert(handled_methods()[3] == "peers.add_static"@);
            } else if i == 4 {
                assert(handled_methods()[4] == "peers.connect_dynamic"@);
            } else if i == 5 {
                assert(handled_methods()[5] == "peers.remove"@);
            } else if i == 6 {
                assert(handled_methods()[6] == "peers.discovered"@);
            } else if i == 7 {
                assert(handled_methods()[7] == "peers.import_identity"@);
            } else if i == 8 {
                assert(handled_methods()[8] == "peers.forget"@);
            } else if i == 9 {
                assert(handled_methods()[9] == "peers.broadcast_identity_now"@);
            } else if i == 10 {
                assert(handled_methods()[10] == "peers.set_broadcast_config"@);
            } else if i == 11 {
                assert(handled_methods()[11] == "peers.get_broadcast_state"@);
            } else if i == 12 {
                assert(handled_methods()[12] == "route.set_split_default"@);
            } else if i == 13 {
                assert(handled_methods()[13] == "route.table"@);
            } else if i == 14 {
                assert(handled_methods()[14] == "gateway.preflight"@);
            } else if i == 15 {
                assert(handled_methods()[15] == "gateway.enable"@);
            } else if i == 16 {
                assert(handled_methods()[16] == "gateway.disable"@);
            } else if i == 17 {
                assert(handled_methods()[17] == "gateway.status"@);
            } else if i == 18 {
                assert(handled_methods()[18] == "config.get"@);
            } else if i == 19 {
                assert(handled_methods()[19] == "config.save"@);
            } else if i == 20 {
                assert(handled_methods()[20] == "mesh.status"@);
            } else if i == 21 {
                assert(handled_methods()[21] == "logs.subscribe"@);
            } else if i == 22 {
                assert(handled_methods()[22] == "messages.list_conversations"@);
            } else if i == 23 {
                assert(handled_methods()[23] == "messages.history"@);
            } else if i == 24 {
                assert(handled_methods()[24] == "messages.send"@);
            } else if i == 25 {
                assert(handled_methods()[25] == "messages.mark_read"@);
            } else if i == 26 {
                assert(handled_methods()[26] == "messages.delete_conversation"@);
            } else if i == 27 {
                assert(handled_methods()[27] == "messages.delete_all"@);
            }
        }
    }
    assert(!handled_methods().contains("logs.unsubscribe"@)) by {
        assert forall|i: int| 0 <= i < handled_methods().len() implies handled_methods()[i] != "logs.unsubscribe"@ by {
            if i == 0 {
                assert(handled_methods()[0] == "rpc.hello"@);
            } else if i == 1 {
                assert(handled_methods()[1] == "status"@);
            } else if i == 2 {
                assert(handled_methods()[2] == "peers.list"@);
            } else if i == 3 {
                assert(handled_methods()[3] == "peers.add_static"@);
            } else if i == 4 {
                assert(handled_methods()[4] == "peers.connect_dynamic"@);
            } else if i == 5 {
                assert(handled_methods()[5] == "peers.remove"@);
            } else if i == 6 {
                assert(handled_methods()[6] == "peers.discovered"@);
            } else if i == 7 {
                assert(handled_methods()[7] == "peers.import_identity"@);
            } else if i == 8 {
                assert(handled_methods()[8] == "peers.forget"@);
            } else if i == 9 {
                assert(handled_methods()[9] == "peers.broadcast_identity_now"@);
            } else if i == 10 {
                assert(handled_methods()[10] == "peers.set_broadcast_config"@);
            } else if i == 11 {
                assert(handled_methods()[11] == "peers.get_broadcast_state"@);
            } else if i == 12 {
                assert(handled_methods()[12] == "route.set_split_default"@);
            } else if i == 13 {
                assert(handled_methods()[13] == "route.table"@);
            } else if i == 14 {
                assert(handled_methods()[14] == "gateway.preflight"@);
            } else if i == 15 {
                assert(handled_methods()[15] == "gateway.enable"@);
            } else if i == 16 {
                assert(handled_methods()[16] == "gateway.disable"@);
            } else if i == 17 {
                assert(handled_methods()[17] == "gateway.status"@);
            } else if i == 18 {
                assert(handled_methods()[18] == "config.get"@);
            } else if i == 19 {
                assert(handled_methods()[19] == "config.save"@);
            } else if i == 20 {
                assert(handled_methods()[20] == "mesh.status"@);
            } else if i == 21 {
                assert(handled_methods()[21] == "logs.subscribe"@);
            } else if i == 22 {
                assert(handled_methods()[22] == "messages.list_conversations"@);
            } else if i == 23 {
                assert(handled_methods()[23] == "messages.history"@);
            } else if i == 24 {
                assert(handled_methods()[24] == "messages.send"@);
            } else if i == 25 {
                assert(handled_methods()[25] == "messages.mark_read"@);
            } else if i == 26 {
                assert(handled_methods()[26] == "messages.delete_conversation"@);
            } else if i == 27 {
                assert(handled_methods()[27] == "messages.delete_all"@);
            }
        }
    }
    assert(!handled_methods().contains("messages.unsubscribe"@)) by {
        assert forall|i: int| 0 <= i < handled_methods().len() implies handled_methods()[i] != "messages.unsubscribe"@ by {
            if i == 0 {
                assert(handled_methods()[0] == "rpc.hello"@);
            } else if i == 1 {
                assert(handled_methods()[1] == "status"@);
            } else if i == 2 {
                assert(handled_methods()[2] == "peers.list"@);
            } else if i == 3 {
                assert(handled_methods()[3] == "peers.add_static"@);
            } else if i == 4 {
                assert(handled_methods()[4] == "peers.connect_dynamic"@);
            } else if i == 5 {
                assert(handled_methods()[5] == "peers.remove"@);
            } else if i == 6 {
                assert(handled_methods()[6] == "peers.discovered"@);
            } else if i == 7 {
                assert(handled_methods()[7] == "peers.import_identity"@);
            } else if i == 8 {
                assert(handled_methods()[8] == "peers.forget"@);
            } else if i == 9 {
                assert(handled_methods()[9] == "peers.broadcast_identity_now"@);
            } else if i == 10 {
                assert(handled_methods()[10] == "peers.set_broadcast_config"@);
            } else if i == 11 {
                assert(handled_methods()[11] == "peers.get_broadcast_state"@);
            } else if i == 12 {
                assert(handled_methods()[12] == "route.set_split_default"@);
            } else if i == 13 {
                assert(handled_methods()[13] == "route.table"@);
            } else if i == 14 {
                assert(handled_methods()[14] == "gateway.preflight"@);
            } else if i == 15 {
                assert(handled_methods()[15] == "gateway.enable"@);
            } else if i == 16 {
                assert(handled_methods()[16] == "gateway.disable"@);
            } else if i == 17 {
                assert(handled_methods()[17] == "gateway.status"@);
            } else if i == 18 {
                assert(handled_methods()[18] == "config.get"@);
            } else if i == 19 {
                assert(handled_methods()[19] == "config.save"@);
            } else if i == 20 {
                assert(handled_methods()[20] == "mesh.status"@);
            } else if i == 21 {
                assert(handled_methods()[21] == "logs.subscribe"@);
            } else if i == 22 {
                assert(handled_methods()[22] == "messages.list_conversations"@);
            } else if i == 23 {
                assert(handled_methods()[23] == "messages.history"@);
            } else if i == 24 {
                assert(handled_methods()[24] == "messages.send"@);
            } else if i == 25 {
                assert(handled_methods()[25] == "messages.mark_read"@);
            } else if i == 26 {
                assert(handled_methods()[26] == "messages.delete_conversation"@);
            } else if i == 27 {
                assert(handled_methods()[27] == "messages.delete_all"@);
            }
        }
    }
    assert(!handled_methods().contains("peers.pair"@)) by {
        assert forall|i: int| 0 <= i < handled_methods().len() implies handled_methods()[i] != "peers.pair"@ by {
            if i == 0 {
                assert(handled_methods()[0] == "rpc.hello"@);
            } else if i == 1 {
                assert(handled_methods()[1] == "status"@);
            } else if i == 2 {
                assert(handled_methods()[2] == "peers.list"@);
            } else if i == 3 {
                assert(handled_methods()[3] == "peers.add_static"@);
            } else if i == 4 {
                assert(handled_methods()[4] == "peers.connect_dynamic"@);
            } else if i == 5 {
                assert(handled_methods()[5] == "peers.remove"@);
            } else if i == 6 {
                assert(handled_methods()[6] == "peers.discovered"@);
            } else if i == 7 {
                assert(handled_methods()[7] == "peers.import_identity"@);
            } else if i == 8 {
                assert(handled_methods()[8] == "peers.forget"@);
            } else if i == 9 {
                assert(handled_methods()[9] == "peers.broadcast_identity_now"@);
            } else if i == 10 {
                assert(handled_methods()[10] == "peers.set_broadcast_config"@);
            } else if i == 11 {
                assert(handled_methods()[11] == "peers.get_broadcast_state"@);
            } else if i == 12 {
                assert(handled_methods()[12] == "route.set_split_default"@);
            } else if i == 13 {
                assert(handled_methods()[13] == "route.table"@);
            } else if i == 14 {
                assert(handled_methods()[14] == "gateway.preflight"@);
            } else if i == 15 {
                assert(handled_methods()[15] == "gateway.enable"@);
            } else if i == 16 {
                assert(handled_methods()[16] == "gateway.disable"@);
            } else if i == 17 {
                assert(handled_methods()[17] == "gateway.status"@);
            } else if i == 18 {
                assert(handled_methods()[18] == "config.get"@);
            } else if i == 19 {
                assert(handled_methods()[19] == "config.save"@);
            } else if i == 20 {
                assert(handled_methods()[20] == "mesh.status"@);
            } else if i == 21 {
                assert(handled_methods()[21] == "logs.subscribe"@);
            } else if i == 22 {
                assert(handled_methods()[22] == "messages.list_conversations"@);
            } else if i == 23 {
                assert(handled_methods()[23] == "messages.history"@);
            } else if i == 24 {
                assert(handled_methods()[24] == "messages.send"@);
            } else if i == 25 {
                assert(handled_methods()[25] == "messages.mark_read"@);
            } else if i == 26 {
                assert(handled_methods()[26] == "messages.delete_conversation"@);
            } else if i == 27 {
                assert(handled_methods()[27] == "messages.delete_all"@);
            }
        }
    }
    assert(!subscribe_methods().contains("status.unsubscribe"@)) by {
        assert forall|i: int| 0 <= i < subscribe_methods().len() implies subscribe_methods()[i] != "status.unsubscribe"@ by {
            if i == 0 {
                assert(subscribe_methods()[0] == "status.subscribe"@);
            } else if i == 1 {
                assert(subscribe_methods()[1] == "peers.subscribe"@);
            } else if i == 2 {
                assert(subscribe_methods()[2] == "gateway.subscribe"@);
            } else if i == 3 {
                assert(subscribe_methods()[3] == "messages.subscribe"@);
            }
        }
    }
    assert(!subscribe_methods().contains("peers.unsubscribe"@)) by {
        assert forall|i: int| 0 <= i < subscribe_methods().len() implies subscribe_methods()[i] != "peers.unsubscribe"@ by {
            if i == 0 {
                assert(subscribe_methods()[0] == "status.subscribe"@);
            } else if i == 1 {
                assert(subscribe_methods()[1] == "peers.subscribe"@);
            } else if i == 2 {
                assert(subscribe_methods()[2] == "gateway.subscribe"@);
            } else if i == 3 {
                assert(subscribe_methods()[3] == "messages.subscribe"@);
            }
        }
    }
    assert(!subscribe_methods().contains("gateway.unsubscribe"@)) by {
        assert forall|i: int| 0 <= i < subscribe_methods().len() implies subscribe_methods()[i] != "gateway.unsubscribe"@ by {
            if i == 0 {
                assert(subscribe_methods()[0] == "status.subscribe"@);
            } else if i == 1 {
                assert(subscribe_methods()[1] == "peers.subscribe"@);
            } else if i == 2 {
                assert(subscribe_methods()[2] == "gateway.subscribe"@);
            } else if i == 3 {
                assert(subscribe_methods()[3] == "messages.subscribe"@);
            }
        }
    }
    assert(!subscribe_methods().contains("logs.unsubscribe"@)) by {
        assert forall|i: int| 0 <= i < subscribe_methods().len() implies subscribe_methods()[i] != "logs.unsubscribe"@ by {
            if i == 0 {
                assert(subscribe_methods()[0] == "status.subscribe"@);
            } else if i == 1 {
                assert(subscribe_methods()[1] == "peers.subscribe"@);
            } else if i == 2 {
                assert(subscribe_methods()[2] == "gateway.subscribe"@);
            } else if i == 3 {
                assert(subscribe_methods()[3] == "messages.subscribe"@);
            }
        }
    }
    assert(!subscribe_methods().contains("messages.unsubscribe"@)) by {
        assert forall|i: int| 0 <= i < subscribe_methods().len() implies subscribe_methods()[i] != "messages.unsubscribe"@ by {
            if i == 0 {
                assert(subscribe_methods()[0] == "status.subscribe"@);
            } else if i == 1 {
                assert(subscribe_methods()[1] == "peers.subscribe"@);
            } else if i == 2 {
                assert(subscribe_methods()[2] == "gateway.subscribe"@);
            } else if i == 3 {
                assert(subscribe_methods()[3] == "messages.subscribe"@);
            }
        }
    }
    assert(!subscribe_methods().contains("peers.pair"@)) by {
        assert forall|i: int| 0 <= i < subscribe_methods().len() implies subscribe_methods()[i] != "peers.pair"@ by {
            if i == 0 {
                assert(subscribe_methods()[0] == "status.subscribe"@);
            } else if i == 1 {
                assert(subscribe_methods()[1] == "peers.subscribe"@);
            } else if i == 2 {
                assert(subscribe_methods()[2] == "gateway.subscribe"@);
            } else if i == 3 {
                assert(subscribe_methods()[3] == "messages.subscribe"@);
            }
        }
    }
    assert(!unsubscribe_methods().contains("peers.pair"@)) by {
        assert forall|i: int| 0 <= i < unsubscribe_methods().len() implies unsubscribe_methods()[i] != "peers.pair"@ by {
            if i == 0 {
                assert(unsubscribe_methods()[0] == "status.unsubscribe"@);
            } else if i == 1 {
                assert(unsubscribe_methods()[1] == "peers.unsubscribe"@);
            } else if i == 2 {
                assert(unsubscribe_methods()[2] == "gateway.unsubscribe"@);
            } else if i == 3 {
                assert(unsubscribe_methods()[3] == "logs.unsubscribe"@);
            } else if i == 4 {
                assert(unsubscribe_methods()[4] == "messages.unsubscribe"@);
            }
        }
    }
}

/// The answers the dispatcher gives itself: each subscribe method gets the
/// next subscription id, "rpc-sub-" and the counter's decimal value; each
/// unsubscribe method gets `null`; `peers.pair` gets an internal error.
pub proof fn lemma_builtin_answers(next_id: u64)
    ensures
        builtin_answer("status.subscribe"@, next_id) == Some(Ok::<Seq<char>, (i32, Seq<char>)>("rpc-sub-"@ + dec(next_id as nat))),
        builtin_answer("peers.subscribe"@, next_id) == Some(Ok::<Seq<char>, (i32, Seq<char>)>("rpc-sub-"@ + dec(next_id as nat))),
        builtin_answer("gateway.subscribe"@, next_id) == Some(Ok::<Seq<char>, (i32, Seq<char>)>("rpc-sub-"@ + dec(next_id as nat))),
        builtin_answer("messages.subscribe"@, next_id) == Some(Ok::<Seq<char>, (i32, Seq<char>)>("rpc-sub-"@ + dec(next_id as nat))),
        builtin_answer("status.unsubscribe"@, next_id) == Some(Ok::<Seq<char>, (i32, Seq<char>)>(Seq::empty())),
        builtin_answer("peers.unsubscribe"@, next_id) == Some(Ok::<Seq<char>, (i32, Seq<char>)>(Seq::empty())),
        builtin_answer("gateway.unsubscribe"@, next_id) == Some(Ok::<Seq<char>, (i32, Seq<char>)>(Seq::empty())),
        builtin_answer("logs.unsubscribe"@, next_id) == Some(Ok::<Seq<char>, (i32, Seq<char>)>(Seq::empty())),
        builtin_answer("messages.unsubscribe"@, next_id) == Some(Ok::<Seq<char>, (i32, Seq<char>)>(Seq::empty())),
        builtin_answer("peers.pair"@, next_id) == Some(Err::<Seq<char>, (i32, Seq<char>)>((
            INTERNAL_ERROR,
            "peers.pair: not yet implemented in this RPC server"@,
        ))),
{
    lemma_builtin_names_apart();
    assert(subscribe_methods()[0] == "status.subscribe"@);
    assert(subscribe_methods()[1] == "peers.subscribe"@);
    assert(subscribe_methods()[2] == "gateway.subscribe"@);
    assert(subscribe_methods()[3] == "messages.subscribe"@);
    assert(unsubscribe_methods()[0] == "status.unsubscribe"@);
    assert(unsubscribe_methods()[1] == "peers.unsubscribe"@);
    assert(unsubscribe_methods()[2] == "gateway.unsubscribe"@);
    assert(unsubscribe_methods()[3] == "logs.unsubscribe"@);
    assert(unsubscribe_methods()[4] == "messages.unsubscribe"@);
}

/// A method that is neither handled, nor a subscribe or unsubscribe
/// method, nor `peers.pair` is refused as not found, the message naming it.
pub proof fn lemma_unknown_method_not_found(method: Seq<char>, next_id: u64)
    requires
        !handled_methods().contains(method),
        !subscribe_methods().contains(method),
        !unsubscribe_methods().contains(method),
        method != "peers.pair"@,
    ensures
        builtin_answer(method, next_id) == Some(Err::<Seq<char>, (i32, Seq<char>)>((
            -32601i32,
            "method not found: "@ + method,
        ))),
{
}

fn listed(method: &str, list: &Vec<&str>) -> (b: bool)
    ensures
        b == list@.map_values(|s: &str| s@).contains(method@),
{
    let ghost views = list@.map_values(|s: &str| s@);
    let mut i: usize = 0;
    while i < list.len()
        invariant
            i <= list@.len(),
            views == list@.map_values(|s: &str| s@),
            forall|j: int| 0 <= j < i ==> views[j] != method@,
        decreases list@.len() - i,
    {
        if str_eq(list[i], method) {
            proof {
                assert(views[i as int] == method@);
            }
            return true;
        }
        i = i + 1;
    }
    false
}

/// The dispatcher's own answer for `method`: a subscription id for the
/// subscribe methods (the allocator advances), `null` for the
/// unsubscribe methods, an internal error for `peers.pair`, and "method
/// not found" for a method nobody handles; `None` for a method with a
/// handler of its own.
pub fn builtin_reply(method: &str, ids: &mut SubscriptionIds) -> (r: Option<Result<BuiltinAnswer, RpcFailure>>)
    ensures
        match builtin_answer(method@, old(ids).next_number()) {
            None => r is None,
            Some(Ok(id)) => if subscribe_methods().contains(method@) {
                r matches Some(Ok(BuiltinAnswer::Subscribed(s))) && s@ == id
            } else {
                r == Some(Ok::<BuiltinAnswer, RpcFailure>(BuiltinAnswer::Null))
            },
            Some(Err((code, m))) => r matches Some(Err((c, t))) && c == code && t@ == m,
        },
        subscribe_methods().contains(method@) ==> final(ids).next_number() == (if old(ids).next_number()
            == u64::MAX {
            0
        } else {
            old(ids).next_number() + 1
        }),
        !subscribe_methods().contains(method@) ==> final(ids).next_number() == old(ids).next_number(),
{
    let subscribe = vec!["status.subscribe", "peers.subscribe", "gateway.subscribe", "messages.subscribe"];
    let unsubscribe = vec![
        "status.unsubscribe",
        "peers.unsubscribe",
        "gateway.unsubscribe",
        "logs.unsubscribe",
        "messages.unsubscribe",
    ];
    let handled = vec![
        "rpc.hello",
        "status",
        "peers.list",
        "peers.add_static",
        "peers.connect_dynamic",
        "peers.remove",
        "peers.discovered",
        "peers.import_identity",
        "peers.forget",
        "peers.broadcast_identity_now",
        "peers.set_broadcast_config",
        "peers.get_broadcast_state",
        "route.set_split_default",
        "route.table",
        "gateway.preflight",
        "gateway.enable",
        "gateway.disable",
        "gateway.status",
        "config.get",
        "config.save",
        "mesh.status",
        "logs.subscribe",
        "messages.list_conversations",
        "messages.history",
        "messages.send",
        "messages.mark_read",
        "messages.delete_conversation",
        "messages.delete_all",
    ];
    proof {
        assert(subscribe@.map_values(|s: &str| s@) =~= subscribe_methods());
        assert(unsubscribe@.map_values(|s: &str| s@) =~= unsubscribe_methods());
        assert(handled@.map_values(|s: &str| s@) =~= handled_methods());
        if subscribe_methods().contains(method@) {
            lemma_subscribe_not_handled(method@);
        }
    }
    if listed(method, &handled) {
        None
    } else if listed(method, &subscribe) {
        let id = ids.new_subscription_id();
        Some(Ok(BuiltinAnswer::Subscribed(id)))
    } else if listed(method, &unsubscribe) {
        Some(Ok(BuiltinAnswer::Null))
    } else if str_eq(method, "peers.pair") {
        Some(Err((INTERNAL_ERROR, String::from_str("peers.pair: not yet implemented in this RPC server"))))
    } else {
        let mut m = String::from_str("method not found: ");
        m.append(method);
        Some(Err((METHOD_NOT_FOUND, m)))
    }
}

/// Error code of a failed send: a peer whose X25519 key is not known
/// (the failure's text mentions "no x25519"), else a storage error.
pub fn send_failure_code(message: &str) -> (code: i32)
    ensures
        code == (if contains_text(message@, "no x25519"@) {
            MESSAGE_PEER_UNKNOWN
        } else {
            MESSAGE_STORAGE_ERROR
        }),
{
    if contains_text_exec(message, "no x25519") {
        MESSAGE_PEER_UNKNOWN
    } else {
        MESSAGE_STORAGE_ERROR
    }
}

/// The checks of `messages.send` before anything is sent, in order: a
/// non-empty body, a body within the size limit, a valid peer node id;
/// on success the peer's id bytes.
pub open spec fn send_check(body: &str, peer_node_id: &str) -> Result<Seq<u8>, (i32, Seq<char>)> {
    if body@.len() == 0 {
        Err((INVALID_PARAMS, "messages.send body must be non-empty"@))
    } else if body.spec_bytes().len() > MAX_BODY_BYTES {
        Err((MESSAGE_BODY_TOO_LARGE, "body exceeds "@ + dec(MAX_BODY_BYTES as nat) + " bytes"@))
    } else if !(peer_node_id.spec_bytes().len() == 32 && decode_byte_pairs(peer_node_id.spec_bytes()) is Some) {
        Err((INVALID_PARAMS, "peer_node_id must be 32 hex characters"@))
    } else {
        Ok(decode_byte_pairs(peer_node_id.spec_bytes())->0)
    }
}

pub fn messages_send_check(body: &str, peer_node_id: &str) -> (r: Result<[u8; 16], RpcFailure>)
    ensures
        match send_check(body, peer_node_id) {
            Ok(b) => r matches Ok(id) && id@ == b,
            Err((code, m)) => r matches Err((c, t)) && c == code && t@ == m,
        },
{
    if body.is_empty() {
        return Err((INVALID_PARAMS, String::from_str("messages.send body must be non-empty")));
    }
    if body.as_bytes().len() > MAX_BODY_BYTES {
        let mut m = String::from_str("body exceeds ");
        push_decimal(&mut m, MAX_BODY_BYTES as u128);
        m.append(" bytes");
        return Err((MESSAGE_BODY_TOO_LARGE, m));
    }
    match parse_node_id_hex(peer_node_id) {
        Some(b) => Ok(b),
        None => Err((INVALID_PARAMS, String::from_str("peer_node_id must be 32 hex characters"))),
    }
}

/// The text of a two-byte field of a string: two ASCII characters, or the
/// one character its two UTF-8 bytes encode.
pub open spec fn pair_text(a: u8, b: u8) -> Seq<char> {
    if a < 0x80 && b < 0x80 {
        seq![a as char, b as char]
    } else {
        seq![((a as int % 32) * 64 + b as int % 64) as char]
    }
}

/// Message of a refused `x25519_pubkey` whose bytes are `b`.
spec fn x25519_message(b: Seq<u8>, e: HexKeyError) -> Seq<char> {
    match e {
        HexKeyError::WrongLength => "x25519_pubkey must be 64 hex characters, got "@ + dec(b.len()),
        HexKeyError::InvalidUtf8 { .. } => "x25519_pubkey contains non-utf8 bytes"@,
        HexKeyError::InvalidByte { index } => "x25519_pubkey contains invalid hex: "@ + pair_text(
            b[2 * index],
            b[2 * index + 1],
        ),
    }
}

/// Message of a refused `x25519_pubkey` of the right length whose first
/// pair that is not a hex byte is pair `k`.
pub open spec fn bad_pair_message(b: Seq<u8>, k: int) -> Seq<char> {
    if pair_is_text(b[2 * k], b[2 * k + 1]) {
        "x25519_pubkey contains invalid hex: "@ + pair_text(b[2 * k], b[2 * k + 1])
    } else {
        "x25519_pubkey contains non-utf8 bytes"@
    }
}

/// `char::from_u32`: the character with code point `v`, if there is one.
#[verifier::external_body]
fn char_from_code(v: u32) -> (r: Option<char>)
    ensures
        (v < 0xD800 || (0xE000 <= v && v <= 0x10FFFF)) ==> r == Some(v as char),
{
    char::from_u32(v)
}

/// The `x25519_pubkey` parameter of `peers.import_identity`: the key, or
/// an invalid-params error whose message names the length, a pair that
/// is not text, or the offending pair.
pub fn x25519_param(value: &str) -> (r: Result<[u8; 32], RpcFailure>)
    ensures
        r is Ok <==> (value.spec_bytes().len() == 64 && decode_byte_pairs(value.spec_bytes()) is Some),
        r matches Ok(k) ==> Some(k@) == decode_byte_pairs(value.spec_bytes()),
        value.spec_bytes().len() != 64 ==> (r matches Err((c, m)) && c == INVALID_PARAMS && m@
            == "x25519_pubkey must be 64 hex characters, got "@ + dec(value.spec_bytes().len())),
        (value.spec_bytes().len() == 64 && decode_byte_pairs(value.spec_bytes()) is None) ==> (
        r matches Err((c, m)) && c == INVALID_PARAMS && exists|k: int|
            first_bad_pair(value.spec_bytes(), k) && m@ == #[trigger] bad_pair_message(
                value.spec_bytes(),
                k,
            )),
{
    let parsed = parse_x25519_hex(value);
    match parsed {
        Ok(k) => Ok(k),
        Err(e) => {
            let bytes = value.as_bytes();
            let m = match e {
                HexKeyError::WrongLength => {
                    let mut m = String::from_str("x25519_pubkey must be 64 hex characters, got ");
                    push_decimal(&mut m, bytes.len() as u128);
                    m
                },
                HexKeyError::InvalidUtf8 { .. } => String::from_str("x25519_pubkey contains non-utf8 bytes"),
                HexKeyError::InvalidByte { index } => {
                    let mut m = String::from_str("x25519_pubkey contains invalid hex: ");
                    let a = bytes[2 * index];
                    let b = bytes[2 * index + 1];
                    if a < 0x80 && b < 0x80 {
                        push_char(&mut m, a as char);
                        push_char(&mut m, b as char);
                    } else {
                        let v: u32 = (a % 32) as u32 * 64 + (b % 64) as u32;
                        match char_from_code(v) {
                            Some(c) => push_char(&mut m, c),
                            None => {},
                        }
                    }
                    m
                },
            };
            proof {
                assert(m@ == x25519_message(value.spec_bytes(), e));
                if bytes@.len() == 64 {
                    assert(m@ == bad_pair_message(value.spec_bytes(), error_pair(e)));
                }
            }
            Err((INVALID_PARAMS, m))
        },
    }
}

} // verus!
