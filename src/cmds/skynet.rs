//! Operations on the message bus and its sockets.
use crate::ops::OpTable;
use vstd::prelude::*;

verus! {

/// The operations of this group, in registration order.
pub open spec fn op_names() -> Seq<Seq<char>> {
    seq![
        "op_skynet_command"@,
        "op_skynet_send"@,
        "op_skynet_send_name"@,
        "op_skynet_error"@,
        "op_skynet_now"@,
        "op_skynet_genid"@,
        "op_skynet_fetch_message"@,
        "op_skynet_free"@,
        "op_skynet_socket_connect"@,
        "op_skynet_socket_close"@,
        "op_skynet_socket_shutdown"@,
        "op_skynet_socket_unpack"@,
        "op_skynet_socket_bind"@,
        "op_skynet_socket_start"@,
        "op_skynet_socket_listen"@,
        "op_skynet_socket_udp"@,
        "op_skynet_socket_udp_connect"@,
        "op_skynet_socket_alloc_msg"@,
        "op_skynet_socket_send"@,
        "op_skynet_socket_send_lowpriority"@,
        "op_skynet_socket_sendto"@,
        "op_skynet_socket_nodelay"@,
    ]
}

/// Registers the operations of this group.
pub fn init(ops: &mut OpTable)
    requires
        old(ops).wf(),
        forall|i: int| 0 <= i < op_names().len() ==> !old(ops).op_names().contains(#[trigger] op_names()[i]),
    ensures
        final(ops).wf(),
        final(ops).op_names() == old(ops).op_names() + op_names(),
{
    let names: [&str; 22] = [
        "op_skynet_command",
        "op_skynet_send",
        "op_skynet_send_name",
        "op_skynet_error",
        "op_skynet_now",
        "op_skynet_genid",
        "op_skynet_fetch_message",
        "op_skynet_free",
        "op_skynet_socket_connect",
        "op_skynet_socket_close",
        "op_skynet_socket_shutdown",
        "op_skynet_socket_unpack",
        "op_skynet_socket_bind",
        "op_skynet_socket_start",
        "op_skynet_socket_listen",
        "op_skynet_socket_udp",
        "op_skynet_socket_udp_connect",
        "op_skynet_socket_alloc_msg",
        "op_skynet_socket_send",
        "op_skynet_socket_send_lowpriority",
        "op_skynet_socket_sendto",
        "op_skynet_socket_nodelay",
    ];
    proof {
        reveal_strlit("op_skynet_command");
        reveal_strlit("op_skynet_send");
        reveal_strlit("op_skynet_send_name");
        reveal_strlit("op_skynet_error");
        reveal_strlit("op_skynet_now");
        reveal_strlit("op_skynet_genid");
        reveal_strlit("op_skynet_fetch_message");
        reveal_strlit("op_skynet_free");
        reveal_strlit("op_skynet_socket_connect");
        reveal_strlit("op_skynet_socket_close");
        reveal_strlit("op_skynet_socket_shutdown");
        reveal_strlit("op_skynet_socket_unpack");
        reveal_strlit("op_skynet_socket_bind");
        reveal_strlit("op_skynet_socket_start");
        reveal_strlit("op_skynet_socket_listen");
        reveal_strlit("op_skynet_socket_udp");
        reveal_strlit("op_skynet_socket_udp_connect");
        reveal_strlit("op_skynet_socket_alloc_msg");
        reveal_strlit("op_skynet_socket_send");
        reveal_strlit("op_skynet_socket_send_lowpriority");
        reveal_strlit("op_skynet_socket_sendto");
        reveal_strlit("op_skynet_socket_nodelay");
        assert(names@.map_values(|n: &str| n@) =~= op_names());
        assert("op_skynet_command"@.len() == 17 && "op_skynet_command"@[10] == 'c');
        assert("op_skynet_send"@.len() == 14 && "op_skynet_send"@[10] == 's');
        assert("op_skynet_send_name"@.len() == 19 && "op_skynet_send_name"@[10] == 's' && "op_skynet_send_name"@[17] == 'm');
        assert("op_skynet_error"@.len() == 15 && "op_skynet_error"@[10] == 'e');
        assert("op_skynet_now"@.len() == 13 && "op_skynet_now"@[10] == 'n');
        assert("op_skynet_genid"@.len() == 15 && "op_skynet_genid"@[10] == 'g');
        assert("op_skynet_fetch_message"@.len() == 23 && "op_skynet_fetch_message"@[10] == 'f' && "op_skynet_fetch_message"@[17] == 'e');
        assert("op_skynet_free"@.len() == 14 && "op_skynet_free"@[10] == 'f');
        assert("op_skynet_socket_connect"@.len() == 24 && "op_skynet_socket_connect"@[10] == 's' && "op_skynet_socket_connect"@[17] == 'c');
        assert("op_skynet_socket_close"@.len() == 22 && "op_skynet_socket_close"@[10] == 's' && "op_skynet_socket_close"@[17] == 'c');
        assert("op_skynet_socket_shutdown"@.len() == 25 && "op_skynet_socket_shutdown"@[10] == 's' && "op_skynet_socket_shutdown"@[17] == 's');
        assert("op_skynet_socket_unpack"@.len() == 23 && "op_skynet_socket_unpack"@[10] == 's' && "op_skynet_socket_unpack"@[17] == 'u');
        assert("op_skynet_socket_bind"@.len() == 21 && "op_skynet_socket_bind"@[10] == 's' && "op_skynet_socket_bind"@[17] == 'b');
        assert("op_skynet_socket_start"@.len() == 22 && "op_skynet_socket_start"@[10] == 's' && "op_skynet_socket_start"@[17] == 's');
        assert("op_skynet_socket_listen"@.len() == 23 && "op_skynet_socket_listen"@[10] == 's' && "op_skynet_socket_listen"@[17] == 'l');
        assert("op_skynet_socket_udp"@.len() == 20 && "op_skynet_socket_udp"@[10] == 's' && "op_skynet_socket_udp"@[17] == 'u');
        assert("op_skynet_socket_udp_connect"@.len() == 28 && "op_skynet_socket_udp_connect"@[10] == 's' && "op_skynet_socket_udp_connect"@[17] == 'u');
        assert("op_skynet_socket_alloc_msg"@.len() == 26 && "op_skynet_socket_alloc_msg"@[10] == 's' && "op_skynet_socket_alloc_msg"@[17] == 'a');
        assert("op_skynet_socket_send"@.len() == 21 && "op_skynet_socket_send"@[10] == 's' && "op_skynet_socket_send"@[17] == 's');
        assert("op_skynet_socket_send_lowpriority"@.len() == 33 && "op_skynet_socket_send_lowpriority"@[10] == 's' && "op_skynet_socket_send_lowpriority"@[17] == 's');
        assert("op_skynet_socket_sendto"@.len() == 23 && "op_skynet_socket_sendto"@[10] == 's' && "op_skynet_socket_sendto"@[17] == 's');
        assert("op_skynet_socket_nodelay"@.len() == 24 && "op_skynet_socket_nodelay"@[10] == 's' && "op_skynet_socket_nodelay"@[17] == 'n');
        assert forall|i: int, j: int| 0 <= i < j < names@.len() implies names@[i]@ != names@[j]@ by {
            if names@[i]@ == names@[j]@ {
                assert(names@[i]@.len() == names@[j]@.len());
                assert(names@[i]@[10] == names@[j]@[10]);
                assert(names@[i]@[17] == names@[j]@[17]);
            }
        }
    }
    ops.register_all(&names);
}

} // verus!
