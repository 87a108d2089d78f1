//! Operations on TLS contexts and sessions.
use crate::ops::OpTable;
use vstd::prelude::*;

verus! {

/// The operations of this group, in registration order.
pub open spec fn op_names() -> Seq<Seq<char>> {
    seq![
        "op_tls_new_ctx"@,
        "op_tls_free_ctx"@,
        "op_tls_set_cert"@,
        "op_tls_new_tls"@,
        "op_tls_free_tls"@,
        "op_tls_finished"@,
        "op_tls_handshake"@,
        "op_tls_bio_write"@,
        "op_tls_bio_read"@,
        "op_tls_ssl_write"@,
        "op_tls_ssl_read"@,
    ]
}

/// Registers the operations of this group.
pub fn init(ops: &mut OpTable)
    requires
        old(ops).wf(),
        forall|i: int| 0 <= i < op_names().len() ==> !old(ops).op_names().contains(#[trigger] op_names()[i]),
    ensures
        final(ops).wf(),
        final(ops).op_names() == old(ops).op_names() + op_names(),
{
    let names: [&str; 11] = [
        "op_tls_new_ctx",
        "op_tls_free_ctx",
        "op_tls_set_cert",
        "op_tls_new_tls",
        "op_tls_free_tls",
        "op_tls_finished",
        "op_tls_handshake",
        "op_tls_bio_write",
        "op_tls_bio_read",
        "op_tls_ssl_write",
        "op_tls_ssl_read",
    ];
    proof {
        reveal_strlit("op_tls_new_ctx");
        reveal_strlit("op_tls_free_ctx");
        reveal_strlit("op_tls_set_cert");
        reveal_strlit("op_tls_new_tls");
        reveal_strlit("op_tls_free_tls");
        reveal_strlit("op_tls_finished");
        reveal_strlit("op_tls_handshake");
        reveal_strlit("op_tls_bio_write");
        reveal_strlit("op_tls_bio_read");
        reveal_strlit("op_tls_ssl_write");
        reveal_strlit("op_tls_ssl_read");
        assert(names@.map_values(|n: &str| n@) =~= op_names());
        assert("op_tls_new_ctx"@.len() == 14 && "op_tls_new_ctx"@[7] == 'n' && "op_tls_new_ctx"@[13] == 'x');
        assert("op_tls_free_ctx"@.len() == 15 && "op_tls_free_ctx"@[7] == 'f' && "op_tls_free_ctx"@[13] == 't');
        assert("op_tls_set_cert"@.len() == 15 && "op_tls_set_cert"@[7] == 's' && "op_tls_set_cert"@[13] == 'r');
        assert("op_tls_new_tls"@.len() == 14 && "op_tls_new_tls"@[7] == 'n' && "op_tls_new_tls"@[13] == 's');
        assert("op_tls_free_tls"@.len() == 15 && "op_tls_free_tls"@[7] == 'f' && "op_tls_free_tls"@[13] == 'l');
        assert("op_tls_finished"@.len() == 15 && "op_tls_finished"@[7] == 'f' && "op_tls_finished"@[13] == 'e');
        assert("op_tls_handshake"@.len() == 16 && "op_tls_handshake"@[7] == 'h' && "op_tls_handshake"@[13] == 'a');
        assert("op_tls_bio_write"@.len() == 16 && "op_tls_bio_write"@[7] == 'b' && "op_tls_bio_write"@[13] == 'i');
        assert("op_tls_bio_read"@.len() == 15 && "op_tls_bio_read"@[7] == 'b' && "op_tls_bio_read"@[13] == 'a');
        assert("op_tls_ssl_write"@.len() == 16 && "op_tls_ssl_write"@[7] == 's' && "op_tls_ssl_write"@[13] == 'i');
        assert("op_tls_ssl_read"@.len() == 15 && "op_tls_ssl_read"@[7] == 's' && "op_tls_ssl_read"@[13] == 'a');
        assert forall|i: int, j: int| 0 <= i < j < names@.len() implies names@[i]@ != names@[j]@ by {
            if names@[i]@ == names@[j]@ {
                assert(names@[i]@.len() == names@[j]@.len());
                assert(names@[i]@[7] == names@[j]@[7]);
                assert(names@[i]@[13] == names@[j]@[13]);
            }
        }
    }
    ops.register_all(&names);
}

} // verus!
