//! Operations of the remote-debugging bridge.
use crate::ops::OpTable;
use vstd::prelude::*;

verus! {

/// The operations of this group, in registration order.
pub open spec fn op_names() -> Seq<Seq<char>> {
    seq![
        "op_v8inspector_connect"@,
        "op_v8inspector_disconnect"@,
    ]
}

/// Registers the operations of this group.
pub fn init(ops: &mut OpTable)
    requires
        old(ops).wf(),
        forall|i: int| 0 <= i < op_names().len() ==> !old(ops).op_names().contains(#[trigger] op_names()[i]),
    ensures
        final(ops).wf(),
        final(ops).op_names() == old(ops).op_names() + op_names(),
{
    let names: [&str; 2] = [
        "op_v8inspector_connect",
        "op_v8inspector_disconnect",
    ];
    proof {
        reveal_strlit("op_v8inspector_connect");
        reveal_strlit("op_v8inspector_disconnect");
        assert(names@.map_values(|n: &str| n@) =~= op_names());
        assert("op_v8inspector_connect"@.len() == 22);
        assert("op_v8inspector_disconnect"@.len() == 25);
        assert forall|i: int, j: int| 0 <= i < j < names@.len() implies names@[i]@ != names@[j]@ by {
            if names@[i]@ == names@[j]@ {
                assert(names@[i]@.len() == names@[j]@.len());
            }
        }
    }
    ops.register_all(&names);
}

} // verus!
