//! Operations on script error reports.
use crate::ops::OpTable;
use vstd::prelude::*;

verus! {

/// The operations of this group, in registration order.
pub open spec fn op_names() -> Seq<Seq<char>> {
    seq!["op_apply_source_map"@, "op_format_diagnostic"@]
}

/// Registers the operations of this group.
pub fn init(ops: &mut OpTable)
    requires
        old(ops).wf(),
        forall|i: int| 0 <= i < op_names().len() ==> !old(ops).op_names().contains(#[trigger] op_names()[i]),
    ensures
        final(ops).wf(),
        final(ops).op_names() == old(ops).op_names() + op_names(),
{
    let names: [&str; 2] = ["op_apply_source_map", "op_format_diagnostic"];
    proof {
        reveal_strlit("op_apply_source_map");
        reveal_strlit("op_format_diagnostic");
        assert(names@.map_values(|n: &str| n@) =~= op_names());
        assert("op_apply_source_map"@.len() == 19 && "op_apply_source_map"@[3] == 'a');
        assert("op_format_diagnostic"@.len() == 20 && "op_format_diagnostic"@[3] == 'f');
        assert forall|i: int, j: int| 0 <= i < j < names@.len() implies names@[i]@ != names@[j]@ by {
            if names@[i]@ == names@[j]@ {
                assert(names@[i]@.len() == names@[j]@.len());
                assert(names@[i]@[3] == names@[j]@[3]);
            }
        }
    }
    ops.register_all(&names);
}

} // verus!
