//! Operations on the operating system and the process environment.
use crate::ops::OpTable;
use vstd::prelude::*;

verus! {

/// The operations of this group, in registration order.
pub open spec fn op_names() -> Seq<Seq<char>> {
    seq![
        "op_exit"@,
        "op_env"@,
        "op_exec_path"@,
        "op_set_env"@,
        "op_get_env"@,
        "op_delete_env"@,
        "op_hostname"@,
        "op_loadavg"@,
        "op_os_release"@,
        "op_system_memory_info"@,
        "op_file_exists"@,
        "op_v8_memory_info"@,
    ]
}

/// Registers the operations of this group.
pub fn init(ops: &mut OpTable)
    requires
        old(ops).wf(),
        forall|i: int| 0 <= i < op_names().len() ==> !old(ops).op_names().contains(#[trigger] op_names()[i]),
    ensures
        final(ops).wf(),
        final(ops).op_names() == old(ops).op_names() + op_names(),
{
    let names: [&str; 12] = [
        "op_exit",
        "op_env",
        "op_exec_path",
        "op_set_env",
        "op_get_env",
        "op_delete_env",
        "op_hostname",
        "op_loadavg",
        "op_os_release",
        "op_system_memory_info",
        "op_file_exists",
        "op_v8_memory_info",
    ];
    proof {
        reveal_strlit("op_exit");
        reveal_strlit("op_env");
        reveal_strlit("op_exec_path");
        reveal_strlit("op_set_env");
        reveal_strlit("op_get_env");
        reveal_strlit("op_delete_env");
        reveal_strlit("op_hostname");
        reveal_strlit("op_loadavg");
        reveal_strlit("op_os_release");
        reveal_strlit("op_system_memory_info");
        reveal_strlit("op_file_exists");
        reveal_strlit("op_v8_memory_info");
        assert(names@.map_values(|n: &str| n@) =~= op_names());
        assert("op_exit"@.len() == 7 && "op_exit"@[3] == 'e');
        assert("op_env"@.len() == 6 && "op_env"@[3] == 'e');
        assert("op_exec_path"@.len() == 12 && "op_exec_path"@[3] == 'e');
        assert("op_set_env"@.len() == 10 && "op_set_env"@[3] == 's');
        assert("op_get_env"@.len() == 10 && "op_get_env"@[3] == 'g');
        assert("op_delete_env"@.len() == 13 && "op_delete_env"@[3] == 'd');
        assert("op_hostname"@.len() == 11 && "op_hostname"@[3] == 'h');
        assert("op_loadavg"@.len() == 10 && "op_loadavg"@[3] == 'l');
        assert("op_os_release"@.len() == 13 && "op_os_release"@[3] == 'o');
        assert("op_system_memory_info"@.len() == 21 && "op_system_memory_info"@[3] == 's');
        assert("op_file_exists"@.len() == 14 && "op_file_exists"@[3] == 'f');
        assert("op_v8_memory_info"@.len() == 17 && "op_v8_memory_info"@[3] == 'v');
        assert forall|i: int, j: int| 0 <= i < j < names@.len() implies names@[i]@ != names@[j]@ by {
            if names@[i]@ == names@[j]@ {
                assert(names@[i]@.len() == names@[j]@.len());
                assert(names@[i]@[3] == names@[j]@[3]);
            }
        }
    }
    ops.register_all(&names);
}

} // verus!
