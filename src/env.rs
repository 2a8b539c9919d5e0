use vstd::prelude::*;

verus! {

/// The bytes `HQ_` that begin the name of every variable that the server
/// hands to tasks.
pub open spec fn hq_prefix() -> Seq<u8> {
    seq![72u8, 81u8, 95u8]
}

/// Whether the variable name `name` begins with `HQ_`, byte for byte.
pub fn is_hq_env(name: &[u8]) -> (r: bool)
    ensures
        r == (name@.len() >= 3 && name@.subrange(0, 3) == hq_prefix()),
{
    let r = name.len() >= 3 && name[0] == 72u8 && name[1] == 81u8 && name[2] == 95u8;
    proof {
        if name@.len() >= 3 {
            if name@.subrange(0, 3) == hq_prefix() {
                assert(name@.subrange(0, 3)[1] == 81u8);
                assert(name@.subrange(0, 3)[2] == 95u8);
                assert(name@.subrange(0, 3)[0] == 72u8);
            }
            if r {
                assert(name@.subrange(0, 3) =~= hq_prefix());
            }
        }
    }
    r
}

pub const HQ_JOB_ID: &'static str = "HQ_JOB_ID";

pub const HQ_TASK_ID: &'static str = "HQ_TASK_ID";

pub const HQ_INSTANCE_ID: &'static str = "HQ_INSTANCE_ID";

pub const HQ_SUBMIT_DIR: &'static str = "HQ_SUBMIT_DIR";

pub const HQ_ENTRY: &'static str = "HQ_ENTRY";

pub const HQ_PIN: &'static str = "HQ_PIN";

pub const HQ_CPUS: &'static str = "HQ_CPUS";

/// Path of `qstat`, for the PBS integration.
pub const HQ_QSTAT_PATH: &'static str = "HQ_QSTAT_PATH";

} // verus!
