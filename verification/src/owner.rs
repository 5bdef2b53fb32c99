//! The session that owns a database's tasks.

use vstd::prelude::*;
use vstd::string::*;

verus! {

/// The file that is locked for a session, beside the database.
pub fn owner_lock_path(path: &str) -> (r: String)
    ensures
        r@ == path@ + ".owner.lock"@,
{
    let mut name: String = path.to_owned();
    name.append(".owner.lock");
    name
}

/// The session that owns the tasks of a database.
pub struct ExecutionOwner {
    epoch: i64,
    session_id: String,
}

impl ExecutionOwner {
    pub closed spec fn number(&self) -> i64 {
        self.epoch
    }

    pub closed spec fn name(&self) -> Seq<char> {
        self.session_id@
    }

    /// A new session gets the number after that of the last one, and the first session the
    /// number 1. The largest number stays.
    pub fn acquire(previous: Option<i64>, session_id: String) -> (r: ExecutionOwner)
        ensures
            ({
                let last = if previous is Some {
                    previous->0
                } else {
                    0
                };
                r.number() == (if last < i64::MAX {
                    last + 1
                } else {
                    last as int
                })
            }),
            r.name() == session_id@,
            previous is None ==> r.number() == 1,
            previous is Some && previous->0 < i64::MAX ==> r.number() > previous->0,
            previous is Some ==> previous->0 <= r.number() <= previous->0 + 1,
    {
        let last: i64 = match previous {
            Some(number) => number,
            None => 0,
        };
        let epoch: i64 = if last < i64::MAX {
            last + 1
        } else {
            last
        };
        ExecutionOwner { epoch, session_id }
    }

    pub fn epoch(&self) -> (r: i64)
        ensures
            r == self.number(),
    {
        self.epoch
    }

    pub fn session_id(&self) -> (r: &str)
        ensures
            r@ == self.name(),
    {
        self.session_id.as_str()
    }
}

} // verus!
