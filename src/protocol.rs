use vstd::prelude::*;
use vstd::string::StringExecFns;

verus! {

broadcast use vstd::string::group_string_axioms;

/// The full protocol method name `"Domain.method"`.
pub fn make_method_name(domain: &str, method: &str) -> (r: String)
    ensures
        r@ == domain@ + seq!['.'] + method@,
{
    proof {
        reveal_strlit(".");
    }
    let mut s = domain.to_string();
    s.append(".");
    s.append(method);
    s
}

/// Numbers the commands sent over one protocol connection, from zero.
#[derive(Clone, Debug)]
pub struct ChromeAdapter {
    next_id: i64,
}

impl ChromeAdapter {
    /// The number the next command will get.
    pub closed spec fn next(&self) -> i64 {
        self.next_id
    }

    pub fn new() -> (r: Self)
        ensures
            r.next() == 0,
    {
        ChromeAdapter { next_id: 0 }
    }

    /// Hands out the current number and advances it by one.
    pub fn next_command_id(&mut self) -> (r: i64)
        requires
            old(self).next() < i64::MAX,
        ensures
            r == old(self).next(),
            final(self).next() == old(self).next() + 1,
    {
        let current = self.next_id;
        self.next_id = current + 1;
        current
    }
}

} // verus!
