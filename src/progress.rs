//! Progress accounting: which counts are reported, and the labels of the
//! progress and completion notifications.
use vstd::prelude::*;
use vstd::string::StringExecFns;
use crate::text::{decimal, decimal_of};

verus! {

/// A progress notification goes out at every twentieth object and at the
/// last one.
pub open spec fn notifies(n: nat, total: nat) -> bool {
    n % 20 == 0 || n == total
}

pub open spec fn progress_text(n: nat, total: nat) -> Seq<char> {
    decimal_of(n) + " / "@ + decimal_of(total)
}

pub open spec fn finished_text(total: nat) -> Seq<char> {
    decimal_of(total) + " objects"@
}

/// The label `n / total` of the progress notification for the `n`-th
/// object, or `None` when no notification is due.
pub fn progress_label(n: usize, total: usize) -> (r: Option<String>)
    ensures
        r is Some <==> notifies(n as nat, total as nat),
        r is Some ==> r->0@ == progress_text(n as nat, total as nat),
{
    if n % 20 == 0 || n == total {
        let mut s = decimal(n);
        s.append(" / ");
        let t = decimal(total);
        s.append(t.as_str());
        Some(s)
    } else {
        None
    }
}

/// The label `total objects` of the completion notification.
pub fn finished_label(total: usize) -> (r: String)
    ensures
        r@ == finished_text(total as nat),
{
    let mut s = decimal(total);
    s.append(" objects");
    s
}

} // verus!
