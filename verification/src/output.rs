//! Alerts: lines in the output that tell whoever runs the scan that something
//! is wrong with the run itself.

use crate::clock::{rfc3339_seconds_text, utc_now, Timestamp};
use vstd::prelude::*;

verus! {

use crate::clock::rfc3339_seconds;

/// One alert line.
#[derive(Debug)]
pub struct Alert {
    /// always "alert"
    pub event: String,
    pub kind: String,
    pub scraped_at: String,
    pub username: String,
    pub note: String,
    pub missing: Vec<String>,
    pub saw_keys: Vec<String>,
}

impl Alert {
    /// An alert of a kind that says nothing more.
    pub open spec fn is_bare(self, kind: Seq<char>) -> bool {
        &&& self.event@ == "alert"@
        &&& self.kind@ == kind
        &&& self.username@ == Seq::<char>::empty()
        &&& self.note@ == Seq::<char>::empty()
        &&& self.missing@ == Seq::<String>::empty()
        &&& self.saw_keys@ == Seq::<String>::empty()
    }
}

/// An alert of the given kind, raised at `now`.
pub fn alert_at(kind: &str, now: Timestamp) -> (r: Alert)
    requires
        now.wf(),
    ensures
        r.is_bare(kind@),
        r.scraped_at@ == rfc3339_seconds(now.secs),
{
    Alert {
        event: "alert".to_owned(),
        kind: kind.to_owned(),
        scraped_at: rfc3339_seconds_text(&now),
        username: String::new(),
        note: String::new(),
        missing: Vec::new(),
        saw_keys: Vec::new(),
    }
}

/// An alert of the given kind, raised now.
pub fn new_alert(kind: &str) -> (r: Alert)
    ensures
        r.is_bare(kind@),
        exists|now: Timestamp| now.wf() && r.scraped_at@ == #[trigger] rfc3339_seconds(now.secs),
{
    let now = utc_now();
    alert_at(kind, now)
}

/// A new alert says its kind and nothing more.
pub proof fn law_new_alerts_say_their_kind(a: Alert, kind: Seq<char>)
    ensures
        a.is_bare(kind) <==> a.event@ == "alert"@ && a.kind@ == kind && a.username@.len() == 0
            && a.note@.len() == 0 && a.missing@.len() == 0 && a.saw_keys@.len() == 0,
{
    assert(a.username@.len() == 0 ==> a.username@ =~= Seq::<char>::empty());
    assert(a.note@.len() == 0 ==> a.note@ =~= Seq::<char>::empty());
    assert(a.missing@.len() == 0 ==> a.missing@ =~= Seq::<String>::empty());
    assert(a.saw_keys@.len() == 0 ==> a.saw_keys@ =~= Seq::<String>::empty());
}

} // verus!
