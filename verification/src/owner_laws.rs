//! Whom a process belongs to, stated directly over the parent chain.

use vstd::prelude::*;

use crate::app::EnrichedProcess;
use crate::classifier::ProcessType;
use crate::provenance::{direct_matches, index_of_pid, owner_index, ProcessProvenance};
use crate::text::{contains, lower};

verus! {

/// The first process with this PID is a browser or a development tool.
#[verifier::opaque]
pub open spec fn is_owner_pid(ps: Seq<EnrichedProcess>, pid: i32) -> bool {
    match index_of_pid(ps, pid) {
        Some(k) => ps[k].classification.process_type == ProcessType::Browser
            || ps[k].classification.process_type == ProcessType::Development,
        None => false,
    }
}

/// The owner of a process is its nearest ancestor on the parent chain that
/// is a listed browser or development tool: there is none exactly when no
/// PID on the chain is one, and otherwise it is the first process with the
/// first such PID.
/// The position of the first PID on the chain that is a browser or a
/// development tool.
pub open spec fn first_owner_position(chain: Seq<i32>, ps: Seq<EnrichedProcess>) -> Option<int>
    decreases chain.len(),
{
    if chain.len() == 0 {
        None
    } else if is_owner_pid(ps, chain[0]) {
        Some(0)
    } else {
        match first_owner_position(chain.drop_first(), ps) {
            Some(i) => Some(i + 1),
            None => None,
        }
    }
}

pub proof fn owner_is_the_nearest_browser_or_dev_ancestor(chain: Seq<i32>, ps: Seq<EnrichedProcess>)
    ensures
        owner_index(chain, ps) is None ==> forall|i: int| 0 <= i < chain.len() ==> !is_owner_pid(ps, #[trigger] chain[i]),
        (forall|i: int| 0 <= i < chain.len() ==> !is_owner_pid(ps, #[trigger] chain[i])) ==> owner_index(chain, ps) is None,
        owner_index(chain, ps) == match first_owner_position(chain, ps) {
            Some(i) => index_of_pid(ps, chain[i]),
            None => None,
        },
        first_owner_position(chain, ps) matches Some(i) ==> 0 <= i < chain.len() && is_owner_pid(ps, chain[i])
            && forall|j: int| 0 <= j < i ==> !is_owner_pid(ps, #[trigger] chain[j]),
    decreases chain.len(),
{
    if chain.len() > 0 {
        let d = chain.drop_first();
        owner_is_the_nearest_browser_or_dev_ancestor(d, ps);
        assert(is_owner_pid(ps, chain[0]) == match index_of_pid(ps, chain[0]) {
            Some(k) => ps[k].classification.process_type == ProcessType::Browser
                || ps[k].classification.process_type == ProcessType::Development,
            None => false,
        }) by {
            reveal(is_owner_pid);
        }
        if forall|i: int| 0 <= i < chain.len() ==> !is_owner_pid(ps, #[trigger] chain[i]) {
            assert(!is_owner_pid(ps, chain[0]));
            assert forall|i: int| 0 <= i < d.len() implies !is_owner_pid(ps, #[trigger] d[i]) by {
                assert(d[i] == chain[i + 1]);
            }
        }
        if !is_owner_pid(ps, chain[0]) {
            assert(owner_index(chain, ps) == owner_index(d, ps));
            if first_owner_position(d, ps) is Some {
                let i = first_owner_position(d, ps)->0;
                assert(chain[i + 1] == d[i]);
                assert forall|j: int| 0 <= j < i + 1 implies !is_owner_pid(ps, #[trigger] chain[j]) by {
                    if j > 0 {
                        assert(chain[j] == d[j - 1]);
                    }
                }
            }
            if owner_index(d, ps) is Some {
            }
            if owner_index(d, ps) is None {
                assert forall|i: int| 0 <= i < chain.len() implies !is_owner_pid(ps, #[trigger] chain[i]) by {
                    if i > 0 {
                        assert(chain[i] == d[i - 1]);
                    }
                }
            }
        }
    }
}


/// A browser keeps its own category, and its project label is its browser
/// family, read from its name without ASCII case: "Firefox" for a name that
/// holds `firefox`; else "Chromium" for one that holds `chromium`; else
/// "Brave" for one that holds `brave`; else "Chrome" for one that holds
/// `chrome`.
pub proof fn browser_label_is_its_family(r: ProcessProvenance, p: EnrichedProcess, ps: Seq<EnrichedProcess>)
    requires
        p.classification.process_type == ProcessType::Browser,
        direct_matches(r, p, ps),
    ensures
        r.process_type == ProcessType::Browser,
        r.owner_pid is None,
        contains(lower(p.snapshot.name@), "firefox"@) ==> r.project_label@ == "Firefox"@,
        !contains(lower(p.snapshot.name@), "firefox"@) && contains(lower(p.snapshot.name@), "chromium"@)
            ==> r.project_label@ == "Chromium"@,
        !contains(lower(p.snapshot.name@), "firefox"@) && !contains(lower(p.snapshot.name@), "chromium"@)
            && contains(lower(p.snapshot.name@), "brave"@) ==> r.project_label@ == "Brave"@,
        !contains(lower(p.snapshot.name@), "firefox"@) && !contains(lower(p.snapshot.name@), "chromium"@)
            && !contains(lower(p.snapshot.name@), "brave"@) && contains(lower(p.snapshot.name@), "chrome"@)
            ==> r.project_label@ == "Chrome"@,
{
}

} // verus!
