//! The node's dynamic log-filter directives: add one, or reset to default.
//!
//! Both operations are fire-and-forget: the node exposes no query for its
//! current filter state, so no verification read-back exists; success is
//! solely the call not failing.

use vstd::prelude::*;
use vstd::string::StringExecFns;

verus! {

/// The directives the node has accepted since its filter was last reset.
pub struct LogFilters {
    pub directives: Vec<String>,
}

/// The views of the directive strings.
pub open spec fn directives_view(ds: Seq<String>) -> Seq<Seq<char>> {
    ds.map_values(|d: String| d@)
}

impl LogFilters {
    /// The default filter state: no added directives.
    pub fn new() -> (r: Self)
        ensures
            directives_view(r.directives@) == Seq::<Seq<char>>::empty(),
    {
        let r = LogFilters { directives: Vec::new() };
        proof {
            assert(directives_view(r.directives@) =~= Seq::<Seq<char>>::empty());
        }
        r
    }
}

/// Adds a log-filter directive.
pub fn add_log_filter(filters: &mut LogFilters, directive: &str)
    ensures
        directives_view(final(filters).directives@) == directives_view(
            old(filters).directives@,
        ).push(directive@),
{
    let d = String::from_str(directive);
    filters.directives.push(d);
    proof {
        assert(directives_view(filters.directives@) =~= directives_view(
            old(filters).directives@,
        ).push(directive@));
    }
}

/// Resets the filter to its default: every added directive is discarded.
pub fn reset_log_filter(filters: &mut LogFilters)
    ensures
        directives_view(final(filters).directives@) == Seq::<Seq<char>>::empty(),
{
    filters.directives.clear();
    proof {
        assert(directives_view(filters.directives@) =~= Seq::<Seq<char>>::empty());
    }
}

} // verus!
