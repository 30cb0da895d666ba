use vstd::prelude::*;

verus! {

/// Identifies one option: the scope segments (an empty sequence means the
/// global scope), the name segments, and an optional one-character short
/// alias.  Immutable; built once by the caller.
pub struct OptionId {
    pub scope: Vec<String>,
    pub name: Vec<String>,
    pub short: Option<char>,
}

/// The segments joined with the separator `sep`, over character sequences.
pub open spec fn spec_join(parts: Seq<Seq<char>>, sep: Seq<char>) -> Seq<char>
    decreases parts.len(),
{
    if parts.len() == 0 {
        Seq::empty()
    } else if parts.len() == 1 {
        parts[0]
    } else {
        spec_join(parts.drop_last(), sep) + sep + parts.last()
    }
}

/// How the scope of an option renders and is looked up: the literal token
/// `GLOBAL` for the empty scope, else the segments joined with dashes.
pub open spec fn spec_scope_name(scope: Seq<Seq<char>>) -> Seq<char> {
    if scope.len() == 0 {
        "GLOBAL"@
    } else {
        spec_join(scope, "-"@)
    }
}

/// The key under which an option is looked up in a section: the name
/// segments joined with underscores.
pub open spec fn spec_name_key(name: Seq<Seq<char>>) -> Seq<char> {
    spec_join(name, "_"@)
}

/// How an option renders for messages: `[<SCOPE>] <name>`; the short alias
/// never appears.
pub open spec fn spec_display(id: &OptionId) -> Seq<char> {
    "["@ + spec_scope_name(id.scope.deep_view()) + "] "@ + spec_name_key(id.name.deep_view())
}

/// Joins the segments with `sep`.
pub fn join(parts: &Vec<String>, sep: &str) -> (r: String)
    ensures
        r@ == spec_join(parts.deep_view(), sep@),
{
    let mut r = String::new();
    let mut i: usize = 0;
    while i < parts.len()
        invariant
            i <= parts.len(),
            r@ == spec_join(parts.deep_view().take(i as int), sep@),
        decreases parts.len() - i,
    {
        if i > 0 {
            r.append(sep);
        }
        r.append(parts[i].as_str());
        proof {
            let pv = parts.deep_view();
            assert(pv.take(i + 1).drop_last() =~= pv.take(i as int));
            assert(pv.take(i + 1).last() == pv[i as int]);
            assert(r@ =~= spec_join(pv.take(i + 1), sep@));
        }
        i = i + 1;
    }
    proof {
        assert(parts.deep_view().take(parts.len() as int) =~= parts.deep_view());
    }
    r
}

impl OptionId {
    /// Builds an option identity from its scope segments, name segments and
    /// optional short alias.
    pub fn new(scope: Vec<String>, name: Vec<String>, short: Option<char>) -> (r: OptionId)
        ensures
            r.scope == scope,
            r.name == name,
            r.short == short,
    {
        OptionId { scope, name, short }
    }

    /// The name of the section this option is looked up in: `GLOBAL` for the
    /// empty scope, else the dash-joined scope segments.
    pub fn scope_name(&self) -> (r: String)
        ensures
            r@ == spec_scope_name(self.scope.deep_view()),
    {
        if self.scope.len() == 0 {
            String::from_str("GLOBAL")
        } else {
            join(&self.scope, "-")
        }
    }

    /// The key this option is looked up under: the underscore-joined name
    /// segments.
    pub fn name_key(&self) -> (r: String)
        ensures
            r@ == spec_name_key(self.name.deep_view()),
    {
        join(&self.name, "_")
    }
}

} // verus!
