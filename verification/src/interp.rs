use vstd::prelude::*;

verus! {

/// How many levels of placeholder indirection are followed before the
/// resolution fails with a recursion error instead of looping forever.
pub const MAX_INTERP_DEPTH: u64 = 64;

/// True of the characters that may form a placeholder identifier:
/// ASCII letters, digits and underscore.
pub open spec fn is_ident_char(c: char) -> bool {
    ||| ('a' as u32) <= (c as u32) && (c as u32) <= ('z' as u32)
    ||| ('A' as u32) <= (c as u32) && (c as u32) <= ('Z' as u32)
    ||| ('0' as u32) <= (c as u32) && (c as u32) <= ('9' as u32)
    ||| c == '_'
}

/// The first position at or after `j` that does not hold an identifier
/// character (or the end of the text).
pub open spec fn ident_end(s: Seq<char>, j: int) -> int
    decreases s.len() - j,
{
    if j < 0 || j >= s.len() {
        j
    } else if is_ident_char(s[j]) {
        ident_end(s, j + 1)
    } else {
        j
    }
}

pub proof fn lemma_ident_end_bounds(s: Seq<char>, j: int)
    requires
        0 <= j <= s.len(),
    ensures
        j <= ident_end(s, j) <= s.len(),
    decreases s.len() - j,
{
    if j < s.len() && is_ident_char(s[j]) {
        lemma_ident_end_bounds(s, j + 1);
    }
}

/// A full placeholder `%(identifier)s`, with a nonempty identifier, starts
/// at position `i` of `s`.
pub open spec fn placeholder_at(s: Seq<char>, i: int) -> bool {
    &&& 0 <= i
    &&& i + 1 < s.len()
    &&& s[i] == '%'
    &&& s[i + 1] == '('
    &&& {
        let e = ident_end(s, i + 2);
        &&& e > i + 2
        &&& e + 1 < s.len()
        &&& s[e] == ')'
        &&& s[e + 1] == 's'
    }
}

/// The identifier of the placeholder starting at `i`.
pub open spec fn placeholder_id(s: Seq<char>, i: int) -> Seq<char> {
    s.subrange(i + 2, ident_end(s, i + 2))
}

/// The position just past the placeholder starting at `i`.
pub open spec fn placeholder_end(s: Seq<char>, i: int) -> int {
    ident_end(s, i + 2) + 2
}

/// A text with no full placeholder anywhere in it.
pub open spec fn placeholder_free(s: Seq<char>) -> bool {
    forall|i: int| 0 <= i < s.len() ==> !placeholder_at(s, i)
}

/// The message when a placeholder identifier is not in the lookup table.
pub open spec fn spec_unknown_msg(id: Seq<char>) -> Seq<char> {
    "Unknown value for placeholder `"@ + id + "`"@
}

/// The message when resolving placeholders recurses past the depth bound.
pub open spec fn spec_depth_msg(id: Seq<char>) -> Seq<char> {
    "Too much placeholder recursion while resolving `"@ + id + "`"@
}

/// Looking a key up in an ordered table of entries: the latest entry with
/// that key wins; absent keys give nothing.
pub open spec fn spec_lookup(table: Seq<(Seq<char>, Seq<char>)>, k: Seq<char>) -> Option<Seq<char>>
    decreases table.len(),
{
    if table.len() == 0 {
        None
    } else if table.last().0 == k {
        Some(table.last().1)
    } else {
        spec_lookup(table.drop_last(), k)
    }
}

/// The view of an interpolation table held as string pairs.
pub open spec fn table_view(t: Seq<(String, String)>) -> Seq<(Seq<char>, Seq<char>)> {
    Seq::new(t.len(), |i: int| (t[i].0@, t[i].1@))
}

/// What interpolating `s` from position `i` yields, with `depth` levels of
/// indirection left: scanning left to right, each placeholder is replaced
/// by its looked-up value, itself resolved recursively first; an unknown
/// identifier or exhausted depth yields the error message instead.
pub open spec fn spec_interp_from(
    s: Seq<char>,
    i: int,
    table: Seq<(Seq<char>, Seq<char>)>,
    depth: nat,
) -> Result<Seq<char>, Seq<char>>
    decreases depth, s.len() - i,
    when 0 <= i
    via spec_interp_from_decreases
{
    if i >= s.len() {
        Ok(Seq::empty())
    } else if placeholder_at(s, i) {
        let id = placeholder_id(s, i);
        match spec_lookup(table, id) {
            None => Err(spec_unknown_msg(id)),
            Some(v) => if depth == 0 {
                Err(spec_depth_msg(id))
            } else {
                match spec_interp_from(v, 0, table, (depth - 1) as nat) {
                    Err(e) => Err(e),
                    Ok(rv) => match spec_interp_from(s, placeholder_end(s, i), table, depth) {
                        Err(e) => Err(e),
                        Ok(rr) => Ok(rv + rr),
                    },
                }
            },
        }
    } else {
        match spec_interp_from(s, i + 1, table, depth) {
            Err(e) => Err(e),
            Ok(r) => Ok(seq![s[i]] + r),
        }
    }
}

#[via_fn]
proof fn spec_interp_from_decreases(
    s: Seq<char>,
    i: int,
    table: Seq<(Seq<char>, Seq<char>)>,
    depth: nat,
) {
    if 0 <= i < s.len() && placeholder_at(s, i) {
        lemma_ident_end_bounds(s, i + 2);
    }
}

/// Interpolating a placeholder-free text is the identity, at any depth and
/// under any table.
pub proof fn lemma_interp_identity_from(
    s: Seq<char>,
    i: int,
    table: Seq<(Seq<char>, Seq<char>)>,
    depth: nat,
)
    requires
        placeholder_free(s),
        0 <= i <= s.len(),
    ensures
        spec_interp_from(s, i, table, depth) == Ok::<Seq<char>, Seq<char>>(s.skip(i)),
    decreases s.len() - i,
{
    if i >= s.len() {
        assert(s.skip(i) =~= Seq::empty());
    } else {
        assert(!placeholder_at(s, i));
        lemma_interp_identity_from(s, i + 1, table, depth);
        assert(s.skip(i) =~= seq![s[i]] + s.skip(i + 1));
    }
}

/// Interpolating a placeholder-free text returns it unchanged.
pub proof fn lemma_interp_identity(s: Seq<char>, table: Seq<(Seq<char>, Seq<char>)>, depth: nat)
    requires
        placeholder_free(s),
    ensures
        spec_interp_from(s, 0, table, depth) == Ok::<Seq<char>, Seq<char>>(s),
{
    lemma_interp_identity_from(s, 0, table, depth);
    assert(s.skip(0) =~= s);
}

/// Whether two text slices hold the same characters.
#[verifier::loop_isolation(false)]
pub fn str_eq(a: &str, b: &str) -> (r: bool)
    ensures
        r == (a@ == b@),
{
    let la = a.unicode_len();
    let lb = b.unicode_len();
    if la != lb {
        proof {
            assert(a@ != b@);
        }
        return false;
    }
    let mut i: usize = 0;
    while i < la
        invariant
            0 <= i <= la,
            forall|j: int| 0 <= j < i ==> a@[j] == b@[j],
        decreases la - i,
    {
        if a.get_char(i) != b.get_char(i) {
            return false;
        }
        i = i + 1;
    }
    proof {
        assert(a@ =~= b@);
    }
    true
}

/// Looks a key up in the table, the latest entry winning.
#[verifier::loop_isolation(false)]
pub fn table_lookup(table: &Vec<(String, String)>, key: &str) -> (r: Option<String>)
    ensures
        match r {
            Some(v) => spec_lookup(table_view(table@), key@) == Some(v@),
            None => spec_lookup(table_view(table@), key@) is None,
        },
{
    let ghost tv = table_view(table@);
    let mut k = table.len();
    proof {
        assert(tv.take(table.len() as int) =~= tv);
    }
    while k > 0
        invariant
            0 <= k <= table.len(),
            spec_lookup(tv, key@) == spec_lookup(tv.take(k as int), key@),
        decreases k,
    {
        k = k - 1;
        proof {
            assert(tv.take(k + 1).last() == tv[k as int]);
            assert(tv.take(k + 1).drop_last() =~= tv.take(k as int));
        }
        if str_eq(table[k].0.as_str(), key) {
            return Some(table[k].1.clone());
        }
    }
    proof {
        assert(tv.take(0).len() == 0);
    }
    None
}

/// Whether `c` may appear in a placeholder identifier.
pub fn is_ident_char_exec(c: char) -> (r: bool)
    ensures
        r == is_ident_char(c),
{
    let u = c as u32;
    (u >= 'a' as u32 && u <= 'z' as u32) || (u >= 'A' as u32 && u <= 'Z' as u32) || (u >= '0'
        as u32 && u <= '9' as u32) || c == '_'
}

/// Scans past identifier characters starting at `j`.
fn ident_end_exec(s: &str, j: usize) -> (e: usize)
    requires
        j <= s@.len(),
    ensures
        e as int == ident_end(s@, j as int),
        j <= e <= s@.len(),
    decreases s@.len() - j,
{
    let len = s.unicode_len();
    if j == len {
        return j;
    }
    let c = s.get_char(j);
    if is_ident_char_exec(c) {
        ident_end_exec(s, j + 1)
    } else {
        j
    }
}

/// Resolves the text of `s` from position `i` on, following placeholders
/// through the table.
#[verifier::loop_isolation(false)]
fn interp_from(s: &str, i: usize, table: &Vec<(String, String)>, depth: u64) -> (r: Result<
    String,
    String,
>)
    requires
        i <= s@.len(),
    ensures
        ({
            let m = spec_interp_from(s@, i as int, table_view(table@), depth as nat);
            match r {
                Ok(v) => m == Ok::<Seq<char>, Seq<char>>(v@),
                Err(e) => m == Err::<Seq<char>, Seq<char>>(e@),
            }
        }),
    decreases depth, s@.len() - i,
{
    let len = s.unicode_len();
    if i == len {
        return Ok(String::new());
    }
    let mut valid = false;
    let mut e: usize = 0;
    if s.get_char(i) == '%' && i + 1 < len {
        if s.get_char(i + 1) == '(' {
            e = ident_end_exec(s, i + 2);
            if e > i + 2 && e < len {
                if e + 1 < len && s.get_char(e) == ')' && s.get_char(e + 1) == 's' {
                    valid = true;
                }
            }
        }
    }
    proof {
        assert(valid == placeholder_at(s@, i as int));
    }
    if valid {
        let id = s.substring_char(i + 2, e).to_owned();
        proof {
            assert(id@ == placeholder_id(s@, i as int));
        }
        match table_lookup(table, id.as_str()) {
            None => {
                let msg = String::from_str("Unknown value for placeholder `").concat(
                    id.as_str(),
                ).concat("`");
                proof {
                    assert(msg@ == spec_unknown_msg(id@));
                }
                Err(msg)
            },
            Some(v) => {
                if depth == 0 {
                    let msg = String::from_str(
                        "Too much placeholder recursion while resolving `",
                    ).concat(id.as_str()).concat("`");
                    Err(msg)
                } else {
                    match interp_from(v.as_str(), 0, table, depth - 1) {
                        Err(err) => Err(err),
                        Ok(rv) => {
                            match interp_from(s, e + 2, table, depth) {
                                Err(err) => Err(err),
                                Ok(rr) => Ok(rv.concat(rr.as_str())),
                            }
                        },
                    }
                }
            },
        }
    } else {
        let head = s.substring_char(i, i + 1);
        match interp_from(s, i + 1, table, depth) {
            Err(err) => Err(err),
            Ok(rest) => {
                proof {
                    assert(head@ =~= seq![s@[i as int]]);
                }
                Ok(head.to_owned().concat(rest.as_str()))
            },
        }
    }
}

/// Resolves every placeholder of `template` against the table, the latest
/// entry for a key shadowing earlier ones; nested placeholders in looked-up
/// values are resolved first, to a bounded depth.  The text is scanned
/// once: substituted output is not rescanned, so adversarial inputs can
/// assemble placeholder-shaped text out of substituted pieces.  The
/// contract states exactly the single-scan result.
pub fn interpolate_string(template: String, table: &Vec<(String, String)>) -> (r: Result<
    String,
    String,
>)
    ensures
        ({
            let m = spec_interp_from(
                template@,
                0,
                table_view(table@),
                MAX_INTERP_DEPTH as nat,
            );
            match r {
                Ok(v) => m == Ok::<Seq<char>, Seq<char>>(v@),
                Err(e) => m == Err::<Seq<char>, Seq<char>>(e@),
            }
        }),
{
    interp_from(template.as_str(), 0, table, MAX_INTERP_DEPTH)
}

} // verus!
