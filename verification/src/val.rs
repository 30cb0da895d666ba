use vstd::prelude::*;

verus! {

broadcast use vstd::std_specs::vec::group_vec_axioms;

/// The closed value model: booleans, 64-bit signed integers, 64-bit
/// floating-point numbers carried as their IEEE-754 bit pattern, strings,
/// ordered lists, and dictionaries with unique string keys held sorted by
/// key.  No other shapes exist.
#[derive(Debug, PartialEq, Eq)]
pub enum Val {
    Bool(bool),
    Int(i64),
    Float(u64),
    Str(String),
    List(Vec<Val>),
    Dict(Vec<(String, Val)>),
}

/// What a layer does to a list value: reset it, append to it, or delete
/// matching items from it.
#[derive(Clone, Copy, Debug, PartialEq, Eq, Structural)]
pub enum ListEditAction {
    Replace,
    Add,
    Remove,
}

/// One list contribution: the action and the items it carries, in order.
#[derive(Clone, Debug, PartialEq, Eq)]
pub struct ListEdit<T> {
    pub action: ListEditAction,
    pub items: Vec<T>,
}

/// What a layer does to a dict value.  No remove action exists for dicts.
#[derive(Clone, Copy, Debug, PartialEq, Eq, Structural)]
pub enum DictEditAction {
    Replace,
    Add,
}

/// One dict contribution: the action and the entries it carries.
#[derive(Debug, PartialEq, Eq)]
pub struct DictEdit {
    pub action: DictEditAction,
    pub items: Vec<(String, Val)>,
}

/// Deep structural equality on values: strings are compared by their
/// characters, lists and dictionaries element by element.
pub open spec fn val_deep_eq(a: Val, b: Val) -> bool
    decreases a,
{
    match a {
        Val::Bool(x) => b matches Val::Bool(y) && x == y,
        Val::Int(x) => b matches Val::Int(y) && x == y,
        Val::Float(x) => b matches Val::Float(y) && x == y,
        Val::Str(x) => b matches Val::Str(y) && x@ == y@,
        Val::List(x) => match b {
            Val::List(y) => {
                &&& x.len() == y.len()
                &&& forall|i: int| 0 <= i < x.len() ==> val_deep_eq(#[trigger] x[i], y[i])
            },
            _ => false,
        },
        Val::Dict(x) => match b {
            Val::Dict(y) => {
                &&& x.len() == y.len()
                &&& forall|i: int|
                    0 <= i < x.len() ==> (#[trigger] x[i]).0@ == y[i].0@ && val_deep_eq(
                        x[i].1,
                        y[i].1,
                    )
            },
            _ => false,
        },
    }
}

impl Val {
    /// Copies a value structurally.
    #[verifier::loop_isolation(false)]
    pub fn deep_clone(&self) -> (r: Val)
        ensures
            val_deep_eq(r, *self),
        decreases *self,
    {
        match self {
            Val::Bool(b) => Val::Bool(*b),
            Val::Int(i) => Val::Int(*i),
            Val::Float(x) => Val::Float(*x),
            Val::Str(s) => Val::Str(s.clone()),
            Val::List(items) => {
                let mut out: Vec<Val> = Vec::new();
                let mut i: usize = 0;
                while i < items.len()
                    invariant
                        i <= items.len(),
                        out.len() == i,
                        forall|j: int| 0 <= j < i ==> val_deep_eq(#[trigger] out[j], items[j]),
                    decreases items.len() - i,
                {
                    proof {
                        assert(decreases_to!(*self => items[i as int]));
                    }
                    let c = items[i].deep_clone();
                    out.push(c);
                    i = i + 1;
                }
                Val::List(out)
            },
            Val::Dict(entries) => {
                let mut out: Vec<(String, Val)> = Vec::new();
                let mut i: usize = 0;
                while i < entries.len()
                    invariant
                        i <= entries.len(),
                        out.len() == i,
                        forall|j: int|
                            0 <= j < i ==> (#[trigger] out[j]).0@ == entries[j].0@ && val_deep_eq(
                                out[j].1,
                                entries[j].1,
                            ),
                    decreases entries.len() - i,
                {
                    proof {
                        assert(decreases_to!(*self => entries[i as int].1));
                    }
                    let k = entries[i].0.clone();
                    let c = entries[i].1.deep_clone();
                    out.push((k, c));
                    i = i + 1;
                }
                Val::Dict(out)
            },
        }
    }
}

/// Strict lexicographic order on character sequences, by code point.
pub open spec fn chars_lt(a: Seq<char>, b: Seq<char>) -> bool
    decreases a.len(),
{
    &&& b.len() > 0
    &&& {
        ||| a.len() == 0
        ||| (a[0] as u32) < (b[0] as u32)
        ||| (a[0] == b[0] && chars_lt(a.drop_first(), b.drop_first()))
    }
}

/// Where `a` and `b` agree on their first characters, their order is the
/// order of their tails.
proof fn lemma_chars_lt_step(a: Seq<char>, b: Seq<char>)
    requires
        a.len() > 0,
        b.len() > 0,
        a[0] == b[0],
    ensures
        chars_lt(a, b) == chars_lt(a.drop_first(), b.drop_first()),
{
}

/// Three-way outcome of comparing two strings.
#[derive(Clone, Copy, Debug, PartialEq, Eq, Structural)]
pub enum KeyOrder {
    Less,
    Equal,
    Greater,
}

/// Compares two strings in the lexicographic order of their characters.
#[verifier::loop_isolation(false)]
pub fn str_compare(a: &String, b: &String) -> (r: KeyOrder)
    ensures
        (r is Less) == chars_lt(a@, b@),
        (r is Equal) == (a@ == b@),
{
    let a_len = a.as_str().unicode_len();
    let b_len = b.as_str().unicode_len();
    let mut i: usize = 0;
    proof {
        assert(a@.skip(0) =~= a@);
        assert(b@.skip(0) =~= b@);
        assert(a@.take(0) =~= b@.take(0));
    }
    loop
        invariant
            i <= a_len,
            i <= b_len,
            a_len == a@.len(),
            b_len == b@.len(),
            a@.take(i as int) =~= b@.take(i as int),
            chars_lt(a@, b@) == chars_lt(a@.skip(i as int), b@.skip(i as int)),
            (a@ =~= b@) == (a@.skip(i as int) =~= b@.skip(i as int)),
        decreases a_len - i,
    {
        if i == a_len && i == b_len {
            proof {
                assert(a@.skip(i as int) =~= b@.skip(i as int));
            }
            return KeyOrder::Equal;
        }
        if i == a_len {
            proof {
                assert(a@.skip(i as int).len() == 0);
                assert(b@.skip(i as int).len() > 0);
                assert(chars_lt(a@.skip(i as int), b@.skip(i as int)));
            }
            return KeyOrder::Less;
        }
        if i == b_len {
            proof {
                assert(b@.skip(i as int).len() == 0);
                assert(!chars_lt(a@.skip(i as int), b@.skip(i as int)));
                assert(a@.skip(i as int).len() > 0);
            }
            return KeyOrder::Greater;
        }
        let ca = a.as_str().get_char(i);
        let cb = b.as_str().get_char(i);
        if (ca as u32) < (cb as u32) {
            proof {
                assert(a@.skip(i as int)[0] == ca);
                assert(b@.skip(i as int)[0] == cb);
                assert(chars_lt(a@.skip(i as int), b@.skip(i as int)));
            }
            return KeyOrder::Less;
        }
        if (ca as u32) > (cb as u32) {
            proof {
                let sa = a@.skip(i as int);
                let sb = b@.skip(i as int);
                assert(sa[0] == ca);
                assert(sb[0] == cb);
                assert(ca != cb);
                assert(!chars_lt(sa, sb));
                assert(sa[0] != sb[0]);
                assert(!(sa =~= sb));
            }
            return KeyOrder::Greater;
        }
        proof {
            let sa = a@.skip(i as int);
            let sb = b@.skip(i as int);
            assert(ca as u32 == cb as u32);
            assert(ca == cb) by {
                assert(ca as u32 == cb as u32);
            }
            assert(sa[0] == ca && sb[0] == cb);
            lemma_chars_lt_step(sa, sb);
            assert(sa.drop_first() =~= a@.skip(i + 1));
            assert(sb.drop_first() =~= b@.skip(i + 1));
            assert((sa =~= sb) == (a@.skip(i + 1) =~= b@.skip(i + 1))) by {
                if sa =~= sb {
                    assert(sa.drop_first() =~= sb.drop_first());
                }
                if a@.skip(i + 1) =~= b@.skip(i + 1) {
                    assert(sa.len() == sb.len());
                    assert forall|j: int| 0 <= j < sa.len() implies sa[j] == sb[j] by {
                        if j > 0 {
                            assert(sa[j] == a@.skip(i + 1)[j - 1]);
                            assert(sb[j] == b@.skip(i + 1)[j - 1]);
                        }
                    }
                    assert(sa =~= sb);
                }
            }
            assert(a@.take(i + 1) =~= b@.take(i + 1)) by {
                assert(a@.take(i + 1).last() == ca);
                assert(b@.take(i + 1).last() == cb);
                assert(a@.take(i + 1).drop_last() =~= a@.take(i as int));
                assert(b@.take(i + 1).drop_last() =~= b@.take(i as int));
            }
        }
        i = i + 1;
    }
}

/// Inserting one entry into a key-sorted entry sequence: an equal key is
/// overwritten in place, a new key lands at its ordered position.
pub open spec fn spec_dict_insert(s: Seq<(String, Val)>, k: String, v: Val) -> Seq<(String, Val)>
    decreases s.len(),
{
    if s.len() == 0 {
        seq![(k, v)]
    } else if chars_lt(k@, s[0].0@) {
        seq![(k, v)] + s
    } else if k@ == s[0].0@ {
        seq![(k, v)] + s.drop_first()
    } else {
        seq![s[0]] + spec_dict_insert(s.drop_first(), k, v)
    }
}

/// The dictionary built from raw entries in order: later entries with the
/// same key win, and the result is sorted by key.
pub open spec fn spec_dict_of_pairs(pairs: Seq<(String, Val)>) -> Seq<(String, Val)>
    decreases pairs.len(),
{
    if pairs.len() == 0 {
        Seq::empty()
    } else {
        spec_dict_insert(spec_dict_of_pairs(pairs.drop_last()), pairs.last().0, pairs.last().1)
    }
}

/// Inserts one entry into a key-sorted entry vector.
#[verifier::loop_isolation(false)]
pub fn dict_insert(entries: &mut Vec<(String, Val)>, k: String, v: Val)
    ensures
        final(entries)@ == spec_dict_insert(old(entries)@, k, v),
{
    let ghost orig = entries@;
    let mut i: usize = 0;
    proof {
        assert(orig.skip(0) =~= orig);
        assert(orig.take(0) + spec_dict_insert(orig.skip(0), k, v) =~= spec_dict_insert(
            orig,
            k,
            v,
        ));
    }
    loop
        invariant
            i <= entries.len(),
            entries@ == orig,
            spec_dict_insert(orig, k, v) == orig.take(i as int) + spec_dict_insert(
                orig.skip(i as int),
                k,
                v,
            ),
        decreases entries.len() - i,
    {
        if i == entries.len() {
            entries.push((k, v));
            proof {
                assert(orig.skip(i as int).len() == 0);
                assert(spec_dict_insert(orig.skip(i as int), k, v) =~= seq![(k, v)]);
                assert(entries@ =~= orig.take(i as int) + seq![(k, v)]);
            }
            return ;
        }
        let cmp = str_compare(&k, &entries[i].0);
        proof {
            let rest = orig.skip(i as int);
            assert(rest.len() > 0);
            assert(rest[0] == orig[i as int]);
        }
        match cmp {
            KeyOrder::Less => {
                entries.insert(i, (k, v));
                proof {
                    let rest = orig.skip(i as int);
                    assert(spec_dict_insert(rest, k, v) =~= seq![(k, v)] + rest);
                    assert(entries@ =~= orig.take(i as int) + (seq![(k, v)] + rest));
                }
                return ;
            },
            KeyOrder::Equal => {
                let _ = entries.remove(i);
                entries.insert(i, (k, v));
                proof {
                    let rest = orig.skip(i as int);
                    assert(!chars_lt(k@, rest[0].0@)) by {
                        lemma_chars_lt_irreflexive(k@);
                    }
                    assert(spec_dict_insert(rest, k, v) =~= seq![(k, v)] + rest.drop_first());
                    assert(rest.drop_first() =~= orig.skip(i + 1));
                    assert(entries@ =~= orig.take(i as int) + (seq![(k, v)] + orig.skip(i + 1)));
                }
                return ;
            },
            KeyOrder::Greater => {
                proof {
                    let rest = orig.skip(i as int);
                    assert(spec_dict_insert(rest, k, v) =~= seq![rest[0]] + spec_dict_insert(
                        rest.drop_first(),
                        k,
                        v,
                    ));
                    assert(rest.drop_first() =~= orig.skip(i + 1));
                    assert(orig.take(i + 1) =~= orig.take(i as int) + seq![orig[i as int]]);
                    assert(orig.take(i as int) + spec_dict_insert(rest, k, v) =~= orig.take(i + 1)
                        + spec_dict_insert(orig.skip(i + 1), k, v));
                }
                i = i + 1;
            },
        }
    }
}

/// No character sequence is lexicographically below itself.
pub proof fn lemma_chars_lt_irreflexive(a: Seq<char>)
    ensures
        !chars_lt(a, a),
    decreases a.len(),
{
    if a.len() > 0 {
        lemma_chars_lt_irreflexive(a.drop_first());
    }
}

/// Builds the canonical dictionary from raw entries in order: sorted by
/// key, unique keys, later duplicates winning.
#[verifier::loop_isolation(false)]
pub fn dict_from_pairs(pairs: Vec<(String, Val)>) -> (r: Vec<(String, Val)>)
    ensures
        r@ == spec_dict_of_pairs(pairs@),
{
    let ghost orig = pairs@;
    let mut rest = pairs;
    let mut out: Vec<(String, Val)> = Vec::new();
    let ghost mut i: int = 0;
    proof {
        assert(rest@ =~= orig.skip(0));
        assert(out@ =~= spec_dict_of_pairs(orig.take(0)));
    }
    while rest.len() > 0
        invariant
            0 <= i <= orig.len(),
            rest@ == orig.skip(i),
            out@ == spec_dict_of_pairs(orig.take(i)),
        decreases rest.len(),
    {
        proof {
            assert(orig.skip(i).len() == orig.len() - i);
        }
        let (k, v) = rest.remove(0);
        proof {
            assert(orig.skip(i)[0] == orig[i]);
            assert(rest@ =~= orig.skip(i + 1));
        }
        dict_insert(&mut out, k, v);
        proof {
            assert(orig.take(i + 1).drop_last() =~= orig.take(i));
            assert(orig.take(i + 1).last() == orig[i]);
            i = i + 1;
        }
    }
    proof {
        assert(orig.take(i) =~= orig);
    }
    out
}

} // verus!
