use crate::interp::{
    interpolate_string, spec_interp_from, table_view, MAX_INTERP_DEPTH,
};
use crate::outside::{
    toml_as_array, toml_as_bool, toml_as_int, toml_as_str, toml_doc_of, toml_float_bits,
    toml_parse_doc, toml_table_entries,
};
use crate::val::{dict_from_pairs, Val};
use vstd::prelude::*;

verus! {

broadcast use vstd::std_specs::vec::group_vec_axioms;

/// How deep a document's nesting is followed before conversion gives up.
pub const MAX_VALUE_DEPTH: u64 = 128;

/// The raw text of one configuration document, with the path it came from
/// for error messages.
pub struct ConfigSource {
    pub path: String,
    pub content: String,
}

impl ConfigSource {
    /// Wraps document text under the path used in messages about it.
    pub fn new(path: String, content: String) -> (r: ConfigSource)
        ensures
            r.path == path,
            r.content == content,
    {
        ConfigSource { path, content }
    }
}

/// One parsed, eagerly interpolated document: the fallback section's
/// entries, every other section in file order, and the flattened
/// interpolation table used for file-sourced content.
pub struct Config {
    pub path: String,
    pub fallback: Vec<(String, Val)>,
    pub sections: Vec<(String, Vec<(String, Val)>)>,
    pub table: Vec<(String, String)>,
}

/// The first entry under the key, if any: document keys are unique within
/// a section.
pub open spec fn find_entry(entries: Seq<(String, Val)>, k: Seq<char>) -> Option<Val>
    decreases entries.len(),
{
    if entries.len() == 0 {
        None
    } else if entries[0].0@ == k {
        Some(entries[0].1)
    } else {
        find_entry(entries.drop_first(), k)
    }
}

/// The first section under the name, if any.
pub open spec fn find_section(
    sections: Seq<(String, Vec<(String, Val)>)>,
    name: Seq<char>,
) -> Option<Vec<(String, Val)>>
    decreases sections.len(),
{
    if sections.len() == 0 {
        None
    } else if sections[0].0@ == name {
        Some(sections[0].1)
    } else {
        find_section(sections.drop_first(), name)
    }
}

/// The layered lookup: the named section's own entry if present, else the
/// fallback section's entry, else nothing.  This lookup never fails.
pub open spec fn spec_get(c: &Config, section: Seq<char>, key: Seq<char>) -> Option<Val> {
    match find_section(c.sections@, section) {
        Some(es) => match find_entry(es@, key) {
            Some(v) => Some(v),
            None => find_entry(c.fallback@, key),
        },
        None => find_entry(c.fallback@, key),
    }
}

/// Looks an entry up in one section's entries.
#[verifier::loop_isolation(false)]
pub(crate) fn entry_lookup<'a>(entries: &'a Vec<(String, Val)>, key: &str) -> (r: Option<&'a Val>)
    ensures
        match r {
            Some(v) => find_entry(entries@, key@) == Some(*v),
            None => find_entry(entries@, key@) is None,
        },
{
    let mut i: usize = 0;
    proof {
        assert(entries@.skip(0) =~= entries@);
    }
    while i < entries.len()
        invariant
            i <= entries.len(),
            find_entry(entries@, key@) == find_entry(entries@.skip(i as int), key@),
        decreases entries.len() - i,
    {
        proof {
            assert(entries@.skip(i as int)[0] == entries@[i as int]);
            assert(entries@.skip(i as int).drop_first() =~= entries@.skip(i + 1));
        }
        if crate::interp::str_eq(entries[i].0.as_str(), key) {
            return Some(&entries[i].1);
        }
        i = i + 1;
    }
    None
}

/// Finds a section by name.
#[verifier::loop_isolation(false)]
pub(crate) fn section_lookup<'a>(
    sections: &'a Vec<(String, Vec<(String, Val)>)>,
    name: &str,
) -> (r: Option<&'a Vec<(String, Val)>>)
    ensures
        match r {
            Some(es) => find_section(sections@, name@) == Some(*es),
            None => find_section(sections@, name@) is None,
        },
{
    let mut i: usize = 0;
    proof {
        assert(sections@.skip(0) =~= sections@);
    }
    while i < sections.len()
        invariant
            i <= sections.len(),
            find_section(sections@, name@) == find_section(sections@.skip(i as int), name@),
        decreases sections.len() - i,
    {
        proof {
            assert(sections@.skip(i as int)[0] == sections@[i as int]);
            assert(sections@.skip(i as int).drop_first() =~= sections@.skip(i + 1));
        }
        if crate::interp::str_eq(sections[i].0.as_str(), name) {
            return Some(&sections[i].1);
        }
        i = i + 1;
    }
    None
}

impl Config {
    /// The layered lookup: the section's own entry wins; a key absent there
    /// falls back to the fallback section; a key absent in both gives
    /// nothing.
    pub fn get<'a>(&'a self, section: &str, key: &str) -> (r: Option<&'a Val>)
        ensures
            match r {
                Some(v) => spec_get(self, section@, key@) == Some(*v),
                None => spec_get(self, section@, key@) is None,
            },
    {
        match section_lookup(&self.sections, section) {
            Some(es) => match entry_lookup(es, key) {
                Some(v) => Some(v),
                None => entry_lookup(&self.fallback, key),
            },
            None => entry_lookup(&self.fallback, key),
        }
    }
}

/// The value `out` is the value `src` with every string it holds resolved
/// against the table, shape for shape.
pub open spec fn interp_val_ok(src: Val, out: Val, table: Seq<(Seq<char>, Seq<char>)>) -> bool
    decreases src,
{
    match src {
        Val::Bool(b) => out == Val::Bool(b),
        Val::Int(n) => out == Val::Int(n),
        Val::Float(x) => out == Val::Float(x),
        Val::Str(s) => out is Str && spec_interp_from(s@, 0, table, MAX_INTERP_DEPTH as nat)
            == Ok::<Seq<char>, Seq<char>>(out->Str_0@),
        Val::List(xs) => out is List && out->List_0.len() == xs.len() && (forall|i: int|
            0 <= i < xs.len() ==> interp_val_ok(#[trigger] xs[i], out->List_0[i], table)),
        Val::Dict(es) => out is Dict && out->Dict_0.len() == es.len() && (forall|i: int|
            0 <= i < es.len() ==> (#[trigger] out->Dict_0@[i]).0@ == es[i].0@ && interp_val_ok(
                es[i].1,
                out->Dict_0@[i].1,
                table,
            )),
    }
}

/// Some string held by the value does not resolve against the table.
pub open spec fn interp_val_fails(v: Val, table: Seq<(Seq<char>, Seq<char>)>) -> bool
    decreases v,
{
    match v {
        Val::Str(s) => spec_interp_from(s@, 0, table, MAX_INTERP_DEPTH as nat) is Err,
        Val::List(xs) => exists|i: int|
            0 <= i < xs.len() && interp_val_fails(#[trigger] xs[i], table),
        Val::Dict(es) => exists|i: int|
            0 <= i < es.len() && interp_val_fails((#[trigger] es[i]).1, table),
        Val::Bool(_) => false,
        Val::Int(_) => false,
        Val::Float(_) => false,
    }
}

/// Converts one document value into the value model, to a bounded depth.
#[verifier::loop_isolation(false)]
pub(crate) fn val_of_toml(v: &toml::Value, fuel: u64) -> (r: Result<Val, String>)
    decreases fuel,
{
    if fuel == 0 {
        return Err(String::from_str("Document value nested too deeply"));
    }
    match toml_as_bool(v) {
        Some(b) => {
            return Ok(Val::Bool(b));
        },
        None => {
        },
    }
    match toml_as_int(v) {
        Some(n) => {
            return Ok(Val::Int(n));
        },
        None => {
        },
    }
    match toml_float_bits(v) {
        Some(bits) => {
            return Ok(Val::Float(bits));
        },
        None => {
        },
    }
    match toml_as_str(v) {
        Some(s) => {
            return Ok(Val::Str(s));
        },
        None => {
        },
    }
    match toml_as_array(v) {
        Some(arr) => {
            let mut items: Vec<Val> = Vec::new();
            let mut i: usize = 0;
            while i < arr.len()
                invariant
                    i <= arr.len(),
                decreases arr.len() - i,
            {
                match val_of_toml(&arr[i], fuel - 1) {
                    Ok(item) => items.push(item),
                    Err(e) => {
                        return Err(e);
                    },
                }
                i = i + 1;
            }
            return Ok(Val::List(items));
        },
        None => {
        },
    }
    match toml_table_entries(v) {
        Some(entries) => {
            let mut pairs: Vec<(String, Val)> = Vec::new();
            let mut i: usize = 0;
            while i < entries.len()
                invariant
                    i <= entries.len(),
                decreases entries.len() - i,
            {
                match val_of_toml(&entries[i].1, fuel - 1) {
                    Ok(item) => {
                        let k = entries[i].0.clone();
                        pairs.push((k, item));
                    },
                    Err(e) => {
                        return Err(e);
                    },
                }
                i = i + 1;
            }
            return Ok(Val::Dict(dict_from_pairs(pairs)));
        },
        None => {
        },
    }
    Err(String::from_str("Unsupported value shape in the document"))
}

/// Resolves every string inside a value against the table, recursively
/// through lists and dictionaries; the first string that does not resolve
/// aborts with its error.
#[verifier::loop_isolation(false)]
pub(crate) fn interp_val(v: Val, table: &Vec<(String, String)>) -> (r: Result<Val, String>)
    ensures
        (r is Ok) == !interp_val_fails(v, table_view(table@)),
        r matches Ok(out) ==> interp_val_ok(v, out, table_view(table@)),
        v is Str && r is Err ==> Err::<Seq<char>, Seq<char>>(r->Err_0@) == spec_interp_from(
            v->Str_0@,
            0,
            table_view(table@),
            MAX_INTERP_DEPTH as nat,
        ),
    decreases v,
{
    let ghost tv = table_view(table@);
    match v {
        Val::Bool(b) => Ok(Val::Bool(b)),
        Val::Int(n) => Ok(Val::Int(n)),
        Val::Float(bits) => Ok(Val::Float(bits)),
        Val::Str(s) => match interpolate_string(s, table) {
            Ok(out) => Ok(Val::Str(out)),
            Err(e) => Err(e),
        },
        Val::List(items) => {
            let ghost orig = items@;
            let mut rest = items;
            let mut out: Vec<Val> = Vec::new();
            let ghost mut i: int = 0;
            proof {
                assert(rest@ =~= orig.skip(0));
            }
            while rest.len() > 0
                invariant
                    0 <= i <= orig.len(),
                    rest@ == orig.skip(i),
                    out.len() == i,
                    forall|j: int| 0 <= j < i ==> interp_val_ok(#[trigger] orig[j], out[j], tv),
                    forall|j: int| 0 <= j < i ==> !interp_val_fails(#[trigger] orig[j], tv),
                decreases rest.len(),
            {
                proof {
                    assert(orig.skip(i).len() == orig.len() - i);
                    assert(orig.skip(i)[0] == orig[i]);
                }
                let item = rest.remove(0);
                proof {
                    assert(rest@ =~= orig.skip(i + 1));
                    assert(decreases_to!(v => item));
                }
                match interp_val(item, table) {
                    Ok(x) => out.push(x),
                    Err(e) => {
                        proof {
                            assert(interp_val_fails(orig[i], tv));
                            assert(interp_val_fails(v, tv));
                        }
                        return Err(e);
                    },
                }
                proof {
                    i = i + 1;
                }
            }
            proof {
                assert(interp_val_ok(v, Val::List(out), tv));
                assert(!interp_val_fails(v, tv)) by {
                    if interp_val_fails(v, tv) {
                        let j = choose|j: int|
                            0 <= j < orig.len() && interp_val_fails(#[trigger] orig[j], tv);
                        assert(!interp_val_fails(orig[j], tv));
                    }
                }
            }
            Ok(Val::List(out))
        },
        Val::Dict(entries) => {
            let ghost orig = entries@;
            let mut rest = entries;
            let mut out: Vec<(String, Val)> = Vec::new();
            let ghost mut i: int = 0;
            proof {
                assert(rest@ =~= orig.skip(0));
            }
            while rest.len() > 0
                invariant
                    0 <= i <= orig.len(),
                    rest@ == orig.skip(i),
                    out.len() == i,
                    forall|j: int|
                        0 <= j < i ==> (#[trigger] out@[j]).0@ == orig[j].0@ && interp_val_ok(
                            orig[j].1,
                            out@[j].1,
                            tv,
                        ),
                    forall|j: int| 0 <= j < i ==> !interp_val_fails((#[trigger] orig[j]).1, tv),
                decreases rest.len(),
            {
                proof {
                    assert(orig.skip(i).len() == orig.len() - i);
                    assert(orig.skip(i)[0] == orig[i]);
                }
                let (k, item) = rest.remove(0);
                proof {
                    assert(rest@ =~= orig.skip(i + 1));
                    assert(decreases_to!(v => item));
                }
                match interp_val(item, table) {
                    Ok(x) => out.push((k, x)),
                    Err(e) => {
                        proof {
                            assert(interp_val_fails(orig[i].1, tv));
                            assert(interp_val_fails(v, tv));
                        }
                        return Err(e);
                    },
                }
                proof {
                    i = i + 1;
                }
            }
            proof {
                assert(interp_val_ok(v, Val::Dict(out), tv));
                assert(!interp_val_fails(v, tv)) by {
                    if interp_val_fails(v, tv) {
                        let j = choose|j: int|
                            0 <= j < orig.len() && interp_val_fails((#[trigger] orig[j]).1, tv);
                        assert(!interp_val_fails(orig[j].1, tv));
                    }
                }
            }
            Ok(Val::Dict(out))
        },
    }
}

/// The entries of the fallback section of a decoded document: the last
/// section named DEFAULT, or nothing.
pub open spec fn spec_fallback(doc: Seq<(String, Vec<(String, Val)>)>) -> Seq<(String, Val)>
    decreases doc.len(),
{
    if doc.len() == 0 {
        Seq::empty()
    } else if doc.last().0@ == "DEFAULT"@ {
        doc.last().1@
    } else {
        spec_fallback(doc.drop_last())
    }
}

/// The sections of a decoded document other than the fallback, in file
/// order.
pub open spec fn spec_others(doc: Seq<(String, Vec<(String, Val)>)>) -> Seq<
    (String, Vec<(String, Val)>),
>
    decreases doc.len(),
{
    if doc.len() == 0 {
        Seq::empty()
    } else {
        spec_others(doc.drop_last()) + (if doc.last().0@ == "DEFAULT"@ {
            Seq::<(String, Vec<(String, Val)>)>::empty()
        } else {
            seq![doc.last()]
        })
    }
}

/// The interpolation sources a section offers: its string-valued entries,
/// as key and raw text.
pub open spec fn spec_string_pairs_v(es: Seq<(String, Val)>) -> Seq<(Seq<char>, Seq<char>)>
    decreases es.len(),
{
    if es.len() == 0 {
        Seq::empty()
    } else {
        spec_string_pairs_v(es.drop_last()) + (if es.last().1 is Str {
            seq![(es.last().0@, es.last().1->Str_0@)]
        } else {
            Seq::<(Seq<char>, Seq<char>)>::empty()
        })
    }
}

/// The flattened interpolation sources of a run of sections, in order.
pub open spec fn spec_sections_strings_v(others: Seq<(String, Vec<(String, Val)>)>) -> Seq<
    (Seq<char>, Seq<char>),
>
    decreases others.len(),
{
    if others.len() == 0 {
        Seq::empty()
    } else {
        spec_sections_strings_v(others.drop_last()) + spec_string_pairs_v(others.last().1@)
    }
}

/// The out entries are the src entries, keys unchanged, every value
/// resolved against the table.
pub open spec fn section_interp_ok_v(
    src: Seq<(String, Val)>,
    out: Seq<(String, Val)>,
    tv: Seq<(Seq<char>, Seq<char>)>,
) -> bool {
    &&& out.len() == src.len()
    &&& forall|j: int|
        0 <= j < src.len() ==> (#[trigger] out[j]).0@ == src[j].0@ && interp_val_ok(
            src[j].1,
            out[j].1,
            tv,
        )
}

/// Some value of the section holds a string that does not resolve.
pub open spec fn spec_section_fails(es: Seq<(String, Val)>, tv: Seq<(Seq<char>, Seq<char>)>) -> bool {
    exists|j: int| 0 <= j < es.len() && interp_val_fails((#[trigger] es[j]).1, tv)
}

/// The first entry of the section whose value does not resolve.
pub open spec fn first_fail_entry(es: Seq<(String, Val)>, tv: Seq<(Seq<char>, Seq<char>)>) -> (
    String,
    Val,
)
    decreases es.len(),
{
    if es.len() == 0 {
        vstd::pervasive::arbitrary()
    } else if interp_val_fails(es[0].1, tv) {
        es[0]
    } else {
        first_fail_entry(es.drop_first(), tv)
    }
}

/// The message a failed section resolution surfaces as, when the failing
/// value is itself a string.
pub open spec fn spec_section_err_msg(
    es: Seq<(String, Val)>,
    tv: Seq<(Seq<char>, Seq<char>)>,
    path: Seq<char>,
    section: Seq<char>,
) -> Seq<char> {
    let fe = first_fail_entry(es, tv);
    spec_interp_from(fe.1->Str_0@, 0, tv, MAX_INTERP_DEPTH as nat)->Err_0 + " in config file "@
        + path + ", section "@ + section + ", key "@ + fe.0@
}

/// The first non-fallback section that fails to resolve against the base
/// table extended with its own sources.
pub open spec fn first_fail_other(
    others: Seq<(String, Vec<(String, Val)>)>,
    base: Seq<(Seq<char>, Seq<char>)>,
) -> (String, Vec<(String, Val)>)
    decreases others.len(),
{
    if others.len() == 0 {
        vstd::pervasive::arbitrary()
    } else if spec_section_fails(others[0].1@, base + spec_string_pairs_v(others[0].1@)) {
        others[0]
    } else {
        first_fail_other(others.drop_first(), base)
    }
}

/// The loaded document is exactly the decode of the text, split on the
/// fallback section, with every value resolved against the table of §4.1:
/// the seeds, then the fallback's strings, then (per section) its own.
pub open spec fn spec_load_ok(
    c: &Config,
    path: Seq<char>,
    content: Seq<char>,
    seeds_v: Seq<(Seq<char>, Seq<char>)>,
) -> bool {
    &&& toml_doc_of(content) is Some
    &&& {
        let doc = toml_doc_of(content)->Some_0@;
        let fb = spec_fallback(doc);
        let others = spec_others(doc);
        let base = seeds_v + spec_string_pairs_v(fb);
        &&& c.path@ == path
        &&& section_interp_ok_v(fb, c.fallback@, base)
        &&& c.sections@.len() == others.len()
        &&& forall|j: int|
            0 <= j < others.len() ==> (#[trigger] c.sections@[j]).0@ == others[j].0@
                && section_interp_ok_v(
                others[j].1@,
                c.sections@[j].1@,
                base + spec_string_pairs_v(others[j].1@),
            )
        &&& table_view(c.table@) == base + spec_sections_strings_v(others)
    }
}

/// The load succeeds: the text decodes and every section resolves.
pub open spec fn spec_load_possible(content: Seq<char>, seeds_v: Seq<(Seq<char>, Seq<char>)>) -> bool {
    &&& toml_doc_of(content) is Some
    &&& {
        let doc = toml_doc_of(content)->Some_0@;
        let fb = spec_fallback(doc);
        let others = spec_others(doc);
        let base = seeds_v + spec_string_pairs_v(fb);
        &&& !spec_section_fails(fb, base)
        &&& forall|j: int|
            0 <= j < others.len() ==> !spec_section_fails(
                (#[trigger] others[j]).1@,
                base + spec_string_pairs_v(others[j].1@),
            )
    }
}

/// Appends the string-valued entries of a section to a table, keys and raw
/// texts unchanged.
#[verifier::loop_isolation(false)]
fn string_entries(entries: &Vec<(String, Val)>, out: &mut Vec<(String, String)>)
    ensures
        table_view(final(out)@) == table_view(old(out)@) + spec_string_pairs_v(entries@),
{
    let mut i: usize = 0;
    proof {
        assert(table_view(out@) =~= table_view(out@) + spec_string_pairs_v(entries@.take(0)));
    }
    while i < entries.len()
        invariant
            i <= entries.len(),
            table_view(out@) == table_view(old(out)@) + spec_string_pairs_v(
                entries@.take(i as int),
            ),
        decreases entries.len() - i,
    {
        proof {
            assert(entries@.take(i + 1).drop_last() =~= entries@.take(i as int));
            assert(entries@.take(i + 1).last() == entries@[i as int]);
        }
        match &entries[i].1 {
            Val::Str(s) => {
                let k = entries[i].0.clone();
                let v = s.clone();
                let ghost before = out@;
                out.push((k, v));
                proof {
                    assert(entries@[i as int].1 is Str);
                    assert(out@ == before.push((k, v)));
                    assert(table_view(out@) =~= table_view(before) + seq![(k@, v@)]);
                    assert(spec_string_pairs_v(entries@.take(i + 1)) =~= spec_string_pairs_v(
                        entries@.take(i as int),
                    ) + seq![(entries@[i as int].0@, entries@[i as int].1->Str_0@)]);
                    assert(k@ == entries@[i as int].0@);
                    assert(v@ == entries@[i as int].1->Str_0@);
                    assert(table_view(out@) =~= (table_view(old(out)@) + spec_string_pairs_v(
                        entries@.take(i as int),
                    )) + seq![(k@, v@)]);
                    assert(table_view(out@) =~= table_view(old(out)@) + spec_string_pairs_v(
                        entries@.take(i + 1),
                    ));
                }
            },
            _ => {
                proof {
                    assert(!(entries@[i as int].1 is Str));
                    assert(spec_string_pairs_v(entries@.take(i + 1)) =~= spec_string_pairs_v(
                        entries@.take(i as int),
                    ));
                    assert(table_view(out@) =~= table_view(old(out)@) + spec_string_pairs_v(
                        entries@.take(i + 1),
                    ));
                }
            },
        }
        i = i + 1;
    }
    proof {
        assert(entries@.take(entries.len() as int) =~= entries@);
    }
}

/// Copies a table of string pairs.
#[verifier::loop_isolation(false)]
fn copy_table(src: &Vec<(String, String)>) -> (r: Vec<(String, String)>)
    ensures
        r@ == src@,
{
    let mut out: Vec<(String, String)> = Vec::new();
    let mut i: usize = 0;
    while i < src.len()
        invariant
            i <= src.len(),
            out@ == src@.take(i as int),
        decreases src.len() - i,
    {
        let k = src[i].0.clone();
        let v = src[i].1.clone();
        out.push((k, v));
        proof {
            assert(out@ =~= src@.take(i + 1));
        }
        i = i + 1;
    }
    proof {
        assert(src@.take(src.len() as int) =~= src@);
    }
    out
}

impl Config {
    /// Parses one document against the seed variables: the text decodes
    /// into sections, the fallback section is split off, and every string
    /// value is resolved eagerly against the seeds, the fallback's strings
    /// and the owning section's strings; the first failure aborts the
    /// whole load, naming the document path, section and key.
    #[verifier::loop_isolation(false)]
    #[verifier::rlimit(100)]
    pub fn parse(source: &ConfigSource, seeds: &Vec<(String, String)>) -> (r: Result<
        Config,
        String,
    >)
        ensures
            (r is Ok) == spec_load_possible(source.content@, table_view(seeds@)),
            r matches Ok(c) ==> spec_load_ok(&c, source.path@, source.content@, table_view(seeds@)),
            ({
                let doc_opt = toml_doc_of(source.content@);
                let doc = doc_opt->Some_0@;
                let fb = spec_fallback(doc);
                let base = table_view(seeds@) + spec_string_pairs_v(fb);
                &&& (r is Err && doc_opt is Some && spec_section_fails(fb, base)
                    && first_fail_entry(fb, base).1 is Str ==> r->Err_0@ == spec_section_err_msg(
                    fb,
                    base,
                    source.path@,
                    "DEFAULT"@,
                ))
                &&& (r is Err && doc_opt is Some && !spec_section_fails(fb, base) && (exists|
                j: int|
                    0 <= j < spec_others(doc).len() && spec_section_fails(
                        (#[trigger] spec_others(doc)[j]).1@,
                        base + spec_string_pairs_v(spec_others(doc)[j].1@),
                    )) && first_fail_entry(
                    first_fail_other(spec_others(doc), base).1@,
                    base + spec_string_pairs_v(first_fail_other(spec_others(doc), base).1@),
                ).1 is Str ==> r->Err_0@ == spec_section_err_msg(
                    first_fail_other(spec_others(doc), base).1@,
                    base + spec_string_pairs_v(first_fail_other(spec_others(doc), base).1@),
                    source.path@,
                    first_fail_other(spec_others(doc), base).0@,
                ))
            }),
    {
        let doc = match toml_parse_doc(source.content.as_str()) {
            Ok(d) => d,
            Err(e) => {
                return Err(
                    String::from_str("Problem parsing config file ").concat(
                        source.path.as_str(),
                    ).concat(": ").concat(e.as_str()),
                );
            },
        };
        let ghost docv = doc@;
        proof {
            assert(toml_doc_of(source.content@) == Some(doc));
        }
        // split out the fallback section
        let mut fallback: Vec<(String, Val)> = Vec::new();
        let mut others: Vec<(String, Vec<(String, Val)>)> = Vec::new();
        let mut rest = doc;
        let ghost mut i: int = 0;
        proof {
            assert(rest@ =~= docv.skip(0));
            assert(fallback@ =~= spec_fallback(docv.take(0)));
            assert(others@ =~= spec_others(docv.take(0)));
        }
        while rest.len() > 0
            invariant
                0 <= i <= docv.len(),
                rest@ == docv.skip(i),
                fallback@ == spec_fallback(docv.take(i)),
                others@ == spec_others(docv.take(i)),
            decreases rest.len(),
        {
            proof {
                assert(docv.skip(i).len() == docv.len() - i);
                assert(docv.skip(i)[0] == docv[i]);
            }
            let (name, vals) = rest.remove(0);
            proof {
                assert(rest@ =~= docv.skip(i + 1));
                assert(docv.take(i + 1).drop_last() =~= docv.take(i));
                assert(docv.take(i + 1).last() == docv[i]);
            }
            if crate::interp::str_eq(name.as_str(), "DEFAULT") {
                fallback = vals;
            } else {
                others.push((name, vals));
                proof {
                    assert(others@ =~= spec_others(docv.take(i)) + seq![docv[i]]);
                }
            }
            proof {
                i = i + 1;
            }
        }
        proof {
            assert(docv.take(i) =~= docv);
        }
        let ghost fbv = spec_fallback(docv);
        let ghost othv = spec_others(docv);
        // the base interpolation table: seeds, then the fallback's strings
        let mut fallback_strings: Vec<(String, String)> = Vec::new();
        string_entries(&fallback, &mut fallback_strings);
        let mut base_table: Vec<(String, String)> = Vec::new();
        let mut si: usize = 0;
        while si < seeds.len()
            invariant
                si <= seeds.len(),
                base_table@ == seeds@.take(si as int),
            decreases seeds.len() - si,
        {
            let k = seeds[si].0.clone();
            let v = seeds[si].1.clone();
            base_table.push((k, v));
            proof {
                assert(base_table@ =~= seeds@.take(si + 1));
            }
            si = si + 1;
        }
        proof {
            assert(seeds@.take(seeds.len() as int) =~= seeds@);
        }
        let mut fi: usize = 0;
        while fi < fallback_strings.len()
            invariant
                fi <= fallback_strings.len(),
                base_table@ == seeds@ + fallback_strings@.take(fi as int),
            decreases fallback_strings.len() - fi,
        {
            let k = fallback_strings[fi].0.clone();
            let v = fallback_strings[fi].1.clone();
            base_table.push((k, v));
            proof {
                assert(base_table@ =~= seeds@ + fallback_strings@.take(fi + 1));
            }
            fi = fi + 1;
        }
        proof {
            assert(fallback_strings@.take(fallback_strings.len() as int) =~= fallback_strings@);
        }
        let ghost base_v = table_view(seeds@) + spec_string_pairs_v(fbv);
        proof {
            assert(table_view(fallback_strings@) =~= spec_string_pairs_v(fbv)) by {
                assert(table_view(Seq::<(String, String)>::empty()) =~= Seq::<
                    (Seq<char>, Seq<char>),
                >::empty());
            }
            assert(table_view(base_table@) =~= base_v);
        }
        // resolve the fallback section itself
        let resolved_fallback = match interp_section(
            fallback,
            &base_table,
            &source.path,
            "DEFAULT",
        ) {
            Ok(es) => es,
            Err(e) => {
                return Err(e);
            },
        };
        // resolve every other section against the base plus its own strings
        let mut global_table = copy_table(&base_table);
        let mut resolved: Vec<(String, Vec<(String, Val)>)> = Vec::new();
        let mut rest2 = others;
        let ghost mut j: int = 0;
        proof {
            assert(rest2@ =~= othv.skip(0));
            assert(spec_sections_strings_v(othv.take(0)) =~= Seq::<(Seq<char>, Seq<char>)>::empty());
            assert(table_view(global_table@) =~= base_v + spec_sections_strings_v(othv.take(0)));
        }
        while rest2.len() > 0
            invariant
                0 <= j <= othv.len(),
                rest2@ == othv.skip(j),
                resolved.len() == j,
                forall|k: int|
                    0 <= k < j ==> (#[trigger] resolved@[k]).0@ == othv[k].0@
                        && section_interp_ok_v(
                        othv[k].1@,
                        resolved@[k].1@,
                        base_v + spec_string_pairs_v(othv[k].1@),
                    ),
                forall|k: int|
                    0 <= k < j ==> !spec_section_fails(
                        (#[trigger] othv[k]).1@,
                        base_v + spec_string_pairs_v(othv[k].1@),
                    ),
                table_view(global_table@) == base_v + spec_sections_strings_v(othv.take(j)),
                first_fail_other(othv, base_v) == first_fail_other(othv.skip(j), base_v),
            decreases rest2.len(),
        {
            proof {
                assert(othv.skip(j).len() == othv.len() - j);
                assert(othv.skip(j)[0] == othv[j]);
            }
            let (name, vals) = rest2.remove(0);
            proof {
                assert(rest2@ =~= othv.skip(j + 1));
            }
            let mut section_table = copy_table(&base_table);
            string_entries(&vals, &mut section_table);
            string_entries(&vals, &mut global_table);
            proof {
                assert(table_view(section_table@) =~= base_v + spec_string_pairs_v(vals@));
                assert(othv.take(j + 1).drop_last() =~= othv.take(j));
                assert(othv.take(j + 1).last() == othv[j]);
                assert(table_view(global_table@) =~= base_v + spec_sections_strings_v(
                    othv.take(j + 1),
                ));
            }
            let res = match interp_section(vals, &section_table, &source.path, name.as_str()) {
                Ok(es) => es,
                Err(e) => {
                    proof {
                        assert(spec_section_fails(othv[j].1@, base_v + spec_string_pairs_v(
                            othv[j].1@,
                        )));
                        assert(first_fail_other(othv.skip(j), base_v) == othv[j]);
                    }
                    return Err(e);
                },
            };
            resolved.push((name, res));
            proof {
                assert(othv.skip(j).drop_first() =~= othv.skip(j + 1));
                j = j + 1;
            }
        }
        proof {
            assert(othv.take(j) =~= othv);
        }
        Ok(
            Config {
                path: source.path.clone(),
                fallback: resolved_fallback,
                sections: resolved,
                table: global_table,
            },
        )
    }
}

/// Resolves every string of one section, wrapping the first failure with
/// the document path, section and key.
#[verifier::loop_isolation(false)]
fn interp_section(
    entries: Vec<(String, Val)>,
    table: &Vec<(String, String)>,
    path: &String,
    section: &str,
) -> (r: Result<Vec<(String, Val)>, String>)
    ensures
        (r is Ok) == !spec_section_fails(entries@, table_view(table@)),
        r matches Ok(out) ==> section_interp_ok_v(entries@, out@, table_view(table@)),
        r is Err && first_fail_entry(entries@, table_view(table@)).1 is Str ==> r->Err_0@
            == spec_section_err_msg(entries@, table_view(table@), path@, section@),
{
    let ghost tv = table_view(table@);
    let ghost orig = entries@;
    let mut out: Vec<(String, Val)> = Vec::new();
    let mut rest = entries;
    let ghost mut i: int = 0;
    proof {
        assert(rest@ =~= orig.skip(0));
    }
    while rest.len() > 0
        invariant
            0 <= i <= orig.len(),
            rest@ == orig.skip(i),
            out.len() == i,
            forall|k: int|
                0 <= k < i ==> (#[trigger] out@[k]).0@ == orig[k].0@ && interp_val_ok(
                    orig[k].1,
                    out@[k].1,
                    tv,
                ),
            forall|k: int| 0 <= k < i ==> !interp_val_fails((#[trigger] orig[k]).1, tv),
            first_fail_entry(orig, tv) == first_fail_entry(orig.skip(i), tv),
        decreases rest.len(),
    {
        proof {
            assert(orig.skip(i).len() == orig.len() - i);
            assert(orig.skip(i)[0] == orig[i]);
        }
        let (k, v) = rest.remove(0);
        proof {
            assert(rest@ =~= orig.skip(i + 1));
        }
        match interp_val(v, table) {
            Ok(x) => out.push((k, x)),
            Err(e) => {
                proof {
                    assert(interp_val_fails(orig[i].1, tv));
                    assert(first_fail_entry(orig.skip(i), tv) == orig[i]);
                    assert(spec_section_fails(orig, tv));
                }
                return Err(
                    e.concat(" in config file ").concat(path.as_str()).concat(
                        ", section ",
                    ).concat(section).concat(", key ").concat(k.as_str()),
                );
            },
        }
        proof {
            assert(orig.skip(i).drop_first() =~= orig.skip(i + 1));
            i = i + 1;
        }
    }
    proof {
        assert(!spec_section_fails(orig, tv)) by {
            if spec_section_fails(orig, tv) {
                let k = choose|k: int|
                    0 <= k < orig.len() && interp_val_fails((#[trigger] orig[k]).1, tv);
                assert(!interp_val_fails(orig[k].1, tv));
            }
        }
    }
    Ok(out)
}

} // verus!
