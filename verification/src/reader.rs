use crate::config::{spec_get, Config};
use crate::floatbits::{f64_bits_to_int, widen_int_to_float_bits};
use crate::id::{spec_display, spec_name_key, spec_scope_name, OptionId};
use crate::interp::{interpolate_string, str_eq};
use crate::outside::{
    json_as_array, json_as_bool, json_as_int, json_as_str, json_decode_val, json_float_bits,
    json_object_entries, read_text_file, yaml_as_bool, yaml_as_int, yaml_as_sequence, yaml_as_str,
    yaml_decode_val, yaml_float_bits, yaml_mapping_entries, ReadOutcome,
};
use crate::interp::{spec_interp_from, table_view, MAX_INTERP_DEPTH};
use crate::parse::{
    is_plus_form, parse_dict_string, parse_list_string, parse_scalar_text, spec_int_dict_entry,
    spec_int_dict_form, spec_int_list_form, spec_int_list_items,
};
use crate::val::{
    dict_from_pairs, val_deep_eq, DictEdit, DictEditAction, ListEdit, ListEditAction, Val,
};
use vstd::arithmetic::power2::pow2;
use vstd::prelude::*;

verus! {

broadcast use vstd::std_specs::vec::group_vec_axioms;

/// A value is file-indirected when its raw string form begins with `@`.
pub open spec fn is_fromfile(s: Seq<char>) -> bool {
    s.len() > 0 && s[0] == '@'
}

/// Whether `s` ends with the suffix.
pub open spec fn spec_ends_with(s: Seq<char>, suf: Seq<char>) -> bool {
    s.len() >= suf.len() && s.skip(s.len() - suf.len()) == suf
}

#[verifier::loop_isolation(false)]
fn str_ends_with(s: &str, suf: &str) -> (r: bool)
    ensures
        r == spec_ends_with(s@, suf@),
{
    let slen = s.unicode_len();
    let flen = suf.unicode_len();
    if flen > slen {
        return false;
    }
    let base = slen - flen;
    let mut i: usize = 0;
    while i < flen
        invariant
            i <= flen,
            flen <= slen,
            base == slen - flen,
            forall|k: int| 0 <= k < i ==> s@[base + k] == suf@[k],
        decreases flen - i,
    {
        if s.get_char(base + i) != suf.get_char(i) {
            proof {
                assert(s@.skip(base as int)[i as int] != suf@[i as int]);
            }
            return false;
        }
        i = i + 1;
    }
    proof {
        assert(s@.skip(base as int) =~= suf@);
    }
    true
}

/// How the content of a referenced file is decoded: by its extension.
#[derive(Clone, Copy, PartialEq, Eq, Structural)]
pub enum FileKind {
    Json,
    Yaml,
    Text,
}

/// The decode route a path selects, by its extension.
pub open spec fn spec_file_kind(path: Seq<char>) -> FileKind {
    if spec_ends_with(path, ".json"@) {
        FileKind::Json
    } else if spec_ends_with(path, ".yaml"@) || spec_ends_with(path, ".yml"@) {
        FileKind::Yaml
    } else {
        FileKind::Text
    }
}

/// Picks the decode route from the path: `.json` and `.yaml`/`.yml` files
/// are structured, anything else is raw text.
fn file_kind(path: &str) -> (r: FileKind)
    ensures
        r == spec_file_kind(path@),
{
    if str_ends_with(path, ".json") {
        FileKind::Json
    } else if str_ends_with(path, ".yaml") || str_ends_with(path, ".yml") {
        FileKind::Yaml
    } else {
        FileKind::Text
    }
}

/// Resolves referenced paths: either against a fixed base directory, or as
/// the running process sees them.
pub struct FromfileExpander {
    pub base: Option<String>,
}

impl FromfileExpander {
    /// Paths stay as given and resolve against the process's working
    /// directory.
    pub fn relative_to_cwd() -> (r: FromfileExpander)
        ensures
            r.base is None,
    {
        FromfileExpander { base: None }
    }

    /// Relative paths resolve under `dir`.
    pub fn relative_to(dir: String) -> (r: FromfileExpander)
        ensures
            r.base == Some(dir),
    {
        FromfileExpander { base: Some(dir) }
    }

    /// The path as the file system will be asked for it: absolute paths and
    /// paths without a base stay as given, else the base is put in front.
    fn resolve(&self, path: &String) -> (r: String)
        ensures
            r@ == spec_resolve(self, path@),
    {
        match &self.base {
            None => path.clone(),
            Some(dir) => {
                let plen = path.as_str().unicode_len();
                if plen > 0 && path.as_str().get_char(0) == '/' {
                    path.clone()
                } else {
                    dir.clone().concat("/").concat(path.as_str())
                }
            },
        }
    }
}

/// The path the file system is asked for: absolute paths and paths
/// without a base stay as given, else the base directory leads.
pub open spec fn spec_resolve(x: &FromfileExpander, path: Seq<char>) -> Seq<char> {
    match x.base {
        None => path,
        Some(dir) => if path.len() > 0 && path[0] == '/' {
            path
        } else {
            dir@ + "/"@ + path
        },
    }
}

/// The optional flag and the path text of a file indirection.
pub open spec fn spec_fromfile_split(s: Seq<char>) -> (bool, Seq<char>) {
    if s.len() > 1 && s[1] == '?' {
        (true, s.skip(2))
    } else {
        (false, s.skip(1))
    }
}

/// The message a failed file read surfaces as.
pub open spec fn spec_problem_msg(path: Seq<char>, disp: Seq<char>, reason: Seq<char>) -> Seq<
    char,
> {
    "Problem reading "@ + path + " for "@ + disp + ": "@ + reason
}

/// Settles the outcome of reading a referenced file: a missing optional
/// file is an absent value, a missing required file or any other failure
/// is an error naming the path, the option and the reason; text that was
/// read is handed on.
fn read_outcome_to_result(outcome: ReadOutcome, optional: bool, path: &String, id: &OptionId) -> (r:
    Result<Option<String>, String>)
    ensures
        match outcome {
            ReadOutcome::Content(c) => r == Ok::<Option<String>, String>(Some(c)),
            ReadOutcome::Missing(reason) => if optional {
                r == Ok::<Option<String>, String>(None)
            } else {
                r matches Err(e) && e@ == spec_problem_msg(path@, spec_display(id), reason@)
            },
            ReadOutcome::Failed(reason) => r matches Err(e) && e@ == spec_problem_msg(
                path@,
                spec_display(id),
                reason@,
            ),
        },
{
    match outcome {
        ReadOutcome::Content(c) => Ok(Some(c)),
        ReadOutcome::Missing(reason) => {
            if optional {
                Ok(None)
            } else {
                Err(problem_msg(path, id, &reason))
            }
        },
        ReadOutcome::Failed(reason) => Err(problem_msg(path, id, &reason)),
    }
}

/// Builds the file-read failure message.
fn problem_msg(path: &String, id: &OptionId, reason: &String) -> (r: String)
    ensures
        r@ == spec_problem_msg(path@, spec_display(id), reason@),
{
    String::from_str("Problem reading ").concat(path.as_str()).concat(" for ").concat(
        display_of(id).as_str(),
    ).concat(": ").concat(reason.as_str())
}

/// Renders an option for messages: `[<SCOPE>] <name>`, the scope being the
/// literal `GLOBAL` token when empty; the short alias never appears.
pub fn display_of(id: &OptionId) -> (r: String)
    ensures
        r@ == spec_display(id),
{
    String::from_str("[").concat(id.scope_name().as_str()).concat("] ").concat(
        id.name_key().as_str(),
    )
}

/// Converts a decoded structured value into the model, to a bounded depth.
#[verifier::loop_isolation(false)]
pub(crate) fn val_of_json(v: &serde_json::Value, fuel: u64) -> (r: Result<Val, String>)
    decreases fuel,
{
    if fuel == 0 {
        return Err(String::from_str("Decoded value nested too deeply"));
    }
    match json_as_bool(v) {
        Some(b) => {
            return Ok(Val::Bool(b));
        },
        None => {
        },
    }
    match json_as_int(v) {
        Some(n) => {
            return Ok(Val::Int(n));
        },
        None => {
        },
    }
    match json_float_bits(v) {
        Some(bits) => {
            return Ok(Val::Float(bits));
        },
        None => {
        },
    }
    match json_as_str(v) {
        Some(s) => {
            return Ok(Val::Str(s));
        },
        None => {
        },
    }
    match json_as_array(v) {
        Some(arr) => {
            let mut items: Vec<Val> = Vec::new();
            let mut i: usize = 0;
            while i < arr.len()
                invariant
                    i <= arr.len(),
                decreases arr.len() - i,
            {
                match val_of_json(&arr[i], fuel - 1) {
                    Ok(item) => items.push(item),
                    Err(e) => {
                        return Err(e);
                    },
                }
                i = i + 1;
            }
            return Ok(Val::List(items));
        },
        None => {
        },
    }
    match json_object_entries(v) {
        Some(entries) => {
            let mut pairs: Vec<(String, Val)> = Vec::new();
            let mut i: usize = 0;
            while i < entries.len()
                invariant
                    i <= entries.len(),
                decreases entries.len() - i,
            {
                match val_of_json(&entries[i].1, fuel - 1) {
                    Ok(item) => {
                        let k = entries[i].0.clone();
                        pairs.push((k, item));
                    },
                    Err(e) => {
                        return Err(e);
                    },
                }
                i = i + 1;
            }
            return Ok(Val::Dict(dict_from_pairs(pairs)));
        },
        None => {
        },
    }
    Err(String::from_str("Unsupported decoded value shape"))
}

/// Converts a decoded YAML value into the model, to a bounded depth; only
/// string keys are accepted in mappings.
#[verifier::loop_isolation(false)]
pub(crate) fn val_of_yaml(v: &serde_yaml::Value, fuel: u64) -> (r: Result<Val, String>)
    decreases fuel,
{
    if fuel == 0 {
        return Err(String::from_str("Decoded value nested too deeply"));
    }
    match yaml_as_bool(v) {
        Some(b) => {
            return Ok(Val::Bool(b));
        },
        None => {
        },
    }
    match yaml_as_int(v) {
        Some(n) => {
            return Ok(Val::Int(n));
        },
        None => {
        },
    }
    match yaml_float_bits(v) {
        Some(bits) => {
            return Ok(Val::Float(bits));
        },
        None => {
        },
    }
    match yaml_as_str(v) {
        Some(s) => {
            return Ok(Val::Str(s));
        },
        None => {
        },
    }
    match yaml_as_sequence(v) {
        Some(arr) => {
            let mut items: Vec<Val> = Vec::new();
            let mut i: usize = 0;
            while i < arr.len()
                invariant
                    i <= arr.len(),
                decreases arr.len() - i,
            {
                match val_of_yaml(&arr[i], fuel - 1) {
                    Ok(item) => items.push(item),
                    Err(e) => {
                        return Err(e);
                    },
                }
                i = i + 1;
            }
            return Ok(Val::List(items));
        },
        None => {
        },
    }
    match yaml_mapping_entries(v) {
        Some(entries) => {
            let mut pairs: Vec<(String, Val)> = Vec::new();
            let mut i: usize = 0;
            while i < entries.len()
                invariant
                    i <= entries.len(),
                decreases entries.len() - i,
            {
                let key = match yaml_as_str(&entries[i].0) {
                    Some(k) => k,
                    None => {
                        return Err(String::from_str("Mapping keys must be strings"));
                    },
                };
                match val_of_yaml(&entries[i].1, fuel - 1) {
                    Ok(item) => {
                        pairs.push((key, item));
                    },
                    Err(e) => {
                        return Err(e);
                    },
                }
                i = i + 1;
            }
            return Ok(Val::Dict(dict_from_pairs(pairs)));
        },
        None => {
        },
    }
    Err(String::from_str("Unsupported decoded value shape"))
}

/// A short name for a value's shape.
pub open spec fn spec_shape_name(v: Val) -> Seq<char> {
    match v {
        Val::Bool(_) => "bool"@,
        Val::Int(_) => "int"@,
        Val::Float(_) => "float"@,
        Val::Str(_) => "string"@,
        Val::List(_) => "list"@,
        Val::Dict(_) => "dict"@,
    }
}

/// The error when a stored shape disagrees with the requested type, naming
/// both shapes.
pub open spec fn spec_mismatch_msg(expected: Seq<char>, v: Val) -> Seq<char> {
    "Expected a value of type "@ + expected + " but given a "@ + spec_shape_name(v)
}

/// A short name for a value's shape, for mismatch messages.
fn shape_name(v: &Val) -> (r: &'static str)
    ensures
        r@ == spec_shape_name(*v),
{
    match v {
        Val::Bool(_) => "bool",
        Val::Int(_) => "int",
        Val::Float(_) => "float",
        Val::Str(_) => "string",
        Val::List(_) => "list",
        Val::Dict(_) => "dict",
    }
}

/// The error when a stored shape disagrees with the requested type.
fn mismatch_msg(expected: &str, v: &Val) -> (r: String)
    ensures
        r@ == spec_mismatch_msg(expected@, *v),
{
    String::from_str("Expected a value of type ").concat(expected).concat(" but given a ").concat(
        shape_name(v),
    )
}

/// All items are integers.
pub open spec fn all_ints(items: Seq<Val>) -> bool {
    forall|i: int| 0 <= i < items.len() ==> (#[trigger] items[i]) is Int
}

/// The integer payloads, in order.
pub open spec fn spec_ints_of(items: Seq<Val>) -> Seq<i64> {
    Seq::new(items.len(), |i: int| items[i]->Int_0)
}

/// All items are strings.
pub open spec fn all_strs(items: Seq<Val>) -> bool {
    forall|i: int| 0 <= i < items.len() ==> (#[trigger] items[i]) is Str
}

/// The string payloads, as character sequences, in order.
pub open spec fn spec_strs_of(items: Seq<Val>) -> Seq<Seq<char>> {
    Seq::new(items.len(), |i: int| items[i]->Str_0@)
}

/// Converts value items into integers; any other shape is refused.
#[verifier::loop_isolation(false)]
fn vals_to_ints(items: &Vec<Val>) -> (r: Result<Vec<i64>, String>)
    ensures
        r matches Ok(out) ==> all_ints(items@) && out@ == spec_ints_of(items@),
        all_ints(items@) ==> r is Ok,
{
    let mut out: Vec<i64> = Vec::new();
    let mut i: usize = 0;
    while i < items.len()
        invariant
            i <= items.len(),
            out.len() == i,
            forall|j: int| 0 <= j < i ==> (#[trigger] items@[j]) is Int,
            forall|j: int| 0 <= j < i ==> out@[j] == items@[j]->Int_0,
        decreases items.len() - i,
    {
        match &items[i] {
            Val::Int(n) => out.push(*n),
            other => {
                return Err(mismatch_msg("int", other));
            },
        }
        i = i + 1;
    }
    proof {
        assert(out@ =~= spec_ints_of(items@));
    }
    Ok(out)
}

/// Converts value items into strings; any other shape is refused.
#[verifier::loop_isolation(false)]
fn vals_to_strings(items: &Vec<Val>) -> (r: Result<Vec<String>, String>)
    ensures
        r matches Ok(out) ==> all_strs(items@) && out@.len() == items@.len() && (forall|j: int|
            0 <= j < items@.len() ==> (#[trigger] out@[j])@ == items@[j]->Str_0@),
        all_strs(items@) ==> r is Ok,
{
    let mut out: Vec<String> = Vec::new();
    let mut i: usize = 0;
    while i < items.len()
        invariant
            i <= items.len(),
            out.len() == i,
            forall|j: int| 0 <= j < i ==> (#[trigger] items@[j]) is Str,
            forall|j: int| 0 <= j < i ==> (#[trigger] out@[j])@ == items@[j]->Str_0@,
        decreases items.len() - i,
    {
        match &items[i] {
            Val::Str(t) => out.push(t.clone()),
            other => {
                return Err(mismatch_msg("string", other));
            },
        }
        i = i + 1;
    }
    Ok(out)
}

/// Copies the items of a list value.
#[verifier::loop_isolation(false)]
fn clone_items(items: &Vec<Val>) -> (r: Vec<Val>)
    ensures
        r.len() == items.len(),
        forall|j: int| 0 <= j < items.len() ==> val_deep_eq(#[trigger] r@[j], items@[j]),
{
    let mut out: Vec<Val> = Vec::new();
    let mut i: usize = 0;
    while i < items.len()
        invariant
            i <= items.len(),
            out.len() == i,
            forall|j: int| 0 <= j < i ==> val_deep_eq(#[trigger] out@[j], items@[j]),
        decreases items.len() - i,
    {
        let c = items[i].deep_clone();
        out.push(c);
        i = i + 1;
    }
    out
}

/// Copies the entries of a dict value.
#[verifier::loop_isolation(false)]
fn clone_entries(entries: &Vec<(String, Val)>) -> (r: Vec<(String, Val)>)
    ensures
        r.len() == entries.len(),
        forall|j: int|
            0 <= j < entries.len() ==> (#[trigger] r@[j]).0@ == entries@[j].0@ && val_deep_eq(
                r@[j].1,
                entries@[j].1,
            ),
{
    let mut out: Vec<(String, Val)> = Vec::new();
    let mut i: usize = 0;
    while i < entries.len()
        invariant
            i <= entries.len(),
            out.len() == i,
            forall|j: int|
                0 <= j < i ==> (#[trigger] out@[j]).0@ == entries@[j].0@ && val_deep_eq(
                    out@[j].1,
                    entries@[j].1,
                ),
        decreases entries.len() - i,
    {
        let k = entries[i].0.clone();
        let c = entries[i].1.deep_clone();
        out.push((k, c));
        i = i + 1;
    }
    out
}

/// A well-formed typed list edit sequence: a replace only leads, every
/// append comes before every removal, and no source form contributes more
/// than one edit.
pub open spec fn typed_list_edits_ordered<T>(es: Seq<ListEdit<T>>) -> bool {
    &&& forall|j: int| 0 < j < es.len() ==> (#[trigger] es[j]).action != ListEditAction::Replace
    &&& forall|j: int, k: int|
        0 <= j < k < es.len() && (#[trigger] es[j]).action == ListEditAction::Remove ==> (
        #[trigger] es[k]).action != ListEditAction::Add
    &&& forall|j: int, k: int|
        0 <= j < k < es.len() ==> (#[trigger] es[j]).action != (#[trigger] es[k]).action
    &&& es.len() <= 3
}

/// A well-formed list edit sequence: a replace only leads, every append
/// comes before every removal, and no source form contributes more than
/// one edit.
pub open spec fn list_edits_ordered(es: Seq<(ListEditAction, Vec<Val>)>) -> bool {
    &&& forall|j: int| 0 < j < es.len() ==> (#[trigger] es[j]).0 != ListEditAction::Replace
    &&& forall|j: int, k: int|
        0 <= j < k < es.len() && (#[trigger] es[j]).0 == ListEditAction::Remove ==> (
        #[trigger] es[k]).0 != ListEditAction::Add
    &&& forall|j: int, k: int|
        0 <= j < k < es.len() ==> (#[trigger] es[j]).0 != (#[trigger] es[k]).0
    &&& es.len() <= 3
}

/// A dotted-form edit table for a list key: its entries are exactly `add`
/// and `remove`, each carrying a list, in that (sorted) order.
pub open spec fn is_add_remove_table(es: Seq<(String, Val)>) -> bool {
    es.len() == 2 && es[0].0@ == "add"@ && es[1].0@ == "remove"@ && es[0].1 is List && es[1].1
        is List
}

/// What one stored value contributes to a list option: a literal list
/// replaces; an encoded string follows the plus-form rules; an edit table
/// yields its add edit and then its remove edit, always in that order.
#[verifier::loop_isolation(false)]
fn list_contribution(v: &Val) -> (r: Result<Vec<(ListEditAction, Vec<Val>)>, String>)
    ensures
        v matches Val::List(xs) ==> (r matches Ok(es) && es@.len() == 1 && es@[0].0
            == ListEditAction::Replace && es@[0].1.len() == xs.len() && (forall|j: int|
            0 <= j < xs.len() ==> val_deep_eq(#[trigger] es@[0].1@[j], xs@[j]))),
        is_add_remove_table(v->Dict_0@) && v is Dict ==> (r matches Ok(es) && es@.len() == 2
            && es@[0].0 == ListEditAction::Add && es@[1].0 == ListEditAction::Remove && es@[0].1.len()
            == v->Dict_0@[0].1->List_0.len() && es@[1].1.len() == v->Dict_0@[1].1->List_0.len() && (
        forall|j: int|
            0 <= j < es@[0].1.len() ==> val_deep_eq(
                #[trigger] es@[0].1@[j],
                v->Dict_0@[0].1->List_0@[j],
            )) && (forall|j: int|
            0 <= j < es@[1].1.len() ==> val_deep_eq(
                #[trigger] es@[1].1@[j],
                v->Dict_0@[1].1->List_0@[j],
            ))),
        v is Str && is_plus_form(v->Str_0@) ==> (r matches Ok(es) ==> es@.len() == 1 && es@[0].0
            == ListEditAction::Add),
        v is Str && spec_int_list_form(v->Str_0@) ==> (r matches Ok(es) && es@.len() == 1
            && es@[0].0 == (if is_plus_form(v->Str_0@) {
            ListEditAction::Add
        } else {
            ListEditAction::Replace
        }) && es@[0].1@.len() == spec_int_list_items(v->Str_0@).len() && (forall|k: int|
            0 <= k < spec_int_list_items(v->Str_0@).len() ==> es@[0].1@[k] == Val::Int(
                #[trigger] spec_int_list_items(v->Str_0@)[k] as i64,
            ))),
        (v is Bool || v is Int || v is Float) ==> (r is Err && r->Err_0@ == spec_mismatch_msg(
            "list"@,
            *v,
        )),
        r matches Ok(es) ==> list_edits_ordered(es@) && es@.len() <= 2,
{
    proof {
        reveal_strlit("add");
        reveal_strlit("remove");
        assert("add"@.len() == 3);
        assert("remove"@.len() == 6);
    }
    match v {
        Val::List(xs) => {
            let items = clone_items(xs);
            let mut out: Vec<(ListEditAction, Vec<Val>)> = Vec::new();
            out.push((ListEditAction::Replace, items));
            Ok(out)
        },
        Val::Str(s) => {
            match parse_list_string(s.as_str()) {
                Ok((action, items)) => {
                    let mut out: Vec<(ListEditAction, Vec<Val>)> = Vec::new();
                    out.push((action, items));
                    Ok(out)
                },
                Err(e) => Err(e),
            }
        },
        Val::Dict(es) => {
            let mut add_items: Option<Vec<Val>> = None;
            let mut remove_items: Option<Vec<Val>> = None;
            let mut i: usize = 0;
            while i < es.len()
                invariant
                    i <= es.len(),
                    is_add_remove_table(es@) ==> (i >= 1 ==> (add_items matches Some(a) && a.len()
                        == es@[0].1->List_0.len() && (forall|j: int|
                        0 <= j < a.len() ==> val_deep_eq(
                            #[trigger] a@[j],
                            es@[0].1->List_0@[j],
                        )))),
                    is_add_remove_table(es@) ==> (i >= 2 ==> (remove_items matches Some(b)
                        && b.len() == es@[1].1->List_0.len() && (forall|j: int|
                        0 <= j < b.len() ==> val_deep_eq(
                            #[trigger] b@[j],
                            es@[1].1->List_0@[j],
                        )))),
                decreases es.len() - i,
            {
                let is_add = str_eq(es[i].0.as_str(), "add");
                let is_remove = str_eq(es[i].0.as_str(), "remove");
                if is_add {
                    match &es[i].1 {
                        Val::List(xs) => {
                            add_items = Some(clone_items(xs));
                        },
                        other => {
                            return Err(mismatch_msg("list", other));
                        },
                    }
                } else if is_remove {
                    match &es[i].1 {
                        Val::List(xs) => {
                            remove_items = Some(clone_items(xs));
                        },
                        other => {
                            return Err(mismatch_msg("list", other));
                        },
                    }
                } else {
                    return Err(
                        String::from_str(
                            "Expected only add and remove entries under a list option",
                        ),
                    );
                }
                i = i + 1;
            }
            let mut out: Vec<(ListEditAction, Vec<Val>)> = Vec::new();
            match add_items {
                Some(a) => out.push((ListEditAction::Add, a)),
                None => {
                },
            }
            match remove_items {
                Some(b) => out.push((ListEditAction::Remove, b)),
                None => {
                },
            }
            Ok(out)
        },
        other => Err(mismatch_msg("list", other)),
    }
}

/// Whether the action resets the accumulated list.
fn is_replace_action(a: ListEditAction) -> (r: bool)
    ensures
        r == (a is Replace),
{
    match a {
        ListEditAction::Replace => true,
        _ => false,
    }
}

/// Folds the section's own stored value and the fallback's into the edit
/// sequence: an own replace stands alone; otherwise a fallback replace
/// leads, and the own contribution follows.
#[verifier::loop_isolation(false)]
fn assemble_list_edits(own: Option<&Val>, fb: Option<&Val>) -> (r: Result<
    Option<Vec<(ListEditAction, Vec<Val>)>>,
    String,
>)
    ensures
        own is None && fb is None ==> r == Ok::<Option<Vec<(ListEditAction, Vec<Val>)>>, String>(
            None,
        ),
        own is Some && (*own->Some_0) is List ==> (r matches Ok(o) && o matches Some(es)
            && es@.len() == 1 && es@[0].0 == ListEditAction::Replace && es@[0].1.len() == (*own
            ->Some_0)->List_0.len() && (forall|j: int|
            0 <= j < (*own->Some_0)->List_0.len() ==> val_deep_eq(
                #[trigger] es@[0].1@[j],
                (*own->Some_0)->List_0@[j],
            ))),
        own is Some && (*own->Some_0) is Dict && is_add_remove_table((*own->Some_0)->Dict_0@) && fb
            is None ==> (r matches Ok(o) && o matches Some(es) && es@.len() == 2 && es@[0].0
            == ListEditAction::Add && es@[1].0 == ListEditAction::Remove && es@[0].1.len() == (*own
            ->Some_0)->Dict_0@[0].1->List_0.len() && es@[1].1.len() == (*own
            ->Some_0)->Dict_0@[1].1->List_0.len() && (forall|j: int|
            0 <= j < es@[0].1.len() ==> val_deep_eq(
                #[trigger] es@[0].1@[j],
                (*own->Some_0)->Dict_0@[0].1->List_0@[j],
            )) && (forall|j: int|
            0 <= j < es@[1].1.len() ==> val_deep_eq(
                #[trigger] es@[1].1@[j],
                (*own->Some_0)->Dict_0@[1].1->List_0@[j],
            ))),
        own is Some && ((*own->Some_0) is Bool || (*own->Some_0) is Int || (*own->Some_0)
            is Float) ==> (r is Err && r->Err_0@ == spec_mismatch_msg("list"@, *own->Some_0)),
        own is None && fb is Some && ((*fb->Some_0) is Bool || (*fb->Some_0) is Int || (*fb
            ->Some_0) is Float) ==> (r is Err && r->Err_0@ == spec_mismatch_msg(
            "list"@,
            *fb->Some_0,
        )),
        own is Some && (*own->Some_0) is Str && is_plus_form((*own->Some_0)->Str_0@) && fb is Some
            && (*fb->Some_0) is List ==> (r matches Ok(o) ==> (o matches Some(es) && es@.len() == 2
            && es@[0].0 == ListEditAction::Replace && es@[0].1.len() == (*fb->Some_0)->List_0.len()
            && (forall|j: int|
            0 <= j < (*fb->Some_0)->List_0.len() ==> val_deep_eq(
                #[trigger] es@[0].1@[j],
                (*fb->Some_0)->List_0@[j],
            )) && es@[1].0 == ListEditAction::Add)),
        own is Some && (*own->Some_0) is Str && is_plus_form((*own->Some_0)->Str_0@)
            && spec_int_list_form((*own->Some_0)->Str_0@) && fb is Some && (*fb->Some_0) is List
            ==> (r matches Ok(o) && o matches Some(es) && es@.len() == 2 && es@[1].1@.len()
            == spec_int_list_items((*own->Some_0)->Str_0@).len() && (forall|k: int|
            0 <= k < spec_int_list_items((*own->Some_0)->Str_0@).len() ==> es@[1].1@[k]
                == Val::Int(#[trigger] spec_int_list_items((*own->Some_0)->Str_0@)[k] as i64))),
        r is Ok && r->Ok_0 is Some ==> list_edits_ordered(r->Ok_0->Some_0@),
{
    match own {
        None => {
            match fb {
                None => Ok(None),
                Some(fv) => {
                    match list_contribution(fv) {
                        Ok(es) => Ok(Some(es)),
                        Err(e) => Err(e),
                    }
                },
            }
        },
        Some(v) => {
            let c = match list_contribution(v) {
                Ok(es) => es,
                Err(e) => {
                    return Err(e);
                },
            };
            let own_replaces = c.len() > 0 && is_replace_action(c[0].0);
            if own_replaces {
                return Ok(Some(c));
            }
            let mut out: Vec<(ListEditAction, Vec<Val>)> = Vec::new();
            match fb {
                Some(fv) => {
                    let mut cf = match list_contribution(fv) {
                        Ok(es) => es,
                        Err(e) => {
                            return Err(e);
                        },
                    };
                    if cf.len() > 0 && is_replace_action(cf[0].0) {
                        let first = cf.remove(0);
                        out.push(first);
                    }
                },
                None => {
                },
            }
            let mut rest = c;
            out.append(&mut rest);
            Ok(Some(out))
        },
    }
}

/// What one stored value contributes to a dict option: a literal table
/// replaces; an encoded string replaces, or appends with a leading plus.
fn dict_contribution(v: &Val) -> (r: Result<(DictEditAction, Vec<(String, Val)>), String>)
    ensures
        v is Str && is_plus_form(v->Str_0@) ==> (r matches Ok(p) ==> p.0 == DictEditAction::Add),
        v is Str && !is_plus_form(v->Str_0@) ==> (r matches Ok(p) ==> p.0
            == DictEditAction::Replace),
        v is Str && spec_int_dict_form(v->Str_0@) ==> (r matches Ok(p) && p.0 == (if is_plus_form(
            v->Str_0@,
        ) {
            DictEditAction::Add
        } else {
            DictEditAction::Replace
        }) && p.1@.len() == 1 && p.1@[0].0@ == spec_int_dict_entry(v->Str_0@).0 && p.1@[0].1
            == Val::Int(spec_int_dict_entry(v->Str_0@).1 as i64)),
        v is Dict ==> (r matches Ok(p) && p.0 == DictEditAction::Replace && p.1.len()
            == v->Dict_0.len() && (forall|j: int|
            0 <= j < v->Dict_0.len() ==> (#[trigger] p.1@[j]).0@ == v->Dict_0@[j].0@ && val_deep_eq(
                p.1@[j].1,
                v->Dict_0@[j].1,
            ))),
        (v is Bool || v is Int || v is Float || v is List) ==> (r is Err && r->Err_0@
            == spec_mismatch_msg("dict"@, *v)),
{
    match v {
        Val::Dict(es) => {
            let items = clone_entries(es);
            Ok((DictEditAction::Replace, items))
        },
        Val::Str(t) => parse_dict_string(t.as_str()),
        other => Err(mismatch_msg("dict", other)),
    }
}

/// Whether the action resets the accumulated dict.
fn is_dict_replace_action(a: DictEditAction) -> (r: bool)
    ensures
        r == (a is Replace),
{
    match a {
        DictEditAction::Replace => true,
        _ => false,
    }
}

/// A well-formed dict edit sequence: a replace only leads and no source
/// form contributes more than one edit.
pub open spec fn dict_edits_ordered(es: Seq<DictEdit>) -> bool {
    &&& forall|j: int| 0 < j < es.len() ==> (#[trigger] es[j]).action != DictEditAction::Replace
    &&& forall|j: int, k: int|
        0 <= j < k < es.len() ==> (#[trigger] es[j]).action != (#[trigger] es[k]).action
    &&& es.len() <= 2
}

/// Folds the own and fallback stored values into the dict edit sequence:
/// an own replace stands alone; an own append follows a fallback replace.
fn assemble_dict_edits(own: Option<&Val>, fb: Option<&Val>) -> (r: Result<
    Option<Vec<DictEdit>>,
    String,
>)
    ensures
        r is Ok && r->Ok_0 is Some ==> dict_edits_ordered(r->Ok_0->Some_0@),
        own is None && fb is None ==> r == Ok::<Option<Vec<DictEdit>>, String>(None),
        own is Some && (*own->Some_0) is Str && is_plus_form((*own->Some_0)->Str_0@) && fb is Some
            && (*fb->Some_0) is Str && !is_plus_form((*fb->Some_0)->Str_0@) ==> (r matches Ok(o)
            ==> (o matches Some(es) && es@.len() == 2 && es@[0].action == DictEditAction::Replace
            && es@[1].action == DictEditAction::Add)),
        own is Some && (*own->Some_0) is Str && is_plus_form((*own->Some_0)->Str_0@)
            && spec_int_dict_form((*own->Some_0)->Str_0@) && fb is Some && (*fb->Some_0) is Str
            && !is_plus_form((*fb->Some_0)->Str_0@) && spec_int_dict_form((*fb->Some_0)->Str_0@)
            ==> (r matches Ok(o) && o matches Some(es) && es@.len() == 2 && es@[0].action
            == DictEditAction::Replace && es@[0].items@.len() == 1 && es@[0].items@[0].0@
            == spec_int_dict_entry((*fb->Some_0)->Str_0@).0 && es@[0].items@[0].1 == Val::Int(
            spec_int_dict_entry((*fb->Some_0)->Str_0@).1 as i64,
        ) && es@[1].action == DictEditAction::Add && es@[1].items@.len() == 1
            && es@[1].items@[0].0@ == spec_int_dict_entry((*own->Some_0)->Str_0@).0
            && es@[1].items@[0].1 == Val::Int(spec_int_dict_entry((*own->Some_0)->Str_0@).1 as i64)),
        own is Some && (*own->Some_0) is Dict ==> (r matches Ok(o) && o matches Some(es)
            && es@.len() == 1 && es@[0].action == DictEditAction::Replace && es@[0].items.len() == (
        *own->Some_0)->Dict_0.len() && (forall|j: int|
            0 <= j < (*own->Some_0)->Dict_0.len() ==> (#[trigger] es@[0].items@[j]).0@ == (*own
                ->Some_0)->Dict_0@[j].0@ && val_deep_eq(
                es@[0].items@[j].1,
                (*own->Some_0)->Dict_0@[j].1,
            ))),
        own is Some && ((*own->Some_0) is Bool || (*own->Some_0) is Int || (*own->Some_0) is Float
            || (*own->Some_0) is List) ==> (r is Err && r->Err_0@ == spec_mismatch_msg(
            "dict"@,
            *own->Some_0,
        )),
        own is None && fb is Some && ((*fb->Some_0) is Bool || (*fb->Some_0) is Int || (*fb
            ->Some_0) is Float || (*fb->Some_0) is List) ==> (r is Err && r->Err_0@
            == spec_mismatch_msg("dict"@, *fb->Some_0)),
{
    match own {
        None => {
            match fb {
                None => Ok(None),
                Some(fv) => {
                    match dict_contribution(fv) {
                        Ok((action, items)) => {
                            let mut out: Vec<DictEdit> = Vec::new();
                            out.push(DictEdit { action, items });
                            Ok(Some(out))
                        },
                        Err(e) => Err(e),
                    }
                },
            }
        },
        Some(v) => {
            let (action, items) = match dict_contribution(v) {
                Ok(p) => p,
                Err(e) => {
                    return Err(e);
                },
            };
            let mut out: Vec<DictEdit> = Vec::new();
            if is_dict_replace_action(action) {
                out.push(DictEdit { action, items });
                return Ok(Some(out));
            }
            match fb {
                Some(fv) => {
                    match dict_contribution(fv) {
                        Ok((fa, fitems)) => {
                            if is_dict_replace_action(fa) {
                                out.push(DictEdit { action: fa, items: fitems });
                            }
                        },
                        Err(e) => {
                            return Err(e);
                        },
                    }
                },
                None => {
                },
            }
            out.push(DictEdit { action, items });
            Ok(Some(out))
        },
    }
}

/// Converts untyped list edits into integer edits, keeping each action.
#[verifier::loop_isolation(false)]
fn convert_int_edits(raw: Vec<(ListEditAction, Vec<Val>)>) -> (r: Result<Vec<ListEdit<i64>>, String>)
    ensures
        r matches Ok(out) ==> out@.len() == raw@.len() && (forall|j: int|
            0 <= j < raw@.len() ==> (#[trigger] out@[j]).action == raw@[j].0 && all_ints(raw@[j].1@)
                && out@[j].items@ == spec_ints_of(raw@[j].1@)),
        (forall|j: int| 0 <= j < raw@.len() ==> all_ints((#[trigger] raw@[j]).1@)) ==> r is Ok,
{
    let ghost orig = raw@;
    let mut rest = raw;
    let mut out: Vec<ListEdit<i64>> = Vec::new();
    let ghost mut i: int = 0;
    proof {
        assert(rest@ =~= orig.skip(0));
    }
    while rest.len() > 0
        invariant
            0 <= i <= orig.len(),
            rest@ == orig.skip(i),
            out@.len() == i,
            forall|j: int|
                0 <= j < i ==> (#[trigger] out@[j]).action == orig[j].0 && all_ints(orig[j].1@)
                    && out@[j].items@ == spec_ints_of(orig[j].1@),
        decreases rest.len(),
    {
        proof {
            assert(orig.skip(i).len() == orig.len() - i);
            assert(orig.skip(i)[0] == orig[i]);
        }
        let (action, items) = rest.remove(0);
        proof {
            assert(rest@ =~= orig.skip(i + 1));
        }
        match vals_to_ints(&items) {
            Ok(converted) => out.push(ListEdit { action, items: converted }),
            Err(e) => {
                return Err(e);
            },
        }
        proof {
            i = i + 1;
        }
    }
    Ok(out)
}

/// Converts untyped list edits into string edits, keeping each action.
#[verifier::loop_isolation(false)]
fn convert_string_edits(raw: Vec<(ListEditAction, Vec<Val>)>) -> (r: Result<
    Vec<ListEdit<String>>,
    String,
>)
    ensures
        r matches Ok(out) ==> out@.len() == raw@.len() && (forall|j: int|
            0 <= j < raw@.len() ==> (#[trigger] out@[j]).action == raw@[j].0 && all_strs(raw@[j].1@)
                && out@[j].items@.len() == raw@[j].1@.len() && (forall|k: int|
                0 <= k < raw@[j].1@.len() ==> (#[trigger] out@[j].items@[k])@ == raw@[j].1@[k]
                    ->Str_0@)),
        (forall|j: int| 0 <= j < raw@.len() ==> all_strs((#[trigger] raw@[j]).1@)) ==> r is Ok,
{
    let ghost orig = raw@;
    let mut rest = raw;
    let mut out: Vec<ListEdit<String>> = Vec::new();
    let ghost mut i: int = 0;
    proof {
        assert(rest@ =~= orig.skip(0));
    }
    while rest.len() > 0
        invariant
            0 <= i <= orig.len(),
            rest@ == orig.skip(i),
            out@.len() == i,
            forall|j: int|
                0 <= j < i ==> (#[trigger] out@[j]).action == orig[j].0 && all_strs(orig[j].1@)
                    && out@[j].items@.len() == orig[j].1@.len() && (forall|k: int|
                    0 <= k < orig[j].1@.len() ==> (#[trigger] out@[j].items@[k])@ == orig[j].1@[k]
                        ->Str_0@),
        decreases rest.len(),
    {
        proof {
            assert(orig.skip(i).len() == orig.len() - i);
            assert(orig.skip(i)[0] == orig[i]);
        }
        let (action, items) = rest.remove(0);
        proof {
            assert(rest@ =~= orig.skip(i + 1));
        }
        match vals_to_strings(&items) {
            Ok(converted) => out.push(ListEdit { action, items: converted }),
            Err(e) => {
                return Err(e);
            },
        }
        proof {
            i = i + 1;
        }
    }
    Ok(out)
}

/// The entry the named section itself holds for the key, not looking at
/// the fallback section.
pub open spec fn spec_own(c: &Config, section: Seq<char>, key: Seq<char>) -> Option<Val> {
    match crate::config::find_section(c.sections@, section) {
        Some(es) => crate::config::find_entry(es@, key),
        None => None,
    }
}

/// Whether the string names a file indirection.
fn starts_with_at(s: &String) -> (r: bool)
    ensures
        r == is_fromfile(s@),
{
    let len = s.as_str().unicode_len();
    len > 0 && s.as_str().get_char(0) == '@'
}

/// Splits a file indirection into its optional flag and its path text.
fn split_fromfile(s: &String) -> (r: (bool, String))
    requires
        is_fromfile(s@),
    ensures
        r.0 == spec_fromfile_split(s@).0,
        r.1@ == spec_fromfile_split(s@).1,
{
    let len = s.as_str().unicode_len();
    if len > 1 && s.as_str().get_char(1) == '?' {
        (true, s.as_str().substring_char(2, len).to_owned())
    } else {
        (false, s.as_str().substring_char(1, len).to_owned())
    }
}

/// Scalar shape checks on a decoded value.
fn val_as_bool(v: &Val) -> (r: Result<bool, String>)
    ensures
        v is Bool ==> r == Ok::<bool, String>(v->Bool_0),
        !(v is Bool) ==> r is Err,
{
    match v {
        Val::Bool(b) => Ok(*b),
        other => Err(mismatch_msg("bool", other)),
    }
}

fn val_as_int(v: &Val) -> (r: Result<i64, String>)
    ensures
        v is Int ==> r == Ok::<i64, String>(v->Int_0),
        !(v is Int) ==> r is Err,
{
    match v {
        Val::Int(n) => Ok(*n),
        other => Err(mismatch_msg("int", other)),
    }
}

/// The float bit pattern of a stored float, or of a stored integer widened
/// to floating point: the one conversion between shapes that is allowed,
/// exact for magnitudes up to two to the 53rd.
fn val_as_float_bits(v: &Val) -> (r: Result<u64, String>)
    ensures
        v is Float ==> r == Ok::<u64, String>(v->Float_0),
        v is Int ==> (r matches Ok(b) && (-(pow2(53) as int) <= v->Int_0 as int <= pow2(53) as int
            ==> f64_bits_to_int(b) == v->Int_0 as int)),
        !(v is Float || v is Int) ==> r is Err,
{
    match v {
        Val::Float(bits) => Ok(*bits),
        Val::Int(n) => Ok(widen_int_to_float_bits(*n)),
        other => Err(mismatch_msg("float", other)),
    }
}

fn val_as_string(v: &Val) -> (r: Result<String, String>)
    ensures
        v is Str ==> (r matches Ok(out) && out@ == v->Str_0@),
        !(v is Str) ==> r is Err,
{
    match v {
        Val::Str(t) => Ok(t.clone()),
        other => Err(mismatch_msg("string", other)),
    }
}

/// Reads typed option values out of one parsed document, expanding file
/// indirections on the way.
pub struct ConfigReader {
    pub config: Config,
    pub expander: FromfileExpander,
}

impl ConfigReader {
    /// Wraps a parsed document with the path resolver used for file
    /// indirections.
    pub fn new(config: Config, expander: FromfileExpander) -> (r: ConfigReader)
        ensures
            r.config == config,
            r.expander == expander,
    {
        ConfigReader { config, expander }
    }

    /// Renders an option for messages: `[<SCOPE>] <name>`.
    pub fn display(&self, id: &OptionId) -> (r: String)
        ensures
            r@ == spec_display(id),
    {
        display_of(id)
    }

    /// The entry the option's own section holds, fallback not consulted.
    fn own_entry<'a>(&'a self, section: &str, key: &str) -> (r: Option<&'a Val>)
        ensures
            match r {
                Some(v) => spec_own(&self.config, section@, key@) == Some(*v),
                None => spec_own(&self.config, section@, key@) is None,
            },
    {
        match crate::config::section_lookup(&self.config.sections, section) {
            Some(es) => crate::config::entry_lookup(es, key),
            None => None,
        }
    }

    /// Reads the file behind an indirection and interpolates its text; a
    /// missing optional file is an absent value.  What comes back is the
    /// interpolation of whatever the file held, under the kind its path
    /// selects; a failure carries the read message or an interpolation
    /// error.
    fn fetch_content(&self, sref: &String, id: &OptionId) -> (r: Result<
        Option<(String, FileKind)>,
        String,
    >)
        requires
            is_fromfile(sref@),
        ensures
            ({
                let resolved = spec_resolve(&self.expander, spec_fromfile_split(sref@).1);
                let tv = table_view(self.config.table@);
                &&& (r is Ok && r->Ok_0 is Some ==> (r->Ok_0->Some_0.1 == spec_file_kind(resolved)
                    && (exists|raw: Seq<char>|
                    spec_interp_from(raw, 0, tv, MAX_INTERP_DEPTH as nat) == Ok::<
                        Seq<char>,
                        Seq<char>,
                    >(r->Ok_0->Some_0.0@))))
                &&& (r is Err ==> (exists|reason: Seq<char>|
                    r->Err_0@ == spec_problem_msg(resolved, spec_display(id), reason)) || (exists|
                raw: Seq<char>|
                    spec_interp_from(raw, 0, tv, MAX_INTERP_DEPTH as nat) == Err::<
                        Seq<char>,
                        Seq<char>,
                    >(r->Err_0@)))
                &&& (r is Ok && r->Ok_0 is None ==> spec_fromfile_split(sref@).0)
            }),
    {
        let (optional, rawpath) = split_fromfile(sref);
        let path = self.expander.resolve(&rawpath);
        let ghost rp = spec_resolve(&self.expander, spec_fromfile_split(sref@).1);
        let ghost tv = table_view(self.config.table@);
        let outcome = read_text_file(path.as_str());
        let ghost oc = outcome;
        match read_outcome_to_result(outcome, optional, &path, id) {
            Err(e) => {
                proof {
                    assert(exists|reason: Seq<char>|
                        e@ == spec_problem_msg(rp, spec_display(id), reason)) by {
                        if oc is Missing {
                            assert(e@ == spec_problem_msg(rp, spec_display(id), oc->Missing_0@));
                        } else {
                            assert(e@ == spec_problem_msg(rp, spec_display(id), oc->Failed_0@));
                        }
                    }
                }
                Err(e)
            },
            Ok(None) => Ok(None),
            Ok(Some(content)) => {
                let ghost raw = content@;
                match interpolate_string(content, &self.config.table) {
                    Err(e) => {
                        proof {
                            assert(spec_interp_from(raw, 0, tv, MAX_INTERP_DEPTH as nat) == Err::<
                                Seq<char>,
                                Seq<char>,
                            >(e@));
                        }
                        Err(e)
                    },
                    Ok(resolved) => {
                        let kind = file_kind(path.as_str());
                        proof {
                            assert(spec_interp_from(raw, 0, tv, MAX_INTERP_DEPTH as nat) == Ok::<
                                Seq<char>,
                                Seq<char>,
                            >(resolved@));
                            assert(kind == spec_file_kind(rp));
                        }
                        Ok(Some((resolved, kind)))
                    },
                }
            },
        }
    }

    /// Decodes fetched scalar content into a value by the file kind.
    fn fromfile_scalar_val(&self, sref: &String, id: &OptionId) -> (r: Result<Option<Val>, String>)
        requires
            is_fromfile(sref@),
    {
        match self.fetch_content(sref, id) {
            Err(e) => Err(e),
            Ok(None) => Ok(None),
            Ok(Some((content, kind))) => match kind {
                FileKind::Json => match json_decode_val(content.as_str()) {
                    Err(e) => Err(e),
                    Ok(v) => Ok(Some(v)),
                },
                FileKind::Yaml => match yaml_decode_val(content.as_str()) {
                    Err(e) => Err(e),
                    Ok(v) => Ok(Some(v)),
                },
                FileKind::Text => match parse_scalar_text(content.as_str()) {
                    Err(e) => Err(e),
                    Ok(v) => Ok(Some(v)),
                },
            },
        }
    }

    /// The boolean stored for the option: its own section's entry, else the
    /// fallback's; an absent key is no error, any other stored shape is.
    pub fn get_bool(&self, id: &OptionId) -> (r: Result<Option<bool>, String>)
        ensures
            ({
                let m = spec_get(
                    &self.config,
                    spec_scope_name(id.scope.deep_view()),
                    spec_name_key(id.name.deep_view()),
                );
                &&& m is None ==> r == Ok::<Option<bool>, String>(None)
                &&& m is Some && (m->Some_0) is Bool ==> r == Ok::<Option<bool>, String>(
                    Some(m->Some_0->Bool_0),
                )
                &&& m is Some && ((m->Some_0) is Int || (m->Some_0) is Float || (m->Some_0) is List
                    || (m->Some_0) is Dict) ==> (r is Err && r->Err_0@ == spec_mismatch_msg(
                    "bool"@,
                    m->Some_0,
                ))
                &&& m is Some && (m->Some_0) is Str && !is_fromfile(m->Some_0->Str_0@) ==> (r
                    is Err && r->Err_0@ == spec_mismatch_msg("bool"@, m->Some_0))
            }),
    {
        let section = id.scope_name();
        let key = id.name_key();
        match self.config.get(section.as_str(), key.as_str()) {
            None => Ok(None),
            Some(v) => match v {
                Val::Bool(b) => Ok(Some(*b)),
                Val::Str(t) => {
                    if starts_with_at(t) {
                        let sref = t.clone();
                        match self.fromfile_scalar_val(&sref, id) {
                            Err(e) => Err(e),
                            Ok(None) => Ok(None),
                            Ok(Some(fv)) => match val_as_bool(&fv) {
                                Ok(b) => Ok(Some(b)),
                                Err(e) => Err(e),
                            },
                        }
                    } else {
                        Err(mismatch_msg("bool", v))
                    }
                },
                other => Err(mismatch_msg("bool", other)),
            },
        }
    }

    /// The integer stored for the option, under the same layering.
    pub fn get_int(&self, id: &OptionId) -> (r: Result<Option<i64>, String>)
        ensures
            ({
                let m = spec_get(
                    &self.config,
                    spec_scope_name(id.scope.deep_view()),
                    spec_name_key(id.name.deep_view()),
                );
                &&& m is None ==> r == Ok::<Option<i64>, String>(None)
                &&& m is Some && (m->Some_0) is Int ==> r == Ok::<Option<i64>, String>(
                    Some(m->Some_0->Int_0),
                )
                &&& m is Some && ((m->Some_0) is Bool || (m->Some_0) is Float || (m->Some_0) is List
                    || (m->Some_0) is Dict) ==> (r is Err && r->Err_0@ == spec_mismatch_msg(
                    "int"@,
                    m->Some_0,
                ))
                &&& m is Some && (m->Some_0) is Str && !is_fromfile(m->Some_0->Str_0@) ==> (r
                    is Err && r->Err_0@ == spec_mismatch_msg("int"@, m->Some_0))
            }),
    {
        let section = id.scope_name();
        let key = id.name_key();
        match self.config.get(section.as_str(), key.as_str()) {
            None => Ok(None),
            Some(v) => match v {
                Val::Int(n) => Ok(Some(*n)),
                Val::Str(t) => {
                    if starts_with_at(t) {
                        let sref = t.clone();
                        match self.fromfile_scalar_val(&sref, id) {
                            Err(e) => Err(e),
                            Ok(None) => Ok(None),
                            Ok(Some(fv)) => match val_as_int(&fv) {
                                Ok(n) => Ok(Some(n)),
                                Err(e) => Err(e),
                            },
                        }
                    } else {
                        Err(mismatch_msg("int", v))
                    }
                },
                other => Err(mismatch_msg("int", other)),
            },
        }
    }

    /// The float stored for the option, as its IEEE-754 bit pattern.  A
    /// stored integer widens losslessly for magnitudes within two to the
    /// 53rd; no other cross-shape conversion exists.
    pub fn get_float(&self, id: &OptionId) -> (r: Result<Option<u64>, String>)
        ensures
            ({
                let m = spec_get(
                    &self.config,
                    spec_scope_name(id.scope.deep_view()),
                    spec_name_key(id.name.deep_view()),
                );
                &&& m is None ==> r == Ok::<Option<u64>, String>(None)
                &&& m is Some && (m->Some_0) is Float ==> r == Ok::<Option<u64>, String>(
                    Some(m->Some_0->Float_0),
                )
                &&& m is Some && (m->Some_0) is Int ==> (r matches Ok(o) && o matches Some(b) && (-(
                pow2(53) as int) <= m->Some_0->Int_0 as int <= pow2(53) as int ==> f64_bits_to_int(b)
                    == m->Some_0->Int_0 as int))
                &&& m is Some && ((m->Some_0) is Bool || (m->Some_0) is List || (m->Some_0)
                    is Dict) ==> (r is Err && r->Err_0@ == spec_mismatch_msg("float"@, m->Some_0))
                &&& m is Some && (m->Some_0) is Str && !is_fromfile(m->Some_0->Str_0@) ==> (r
                    is Err && r->Err_0@ == spec_mismatch_msg("float"@, m->Some_0))
            }),
    {
        let section = id.scope_name();
        let key = id.name_key();
        match self.config.get(section.as_str(), key.as_str()) {
            None => Ok(None),
            Some(v) => match v {
                Val::Float(bits) => Ok(Some(*bits)),
                Val::Int(n) => Ok(Some(widen_int_to_float_bits(*n))),
                Val::Str(t) => {
                    if starts_with_at(t) {
                        let sref = t.clone();
                        match self.fromfile_scalar_val(&sref, id) {
                            Err(e) => Err(e),
                            Ok(None) => Ok(None),
                            Ok(Some(fv)) => match val_as_float_bits(&fv) {
                                Ok(b) => Ok(Some(b)),
                                Err(e) => Err(e),
                            },
                        }
                    } else {
                        Err(mismatch_msg("float", v))
                    }
                },
                other => Err(mismatch_msg("float", other)),
            },
        }
    }

    /// The string stored for the option, under the same layering; raw text
    /// behind a file indirection is handed back as it stands.
    pub fn get_string(&self, id: &OptionId) -> (r: Result<Option<String>, String>)
        ensures
            ({
                let m = spec_get(
                    &self.config,
                    spec_scope_name(id.scope.deep_view()),
                    spec_name_key(id.name.deep_view()),
                );
                &&& m is None ==> r == Ok::<Option<String>, String>(None)
                &&& m is Some && (m->Some_0) is Str && !is_fromfile(m->Some_0->Str_0@) ==> (
                r matches Ok(o) && o matches Some(out) && out@ == m->Some_0->Str_0@)
                &&& m is Some && !((m->Some_0) is Str) ==> (r is Err && r->Err_0@
                    == spec_mismatch_msg("string"@, m->Some_0))
            }),
    {
        let section = id.scope_name();
        let key = id.name_key();
        match self.config.get(section.as_str(), key.as_str()) {
            None => Ok(None),
            Some(v) => match v {
                Val::Str(t) => {
                    if starts_with_at(t) {
                        let sref = t.clone();
                        match self.fetch_content(&sref, id) {
                            Err(e) => Err(e),
                            Ok(None) => Ok(None),
                            Ok(Some((content, kind))) => match kind {
                                FileKind::Json => match json_decode_val(content.as_str()) {
                                    Err(e) => Err(e),
                                    Ok(fv) => match val_as_string(&fv) {
                                        Ok(out) => Ok(Some(out)),
                                        Err(e) => Err(e),
                                    },
                                },
                                FileKind::Yaml => match yaml_decode_val(content.as_str()) {
                                    Err(e) => Err(e),
                                    Ok(fv) => match val_as_string(&fv) {
                                        Ok(out) => Ok(Some(out)),
                                        Err(e) => Err(e),
                                    },
                                },
                                FileKind::Text => Ok(Some(content)),
                            },
                        }
                    } else {
                        Ok(Some(t.clone()))
                    }
                },
                other => Err(mismatch_msg("string", other)),
            },
        }
    }
}

/// One decoded structured value as a list contribution: an array is one
/// replace edit carrying exactly its items; anything else is refused,
/// naming both shapes.
fn list_edits_of_decoded(decoded: Val) -> (r: Result<Vec<(ListEditAction, Vec<Val>)>, String>)
    ensures
        decoded is List ==> (r matches Ok(es) && es@.len() == 1 && es@[0].0
            == ListEditAction::Replace && es@[0].1 == decoded->List_0),
        !(decoded is List) ==> (r is Err && r->Err_0@ == spec_mismatch_msg("list"@, decoded)),
{
    match decoded {
        Val::List(items) => {
            let mut out: Vec<(ListEditAction, Vec<Val>)> = Vec::new();
            out.push((ListEditAction::Replace, items));
            Ok(out)
        },
        other => Err(mismatch_msg("list", &other)),
    }
}

/// One decoded structured value as a dict contribution: a table is one
/// replace edit carrying exactly its entries; anything else is refused,
/// naming both shapes.
fn dict_edits_of_decoded(decoded: Val) -> (r: Result<Vec<DictEdit>, String>)
    ensures
        decoded is Dict ==> (r matches Ok(es) && es@.len() == 1 && es@[0].action
            == DictEditAction::Replace && es@[0].items == decoded->Dict_0),
        !(decoded is Dict) ==> (r is Err && r->Err_0@ == spec_mismatch_msg("dict"@, decoded)),
{
    match decoded {
        Val::Dict(items) => {
            let mut out: Vec<DictEdit> = Vec::new();
            out.push(DictEdit { action: DictEditAction::Replace, items });
            Ok(out)
        },
        other => Err(mismatch_msg("dict", &other)),
    }
}

impl ConfigReader {
    /// Decodes fetched list content: structured files give one replace
    /// edit; raw text follows the encoded-string rules, a lone scalar
    /// appending one item.
    fn fromfile_list_edits(&self, sref: &String, id: &OptionId) -> (r: Result<
        Option<Vec<(ListEditAction, Vec<Val>)>>,
        String,
    >)
        requires
            is_fromfile(sref@),
        ensures
            r is Ok && r->Ok_0 is Some ==> list_edits_ordered(r->Ok_0->Some_0@),
    {
        match self.fetch_content(sref, id) {
            Err(e) => Err(e),
            Ok(None) => Ok(None),
            Ok(Some((content, kind))) => {
                let decoded: Result<Val, String> = match kind {
                    FileKind::Json => json_decode_val(content.as_str()),
                    FileKind::Yaml => yaml_decode_val(content.as_str()),
                    FileKind::Text => {
                        match parse_list_string(content.as_str()) {
                            Err(e) => {
                                return Err(e);
                            },
                            Ok((action, items)) => {
                                let mut out: Vec<(ListEditAction, Vec<Val>)> = Vec::new();
                                out.push((action, items));
                                return Ok(Some(out));
                            },
                        }
                    },
                };
                match decoded {
                    Err(e) => Err(e),
                    Ok(v) => match list_edits_of_decoded(v) {
                        Ok(es) => Ok(Some(es)),
                        Err(e) => Err(e),
                    },
                }
            },
        }
    }

    /// The untyped list edits for the option: an absent key in both the
    /// own and the fallback section is no error; a file indirection is
    /// expanded first.
    fn list_edits_raw(&self, id: &OptionId) -> (r: Result<
        Option<Vec<(ListEditAction, Vec<Val>)>>,
        String,
    >)
        ensures
            ({
                let sec = spec_scope_name(id.scope.deep_view());
                let key = spec_name_key(id.name.deep_view());
                let m = spec_get(&self.config, sec, key);
                let so = spec_own(&self.config, sec, key);
                &&& m is None ==> r == Ok::<Option<Vec<(ListEditAction, Vec<Val>)>>, String>(None)
                &&& so is Some && (so->Some_0) is List ==> (r matches Ok(o) && o matches Some(es)
                    && es@.len() == 1 && es@[0].0 == ListEditAction::Replace && es@[0].1.len() == so
                    ->Some_0->List_0.len() && (forall|j: int|
                    0 <= j < so->Some_0->List_0.len() ==> val_deep_eq(
                        #[trigger] es@[0].1@[j],
                        so->Some_0->List_0@[j],
                    )))
                &&& so is Some && (so->Some_0) is Dict && is_add_remove_table(so->Some_0->Dict_0@)
                    && crate::config::find_entry(self.config.fallback@, key) is None ==> (r matches
                Ok(o) && o matches Some(es) && es@.len() == 2 && es@[0].0 == ListEditAction::Add
                    && es@[1].0 == ListEditAction::Remove && es@[0].1.len() == so
                    ->Some_0->Dict_0@[0].1->List_0.len() && es@[1].1.len() == so
                    ->Some_0->Dict_0@[1].1->List_0.len() && (forall|j: int|
                    0 <= j < es@[0].1.len() ==> val_deep_eq(
                        #[trigger] es@[0].1@[j],
                        so->Some_0->Dict_0@[0].1->List_0@[j],
                    )) && (forall|j: int|
                    0 <= j < es@[1].1.len() ==> val_deep_eq(
                        #[trigger] es@[1].1@[j],
                        so->Some_0->Dict_0@[1].1->List_0@[j],
                    )))
                &&& so is Some && (so->Some_0) is Str && !is_fromfile(so->Some_0->Str_0@)
                    && is_plus_form(so->Some_0->Str_0@) && crate::config::find_entry(
                    self.config.fallback@,
                    key,
                ) is Some && crate::config::find_entry(self.config.fallback@, key)->Some_0 is List
                    ==> (r matches Ok(o) ==> (o matches Some(es) && es@.len() == 2 && es@[0].0
                    == ListEditAction::Replace && es@[0].1.len() == crate::config::find_entry(
                    self.config.fallback@,
                    key,
                )->Some_0->List_0.len() && (forall|j: int|
                    0 <= j < crate::config::find_entry(self.config.fallback@, key)
                        ->Some_0->List_0.len() ==> val_deep_eq(
                        #[trigger] es@[0].1@[j],
                        crate::config::find_entry(self.config.fallback@, key)
                            ->Some_0->List_0@[j],
                    )) && es@[1].0 == ListEditAction::Add))
                &&& so is Some && (so->Some_0) is Str && !is_fromfile(so->Some_0->Str_0@)
                    && is_plus_form(so->Some_0->Str_0@) && spec_int_list_form(so->Some_0->Str_0@)
                    && crate::config::find_entry(self.config.fallback@, key) is Some
                    && crate::config::find_entry(self.config.fallback@, key)->Some_0 is List ==> (
                r matches Ok(o) && o matches Some(es) && es@.len() == 2 && es@[1].1@.len()
                    == spec_int_list_items(so->Some_0->Str_0@).len() && (forall|k: int|
                    0 <= k < spec_int_list_items(so->Some_0->Str_0@).len() ==> es@[1].1@[k]
                        == Val::Int(#[trigger] spec_int_list_items(so->Some_0->Str_0@)[k] as i64)))
                &&& m is Some && ((m->Some_0) is Bool || (m->Some_0) is Int || (m->Some_0)
                    is Float) ==> (r is Err && r->Err_0@ == spec_mismatch_msg("list"@, m->Some_0))
                &&& r is Ok && r->Ok_0 is Some ==> list_edits_ordered(r->Ok_0->Some_0@)
            }),
    {
        let section = id.scope_name();
        let key = id.name_key();
        let own = self.own_entry(section.as_str(), key.as_str());
        let fb = crate::config::entry_lookup(&self.config.fallback, key.as_str());
        if own.is_none() && fb.is_none() {
            return Ok(None);
        }
        // a file indirection on the effective value takes the whole result
        let base = match own {
            Some(v) => Some(v),
            None => fb,
        };
        match base {
            Some(Val::Str(t)) => {
                if starts_with_at(t) {
                    let sref = t.clone();
                    return self.fromfile_list_edits(&sref, id);
                }
            },
            _ => {
            },
        }
        assemble_list_edits(own, fb)
    }

    /// The integer-list edits stored for the option, in order: replace,
    /// then append, then remove.
    pub fn get_int_list(&self, id: &OptionId) -> (r: Result<Option<Vec<ListEdit<i64>>>, String>)
        ensures
            ({
                let sec = spec_scope_name(id.scope.deep_view());
                let key = spec_name_key(id.name.deep_view());
                let m = spec_get(&self.config, sec, key);
                let so = spec_own(&self.config, sec, key);
                &&& m is None ==> r == Ok::<Option<Vec<ListEdit<i64>>>, String>(None)
                &&& so is Some && (so->Some_0) is List && all_ints(so->Some_0->List_0@) ==> (
                r matches Ok(o) && o matches Some(es) && es@.len() == 1 && es@[0].action
                    == ListEditAction::Replace && es@[0].items@ == spec_ints_of(
                    so->Some_0->List_0@,
                ))
                &&& so is Some && (so->Some_0) is Dict && is_add_remove_table(so->Some_0->Dict_0@)
                    && crate::config::find_entry(self.config.fallback@, key) is None && all_ints(
                    so->Some_0->Dict_0@[0].1->List_0@,
                ) && all_ints(so->Some_0->Dict_0@[1].1->List_0@) ==> (r matches Ok(o) && o matches
                Some(es) && es@.len() == 2 && es@[0].action == ListEditAction::Add && es@[0].items@
                    == spec_ints_of(so->Some_0->Dict_0@[0].1->List_0@) && es@[1].action
                    == ListEditAction::Remove && es@[1].items@ == spec_ints_of(
                    so->Some_0->Dict_0@[1].1->List_0@,
                ))
                &&& so is Some && (so->Some_0) is Str && !is_fromfile(so->Some_0->Str_0@)
                    && is_plus_form(so->Some_0->Str_0@) && crate::config::find_entry(
                    self.config.fallback@,
                    key,
                ) is Some && crate::config::find_entry(self.config.fallback@, key)->Some_0 is List
                    && all_ints(
                    crate::config::find_entry(self.config.fallback@, key)->Some_0->List_0@,
                ) ==> (r matches Ok(o) ==> (o matches Some(es) && es@.len() == 2 && es@[0].action
                    == ListEditAction::Replace && es@[0].items@ == spec_ints_of(
                    crate::config::find_entry(self.config.fallback@, key)->Some_0->List_0@,
                ) && es@[1].action == ListEditAction::Add))
                &&& so is Some && (so->Some_0) is Str && !is_fromfile(so->Some_0->Str_0@)
                    && is_plus_form(so->Some_0->Str_0@) && spec_int_list_form(so->Some_0->Str_0@)
                    && crate::config::find_entry(self.config.fallback@, key) is Some
                    && crate::config::find_entry(self.config.fallback@, key)->Some_0 is List
                    && all_ints(
                    crate::config::find_entry(self.config.fallback@, key)->Some_0->List_0@,
                ) ==> (r matches Ok(o) && o matches Some(es) && es@.len() == 2 && es@[0].action
                    == ListEditAction::Replace && es@[0].items@ == spec_ints_of(
                    crate::config::find_entry(self.config.fallback@, key)->Some_0->List_0@,
                ) && es@[1].action == ListEditAction::Add && es@[1].items@.len()
                    == spec_int_list_items(so->Some_0->Str_0@).len() && (forall|k: int|
                    0 <= k < spec_int_list_items(so->Some_0->Str_0@).len() ==> es@[1].items@[k]
                        as int == #[trigger] spec_int_list_items(so->Some_0->Str_0@)[k]))
                &&& m is Some && ((m->Some_0) is Bool || (m->Some_0) is Int || (m->Some_0)
                    is Float) ==> (r is Err && r->Err_0@ == spec_mismatch_msg("list"@, m->Some_0))
                &&& r is Ok && r->Ok_0 is Some ==> typed_list_edits_ordered(r->Ok_0->Some_0@)
            }),
    {
        let ghost sec = spec_scope_name(id.scope.deep_view());
        let ghost key = spec_name_key(id.name.deep_view());
        let ghost so = spec_own(&self.config, sec, key);
        let ghost fbv = crate::config::find_entry(self.config.fallback@, key);
        match self.list_edits_raw(id) {
            Err(e) => Err(e),
            Ok(None) => Ok(None),
            Ok(Some(raw)) => {
                let ghost rawv = raw@;
                proof {
                    lemma_deep_eq_ints(rawv);
                    if so is Some && (so->Some_0) is Str && !is_fromfile(so->Some_0->Str_0@)
                        && is_plus_form(so->Some_0->Str_0@) && spec_int_list_form(
                        so->Some_0->Str_0@,
                    ) && fbv is Some && fbv->Some_0 is List && all_ints(fbv->Some_0->List_0@) {
                        assert(deep_eq_items(fbv->Some_0->List_0@, rawv[0].1@));
                        assert(all_ints(rawv[0].1@));
                        crate::parse::lemma_int_elems_in_range(
                            if is_plus_form(so->Some_0->Str_0@) {
                                crate::parse::spec_trim(
                                    crate::parse::spec_trim(so->Some_0->Str_0@).drop_first(),
                                )
                            } else {
                                crate::parse::spec_trim(so->Some_0->Str_0@)
                            },
                            1,
                        );
                        assert forall|k: int|
                            0 <= k < rawv[1].1@.len() implies (#[trigger] rawv[1].1@[k]) is Int by {
                            assert(rawv[1].1@[k] == Val::Int(
                                spec_int_list_items(so->Some_0->Str_0@)[k] as i64,
                            ));
                        }
                        assert(all_ints(rawv[1].1@));
                        assert(forall|j: int|
                            0 <= j < rawv.len() ==> all_ints((#[trigger] rawv[j]).1@));
                    }
                }
                match convert_int_edits(raw) {
                    Ok(out) => {
                        Ok(Some(out))
                    },
                    Err(e) => Err(e),
                }
            },
        }
    }

    /// The string-list edits stored for the option, in the same order.
    pub fn get_string_list(&self, id: &OptionId) -> (r: Result<
        Option<Vec<ListEdit<String>>>,
        String,
    >)
        ensures
            ({
                let sec = spec_scope_name(id.scope.deep_view());
                let key = spec_name_key(id.name.deep_view());
                let m = spec_get(&self.config, sec, key);
                let so = spec_own(&self.config, sec, key);
                &&& m is None ==> r == Ok::<Option<Vec<ListEdit<String>>>, String>(None)
                &&& so is Some && (so->Some_0) is List && all_strs(so->Some_0->List_0@) ==> (
                r matches Ok(o) && o matches Some(es) && es@.len() == 1 && es@[0].action
                    == ListEditAction::Replace && es@[0].items@.len() == so->Some_0->List_0@.len()
                    && (forall|k: int|
                    0 <= k < so->Some_0->List_0@.len() ==> (#[trigger] es@[0].items@[k])@ == so
                        ->Some_0->List_0@[k]->Str_0@))
                &&& so is Some && (so->Some_0) is Dict && is_add_remove_table(so->Some_0->Dict_0@)
                    && crate::config::find_entry(self.config.fallback@, key) is None && all_strs(
                    so->Some_0->Dict_0@[0].1->List_0@,
                ) && all_strs(so->Some_0->Dict_0@[1].1->List_0@) ==> (r matches Ok(o) && o matches
                Some(es) && es@.len() == 2 && es@[0].action == ListEditAction::Add && es@[0].items@.len()
                    == so->Some_0->Dict_0@[0].1->List_0@.len() && (forall|k: int|
                    0 <= k < so->Some_0->Dict_0@[0].1->List_0@.len() ==> (
                    #[trigger] es@[0].items@[k])@ == so->Some_0->Dict_0@[0].1->List_0@[k]->Str_0@)
                    && es@[1].action == ListEditAction::Remove && es@[1].items@.len() == so
                    ->Some_0->Dict_0@[1].1->List_0@.len() && (forall|k: int|
                    0 <= k < so->Some_0->Dict_0@[1].1->List_0@.len() ==> (
                    #[trigger] es@[1].items@[k])@ == so->Some_0->Dict_0@[1].1->List_0@[k]->Str_0@))
                &&& m is Some && ((m->Some_0) is Bool || (m->Some_0) is Int || (m->Some_0)
                    is Float) ==> (r is Err && r->Err_0@ == spec_mismatch_msg("list"@, m->Some_0))
                &&& r is Ok && r->Ok_0 is Some ==> typed_list_edits_ordered(r->Ok_0->Some_0@)
            }),
    {
        match self.list_edits_raw(id) {
            Err(e) => Err(e),
            Ok(None) => Ok(None),
            Ok(Some(raw)) => {
                let ghost rawv = raw@;
                match convert_string_edits(raw) {
                    Ok(out) => {
                        proof {
                            lemma_deep_eq_strs(rawv);
                        }
                        Ok(Some(out))
                    },
                    Err(e) => Err(e),
                }
            },
        }
    }

    /// The dict edits stored for the option: a replace stands alone, an
    /// append follows the fallback's replace.
    pub fn get_dict(&self, id: &OptionId) -> (r: Result<Option<Vec<DictEdit>>, String>)
        ensures
            ({
                let sec = spec_scope_name(id.scope.deep_view());
                let key = spec_name_key(id.name.deep_view());
                let m = spec_get(&self.config, sec, key);
                let so = spec_own(&self.config, sec, key);
                &&& m is None ==> r == Ok::<Option<Vec<DictEdit>>, String>(None)
                &&& so is Some && (so->Some_0) is Dict ==> (r matches Ok(o) && o matches Some(es)
                    && es@.len() == 1 && es@[0].action == DictEditAction::Replace
                    && es@[0].items.len() == so->Some_0->Dict_0.len() && (forall|j: int|
                    0 <= j < so->Some_0->Dict_0.len() ==> (#[trigger] es@[0].items@[j]).0@ == so
                        ->Some_0->Dict_0@[j].0@ && val_deep_eq(
                        es@[0].items@[j].1,
                        so->Some_0->Dict_0@[j].1,
                    )))
                &&& m is Some && ((m->Some_0) is Bool || (m->Some_0) is Int || (m->Some_0) is Float
                    || (m->Some_0) is List) ==> (r is Err && r->Err_0@ == spec_mismatch_msg(
                    "dict"@,
                    m->Some_0,
                ))
                &&& r is Ok && r->Ok_0 is Some ==> dict_edits_ordered(r->Ok_0->Some_0@)
                &&& so is Some && (so->Some_0) is Str && !is_fromfile(so->Some_0->Str_0@)
                    && is_plus_form(so->Some_0->Str_0@) && crate::config::find_entry(
                    self.config.fallback@,
                    key,
                ) is Some && crate::config::find_entry(self.config.fallback@, key)->Some_0 is Str
                    && !is_plus_form(
                    crate::config::find_entry(self.config.fallback@, key)->Some_0->Str_0@,
                ) ==> (r matches Ok(o) ==> (o matches Some(es) && es@.len() == 2 && es@[0].action
                    == DictEditAction::Replace && es@[1].action == DictEditAction::Add))
                &&& so is Some && (so->Some_0) is Str && !is_fromfile(so->Some_0->Str_0@)
                    && is_plus_form(so->Some_0->Str_0@) && spec_int_dict_form(so->Some_0->Str_0@)
                    && crate::config::find_entry(self.config.fallback@, key) is Some
                    && crate::config::find_entry(self.config.fallback@, key)->Some_0 is Str
                    && !is_plus_form(
                    crate::config::find_entry(self.config.fallback@, key)->Some_0->Str_0@,
                ) && spec_int_dict_form(
                    crate::config::find_entry(self.config.fallback@, key)->Some_0->Str_0@,
                ) ==> (r matches Ok(o) && o matches Some(es) && es@.len() == 2 && es@[0].action
                    == DictEditAction::Replace && es@[0].items@.len() == 1 && es@[0].items@[0].0@
                    == spec_int_dict_entry(
                    crate::config::find_entry(self.config.fallback@, key)->Some_0->Str_0@,
                ).0 && es@[0].items@[0].1 == Val::Int(
                    spec_int_dict_entry(
                        crate::config::find_entry(self.config.fallback@, key)->Some_0->Str_0@,
                    ).1 as i64,
                ) && es@[1].action == DictEditAction::Add && es@[1].items@.len() == 1
                    && es@[1].items@[0].0@ == spec_int_dict_entry(so->Some_0->Str_0@).0
                    && es@[1].items@[0].1 == Val::Int(spec_int_dict_entry(so->Some_0->Str_0@).1 as i64))
            }),
    {
        let section = id.scope_name();
        let key = id.name_key();
        let own = self.own_entry(section.as_str(), key.as_str());
        let fb = crate::config::entry_lookup(&self.config.fallback, key.as_str());
        if own.is_none() && fb.is_none() {
            return Ok(None);
        }
        let base = match own {
            Some(v) => Some(v),
            None => fb,
        };
        match base {
            Some(Val::Str(t)) => {
                if starts_with_at(t) {
                    let sref = t.clone();
                    return self.fromfile_dict_edits(&sref, id);
                }
            },
            _ => {
            },
        }
        assemble_dict_edits(own, fb)
    }

    /// Decodes fetched dict content: structured files give one replace
    /// edit; raw text follows the encoded-string rules.
    fn fromfile_dict_edits(&self, sref: &String, id: &OptionId) -> (r: Result<
        Option<Vec<DictEdit>>,
        String,
    >)
        requires
            is_fromfile(sref@),
        ensures
            r is Ok && r->Ok_0 is Some ==> dict_edits_ordered(r->Ok_0->Some_0@),
    {
        match self.fetch_content(sref, id) {
            Err(e) => Err(e),
            Ok(None) => Ok(None),
            Ok(Some((content, kind))) => {
                let decoded: Result<Val, String> = match kind {
                    FileKind::Json => json_decode_val(content.as_str()),
                    FileKind::Yaml => yaml_decode_val(content.as_str()),
                    FileKind::Text => {
                        match parse_dict_string(content.as_str()) {
                            Err(e) => {
                                return Err(e);
                            },
                            Ok((action, items)) => {
                                let mut out: Vec<DictEdit> = Vec::new();
                                out.push(DictEdit { action, items });
                                return Ok(Some(out));
                            },
                        }
                    },
                };
                match decoded {
                    Err(e) => Err(e),
                    Ok(v) => match dict_edits_of_decoded(v) {
                        Ok(es) => Ok(Some(es)),
                        Err(e) => Err(e),
                    },
                }
            },
        }
    }
}

/// Deeply equal values that are integers carry the same integers.
proof fn lemma_deep_eq_ints(raw: Seq<(ListEditAction, Vec<Val>)>)
    ensures
        forall|j: int, a: Seq<Val>|
            0 <= j < raw.len() && #[trigger] deep_eq_items(a, raw[j].1@) && all_ints(a) ==> all_ints(
                raw[j].1@,
            ) && spec_ints_of(raw[j].1@) == spec_ints_of(a),
{
    assert forall|j: int, a: Seq<Val>|
        0 <= j < raw.len() && #[trigger] deep_eq_items(a, raw[j].1@) && all_ints(a) implies all_ints(
        raw[j].1@,
    ) && spec_ints_of(raw[j].1@) == spec_ints_of(a) by {
        let b = raw[j].1@;
        assert forall|k: int| 0 <= k < b.len() implies (#[trigger] b[k]) is Int by {
            assert(val_deep_eq(b[k], a[k]));
        }
        assert(spec_ints_of(b) =~= spec_ints_of(a)) by {
            assert forall|k: int| 0 <= k < b.len() implies spec_ints_of(b)[k] == spec_ints_of(a)[k]
                by {
                assert(val_deep_eq(b[k], a[k]));
            }
        }
    }
}

/// Itemwise deep equality between two item sequences.
pub open spec fn deep_eq_items(a: Seq<Val>, b: Seq<Val>) -> bool {
    a.len() == b.len() && forall|k: int| 0 <= k < a.len() ==> val_deep_eq(#[trigger] b[k], a[k])
}

/// Deeply equal values that are strings carry the same characters.
proof fn lemma_deep_eq_strs(raw: Seq<(ListEditAction, Vec<Val>)>)
    ensures
        forall|j: int, a: Seq<Val>|
            0 <= j < raw.len() && #[trigger] deep_eq_items(a, raw[j].1@) && all_strs(a) ==> all_strs(
                raw[j].1@,
            ) && spec_strs_of(raw[j].1@) == spec_strs_of(a),
{
    assert forall|j: int, a: Seq<Val>|
        0 <= j < raw.len() && #[trigger] deep_eq_items(a, raw[j].1@) && all_strs(a) implies all_strs(
        raw[j].1@,
    ) && spec_strs_of(raw[j].1@) == spec_strs_of(a) by {
        let b = raw[j].1@;
        assert forall|k: int| 0 <= k < b.len() implies (#[trigger] b[k]) is Str by {
            assert(val_deep_eq(b[k], a[k]));
        }
        assert(spec_strs_of(b) =~= spec_strs_of(a)) by {
            assert forall|k: int| 0 <= k < b.len() implies spec_strs_of(b)[k] == spec_strs_of(a)[k]
                by {
                assert(val_deep_eq(b[k], a[k]));
            }
        }
    }
}

/// The declared key set for a section name, the first schema entry with
/// that name winning.
pub open spec fn find_schema(schema: Seq<(String, Vec<String>)>, name: Seq<char>) -> Option<
    Vec<String>,
>
    decreases schema.len(),
{
    if schema.len() == 0 {
        None
    } else if schema[0].0@ == name {
        Some(schema[0].1)
    } else {
        find_schema(schema.drop_first(), name)
    }
}

/// Whether the declared key set holds the key.
pub open spec fn keys_contain(keys: Seq<String>, k: Seq<char>) -> bool {
    exists|i: int| 0 <= i < keys.len() && (#[trigger] keys[i])@ == k
}

/// The base name of a stored key: a trailing `.add` or `.remove` written
/// literally is stripped before the schema check.
pub open spec fn spec_base_name(k: Seq<char>) -> Seq<char> {
    if spec_ends_with(k, ".add"@) {
        k.take(k.len() - 4)
    } else if spec_ends_with(k, ".remove"@) {
        k.take(k.len() - 7)
    } else {
        k
    }
}

/// The message for a section the schema does not declare.
pub open spec fn invalid_table_msg(name: Seq<char>) -> Seq<char> {
    "Invalid table name ["@ + name + "]"@
}

/// The message for a key its declared section does not hold.
pub open spec fn invalid_option_msg(key: Seq<char>, section: Seq<char>) -> Seq<char> {
    "Invalid option '"@ + key + "' under ["@ + section + "]"@
}

/// The violation messages of one declared section, in key order.
pub open spec fn section_msgs(entries: Seq<(String, Val)>, keys: Seq<String>, section: Seq<char>) -> Seq<
    Seq<char>,
>
    decreases entries.len(),
{
    if entries.len() == 0 {
        Seq::empty()
    } else {
        section_msgs(entries.drop_last(), keys, section) + (if keys_contain(
            keys,
            spec_base_name(entries.last().0@),
        ) {
            Seq::<Seq<char>>::empty()
        } else {
            seq![invalid_option_msg(spec_base_name(entries.last().0@), section)]
        })
    }
}

/// The violation messages of the whole document, in section-then-key
/// order: an undeclared section gives one message and its keys are not
/// scanned; keys of declared sections are checked against the declared
/// set; the fallback section is never scanned.
pub open spec fn spec_validate(
    sections: Seq<(String, Vec<(String, Val)>)>,
    schema: Seq<(String, Vec<String>)>,
) -> Seq<Seq<char>>
    decreases sections.len(),
{
    if sections.len() == 0 {
        Seq::empty()
    } else {
        spec_validate(sections.drop_last(), schema) + (match find_schema(
            schema,
            sections.last().0@,
        ) {
            None => seq![invalid_table_msg(sections.last().0@)],
            Some(keys) => section_msgs(sections.last().1@, keys@, sections.last().0@),
        })
    }
}

/// Every section is declared and every key of every section is declared.
pub open spec fn schema_ok(
    sections: Seq<(String, Vec<(String, Val)>)>,
    schema: Seq<(String, Vec<String>)>,
) -> bool {
    forall|i: int|
        0 <= i < sections.len() ==> (#[trigger] find_schema(schema, sections[i].0@)) is Some && (
        forall|j: int|
            0 <= j < sections[i].1@.len() ==> keys_contain(
                find_schema(schema, sections[i].0@)->Some_0@,
                spec_base_name((#[trigger] sections[i].1@[j]).0@),
            ))
}

proof fn lemma_section_msgs_empty_iff(entries: Seq<(String, Val)>, keys: Seq<String>, section: Seq<char>)
    ensures
        (section_msgs(entries, keys, section).len() == 0) <==> (forall|j: int|
            0 <= j < entries.len() ==> keys_contain(
                keys,
                spec_base_name((#[trigger] entries[j]).0@),
            )),
    decreases entries.len(),
{
    if entries.len() > 0 {
        lemma_section_msgs_empty_iff(entries.drop_last(), keys, section);
        assert(forall|j: int|
            0 <= j < entries.len() - 1 ==> entries.drop_last()[j] == entries[j]);
        assert(entries.last() == entries[entries.len() - 1]);
    }
}

/// The scan reports nothing exactly when every section and key is
/// declared.
pub proof fn lemma_validate_empty_iff(
    sections: Seq<(String, Vec<(String, Val)>)>,
    schema: Seq<(String, Vec<String>)>,
)
    ensures
        (spec_validate(sections, schema).len() == 0) <==> schema_ok(sections, schema),
    decreases sections.len(),
{
    if sections.len() == 0 {
        assert(schema_ok(sections, schema));
    } else {
        let front = sections.drop_last();
        let last = sections.last();
        lemma_validate_empty_iff(front, schema);
        assert(forall|i: int| 0 <= i < front.len() ==> front[i] == sections[i]);
        match find_schema(schema, last.0@) {
            None => {
                assert(spec_validate(sections, schema).len() > 0);
                assert(!schema_ok(sections, schema)) by {
                    assert(find_schema(schema, sections[sections.len() - 1].0@) is None);
                }
            },
            Some(keys) => {
                lemma_section_msgs_empty_iff(last.1@, keys@, last.0@);
                if spec_validate(sections, schema).len() == 0 {
                    assert(spec_validate(front, schema).len() == 0);
                    assert(section_msgs(last.1@, keys@, last.0@).len() == 0);
                    assert(schema_ok(sections, schema)) by {
                        assert(forall|i: int|
                            0 <= i < front.len() ==> #[trigger] sections[i] == front[i]);
                    }
                } else {
                    if spec_validate(front, schema).len() > 0 {
                        assert(!schema_ok(front, schema));
                        let i = choose|i: int|
                            0 <= i < front.len() && !((#[trigger] find_schema(
                                schema,
                                front[i].0@,
                            )) is Some && (forall|j: int|
                                0 <= j < front[i].1@.len() ==> keys_contain(
                                    find_schema(schema, front[i].0@)->Some_0@,
                                    spec_base_name((#[trigger] front[i].1@[j]).0@),
                                )));
                        assert(sections[i] == front[i]);
                        assert(!schema_ok(sections, schema));
                    } else {
                        assert(section_msgs(last.1@, keys@, last.0@).len() > 0);
                        assert(!(forall|j: int|
                            0 <= j < last.1@.len() ==> keys_contain(
                                keys@,
                                spec_base_name((#[trigger] last.1@[j]).0@),
                            )));
                        assert(sections[sections.len() - 1] == last);
                        assert(!schema_ok(sections, schema));
                    }
                }
            },
        }
    }
}

/// The views of a message list.
pub open spec fn msgs_view(ss: Seq<String>) -> Seq<Seq<char>> {
    Seq::new(ss.len(), |i: int| ss[i]@)
}

/// Finds a schema entry by section name.
#[verifier::loop_isolation(false)]
fn schema_lookup<'a>(schema: &'a Vec<(String, Vec<String>)>, name: &str) -> (r: Option<
    &'a Vec<String>,
>)
    ensures
        match r {
            Some(ks) => find_schema(schema@, name@) == Some(*ks),
            None => find_schema(schema@, name@) is None,
        },
{
    let mut i: usize = 0;
    proof {
        assert(schema@.skip(0) =~= schema@);
    }
    while i < schema.len()
        invariant
            i <= schema.len(),
            find_schema(schema@, name@) == find_schema(schema@.skip(i as int), name@),
        decreases schema.len() - i,
    {
        proof {
            assert(schema@.skip(i as int)[0] == schema@[i as int]);
            assert(schema@.skip(i as int).drop_first() =~= schema@.skip(i + 1));
        }
        if str_eq(schema[i].0.as_str(), name) {
            return Some(&schema[i].1);
        }
        i = i + 1;
    }
    None
}

/// Whether the declared key set holds the key.
#[verifier::loop_isolation(false)]
fn keys_contain_exec(keys: &Vec<String>, k: &str) -> (r: bool)
    ensures
        r == keys_contain(keys@, k@),
{
    let mut i: usize = 0;
    while i < keys.len()
        invariant
            i <= keys.len(),
            forall|j: int| 0 <= j < i ==> (#[trigger] keys@[j])@ != k@,
        decreases keys.len() - i,
    {
        if str_eq(keys[i].as_str(), k) {
            return true;
        }
        i = i + 1;
    }
    false
}

/// Strips a literal trailing `.add` or `.remove` from a stored key.
fn str_base_name(k: &String) -> (r: String)
    ensures
        r@ == spec_base_name(k@),
{
    let len = k.as_str().unicode_len();
    if str_ends_with(k.as_str(), ".add") {
        proof {
            reveal_strlit(".add");
        }
        k.as_str().substring_char(0, len - 4).to_owned()
    } else if str_ends_with(k.as_str(), ".remove") {
        proof {
            reveal_strlit(".add");
            reveal_strlit(".remove");
        }
        k.as_str().substring_char(0, len - 7).to_owned()
    } else {
        k.clone()
    }
}

fn invalid_table_msg_exec(name: &String) -> (r: String)
    ensures
        r@ == invalid_table_msg(name@),
{
    String::from_str("Invalid table name [").concat(name.as_str()).concat("]")
}

fn invalid_option_msg_exec(key: &String, section: &String) -> (r: String)
    ensures
        r@ == invalid_option_msg(key@, section@),
{
    String::from_str("Invalid option '").concat(key.as_str()).concat("' under [").concat(
        section.as_str(),
    ).concat("]")
}

impl ConfigReader {
    /// Scans the document against the declared schema and reports every
    /// undeclared section and every undeclared key of a declared section,
    /// in file order; the fallback section is always valid.  The scan
    /// never fails, and reports nothing exactly when everything is
    /// declared.
    #[verifier::loop_isolation(false)]
    pub fn validate(&self, schema: &Vec<(String, Vec<String>)>) -> (r: Vec<String>)
        ensures
            msgs_view(r@) == spec_validate(self.config.sections@, schema@),
            (r@.len() == 0) <==> schema_ok(self.config.sections@, schema@),
    {
        let sections = &self.config.sections;
        let mut out: Vec<String> = Vec::new();
        let mut i: usize = 0;
        proof {
            assert(msgs_view(out@) =~= spec_validate(sections@.take(0), schema@));
        }
        while i < sections.len()
            invariant
                i <= sections.len(),
                msgs_view(out@) == spec_validate(sections@.take(i as int), schema@),
            decreases sections.len() - i,
        {
            let name = &sections[i].0;
            proof {
                assert(sections@.take(i + 1).drop_last() =~= sections@.take(i as int));
                assert(sections@.take(i + 1).last() == sections@[i as int]);
            }
            match schema_lookup(schema, name.as_str()) {
                None => {
                    let msg = invalid_table_msg_exec(name);
                    out.push(msg);
                    proof {
                        assert(msgs_view(out@) =~= spec_validate(
                            sections@.take(i + 1),
                            schema@,
                        ));
                    }
                },
                Some(keys) => {
                    let entries = &sections[i].1;
                    let mut j: usize = 0;
                    proof {
                        assert(section_msgs(entries@.take(0), keys@, name@) =~= Seq::<
                            Seq<char>,
                        >::empty());
                    }
                    while j < entries.len()
                        invariant
                            j <= entries.len(),
                            msgs_view(out@) == spec_validate(sections@.take(i as int), schema@)
                                + section_msgs(entries@.take(j as int), keys@, name@),
                        decreases entries.len() - j,
                    {
                        proof {
                            assert(entries@.take(j + 1).drop_last() =~= entries@.take(j as int));
                            assert(entries@.take(j + 1).last() == entries@[j as int]);
                        }
                        let ghost out_before = out@;
                        let base = str_base_name(&entries[j].0);
                        if !keys_contain_exec(keys, base.as_str()) {
                            let msg = invalid_option_msg_exec(&base, name);
                            out.push(msg);
                        }
                        proof {
                            let tail = if keys_contain(
                                keys@,
                                spec_base_name(entries@[j as int].0@),
                            ) {
                                Seq::<Seq<char>>::empty()
                            } else {
                                seq![invalid_option_msg(
                                    spec_base_name(entries@[j as int].0@),
                                    name@,
                                )]
                            };
                            assert(msgs_view(out@) =~= msgs_view(out_before) + tail);
                            assert(section_msgs(entries@.take(j + 1), keys@, name@)
                                == section_msgs(entries@.take(j as int), keys@, name@) + tail);
                            assert(msgs_view(out@) =~= spec_validate(
                                sections@.take(i as int),
                                schema@,
                            ) + section_msgs(entries@.take(j + 1), keys@, name@));
                        }
                        j = j + 1;
                    }
                    proof {
                        assert(entries@.take(entries.len() as int) =~= entries@);
                        assert(msgs_view(out@) =~= spec_validate(
                            sections@.take(i + 1),
                            schema@,
                        ));
                    }
                },
            }
            i = i + 1;
        }
        proof {
            assert(sections@.take(sections.len() as int) =~= sections@);
            lemma_validate_empty_iff(sections@, schema@);
        }
        out
    }
}

} // verus!
