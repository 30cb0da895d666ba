use vstd::prelude::*;

mod config;
mod floatbits;
mod id;
mod interp;
mod outside;
mod parse;
mod reader;
mod val;

pub use config::{spec_get, spec_load_ok, spec_load_possible, Config, ConfigSource};
pub use floatbits::{f64_bits_to_int, widen_int_to_float_bits};
pub use id::OptionId;
pub use interp::interpolate_string;
pub use reader::{ConfigReader, FromfileExpander};
pub use val::{DictEdit, DictEditAction, ListEdit, ListEditAction, Val};

verus! {

/// The two seed variables the convenience constructors resolve against.
pub open spec fn fixed_seed_views() -> Seq<(Seq<char>, Seq<char>)> {
    seq![("seed1"@, "seed1val"@), ("seed2"@, "seed2val"@)]
}

/// Builds a reader from document text under two fixed seed variables,
/// reporting a malformed document or a failed interpolation as an error:
/// it succeeds exactly when the load does, and the reader then wraps the
/// loaded document with paths resolved against the working directory.
pub fn maybe_config(file_content: &str) -> (r: Result<ConfigReader, String>)
    ensures
        (r is Ok) == crate::config::spec_load_possible(file_content@, fixed_seed_views()),
        r matches Ok(reader) ==> reader.expander.base is None && crate::config::spec_load_ok(
            &reader.config,
            "pants.toml"@,
            file_content@,
            fixed_seed_views(),
        ),
        ({
            let doc_opt = crate::outside::toml_doc_of(file_content@);
            let doc = doc_opt->Some_0@;
            let fb = crate::config::spec_fallback(doc);
            let others = crate::config::spec_others(doc);
            let base = fixed_seed_views() + crate::config::spec_string_pairs_v(fb);
            &&& (r is Err && doc_opt is Some && crate::config::spec_section_fails(fb, base)
                && crate::config::first_fail_entry(fb, base).1 is Str ==> r->Err_0@
                == crate::config::spec_section_err_msg(fb, base, "pants.toml"@, "DEFAULT"@))
            &&& (r is Err && doc_opt is Some && !crate::config::spec_section_fails(fb, base) && (
            exists|j: int|
                0 <= j < others.len() && crate::config::spec_section_fails(
                    (#[trigger] others[j]).1@,
                    base + crate::config::spec_string_pairs_v(others[j].1@),
                )) && crate::config::first_fail_entry(
                crate::config::first_fail_other(others, base).1@,
                base + crate::config::spec_string_pairs_v(
                    crate::config::first_fail_other(others, base).1@,
                ),
            ).1 is Str ==> r->Err_0@ == crate::config::spec_section_err_msg(
                crate::config::first_fail_other(others, base).1@,
                base + crate::config::spec_string_pairs_v(
                    crate::config::first_fail_other(others, base).1@,
                ),
                "pants.toml"@,
                crate::config::first_fail_other(others, base).0@,
            ))
        }),
{
    let mut seeds: Vec<(String, String)> = Vec::new();
    seeds.push((String::from_str("seed1"), String::from_str("seed1val")));
    seeds.push((String::from_str("seed2"), String::from_str("seed2val")));
    proof {
        assert(crate::interp::table_view(seeds@) =~= fixed_seed_views());
    }
    let source = ConfigSource::new(
        String::from_str("pants.toml"),
        String::from_str(file_content),
    );
    match Config::parse(&source, &seeds) {
        Ok(config) => Ok(ConfigReader::new(config, FromfileExpander::relative_to_cwd())),
        Err(e) => Err(e),
    }
}

/// Builds a reader from document text that is expected to be well formed:
/// where the load succeeds the reader wraps the loaded document, and a
/// document that fails to load yields a reader over an empty one.  Use
/// `maybe_config` to observe the failure itself.
pub fn config(file_content: &str) -> (r: ConfigReader)
    ensures
        crate::config::spec_load_possible(file_content@, fixed_seed_views()) ==> (r.expander.base
            is None && crate::config::spec_load_ok(
            &r.config,
            "pants.toml"@,
            file_content@,
            fixed_seed_views(),
        )),
        !crate::config::spec_load_possible(file_content@, fixed_seed_views()) ==> (
        r.config.fallback@.len() == 0 && r.config.sections@.len() == 0),
{
    match maybe_config(file_content) {
        Ok(reader) => reader,
        Err(_) => {
            let empty = Config {
                path: String::from_str("pants.toml"),
                fallback: Vec::new(),
                sections: Vec::new(),
                table: Vec::new(),
            };
            ConfigReader::new(empty, FromfileExpander::relative_to_cwd())
        },
    }
}

} // verus!
