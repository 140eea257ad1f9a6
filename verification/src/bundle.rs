//! The modules that ship with the program: which are built, and which are stale.
use crate::api::auth;
use crate::json::{self, Json, JsonV};
use crate::text;
use vstd::prelude::*;

verus! {

broadcast use crate::text::views_push;

// ---- digests ----

pub open spec fn fnv_step(h: u64, b: u8) -> u64 {
    (h ^ (b as u64)).wrapping_mul(0x100000001b3)
}

/// The 64-bit FNV-1a digest.
pub open spec fn fnv(bytes: Seq<u8>) -> u64
    decreases bytes.len(),
{
    if bytes.len() == 0 {
        0xcbf29ce484222325
    } else {
        fnv_step(fnv(bytes.drop_last()), bytes.last())
    }
}

/// The digest of some bytes as sixteen digits.
pub fn fnv1a(bytes: &[u8]) -> (r: String)
    ensures
        r@ == auth::hex16(fnv(bytes@) as nat),
{
    let mut h: u64 = 0xcbf29ce484222325;
    let mut i: usize = 0;
    while i < bytes.len()
        invariant
            i <= bytes@.len(),
            h == fnv(bytes@.take(i as int)),
        decreases bytes@.len() - i,
    {
        assert(bytes@.take(i as int + 1).drop_last() =~= bytes@.take(i as int));
        h = (h ^ (bytes[i] as u64)).wrapping_mul(0x100000001b3);
        i = i + 1;
    }
    assert(bytes@.take(i as int) =~= bytes@);
    auth::hex16_text(h as u128)
}

// ---- what the build reports ----

/// A module that a build made, with the file it is in.
#[derive(Debug, PartialEq)]
pub struct Artifact {
    pub name: String,
    pub file: String,
}

pub open spec fn mentions(id: Seq<char>, packages: Seq<Seq<char>>) -> bool {
    exists|i: int| 0 <= i < packages.len() && text::occurs_in(id, #[trigger] packages[i])
}

/// A file that holds a finished module.
pub open spec fn is_module_file(f: Seq<char>) -> bool {
    text::ends_with(f, ".wasm"@) && !text::occurs_in(f, "/deps/"@)
}

/// The first finished module among some files.
pub open spec fn module_file(files: Seq<JsonV>) -> Option<Seq<char>>
    decreases files.len(),
{
    if files.len() == 0 {
        None
    } else {
        match files[0] {
            JsonV::Str(f) => if is_module_file(f) {
                Some(f)
            } else {
                module_file(files.skip(1))
            },
            _ => module_file(files.skip(1)),
        }
    }
}

/// The module that a message of the build reports for one of the packages.
pub open spec fn reported(m: JsonV, packages: Seq<Seq<char>>) -> Option<(Seq<char>, Seq<char>)> {
    if json::str_of(json::field(m, "reason"@)) != Some("compiler-artifact"@) {
        None
    } else {
        match json::str_of(json::field(m, "package_id"@)) {
            Some(id) => if mentions(id, packages) {
                match (
                    json::str_of(json::field_of(json::field(m, "target"@), "name"@)),
                    json::items_of(json::field(m, "filenames"@)),
                ) {
                    (Some(name), Some(files)) => match module_file(files) {
                        Some(f) => Some((name, f)),
                        None => None,
                    },
                    _ => None,
                }
            } else {
                None
            },
            None => None,
        }
    }
}

fn mentions_any(id: &str, packages: &[String]) -> (r: bool)
    ensures
        r == mentions(id@, text::texts(packages@)),
{
    let ghost all = text::texts(packages@);
    let mut i: usize = 0;
    while i < packages.len()
        invariant
            i <= packages@.len(),
            all == text::texts(packages@),
            forall|k: int| 0 <= k < i ==> !text::occurs_in(id@, #[trigger] all[k]),
        decreases packages@.len() - i,
    {
        assert(all[i as int] == packages@[i as int]@);
        if text::has(id, packages[i].as_str()) {
            assert(text::occurs_in(id@, all[i as int]));
            return true;
        }
        i = i + 1;
    }
    false
}

fn find_module(files: &Vec<Json>) -> (r: Option<String>)
    ensures
        text::opt_text(r) == module_file(json::items_view(files@)),
{
    let ghost all = json::items_view(files@);
    proof {
        json::lemma_items(files@);
    }
    let mut i: usize = 0;
    assert(all.skip(0) =~= all);
    while i < files.len()
        invariant
            i <= files@.len(),
            all == json::items_view(files@),
            all.len() == files@.len(),
            forall|k: int| 0 <= k < all.len() ==> #[trigger] all[k] == json::json_view(files@[k]),
            module_file(all) == module_file(all.skip(i as int)),
        decreases files@.len() - i,
    {
        assert(all.skip(i as int)[0] == files@[i as int]@);
        assert(all.skip(i as int).skip(1) =~= all.skip(i as int + 1));
        if let Json::Str(f) = &files[i] {
            if text::ends(f.as_str(), ".wasm") && !text::has(f.as_str(), "/deps/") {
                return Some(f.clone());
            }
        }
        i = i + 1;
    }
    None
}

/// The module that one message of the build reports.
pub fn read_artifact(m: &Json, packages: &[String]) -> (r: Option<Artifact>)
    ensures
        (match r {
            Some(a) => Some((a.name@, a.file@)),
            None => None,
        }) == reported(m@, text::texts(packages@)),
{
    let is_artifact = match json::str_in(m.get("reason")) {
        Some(s) => text::same(s, "compiler-artifact"),
        None => false,
    };
    if !is_artifact {
        return None;
    }
    let known = match json::str_in(m.get("package_id")) {
        Some(id) => mentions_any(id, packages),
        None => false,
    };
    if !known {
        return None;
    }
    let name = match json::str_in(json::get_in(m.get("target"), "name")) {
        Some(n) => n,
        None => {
            return None;
        },
    };
    let files = match m.get("filenames") {
        Some(j) => match j.as_array() {
            Some(f) => f,
            None => {
                return None;
            },
        },
        None => {
            return None;
        },
    };
    match find_module(files) {
        Some(file) => Some(Artifact { name: text::owned(name), file }),
        None => None,
    }
}

/// The module that one line of the build's output reports.
pub fn artifact_in(line: &str, packages: &[String]) -> (r: Option<Artifact>)
    ensures
        (match r {
            Some(a) => Some((a.name@, a.file@)),
            None => None,
        }) == match json::json_value(line@) {
            Some(m) => reported(m, text::texts(packages@)),
            None => None,
        },
{
    match json::parse(line) {
        Ok(m) => read_artifact(&m, packages),
        Err(_) => None,
    }
}

/// What a build tells its own script, by whole names.
pub open spec fn is_script_var(k: Seq<char>) -> bool {
    ||| k == "OUT_DIR"@
    ||| k == "PROFILE"@
    ||| k == "OPT_LEVEL"@
    ||| k == "DEBUG"@
    ||| k == "TARGET"@
    ||| k == "HOST"@
    ||| k == "RUSTC"@
    ||| k == "RUSTC_WRAPPER"@
    ||| k == "RUSTDOC"@
    ||| k == "NUM_JOBS"@
    ||| k == "CARGO"@
    ||| k == "CARGO_MANIFEST_DIR"@
    ||| k == "CARGO_MANIFEST_PATH"@
    ||| k == "CARGO_MANIFEST_LINKS"@
}

/// A variable that must not reach a build within a build.
pub open spec fn is_build_var(k: Seq<char>) -> bool {
    ||| text::starts_with(k, "CARGO_PKG_"@)
    ||| text::starts_with(k, "CARGO_CRATE_"@)
    ||| text::starts_with(k, "CARGO_FEATURE_"@)
    ||| text::starts_with(k, "CARGO_CFG_"@)
    ||| is_script_var(k)
}

fn script_var(k: &str) -> (r: bool)
    ensures
        r == is_script_var(k@),
{
    text::same(k, "OUT_DIR")
        || text::same(k, "PROFILE")
        || text::same(k, "OPT_LEVEL")
        || text::same(k, "DEBUG")
        || text::same(k, "TARGET")
        || text::same(k, "HOST")
        || text::same(k, "RUSTC")
        || text::same(k, "RUSTC_WRAPPER")
        || text::same(k, "RUSTDOC")
        || text::same(k, "NUM_JOBS")
        || text::same(k, "CARGO")
        || text::same(k, "CARGO_MANIFEST_DIR")
        || text::same(k, "CARGO_MANIFEST_PATH")
        || text::same(k, "CARGO_MANIFEST_LINKS")
}

pub fn build_var(k: &str) -> (r: bool)
    ensures
        r == is_build_var(k@),
{
    text::begins(k, "CARGO_PKG_") || text::begins(k, "CARGO_CRATE_") || text::begins(
        k,
        "CARGO_FEATURE_",
    ) || text::begins(k, "CARGO_CFG_") || script_var(k)
}

/// Whether a compiled module is missing or older than its source; times are in
/// any unit.
pub fn is_stale(source: Option<u64>, compiled: Option<u64>) -> (r: bool)
    ensures
        r == match compiled {
            Some(c) => match source {
                Some(s) => s > c,
                None => true,
            },
            None => true,
        },
{
    match compiled {
        Some(c) => match source {
            Some(s) => s > c,
            None => true,
        },
        None => true,
    }
}

/// Whether everything that was built is at least as new as the newest input.
pub open spec fn fresh(newest: Option<u64>, built: Seq<(Option<u64>, Option<u64>)>) -> bool {
    newest is Some && forall|i: int|
        0 <= i < built.len() ==> (#[trigger] built[i]).0 is Some && built[i].1 is Some
            && built[i].0->0 >= newest->0 && built[i].1->0 >= newest->0
}

pub fn up_to_date(newest: Option<u64>, built: &[(Option<u64>, Option<u64>)]) -> (r: bool)
    ensures
        r == fresh(newest, built@),
{
    let n: u64 = match newest {
        Some(n) => n,
        None => {
            return false;
        },
    };
    let mut i: usize = 0;
    while i < built.len()
        invariant
            i <= built@.len(),
            newest == Some(n),
            forall|k: int|
                0 <= k < i ==> (#[trigger] built@[k]).0 is Some && built@[k].1 is Some
                    && built@[k].0->0 >= n && built@[k].1->0 >= n,
        decreases built@.len() - i,
    {
        let ok = match built[i] {
            (Some(a), Some(b)) => a >= n && b >= n,
            _ => false,
        };
        if !ok {
            return false;
        }
        i = i + 1;
    }
    true
}

} // verus!
