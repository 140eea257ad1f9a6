//! What holds of the bundled modules: what is read from a build's reports, and what
//! their fingerprints tell apart.
use crate::bundle;
use crate::json;
use crate::json::JsonV;
use crate::text;
use vstd::prelude::*;

verus! {

/// A file is a module by its ending, unless it is a dependency's; the first module of
/// the files is the one taken.
pub proof fn the_first_module_is_taken(files: Seq<JsonV>, f: Seq<char>, k: int)
    requires
        0 <= k < files.len(),
        files[k] == JsonV::Str(f),
        text::ends_with(f, ".wasm"@),
        !text::occurs_in(f, "/deps/"@),
        forall|i: int|
            0 <= i < k ==> ((#[trigger] files[i]) matches JsonV::Str(g) ==> !text::ends_with(
                g,
                ".wasm"@,
            ) || text::occurs_in(g, "/deps/"@)),
    ensures
        bundle::module_file(files) == Some(f),
    decreases k,
{
    if k > 0 {
        assert(files[0] matches JsonV::Str(g) ==> !text::ends_with(g, ".wasm"@)
            || text::occurs_in(g, "/deps/"@));
        let rest = files.skip(1);
        assert(rest[k - 1] == files[k]);
        assert forall|i: int| 0 <= i < k - 1 implies ((#[trigger] rest[i]) matches JsonV::Str(g)
            ==> !text::ends_with(g, ".wasm"@) || text::occurs_in(g, "/deps/"@)) by {
            assert(rest[i] == files[i + 1]);
        }
        the_first_module_is_taken(rest, f, k - 1);
    }
}

/// Where no file is a module of its own, none is taken.
pub proof fn without_a_module_none_is_taken(files: Seq<JsonV>)
    requires
        forall|i: int|
            0 <= i < files.len() ==> ((#[trigger] files[i]) matches JsonV::Str(g)
                ==> !text::ends_with(g, ".wasm"@) || text::occurs_in(g, "/deps/"@)),
    ensures
        bundle::module_file(files) is None,
    decreases files.len(),
{
    if files.len() > 0 {
        assert(files[0] matches JsonV::Str(g) ==> !text::ends_with(g, ".wasm"@)
            || text::occurs_in(g, "/deps/"@));
        let rest = files.skip(1);
        assert forall|i: int| 0 <= i < rest.len() implies ((#[trigger] rest[i]) matches JsonV::Str(
            g,
        ) ==> !text::ends_with(g, ".wasm"@) || text::occurs_in(g, "/deps/"@)) by {
            assert(rest[i] == files[i + 1]);
        }
        without_a_module_none_is_taken(rest);
    }
}

/// A report of an artifact of one of the packages gives the target's name and its
/// module; a report of anything else, or of another package, gives nothing.
pub proof fn reports_of_the_packages_are_read(
    m: JsonV,
    target: JsonV,
    packages: Seq<Seq<char>>,
    id: Seq<char>,
    name: Seq<char>,
    files: Seq<JsonV>,
    k: int,
)
    requires
        json::field(m, "package_id"@) == Some(JsonV::Str(id)),
        json::field(m, "target"@) == Some(target),
        json::field(target, "name"@) == Some(JsonV::Str(name)),
        json::field(m, "filenames"@) == Some(JsonV::Arr(files)),
        0 <= k < packages.len(),
    ensures
        json::field(m, "reason"@) == Some(JsonV::Str("compiler-artifact"@)) && text::occurs_in(
            id,
            packages[k],
        ) && bundle::module_file(files) is Some ==> bundle::reported(m, packages) == Some(
            (name, bundle::module_file(files)->0),
        ),
        json::field(m, "reason"@) is None ==> bundle::reported(m, packages) is None,
        json::field(m, "reason"@) matches Some(JsonV::Str(r)) ==> (r != "compiler-artifact"@
            ==> bundle::reported(m, packages) is None),
        bundle::module_file(files) is None ==> bundle::reported(m, packages) is None,
        (forall|i: int| 0 <= i < packages.len() ==> !text::occurs_in(id, #[trigger] packages[i]))
            ==> bundle::reported(m, packages) is None,
{
    if text::occurs_in(id, packages[k]) {
        assert(bundle::mentions(id, packages));
    }
}

/// The variables that a build sets are those of a package, a crate, its features and its
/// configuration, and those of a build script; no other.
pub proof fn a_builds_variables_are_known(s: Seq<char>, k: Seq<char>)
    ensures
        bundle::is_build_var("CARGO_PKG_"@ + s),
        bundle::is_build_var("CARGO_CRATE_"@ + s),
        bundle::is_build_var("CARGO_FEATURE_"@ + s),
        bundle::is_build_var("CARGO_CFG_"@ + s),
        bundle::is_build_var("OUT_DIR"@),
        bundle::is_build_var("PROFILE"@),
        bundle::is_build_var("OPT_LEVEL"@),
        bundle::is_build_var("DEBUG"@),
        bundle::is_build_var("TARGET"@),
        bundle::is_build_var("HOST"@),
        bundle::is_build_var("RUSTC"@),
        bundle::is_build_var("RUSTC_WRAPPER"@),
        bundle::is_build_var("RUSTDOC"@),
        bundle::is_build_var("NUM_JOBS"@),
        bundle::is_build_var("CARGO"@),
        bundle::is_build_var("CARGO_MANIFEST_DIR"@),
        bundle::is_build_var("CARGO_MANIFEST_PATH"@),
        bundle::is_build_var("CARGO_MANIFEST_LINKS"@),
        k.len() > 0 && k[0] != 'C' && k[0] != 'D' && k[0] != 'H' && k[0] != 'N' && k[0] != 'O'
            && k[0] != 'P' && k[0] != 'R' && k[0] != 'T' ==> !bundle::is_build_var(k),
{
    reveal_strlit("OUT_DIR");
    reveal_strlit("PROFILE");
    reveal_strlit("OPT_LEVEL");
    reveal_strlit("DEBUG");
    reveal_strlit("TARGET");
    reveal_strlit("HOST");
    reveal_strlit("RUSTC");
    reveal_strlit("RUSTC_WRAPPER");
    reveal_strlit("RUSTDOC");
    reveal_strlit("NUM_JOBS");
    reveal_strlit("CARGO");
    reveal_strlit("CARGO_MANIFEST_DIR");
    reveal_strlit("CARGO_MANIFEST_PATH");
    reveal_strlit("CARGO_MANIFEST_LINKS");
    reveal_strlit("CARGO_PKG_");
    reveal_strlit("CARGO_CRATE_");
    reveal_strlit("CARGO_FEATURE_");
    reveal_strlit("CARGO_CFG_");
    let t = "CARGO_PKG_"@ + s;
    assert(t.take(10) =~= "CARGO_PKG_"@);
    assert(text::occurs_at(t, "CARGO_PKG_"@, 0)) by {
        assert(t.subrange(0, 10) =~= "CARGO_PKG_"@);
    }
    let t = "CARGO_CRATE_"@ + s;
    assert(t.take(12) =~= "CARGO_CRATE_"@);
    assert(text::occurs_at(t, "CARGO_CRATE_"@, 0)) by {
        assert(t.subrange(0, 12) =~= "CARGO_CRATE_"@);
    }
    let t = "CARGO_FEATURE_"@ + s;
    assert(t.take(14) =~= "CARGO_FEATURE_"@);
    assert(text::occurs_at(t, "CARGO_FEATURE_"@, 0)) by {
        assert(t.subrange(0, 14) =~= "CARGO_FEATURE_"@);
    }
    let t = "CARGO_CFG_"@ + s;
    assert(t.take(10) =~= "CARGO_CFG_"@);
    assert(text::occurs_at(t, "CARGO_CFG_"@, 0)) by {
        assert(t.subrange(0, 10) =~= "CARGO_CFG_"@);
    }
    if text::starts_with(k, "CARGO_PKG_"@) {
        assert(k.subrange(0, 10)[0] == 'C');
    }
    if text::starts_with(k, "CARGO_CRATE_"@) {
        assert(k.subrange(0, 12)[0] == 'C');
    }
    if text::starts_with(k, "CARGO_FEATURE_"@) {
        assert(k.subrange(0, 14)[0] == 'C');
    }
    if text::starts_with(k, "CARGO_CFG_"@) {
        assert(k.subrange(0, 10)[0] == 'C');
    }
}

proof fn lemma_step_tells_apart(g: u64, h: u64, b: u8, c: u8)
    ensures
        bundle::fnv_step(g, b) == bundle::fnv_step(h, b) ==> g == h,
        bundle::fnv_step(g, b) == bundle::fnv_step(g, c) ==> b == c,
{
    let x = g ^ (b as u64);
    let y = h ^ (b as u64);
    let z = g ^ (c as u64);
    lemma_factor_tells_apart(x, y);
    lemma_factor_tells_apart(x, z);
    assert(g ^ (b as u64) == h ^ (b as u64) ==> g == h) by (bit_vector);
    assert(g ^ (b as u64) == g ^ (c as u64) ==> b == c) by (bit_vector);
}

proof fn lemma_factor_tells_apart(x: u64, y: u64)
    ensures
        x.wrapping_mul(0x100000001b3) == y.wrapping_mul(0x100000001b3) ==> x == y,
{
    lemma_factor(x);
    lemma_factor(y);
    let p = ((x * 0x100000001b3u64) as u64);
    let q = ((y * 0x100000001b3u64) as u64);
    assert(((x * 0x100000001b3u64) as u64) == ((y * 0x100000001b3u64) as u64) ==> x == y)
        by (bit_vector);
}

proof fn lemma_factor(x: u64)
    ensures
        x.wrapping_mul(0x100000001b3) == (x * 0x100000001b3u64) as u64,
{
    assert((x * 0x100000001b3u64) % 0x1_0000_0000_0000_0000 == (x * 0x100000001b3u64) as u64)
        by (bit_vector);
}

/// A fingerprint depends on every byte: two texts that differ in one byte have
/// different fingerprints.
pub proof fn one_byte_changes_the_fingerprint(a: Seq<u8>, b: Seq<u8>, k: int)
    requires
        a.len() == b.len(),
        0 <= k < a.len(),
        a[k] != b[k],
        forall|i: int| 0 <= i < a.len() && i != k ==> a[i] == b[i],
    ensures
        bundle::fnv(a) != bundle::fnv(b),
    decreases a.len(),
{
    let x = a.drop_last();
    let y = b.drop_last();
    if k == a.len() - 1 {
        assert(x =~= y);
        lemma_step_tells_apart(bundle::fnv(x), bundle::fnv(x), a.last(), b.last());
    } else {
        one_byte_changes_the_fingerprint(x, y, k);
        assert(a.last() == b.last());
        lemma_step_tells_apart(bundle::fnv(x), bundle::fnv(y), a.last(), a.last());
    }
}

} // verus!
