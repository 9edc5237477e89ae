//! Anomalies in the Apache error-log domain: they start from real lines and corrupt
//! them as a failing or attacked server would.
use vstd::prelude::*;

use crate::rng::random_usize;
use crate::text::{
    contains_text, lemma_replace_first_inserts, replace_first, replace_first_str, str_eq,
};

verus! {

/// The line that `apache_anomaly` makes of `base` for `kind`.
pub open spec fn apache_anomaly_of(kind: Seq<char>, base: Seq<char>) -> Seq<char> {
    if kind == "garbage"@ {
        "[Sun Dec 04 04:47:44 2005] [error] ####@@@!!!~~~%%%^^^&&&***(((|||}}}"@
    } else if kind == "injection"@ {
        "[Sun Dec 04 04:47:44 2005] [error] 1' OR '1'='1 /../../private/config"@
    } else if kind == "bad_level"@ {
        replace_first(
            replace_first(base, "[notice]"@, "[CATASTROPHE]"@),
            "[error]"@,
            "[CATASTROPHE]"@,
        )
    } else if kind == "flood"@ {
        "[Sun Dec 04 04:47:44 2005] [notice] jk2_init() Found child 99999999999999 in scoreboard slot 99999"@
    } else {
        base
    }
}

/// An anomalous Apache line of the given kind, built from a real line drawn at
/// random (any other kind gives that real line unchanged).
pub fn apache_anomaly(kind: &str, real_lines: &[&str]) -> (s: String)
    requires
        real_lines@.len() > 0,
    ensures
        exists|i: int|
            0 <= i < real_lines@.len() && s@ == apache_anomaly_of(kind@, real_lines@[i]@),
{
    let i = random_usize(0, real_lines.len());
    let base = real_lines[i];
    apache_anomaly_from(kind, base)
}

/// The anomalous line of the given kind built from the real line `base` (any
/// other kind gives `base` unchanged).
pub fn apache_anomaly_from(kind: &str, base: &str) -> (s: String)
    ensures
        s@ == apache_anomaly_of(kind@, base@),
{
    if str_eq(kind, "garbage") {
        String::from_str("[Sun Dec 04 04:47:44 2005] [error] ####@@@!!!~~~%%%^^^&&&***(((|||}}}")
    } else if str_eq(kind, "injection") {
        String::from_str("[Sun Dec 04 04:47:44 2005] [error] 1' OR '1'='1 /../../private/config")
    } else if str_eq(kind, "bad_level") {
        let once = replace_first_str(base, "[notice]", "[CATASTROPHE]");
        replace_first_str(once.as_str(), "[error]", "[CATASTROPHE]")
    } else if str_eq(kind, "flood") {
        String::from_str(
            "[Sun Dec 04 04:47:44 2005] [notice] jk2_init() Found child 99999999999999 in scoreboard slot 99999",
        )
    } else {
        String::from_str(base)
    }
}

proof fn lemma_bad_level_branch()
    ensures
        "bad_level"@ != "garbage"@,
        "bad_level"@ != "injection"@,
{
    reveal_strlit("bad_level");
    reveal_strlit("garbage");
    reveal_strlit("injection");
    assert("bad_level"@[0] != "garbage"@[0]);
    assert("bad_level"@[0] != "injection"@[0]);
}

/// A `bad_level` anomaly of a line with a `[notice]` or an `[error]` level carries
/// the made-up level `[CATASTROPHE]`; a line with neither comes out unchanged.
pub proof fn lemma_bad_level_marks_levelled_lines(base: Seq<char>)
    ensures
        contains_text(base, "[notice]"@) || contains_text(base, "[error]"@) ==> contains_text(
            apache_anomaly_of("bad_level"@, base),
            "[CATASTROPHE]"@,
        ),
        !contains_text(base, "[notice]"@) && !contains_text(base, "[error]"@) ==> apache_anomaly_of(
            "bad_level"@,
            base,
        ) == base,
{
    lemma_bad_level_branch();
    let once = replace_first(base, "[notice]"@, "[CATASTROPHE]"@);
    if contains_text(base, "[notice]"@) {
        lemma_replace_first_inserts(base, "[notice]"@, "[CATASTROPHE]"@);
    }
    if contains_text(once, "[error]"@) {
        lemma_replace_first_inserts(once, "[error]"@, "[CATASTROPHE]"@);
    }
}

} // verus!
