//! Assembly of the standalone document handed to the typesetting engine,
//! and the failure messages of the render pipeline.
//!
//! The subprocess calls themselves are the session driver's; this module
//! fixes, as verified text transforms, exactly what is written to the source
//! file and exactly how the two failure causes (could not be started, ran
//! and failed) are worded apart.

use vstd::prelude::*;

use crate::scan::{EnvKind, env_chars, env_name};

verus! {

pub open spec fn is_ws(c: char) -> bool {
    c == ' ' || c == '\t' || c == '\n' || c == '\r'
}

pub open spec fn trim_front(s: Seq<char>) -> Seq<char>
    decreases s.len(),
{
    if s.len() > 0 && is_ws(s[0]) {
        trim_front(s.drop_first())
    } else {
        s
    }
}

pub open spec fn trim_back(s: Seq<char>) -> Seq<char>
    decreases s.len(),
{
    if s.len() > 0 && is_ws(s.last()) {
        trim_back(s.drop_last())
    } else {
        s
    }
}

/// `s` without leading and trailing whitespace.
pub open spec fn trim_chars(s: Seq<char>) -> Seq<char> {
    trim_back(trim_front(s))
}

/// First position at or after `a` whose character is kept by a front trim.
fn first_kept(s: &str, a: usize) -> (r: usize)
    requires
        a <= s@.len(),
    ensures
        a <= r <= s@.len(),
        trim_front(s@.subrange(a as int, s@.len() as int)) == s@.subrange(
            r as int,
            s@.len() as int,
        ),
    decreases s@.len() - a,
{
    let n: usize = s.unicode_len();
    if a < n {
        let c = s.get_char(a);
        if c == ' ' || c == '\t' || c == '\n' || c == '\r' {
            proof {
                assert(s@.subrange(a as int, n as int).drop_first() =~= s@.subrange(
                    a as int + 1,
                    n as int,
                ));
            }
            return first_kept(s, a + 1);
        }
    }
    proof {
        if a == n {
            assert(s@.subrange(a as int, n as int) =~= Seq::<char>::empty());
        }
    }
    a
}

/// Last position in `[a, b]` such that a back trim of `s[a..b]` keeps
/// exactly `s[a..r]`.
fn last_kept(s: &str, a: usize, b: usize) -> (r: usize)
    requires
        a <= b <= s@.len(),
    ensures
        a <= r <= b,
        trim_back(s@.subrange(a as int, b as int)) == s@.subrange(a as int, r as int),
    decreases b,
{
    if b > a {
        let c = s.get_char(b - 1);
        if c == ' ' || c == '\t' || c == '\n' || c == '\r' {
            proof {
                assert(s@.subrange(a as int, b as int).drop_last() =~= s@.subrange(
                    a as int,
                    b as int - 1,
                ));
            }
            return last_kept(s, a, b - 1);
        }
    }
    proof {
        if a == b {
            assert(s@.subrange(a as int, b as int) =~= Seq::<char>::empty());
        }
    }
    b
}

/// `s` without leading and trailing whitespace, as an owned value.
pub fn trim_text(s: &str) -> (r: String)
    ensures
        r@ == trim_chars(s@),
{
    let n: usize = s.unicode_len();
    let a = first_kept(s, 0);
    let b = last_kept(s, a, n);
    proof {
        assert(s@.subrange(0, n as int) =~= s@);
    }
    s.substring_char(a, b).to_owned()
}

/// The standalone document for one diagram: the caller's preamble (class,
/// packages, `\begin{document}`), the environment around the trimmed
/// source, and the closing line, each line newline-terminated.
pub open spec fn latex_document_chars(
    preamble: Seq<char>,
    kind: EnvKind,
    source: Seq<char>,
) -> Seq<char> {
    preamble + "\n\\begin{"@ + env_chars(kind) + "}\n"@ + trim_chars(source) + "\n\\end{"@
        + env_chars(kind) + "}\n\\end{document}\n"@
}

/// Build the document text handed to the typesetting engine.
pub fn latex_document(preamble: &str, kind: EnvKind, source: &str) -> (r: String)
    ensures
        r@ == latex_document_chars(preamble@, kind, source@),
{
    let mut out = String::from_str(preamble);
    out.append("\n\\begin{");
    out.append(env_name(kind));
    out.append("}\n");
    let trimmed = trim_text(source);
    out.append(trimmed.as_str());
    out.append("\n\\end{");
    out.append(env_name(kind));
    out.append("}\n\\end{document}\n");
    proof {
        assert(out@ =~= latex_document_chars(preamble@, kind, source@));
    }
    out
}

/// The message recorded when an external tool could not be started at all.
pub fn spawn_failure_message(tool: &str, err: &str) -> (r: String)
    ensures
        r@ == "failed to invoke "@ + tool@ + ": "@ + err@,
{
    let mut out = String::from_str("failed to invoke ");
    out.append(tool);
    out.append(": ");
    out.append(err);
    proof {
        assert(out@ =~= "failed to invoke "@ + tool@ + ": "@ + err@);
    }
    out
}

/// The message recorded when an external tool's exit could not be awaited.
pub fn wait_failure_message(err: &str) -> (r: String)
    ensures
        r@ == "failed to fetch LaTeX process: "@ + err@,
{
    let mut out = String::from_str("failed to fetch LaTeX process: ");
    out.append(err);
    out
}

/// The message recorded when reading or writing a scratch file failed.
pub fn io_failure_message(context: &str, err: &str) -> (r: String)
    ensures
        r@ == context@ + ": "@ + err@,
{
    let mut out = String::from_str(context);
    out.append(": ");
    out.append(err);
    proof {
        assert(out@ =~= context@ + ": "@ + err@);
    }
    out
}

} // verus!
