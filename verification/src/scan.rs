//! Extraction of diagram blocks from host document text.
//!
//! A diagram block is one of the fixed environment keywords immediately
//! followed by a bracketed payload.  The bracket scan counts depth, so a
//! balanced `[...]` pair inside the payload is tolerated, and the match ends
//! at the first unbalanced closing bracket.  Text that matches nothing is
//! left untouched; extraction never fails.

use vstd::prelude::*;

verus! {

/// The closed set of recognized diagram environments.
#[derive(Clone, Copy, PartialEq, Eq, Structural, Debug)]
pub enum EnvKind {
    Tikzpicture,
    Tikzcd,
}

pub open spec fn env_chars(k: EnvKind) -> Seq<char> {
    match k {
        EnvKind::Tikzpicture => seq!['t', 'i', 'k', 'z', 'p', 'i', 'c', 't', 'u', 'r', 'e'],
        EnvKind::Tikzcd => seq!['t', 'i', 'k', 'z', 'c', 'd'],
    }
}

/// The environment keyword as text.
pub fn env_name(k: EnvKind) -> (r: &'static str)
    ensures
        r@ == env_chars(k),
{
    match k {
        EnvKind::Tikzpicture => {
            proof {
                reveal_strlit("tikzpicture");
                assert("tikzpicture"@ =~= env_chars(EnvKind::Tikzpicture));
            }
            "tikzpicture"
        },
        EnvKind::Tikzcd => {
            proof {
                reveal_strlit("tikzcd");
                assert("tikzcd"@ =~= env_chars(EnvKind::Tikzcd));
            }
            "tikzcd"
        },
    }
}

/// A located diagram block: its environment kind, its payload (the text
/// between the brackets), and the half-open character range `[start, end)`
/// it occupies in the document.
pub ghost struct BlockSpec {
    pub kind: EnvKind,
    pub payload: Seq<char>,
    pub start: int,
    pub end: int,
}

/// Does `p` occur in `s` at position `i`?
pub open spec fn matches_at(s: Seq<char>, i: int, p: Seq<char>) -> bool {
    0 <= i && i + p.len() <= s.len() && s.subrange(i, i + p.len()) == p
}

/// Which environment keyword, if any, starts at position `i`?
pub open spec fn env_at(s: Seq<char>, i: int) -> Option<EnvKind> {
    if matches_at(s, i, env_chars(EnvKind::Tikzpicture)) {
        Some(EnvKind::Tikzpicture)
    } else if matches_at(s, i, env_chars(EnvKind::Tikzcd)) {
        Some(EnvKind::Tikzcd)
    } else {
        None
    }
}

/// Position of the first unbalanced closing bracket at or after `j`, given
/// that `depth` brackets are already open.  `None` when the text ends first.
pub open spec fn close_from(s: Seq<char>, j: int, depth: nat) -> Option<int>
    decreases s.len() - j,
{
    if j < 0 || j >= s.len() {
        None
    } else if s[j] == ']' {
        if depth == 0 {
            Some(j)
        } else {
            close_from(s, j + 1, (depth - 1) as nat)
        }
    } else if s[j] == '[' {
        close_from(s, j + 1, depth + 1)
    } else {
        close_from(s, j + 1, depth)
    }
}

pub proof fn lemma_close_from_bounds(s: Seq<char>, j: int, depth: nat)
    requires
        close_from(s, j, depth) is Some,
    ensures
        j <= close_from(s, j, depth)->Some_0 < s.len(),
        s[close_from(s, j, depth)->Some_0] == ']',
    decreases s.len() - j,
{
    if 0 <= j < s.len() {
        if s[j] == ']' && depth == 0 {
        } else if s[j] == ']' {
            lemma_close_from_bounds(s, j + 1, (depth - 1) as nat);
        } else if s[j] == '[' {
            lemma_close_from_bounds(s, j + 1, depth + 1);
        } else {
            lemma_close_from_bounds(s, j + 1, depth);
        }
    }
}

/// The block that matches at position `i`, if any: an environment keyword,
/// an opening bracket, and a bracket-balanced payload ended by the first
/// unbalanced closing bracket.
pub open spec fn match_at(s: Seq<char>, i: int) -> Option<BlockSpec> {
    match env_at(s, i) {
        Some(k) => {
            let b = i + env_chars(k).len();
            if b < s.len() && s[b] == '[' {
                match close_from(s, b + 1, 0) {
                    Some(p) => Some(
                        BlockSpec { kind: k, payload: s.subrange(b + 1, p), start: i, end: p + 1 },
                    ),
                    None => None,
                }
            } else {
                None
            }
        },
        None => None,
    }
}

pub proof fn lemma_match_at_bounds(s: Seq<char>, i: int)
    requires
        match_at(s, i) is Some,
    ensures
        match_at(s, i)->Some_0.start == i,
        i < match_at(s, i)->Some_0.end <= s.len(),
{
    let k = env_at(s, i)->Some_0;
    let b = i + env_chars(k).len();
    lemma_close_from_bounds(s, b + 1, 0);
}

/// All diagram blocks at or after position `i`, in order of appearance.
/// After a match the scan resumes at the match's end; otherwise it advances
/// one character.
pub open spec fn blocks_from(s: Seq<char>, i: int) -> Seq<BlockSpec>
    decreases s.len() - i,
{
    if i < 0 || i >= s.len() {
        Seq::empty()
    } else {
        match match_at(s, i) {
            Some(b) => seq![b] + blocks_from(
                s,
                if i < b.end && b.end <= s.len() {
                    b.end
                } else {
                    i + 1
                },
            ),
            None => blocks_from(s, i + 1),
        }
    }
}

/// The blocks of a whole document.
pub open spec fn blocks_of(s: Seq<char>) -> Seq<BlockSpec> {
    blocks_from(s, 0)
}

/// Number of newline characters in `s`; the rewrite preserves it for each
/// payload so that line numbers after the rewrite still line up.
pub open spec fn count_newlines(s: Seq<char>) -> nat
    decreases s.len(),
{
    if s.len() == 0 {
        0
    } else {
        count_newlines(s.drop_last()) + if s.last() == '\n' {
            1nat
        } else {
            0nat
        }
    }
}

/// Count the newline characters of `s`.
pub fn newline_count(s: &str) -> (r: usize)
    ensures
        r as nat == count_newlines(s@),
{
    let n: usize = s.unicode_len();
    let mut r: usize = 0;
    let mut i: usize = 0;
    while i < n
        invariant
            n == s@.len(),
            i <= n,
            r <= i,
            r as nat == count_newlines(s@.take(i as int)),
        decreases n - i,
    {
        proof {
            assert(s@.take(i as int + 1).drop_last() =~= s@.take(i as int));
            assert(s@.take(i as int + 1).last() == s@[i as int]);
        }
        if s.get_char(i) == '\n' {
            r = r + 1;
        }
        i = i + 1;
    }
    proof {
        assert(s@.take(n as int) =~= s@);
    }
    r
}

/// An extracted block as a value: the kind, the owned payload text, and the
/// character range it came from.
pub struct Block {
    pub kind: EnvKind,
    pub payload: String,
    pub start: usize,
    pub end: usize,
}

impl View for Block {
    type V = BlockSpec;

    open spec fn view(&self) -> BlockSpec {
        BlockSpec {
            kind: self.kind,
            payload: self.payload@,
            start: self.start as int,
            end: self.end as int,
        }
    }
}

/// Does `pat` occur in `s` at character position `i`?
pub(crate) fn occurs_at(s: &str, i: usize, pat: &str) -> (r: bool)
    ensures
        r == matches_at(s@, i as int, pat@),
{
    let n: usize = s.unicode_len();
    let m: usize = pat.unicode_len();
    if m > n || i > n - m {
        return false;
    }
    let mut j: usize = 0;
    while j < m
        invariant
            n == s@.len(),
            m == pat@.len(),
            i + m <= n,
            j <= m,
            s@.subrange(i as int, i as int + j as int) == pat@.subrange(0, j as int),
        decreases m - j,
    {
        if s.get_char(i + j) != pat.get_char(j) {
            proof {
                assert(s@.subrange(i as int, i as int + pat@.len())[j as int] != pat@[j as int]);
            }
            return false;
        }
        proof {
            assert(s@.subrange(i as int, i as int + j as int + 1) =~= s@.subrange(
                i as int,
                i as int + j as int,
            ).push(s@[i as int + j as int]));
            assert(pat@.subrange(0, j as int + 1) =~= pat@.subrange(0, j as int).push(
                pat@[j as int],
            ));
        }
        j = j + 1;
    }
    proof {
        assert(s@.subrange(i as int, i as int + m as int) =~= s@.subrange(
            i as int,
            i as int + pat@.len(),
        ));
        assert(pat@.subrange(0, m as int) =~= pat@);
    }
    true
}

/// Which environment keyword starts at position `i`?
fn env_of(s: &str, i: usize) -> (r: Option<EnvKind>)
    ensures
        r == env_at(s@, i as int),
{
    if occurs_at(s, i, env_name(EnvKind::Tikzpicture)) {
        Some(EnvKind::Tikzpicture)
    } else if occurs_at(s, i, env_name(EnvKind::Tikzcd)) {
        Some(EnvKind::Tikzcd)
    } else {
        None
    }
}

/// Find the first unbalanced closing bracket at or after `start`.
fn find_close(s: &str, start: usize) -> (r: Option<usize>)
    ensures
        match r {
            Some(p) => close_from(s@, start as int, 0) == Some(p as int),
            None => close_from(s@, start as int, 0) is None,
        },
{
    let n: usize = s.unicode_len();
    let mut j: usize = start;
    let mut depth: usize = 0;
    while j < n
        invariant
            n == s@.len(),
            start <= j,
            depth <= j - start,
            close_from(s@, start as int, 0) == close_from(s@, j as int, depth as nat),
        decreases n - j,
    {
        let c = s.get_char(j);
        if c == ']' {
            if depth == 0 {
                return Some(j);
            }
            depth = depth - 1;
        } else if c == '[' {
            depth = depth + 1;
        }
        j = j + 1;
    }
    None
}

/// Try to match a diagram block at position `i`.
pub fn try_match(s: &str, i: usize) -> (r: Option<Block>)
    requires
        i < s@.len(),
    ensures
        match r {
            Some(b) => match_at(s@, i as int) == Some(b@),
            None => match_at(s@, i as int) is None,
        },
{
    let k = match env_of(s, i) {
        Some(k) => k,
        None => {
            return None;
        },
    };
    let name = env_name(k);
    let n: usize = s.unicode_len();
    proof {
        assert(matches_at(s@, i as int, env_chars(k)));
    }
    let b: usize = i + name.unicode_len();
    if !(b < n && s.get_char(b) == '[') {
        return None;
    }
    let p = match find_close(s, b + 1) {
        Some(p) => p,
        None => {
            return None;
        },
    };
    proof {
        lemma_close_from_bounds(s@, b as int + 1, 0);
    }
    let payload = s.substring_char(b + 1, p).to_owned();
    Some(Block { kind: k, payload, start: i, end: p + 1 })
}

/// Extract every diagram block of the document, in order of appearance.
pub fn extract(s: &str) -> (r: Vec<Block>)
    ensures
        r@.map_values(|b: Block| b@) == blocks_of(s@),
{
    let n: usize = s.unicode_len();
    let mut out: Vec<Block> = Vec::new();
    let mut i: usize = 0;
    while i < n
        invariant
            n == s@.len(),
            blocks_of(s@) == out@.map_values(|b: Block| b@) + blocks_from(s@, i as int),
        decreases n - i,
    {
        match try_match(s, i) {
            Some(b) => {
                proof {
                    lemma_match_at_bounds(s@, i as int);
                    assert((out@ + seq![b]).map_values(|x: Block| x@) =~= out@.map_values(
                        |x: Block| x@,
                    ) + seq![b@]);
                }
                let next = b.end;
                out.push(b);
                i = next;
            },
            None => {
                i = i + 1;
            },
        }
    }
    proof {
        assert(blocks_from(s@, i as int) =~= Seq::<BlockSpec>::empty());
        assert(blocks_of(s@) =~= out@.map_values(|b: Block| b@));
    }
    out
}

} // verus!
