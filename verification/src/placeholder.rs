//! Embed directives and their identifiers.
//!
//! A rewritten block becomes `image("<prefix><fingerprint><suffix>")`, with
//! `, width: <magnitude><unit>` added when the render succeeded, followed by
//! as many newlines as the block's payload held, so line numbers downstream
//! of the block stay accurate.  The filename is a lossless encoding of the
//! fingerprint: decoding it gives the fingerprint back.

use vstd::prelude::*;

use crate::numeral::{dec_chars, parse_dec, u64_to_string, parse_u64, lemma_dec_chars_digits,
    lemma_parse_of_dec_chars};
use crate::scan::occurs_at;
use crate::svg::{width_clause_of, unit_supported, unit_suffix, svg_width_of};

verus! {

/// `generated_tikz_`, the fixed filename prefix.
pub open spec fn prefix_chars() -> Seq<char> {
    seq!['g', 'e', 'n', 'e', 'r', 'a', 't', 'e', 'd', '_', 't', 'i', 'k', 'z', '_']
}

/// `.svg`, the fixed filename suffix.
pub open spec fn suffix_chars() -> Seq<char> {
    seq!['.', 's', 'v', 'g']
}

pub fn prefix_str() -> (r: &'static str)
    ensures
        r@ == prefix_chars(),
{
    proof {
        reveal_strlit("generated_tikz_");
        assert("generated_tikz_"@ =~= prefix_chars());
    }
    "generated_tikz_"
}

pub fn suffix_str() -> (r: &'static str)
    ensures
        r@ == suffix_chars(),
{
    proof {
        reveal_strlit(".svg");
        assert(".svg"@ =~= suffix_chars());
    }
    ".svg"
}

/// The filename that encodes a fingerprint.
pub open spec fn filename_chars(fp: u64) -> Seq<char> {
    prefix_chars() + dec_chars(fp as int) + suffix_chars()
}

/// The embed directive text: the encoded filename, and the width clause
/// when there is one.
pub open spec fn directive_chars(fp: u64, width: Option<Seq<char>>) -> Seq<char> {
    match width {
        Some(w) => "image(\""@ + filename_chars(fp) + "\", width: "@ + w + ")"@,
        None => "image(\""@ + filename_chars(fp) + "\")"@,
    }
}

pub open spec fn newline_chars(n: nat) -> Seq<char> {
    Seq::new(n, |i: int| '\n')
}

/// A cache entry as a value: rendered bytes or the recorded failure text.
pub open spec fn entry_view(e: Result<Vec<u8>, String>) -> Result<Seq<u8>, Seq<char>> {
    match e {
        Ok(b) => Ok(b@),
        Err(m) => Err(m@),
    }
}

/// The text a block is replaced with, given its fingerprint, its cache
/// entry and its payload's newline count.  Meaningful for a successful
/// entry only when its width clause exists; the rewrite reports an
/// internal-consistency fault instead of using this text otherwise.
pub open spec fn placeholder_chars(fp: u64, entry: Result<Seq<u8>, Seq<char>>, nl: nat) -> Seq<
    char,
> {
    match entry {
        Ok(bytes) => directive_chars(fp, Some(width_clause_of(bytes)->Some_0)) + newline_chars(nl),
        Err(_) => directive_chars(fp, None) + newline_chars(nl),
    }
}

/// Append `n` newline characters.
fn append_newlines(out: &mut String, n: usize)
    ensures
        final(out)@ == old(out)@ + newline_chars(n as nat),
{
    proof {
        reveal_strlit("\n");
    }
    let mut i: usize = 0;
    while i < n
        invariant
            i <= n,
            "\n"@ =~= seq!['\n'],
            out@ == old(out)@ + newline_chars(i as nat),
        decreases n - i,
    {
        out.append("\n");
        proof {
            assert(old(out)@ + newline_chars(i as nat + 1) =~= (old(out)@ + newline_chars(
                i as nat,
            )) + "\n"@);
        }
        i = i + 1;
    }
    proof {
        assert(out@ =~= old(out)@ + newline_chars(n as nat));
    }
}

/// The encoded filename for a fingerprint.
pub fn filename_for(fp: u64) -> (r: String)
    ensures
        r@ == filename_chars(fp),
{
    let mut out = String::from_str(prefix_str());
    let digits = u64_to_string(fp);
    out.append(digits.as_str());
    out.append(suffix_str());
    proof {
        assert(out@ =~= filename_chars(fp));
    }
    out
}

/// Build the full replacement text for one block.
pub fn build_placeholder(fp: u64, width: Option<&String>, newlines: usize) -> (r: String)
    ensures
        match width {
            Some(w) => r@ == directive_chars(fp, Some(w@)) + newline_chars(newlines as nat),
            None => r@ == directive_chars(fp, None) + newline_chars(newlines as nat),
        },
{
    let mut out = String::from_str("image(\"");
    let name = filename_for(fp);
    out.append(name.as_str());
    match width {
        Some(w) => {
            out.append("\", width: ");
            out.append(w.as_str());
            out.append(")");
            proof {
                assert(out@ =~= directive_chars(fp, Some(w@)));
            }
        },
        None => {
            out.append("\")");
            proof {
                assert(out@ =~= directive_chars(fp, None));
            }
        },
    }
    append_newlines(&mut out, newlines);
    out
}

/// Decode a filename of the `prefix + digits + suffix` shape back to the
/// fingerprint; anything else is not a placeholder.
pub open spec fn filename_fingerprint(name: Seq<char>) -> Option<u64> {
    if name.len() >= prefix_chars().len() + suffix_chars().len() && name.subrange(
        0,
        prefix_chars().len() as int,
    ) == prefix_chars() && name.subrange(
        name.len() - suffix_chars().len(),
        name.len() as int,
    ) == suffix_chars() {
        parse_dec(name.subrange(prefix_chars().len() as int, name.len() - suffix_chars().len()))
    } else {
        None
    }
}

/// Decode a placeholder filename.
pub fn decode_filename(name: &str) -> (r: Option<u64>)
    ensures
        r == filename_fingerprint(name@),
{
    let n: usize = name.unicode_len();
    if n < 19 {
        return None;
    }
    if !occurs_at(name, 0, prefix_str()) {
        return None;
    }
    if !occurs_at(name, n - 4, suffix_str()) {
        return None;
    }
    let middle = name.substring_char(15, n - 4);
    parse_u64(middle)
}

fn str_eq(a: &str, b: &str) -> (r: bool)
    ensures
        r == (a@ == b@),
{
    let r = a.unicode_len() == b.unicode_len() && occurs_at(a, 0, b);
    proof {
        if a@.len() == b@.len() {
            assert(a@.subrange(0, b@.len() as int) =~= a@);
        }
    }
    r
}

/// A host compiler error that is really an unresolved placeholder: the
/// message is the host's missing-file complaint and the quoted span text
/// holds a placeholder filename.  Anything else is not a placeholder.
pub open spec fn error_fingerprint(message: Seq<char>, span_text: Seq<char>) -> Option<u64> {
    if message == "failed to load file"@ && span_text.len() >= 2 {
        filename_fingerprint(span_text.subrange(1, span_text.len() - 1))
    } else {
        None
    }
}

/// Decode a missing-file error into the fingerprint its quoted filename
/// encodes, if it does.
pub fn decode_error(message: &str, span_text: &str) -> (r: Option<u64>)
    ensures
        r == error_fingerprint(message@, span_text@),
{
    if !str_eq(message, "failed to load file") {
        return None;
    }
    let n: usize = span_text.unicode_len();
    if n < 2 {
        return None;
    }
    let inner = span_text.substring_char(1, n - 1);
    decode_filename(inner)
}

/// Decoding the filename the rewriter produced for a fingerprint gives that
/// fingerprint back.
pub proof fn lemma_filename_roundtrip(fp: u64)
    ensures
        filename_fingerprint(filename_chars(fp)) == Some(fp),
{
    lemma_dec_chars_digits(fp as int);
    lemma_parse_of_dec_chars(fp);
    let name = filename_chars(fp);
    assert(name.subrange(0, prefix_chars().len() as int) =~= prefix_chars());
    assert(name.subrange(name.len() - suffix_chars().len(), name.len() as int) =~= suffix_chars());
    assert(name.subrange(prefix_chars().len() as int, name.len() - suffix_chars().len())
        =~= dec_chars(fp as int));
}

/// A failing render's placeholder carries no width clause; a succeeding one
/// carries `magnitude + unit` for a unit in the supported set.
pub proof fn lemma_placeholder_width(fp: u64, entry: Result<Seq<u8>, Seq<char>>, nl: nat)
    ensures
        entry is Err ==> placeholder_chars(fp, entry, nl) == directive_chars(fp, None)
            + newline_chars(nl),
        entry is Ok && width_clause_of(entry->Ok_0) is Some ==> {
            let w = svg_width_of(entry->Ok_0)->Some_0;
            &&& unit_supported(w.1)
            &&& placeholder_chars(fp, entry, nl) == directive_chars(fp, Some(w.0 + unit_suffix(w.1)))
                + newline_chars(nl)
        },
{
}

} // verus!
