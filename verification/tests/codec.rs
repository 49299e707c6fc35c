use tikz_embed::fingerprint::compute_fingerprint;
use tikz_embed::numeral::{parse_u64, u64_to_string};
use tikz_embed::placeholder::filename_for;
use tikz_embed::scan::EnvKind;
use tikz_embed::template::{latex_document, spawn_failure_message, trim_text};
use tikz_embed::tikz::Tikz;

#[test]
fn decimal_encoding_round_trips() {
    for n in [0u64, 1, 9, 10, 4095, 1844674407370955161, u64::MAX] {
        let s = u64_to_string(n);
        assert_eq!(s, format!("{}", n));
        assert_eq!(parse_u64(&s), Some(n));
    }
}

#[test]
fn strict_decimal_parsing() {
    assert_eq!(parse_u64(""), None);
    assert_eq!(parse_u64("+123"), None);
    assert_eq!(parse_u64("12a3"), None);
    assert_eq!(parse_u64("007"), Some(7));
    assert_eq!(parse_u64("18446744073709551615"), Some(u64::MAX));
    assert_eq!(parse_u64("18446744073709551616"), None);
    assert_eq!(parse_u64("99999999999999999999999"), None);
}

#[test]
fn filename_encoding_round_trips() {
    for n in [0u64, 17, u64::MAX] {
        let name = filename_for(n);
        assert_eq!(name, format!("generated_tikz_{}.svg", n));
        assert_eq!(Tikz::is_filename(&name), Some(n));
    }
}

#[test]
fn non_placeholder_filenames_are_rejected() {
    assert_eq!(Tikz::is_filename("picture.svg"), None);
    assert_eq!(Tikz::is_filename("generated_tikz_12.png"), None);
    assert_eq!(Tikz::is_filename("generated_tikz_.svg"), None);
    assert_eq!(Tikz::is_filename("generated_tikz_12x.svg"), None);
    assert_eq!(Tikz::is_filename("generated_tikz_18446744073709551616.svg"), None);
    assert_eq!(Tikz::is_filename(""), None);
}

#[test]
fn missing_file_errors_resolve_to_fingerprints() {
    let hash = compute_fingerprint("tikzpicture", "x");
    let quoted = format!("\"generated_tikz_{}.svg\"", hash);
    assert_eq!(Tikz::is_error("failed to load file", &quoted), Some(hash));
    assert_eq!(Tikz::is_error("another message", &quoted), None);
    assert_eq!(Tikz::is_error("failed to load file", "\"other.svg\""), None);
    assert_eq!(Tikz::is_error("failed to load file", ""), None);
}

#[test]
fn fingerprints_are_stable_and_order_sensitive() {
    let a = compute_fingerprint("tikzpicture", "xy");
    let b = compute_fingerprint("tikzpicture", "xy");
    assert_eq!(a, b);
    assert_ne!(compute_fingerprint("tikzpicture", "x"), compute_fingerprint("tikzcd", "x"));
    assert_ne!(compute_fingerprint("tikzpicture", "ab"), compute_fingerprint("tikzpicture", "ba"));
}

#[test]
fn latex_document_wraps_trimmed_source() {
    let doc = latex_document("PREAMBLE", EnvKind::Tikzpicture, "  \\draw;\n");
    assert_eq!(
        doc,
        "PREAMBLE\n\\begin{tikzpicture}\n\\draw;\n\\end{tikzpicture}\n\\end{document}\n"
    );
}

#[test]
fn trim_strips_surrounding_whitespace_only() {
    assert_eq!(trim_text("  a b \t\r\n"), "a b");
    assert_eq!(trim_text(""), "");
    assert_eq!(trim_text(" \n "), "");
    assert_eq!(trim_text("x"), "x");
}

#[test]
fn failure_causes_are_worded_apart() {
    let spawn = spawn_failure_message("lualatex", "file not found");
    assert_eq!(spawn, "failed to invoke lualatex: file not found");
}
