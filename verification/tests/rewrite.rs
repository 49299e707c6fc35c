use std::cell::Cell;

use tikz_embed::scan::{extract, EnvKind, Block};
use tikz_embed::svg::MetadataFault;
use tikz_embed::fingerprint::compute_fingerprint;
use tikz_embed::tikz::Tikz;

const SVG_3CM: &str = r#"<svg xmlns="http://www.w3.org/2000/svg" width="3cm" height="2cm"></svg>"#;

fn ok_svg(svg: &'static str) -> impl Fn(&Block) -> Result<Vec<u8>, String> {
    move |_b: &Block| Ok(svg.as_bytes().to_vec())
}

#[test]
fn rewrite_success_with_width() {
    let mut t = Tikz::new();
    let input = "before #tikzpicture[\\draw (0,0) -- (1,1);] after";
    let out = t.replace(input, ok_svg(SVG_3CM)).unwrap();
    let hash = compute_fingerprint("tikzpicture", "\\draw (0,0) -- (1,1);");
    let expected = format!(
        "before #image(\"generated_tikz_{}.svg\", width: 3cm) after",
        hash
    );
    assert_eq!(out, expected);
}

#[test]
fn rewrite_failure_without_width_and_resolves_message() {
    let mut t = Tikz::new();
    let input = "before #tikzpicture[\\draw (0,0) -- (1,1);] after";
    let out = t
        .replace(input, |_b: &Block| {
            Err(String::from("Undefined control sequence."))
        })
        .unwrap();
    let hash = compute_fingerprint("tikzpicture", "\\draw (0,0) -- (1,1);");
    let expected = format!("before #image(\"generated_tikz_{}.svg\") after", hash);
    assert_eq!(out, expected);

    let name = format!("generated_tikz_{}.svg", hash);
    let decoded = Tikz::is_filename(&name).unwrap();
    assert_eq!(decoded, hash);
    match t.fetch(decoded) {
        Err(msg) => assert_eq!(msg, "Undefined control sequence."),
        Ok(_) => panic!("expected the recorded failure"),
    }
}

#[test]
fn nested_brackets_stay_one_block() {
    let blocks = extract("tikzpicture[\\node{A[1]};]");
    assert_eq!(blocks.len(), 1);
    assert_eq!(blocks[0].kind, EnvKind::Tikzpicture);
    assert_eq!(blocks[0].payload, "\\node{A[1]};");
}

#[test]
fn duplicate_blocks_render_once_and_share_placeholder() {
    let mut t = Tikz::new();
    let input = "x tikzcd[a & b] y tikzcd[a & b] z";
    let calls = Cell::new(0usize);
    let out = t
        .replace(input, |_b: &Block| {
            calls.set(calls.get() + 1);
            Ok(SVG_3CM.as_bytes().to_vec())
        })
        .unwrap();
    assert_eq!(calls.get(), 1);
    let hash = compute_fingerprint("tikzcd", "a & b");
    let one = format!("image(\"generated_tikz_{}.svg\", width: 3cm)", hash);
    let expected = format!("x {} y {} z", one, one);
    assert_eq!(out, expected);
}

#[test]
fn distinct_blocks_render_separately_in_order() {
    let mut t = Tikz::new();
    let input = "tikzpicture[a] mid tikzcd[b]";
    let calls = Cell::new(0usize);
    let out = t
        .replace(input, |b: &Block| {
            calls.set(calls.get() + 1);
            Err(format!("fail:{}", b.payload))
        })
        .unwrap();
    assert_eq!(calls.get(), 2);
    let h1 = compute_fingerprint("tikzpicture", "a");
    let h2 = compute_fingerprint("tikzcd", "b");
    let expected = format!(
        "image(\"generated_tikz_{}.svg\") mid image(\"generated_tikz_{}.svg\")",
        h1, h2
    );
    assert_eq!(out, expected);
    assert_eq!(t.fetch(h1), &Err(String::from("fail:a")));
    assert_eq!(t.fetch(h2), &Err(String::from("fail:b")));
}

#[test]
fn newlines_of_payload_are_preserved() {
    let mut t = Tikz::new();
    let input = "a tikzpicture[x\ny\n] b";
    let out = t
        .replace(input, |_b: &Block| Err(String::from("boom")))
        .unwrap();
    let hash = compute_fingerprint("tikzpicture", "x\ny\n");
    let expected = format!("a image(\"generated_tikz_{}.svg\")\n\n b", hash);
    assert_eq!(out, expected);
}

#[test]
fn text_without_blocks_is_untouched() {
    let mut t = Tikz::new();
    let input = "nothing to see here; tikz[not an env] tikzpicture(no bracket)";
    let out = t
        .replace(input, |_b: &Block| -> Result<Vec<u8>, String> {
            panic!("no render expected")
        })
        .unwrap();
    assert_eq!(out, input);
    assert_eq!(extract(input).len(), 0);
}

#[test]
fn unterminated_block_is_not_matched() {
    assert_eq!(extract("tikzpicture[never closed").len(), 0);
    assert_eq!(extract("tikzpicture[a [nested] still open").len(), 0);
}

#[test]
fn first_unbalanced_close_ends_the_payload() {
    let blocks = extract("tikzpicture[a [b] c] tail]");
    assert_eq!(blocks.len(), 1);
    assert_eq!(blocks[0].payload, "a [b] c");
}

#[test]
fn width_units_format_with_canonical_symbols() {
    for (decl, shown) in [
        ("2.5em", "2.5em"),
        ("10pt", "10pt"),
        ("3cm", "3cm"),
        ("42mm", "42mm"),
        ("1.25in", "1.25in"),
        ("50%", "50%"),
    ] {
        let mut t = Tikz::new();
        let svg = format!(
            r#"<svg xmlns="http://www.w3.org/2000/svg" width="{}"></svg>"#,
            decl
        );
        let out = t
            .replace("tikzcd[w]", move |_b: &Block| Ok(svg.clone().into_bytes()))
            .unwrap();
        let hash = compute_fingerprint("tikzcd", "w");
        let expected = format!("image(\"generated_tikz_{}.svg\", width: {})", hash, shown);
        assert_eq!(out, expected);
    }
}

#[test]
fn unsupported_unit_is_a_fault_not_a_failure() {
    let mut t = Tikz::new();
    let svg = r#"<svg xmlns="http://www.w3.org/2000/svg" width="30px"></svg>"#;
    let r = t.replace("tikzcd[w]", ok_svg(svg));
    assert_eq!(r, Err(MetadataFault::UnsupportedUnit));
}

#[test]
fn missing_width_is_a_fault_not_a_failure() {
    let mut t = Tikz::new();
    let svg = r#"<svg xmlns="http://www.w3.org/2000/svg"></svg>"#;
    let r = t.replace("tikzcd[w]", ok_svg(svg));
    assert_eq!(r, Err(MetadataFault::NoWidth));
}

#[test]
fn empty_document_stays_empty() {
    let mut t = Tikz::new();
    let out = t
        .replace("", |_b: &Block| -> Result<Vec<u8>, String> {
            panic!("no render expected")
        })
        .unwrap();
    assert_eq!(out, "");
}

#[test]
fn inner_environment_keyword_belongs_to_the_outer_payload() {
    let blocks = extract("tikzpicture[tikzcd[x]]");
    assert_eq!(blocks.len(), 1);
    assert_eq!(blocks[0].kind, EnvKind::Tikzpicture);
    assert_eq!(blocks[0].payload, "tikzcd[x]");
}

#[test]
fn extraction_reports_positions_in_order() {
    let input = "tikzcd[p] and tikzpicture[q]";
    let blocks = extract(input);
    assert_eq!(blocks.len(), 2);
    assert_eq!(blocks[0].kind, EnvKind::Tikzcd);
    assert_eq!((blocks[0].start, blocks[0].end), (0, 9));
    assert_eq!(blocks[1].kind, EnvKind::Tikzpicture);
    assert_eq!(blocks[1].payload, "q");
    assert_eq!(&input[blocks[1].start..blocks[1].end], "tikzpicture[q]");
}
