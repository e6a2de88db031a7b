use wowctl::fingerprint::{compute_fingerprint, compute_folder_fingerprint, extract_file_attribute, murmurhash2, parse_xml_file_references, strip_whitespace};

#[test]
fn murmurhash2_empty_seed_zero() {
    assert_eq!(murmurhash2(b"", 0), 0);
}

#[test]
fn murmurhash2_empty_seed_one() {
    assert_eq!(murmurhash2(b"", 1), 1540447798);
}

#[test]
fn murmurhash2_single_byte() {
    assert_eq!(murmurhash2(b"a", 1), 626045324);
}

#[test]
fn murmurhash2_two_bytes() {
    assert_eq!(murmurhash2(b"ab", 1), 1692487918);
}

#[test]
fn murmurhash2_three_bytes() {
    assert_eq!(murmurhash2(b"abc", 1), 1621425345);
}

#[test]
fn murmurhash2_one_block() {
    assert_eq!(murmurhash2(b"abcd", 1), 3376380438);
}

#[test]
fn murmurhash2_multi_block_with_tail() {
    assert_eq!(murmurhash2(b"Hello, World!", 1), 613646864);
}

#[test]
fn murmurhash2_longer_input() {
    assert_eq!(murmurhash2(b"local function foo() end", 1), 3542671579);
}

#[test]
fn murmurhash2_seed_zero_nonzero_input() {
    assert_eq!(murmurhash2(b"abcd", 0), 646393889);
}

#[test]
fn murmurhash2_deterministic() {
    let data = b"the quick brown fox";
    let h1 = murmurhash2(data, 1);
    let h2 = murmurhash2(data, 1);
    assert_eq!(h1, h2);
}

#[test]
fn murmurhash2_different_seeds_differ() {
    let data = b"test";
    assert_ne!(murmurhash2(data, 0), murmurhash2(data, 1));
}

#[test]
fn murmurhash2_different_inputs_differ() {
    assert_ne!(murmurhash2(b"foo", 1), murmurhash2(b"bar", 1));
}

#[test]
fn strip_whitespace_removes_all_types() {
    let input = b"a\tb\nc\rd e";
    let stripped = strip_whitespace(input);
    assert_eq!(stripped, b"abcde");
}

#[test]
fn strip_whitespace_preserves_non_whitespace() {
    let input = b"hello";
    assert_eq!(strip_whitespace(input), b"hello");
}

#[test]
fn strip_whitespace_all_whitespace() {
    let input = b" \t\n\r \t\n\r";
    assert_eq!(strip_whitespace(input), b"");
}

#[test]
fn strip_whitespace_empty() {
    assert_eq!(strip_whitespace(b""), b"");
}

#[test]
fn compute_fingerprint_strips_then_hashes() {
    let with_ws = b"local  function\tfoo()\n\r  end";
    let without_ws = b"localfunctionfoo()end";
    assert_eq!(compute_fingerprint(with_ws), murmurhash2(without_ws, 1));
    assert_eq!(compute_fingerprint(with_ws), 3396904022);
}

#[test]
fn compute_fingerprint_no_whitespace_identity() {
    let data = b"nospaces";
    assert_eq!(compute_fingerprint(data), murmurhash2(data, 1));
}

#[test]
fn compute_folder_fingerprint_single_file() {
    let contents = b"local x = 1";
    assert_eq!(
        compute_folder_fingerprint(&[contents]),
        compute_fingerprint(contents)
    );
}

#[test]
fn compute_folder_fingerprint_multiple_files() {
    let file_a = b"local a = 1\n";
    let file_b = b"local b = 2\n";
    let hash = compute_folder_fingerprint(&[file_a, file_b]);

    let mut combined = strip_whitespace(file_a);
    combined.extend(strip_whitespace(file_b));
    assert_eq!(hash, murmurhash2(&combined, 1));
}

#[test]
fn compute_folder_fingerprint_empty() {
    assert_eq!(compute_folder_fingerprint(&[]), murmurhash2(b"", 1));
}

#[test]
fn compute_folder_fingerprint_order_matters() {
    let file_a = b"aaa";
    let file_b = b"bbb";
    let ab = compute_folder_fingerprint(&[file_a, file_b]);
    let ba = compute_folder_fingerprint(&[file_b, file_a]);
    assert_ne!(ab, ba);
}

#[test]
fn xml_parses_script_tag() {
    let xml = r#"<Ui><Script file="Core.lua"/></Ui>"#;
    assert_eq!(parse_xml_file_references(xml), vec!["Core.lua"]);
}

#[test]
fn xml_parses_include_tag() {
    let xml = r#"<Ui><Include file="Sub.xml"/></Ui>"#;
    assert_eq!(parse_xml_file_references(xml), vec!["Sub.xml"]);
}

#[test]
fn xml_parses_multiple_references() {
    let xml = r#"<Ui>
  <Script file="Init.lua"/>
  <Include file="Modules.xml"/>
  <Script file="Core.lua"/>
</Ui>"#;
    assert_eq!(
        parse_xml_file_references(xml),
        vec!["Init.lua", "Modules.xml", "Core.lua"]
    );
}

#[test]
fn xml_handles_case_insensitive_tags() {
    let xml = r#"<Ui><SCRIPT File="a.lua"/><INCLUDE FILE="b.xml"/></Ui>"#;
    assert_eq!(parse_xml_file_references(xml), vec!["a.lua", "b.xml"]);
}

#[test]
fn xml_handles_single_quotes() {
    let xml = r#"<Script file='test.lua'/>"#;
    assert_eq!(parse_xml_file_references(xml), vec!["test.lua"]);
}

#[test]
fn xml_handles_non_self_closing_tags() {
    let xml = r#"<Script file="test.lua"></Script>"#;
    assert_eq!(parse_xml_file_references(xml), vec!["test.lua"]);
}

#[test]
fn xml_handles_extra_whitespace_around_equals() {
    let xml = r#"<Script file = "test.lua" />"#;
    assert_eq!(parse_xml_file_references(xml), vec!["test.lua"]);
}

#[test]
fn xml_skips_empty_file_attribute() {
    let xml = r#"<Script file=""/>"#;
    assert_eq!(parse_xml_file_references(xml), Vec::<String>::new());
}

#[test]
fn xml_no_matches_in_plain_text() {
    let xml = r#"<Ui><Frame name="MyFrame"/></Ui>"#;
    assert_eq!(parse_xml_file_references(xml), Vec::<String>::new());
}

#[test]
fn xml_handles_paths_with_backslashes() {
    let xml = r#"<Include file="Libs\LibStub.xml"/>"#;
    assert_eq!(parse_xml_file_references(xml), vec!["Libs\\LibStub.xml"]);
}

#[test]
fn extract_file_double_quotes() {
    assert_eq!(
        extract_file_attribute(r#"<Script file="test.lua"/>"#),
        Some("test.lua".into())
    );
}

#[test]
fn extract_file_single_quotes() {
    assert_eq!(
        extract_file_attribute(r#"<Script file='test.lua'/>"#),
        Some("test.lua".into())
    );
}

#[test]
fn extract_file_no_attribute() {
    assert_eq!(extract_file_attribute(r#"<Frame name="test"/>"#), None);
}

