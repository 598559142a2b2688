//! The trcode table, read from parsed TOML.

use jeed::conf::TrCodeTable;
use jeed::toml::parse;

fn code(s: &str) -> [u8; 5] {
    s.as_bytes().try_into().unwrap()
}

#[test]
fn a_synthetic_table_reads_the_same_way() {
    let t = TrCodeTable::from_table(
        &parse(
            r#"
            spec_version = "9.9"
            [code]
            B601F = { interface = "IFMSRPD0034", group = "01F" }
            [code_by_channel]
            B201S = { group = "01S", by = { "증권A" = "IFMSRPD0021" } }
            "#,
        )
        .unwrap(),
    )
    .unwrap();
    assert_eq!(t.spec_version, "9.9");
    assert_eq!(t.len(), 1);
    assert!(t.knows(code("B601F")));
    assert!(t.knows(code("B201S")));
    assert!(!t.knows(code("G701F")));
}

#[test]
fn trcodes_an_empty_document_is_an_empty_table() {
    let t = TrCodeTable::from_table(&parse("").unwrap()).unwrap();
    assert!(t.is_empty());
    assert_eq!(t.spec_version, "");
    assert!(!t.knows(code("B601F")));
}

#[test]
fn a_key_that_is_not_five_bytes_is_refused() {
    let e = TrCodeTable::from_table(&parse("[code]\nB601 = { interface = \"X\" }").unwrap()).unwrap_err();
    assert_eq!(e.to_string(), "code: `B601` is not a five-byte trcode");
}

// ── beyond the cases above ──────────────────────────────────────────────

#[test]
fn interfaces_come_from_code_only() {
    let t = TrCodeTable::from_table(
        &parse(
            "channel_spec_version = \"1.26\"\n[code]\nG701F = { interface = \"IFMSRPD0037\" }\nH101F = { group = \"01F\" }\n[code_by_channel]\nB201S = {}",
        )
        .unwrap(),
    )
    .unwrap();
    assert_eq!(t.channel_spec_version, "1.26");
    assert_eq!(t.interface_of(code("G701F")), Some("IFMSRPD0037"));
    assert_eq!(t.interface_of(code("H101F")), Some(""));
    assert_eq!(t.interface_of(code("B201S")), None);
    assert!(t.knows(code("B201S")));
    assert_eq!(t.len(), 2);
}

#[test]
fn a_version_or_section_of_the_wrong_kind_is_refused() {
    let e = TrCodeTable::from_table(&parse("spec_version = 1").unwrap()).unwrap_err();
    assert_eq!(e.to_string(), "top level: `spec_version` must be a string, found integer");
    let e = TrCodeTable::from_table(&parse("code = [1]").unwrap()).unwrap_err();
    assert_eq!(e.to_string(), "top level: `code` must be a table, found array");
    let e = TrCodeTable::from_table(&parse("[code_by_channel]\nAB = 1").unwrap()).unwrap_err();
    assert_eq!(e.to_string(), "code_by_channel: `AB` is not a five-byte trcode");
}

#[test]
fn the_code_list_is_the_code_section_in_file_order() {
    let t = TrCodeTable::from_table(
        &parse(
            r#"
            [code]
            G701F = { interface = "IFMSRPD0001" }
            B601F = { interface = "IFMSRPD0034" }
            [code_by_channel]
            B201S = { group = "01S" }
            "#,
        )
        .unwrap(),
    )
    .unwrap();
    assert_eq!(t.codes(), vec![code("G701F"), code("B601F")]);
}
