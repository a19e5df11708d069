use raf::codec::decode_with_codec;
use raf::codec::latin1_decode_bytes;
use raf::codec::latin1_encode_str;
use raf::codec::PdfCodec;
use raf::error::RedactError;
use raf::pattern::get_pattern_vec;
use raf::pattern::Pattern;
use raf::pattern::CompiledPattern;
use raf::pdf::font_encoding_for;
use raf::pdf::replace_text;
use raf::pdf::PdfObject;
use raf::pdf::PdfOperation;
use raf::pdf::PdfPage;
use raf::pdf::PdfStrFormat;

fn number_patterns() -> Vec<CompiledPattern> {
    let catalog = vec![Pattern {
        pattern: "\\d+".to_string(),
        types: vec!["numbers".to_string()],
    }];
    get_pattern_vec(catalog, &vec!["numbers".to_string()]).unwrap()
}

fn tf_op() -> PdfOperation {
    PdfOperation {
        operator: vec![b'T', b'f'],
        operands: vec![
            PdfObject::Name(vec![b'F', b'1']),
            PdfObject::Other(lopdf::Object::Integer(12)),
        ],
    }
}

#[test]
fn pdf_page_matched_bytes_no_longer_appear() {
    let patterns = number_patterns();
    let show = PdfOperation {
        operator: vec![b'T', b'j'],
        operands: vec![PdfObject::Text(b"account 123 shown".to_vec(), PdfStrFormat::Literal)],
    };
    let page = PdfPage {
        fonts: vec![(vec![b'F', b'1'], "WinAnsiEncoding".to_string())],
        operations: vec![tf_op(), show],
    };
    let mut pages = vec![page];
    let recs = replace_text(&mut pages, &patterns).unwrap();
    assert_eq!(recs.len(), 1);
    assert_eq!(recs[0].unredacted_text, "123");
    match &pages[0].operations[1].operands[0] {
        PdfObject::Text(bytes, format) => {
            assert_eq!(*format, PdfStrFormat::Literal);
            let shown = latin1_decode_bytes(bytes);
            assert!(!shown.contains("123"));
            assert!(shown.starts_with("account [REDACTED:"));
            assert!(shown.ends_with("] shown"));
        },
        _ => panic!("expected a string operand"),
    }
    // the font table still declares the encoding that was tracked
    let declared = font_encoding_for(&pages[0], &vec![b'F', b'1']).unwrap();
    assert_eq!(declared, "WinAnsiEncoding");
    assert!(font_encoding_for(&pages[0], &vec![b'F', b'9']).is_none());
}

#[test]
fn pdf_array_operands_are_recursed_into() {
    let patterns = number_patterns();
    let show = PdfOperation {
        operator: vec![b'T', b'J'],
        operands: vec![PdfObject::Array(vec![
            PdfObject::Text(b"id 77".to_vec(), PdfStrFormat::Literal),
            PdfObject::Other(lopdf::Object::Integer(-250)),
            PdfObject::Text(b"and 88".to_vec(), PdfStrFormat::Hexadecimal),
        ])],
    };
    let mut pages = vec![PdfPage { fonts: vec![], operations: vec![show] }];
    let recs = replace_text(&mut pages, &patterns).unwrap();
    assert_eq!(recs.len(), 2);
    assert_eq!(recs[0].unredacted_text, "77");
    assert_eq!(recs[1].unredacted_text, "88");
    match &pages[0].operations[0].operands[0] {
        PdfObject::Array(items) => {
            assert_eq!(items.len(), 3);
            match &items[0] {
                PdfObject::Text(bytes, _) => {
                    let s = latin1_decode_bytes(bytes);
                    assert!(!s.contains("77"));
                },
                _ => panic!("expected a string operand"),
            }
            assert!(matches!(items[1], PdfObject::Other(_)));
        },
        _ => panic!("expected an array operand"),
    }
}

#[test]
fn pdf_non_text_operations_are_untouched() {
    let patterns = number_patterns();
    let move_op = PdfOperation {
        operator: vec![b'T', b'd'],
        operands: vec![PdfObject::Text(b"99".to_vec(), PdfStrFormat::Literal)],
    };
    let mut pages = vec![PdfPage { fonts: vec![], operations: vec![move_op] }];
    let recs = replace_text(&mut pages, &patterns).unwrap();
    assert!(recs.is_empty());
    match &pages[0].operations[0].operands[0] {
        PdfObject::Text(bytes, _) => assert_eq!(bytes, b"99"),
        _ => panic!("expected a string operand"),
    }
}

#[test]
fn pdf_missing_font_operand_aborts_the_file() {
    let patterns = number_patterns();
    let bad_tf = PdfOperation { operator: vec![b'T', b'f'], operands: vec![] };
    let mut pages = vec![PdfPage { fonts: vec![], operations: vec![bad_tf] }];
    let err = replace_text(&mut pages, &patterns).unwrap_err();
    assert_eq!(err, RedactError::DocumentPageError);

    let not_a_name = PdfOperation {
        operator: vec![b'T', b'f'],
        operands: vec![PdfObject::Text(b"F1".to_vec(), PdfStrFormat::Literal)],
    };
    let mut pages = vec![PdfPage { fonts: vec![], operations: vec![not_a_name] }];
    let err = replace_text(&mut pages, &patterns).unwrap_err();
    assert_eq!(err, RedactError::DocumentPageError);
}

#[test]
fn pdf_latin1_high_bytes_survive_redaction() {
    let patterns = number_patterns();
    // "café 77" in Latin-1
    let show = PdfOperation {
        operator: vec![b'T', b'j'],
        operands: vec![PdfObject::Text(
            vec![0x63, 0x61, 0x66, 0xE9, 0x20, 0x37, 0x37],
            PdfStrFormat::Literal,
        )],
    };
    let mut pages = vec![PdfPage { fonts: vec![], operations: vec![show] }];
    let recs = replace_text(&mut pages, &patterns).unwrap();
    assert_eq!(recs.len(), 1);
    assert_eq!(recs[0].unredacted_text, "77");
    match &pages[0].operations[0].operands[0] {
        PdfObject::Text(bytes, _) => {
            assert_eq!(&bytes[0..5], &[0x63, 0x61, 0x66, 0xE9, 0x20]);
            let shown = latin1_decode_bytes(bytes);
            assert_eq!(shown, format!("café [REDACTED:{}]", recs[0].redacted_text));
        },
        _ => panic!("expected a string operand"),
    }
}

#[test]
fn winansi_font_selects_the_windows_codec() {
    let patterns = number_patterns();
    // 0x93 is a left double quotation mark under windows-1252
    let show = PdfOperation {
        operator: vec![b'T', b'j'],
        operands: vec![PdfObject::Text(vec![0x93, 0x20, 0x35, 0x35], PdfStrFormat::Literal)],
    };
    let page = PdfPage {
        fonts: vec![(vec![b'F', b'1'], "WinAnsiEncoding".to_string())],
        operations: vec![tf_op(), show],
    };
    let mut pages = vec![page];
    let recs = replace_text(&mut pages, &patterns).unwrap();
    assert_eq!(recs.len(), 1);
    assert_eq!(recs[0].unredacted_text, "55");
    match &pages[0].operations[1].operands[0] {
        PdfObject::Text(bytes, _) => {
            // the quotation mark survives the windows-1252 round trip
            assert_eq!(bytes[0], 0x93);
            let shown = decode_with_codec(PdfCodec::WinAnsi, bytes);
            assert_eq!(shown, format!("“ [REDACTED:{}]", recs[0].redacted_text));
        },
        _ => panic!("expected a string operand"),
    }
}

#[test]
fn latin1_codec_round_trips_single_byte_text() {
    let bytes = vec![0x41, 0xE9, 0x20, 0x31];
    let decoded = latin1_decode_bytes(&bytes);
    assert_eq!(decoded, "Aé 1");
    let encoded = latin1_encode_str(&decoded);
    assert_eq!(encoded, bytes);
}

#[test]
fn latin1_encoding_drops_wide_characters() {
    let encoded = latin1_encode_str(&"A✓B".to_string());
    assert_eq!(encoded, vec![0x41, 0x42]);
}
