use uefi_dxe::depex::{guid_from_slice, is_well_formed, Depex, DepexParser, Opcode};
use uefi_dxe::protocol_db::{Guid, ProtocolDb};

/// The GUID of a protocol written in its textual form, as its bytes appear
/// in a dependency expression.
fn depex_guid(text: &str) -> Guid {
    let uuid = uuid::Uuid::parse_str(text).unwrap();
    Guid::from_bytes(&uuid.to_bytes_le())
}

fn eval_bytes(bytes: &[u8], db: &ProtocolDb) -> bool {
    let mut depex = Depex::from_bytes(bytes);
    depex.eval(db)
}

#[test]
fn true_should_eval_true() {
    let db = ProtocolDb::new();
    assert_eq!(eval_bytes(&[0x06, 0x08], &db), true);
}

#[test]
fn false_should_eval_false() {
    let db = ProtocolDb::new();
    assert_eq!(eval_bytes(&[0x07, 0x08], &db), false);
}

fn try_eval_bytes(bytes: &[u8], db: &ProtocolDb) -> Option<bool> {
    let mut depex = Depex::from_bytes(bytes);
    depex.try_eval(db)
}

#[test]
fn before_is_refused() {
    let db = ProtocolDb::new();
    assert_eq!(try_eval_bytes(&[0x00, 0x08], &db), None);
}

#[test]
fn after_is_refused() {
    let db = ProtocolDb::new();
    assert_eq!(try_eval_bytes(&[0x01, 0x08], &db), None);
}

#[test]
fn sor_first_opcode_should_eval_false() {
    let db = ProtocolDb::new();
    // Treated as a no-op; with no other operand, false is returned.
    assert_eq!(eval_bytes(&[0x09, 0x08], &db), false);
}

#[test]
fn sor_first_opcode_followed_by_true_should_eval_true() {
    let db = ProtocolDb::new();
    assert_eq!(eval_bytes(&[0x09, 0x06, 0x08], &db), true);
}

#[test]
fn sor_after_the_first_opcode_is_refused() {
    let db = ProtocolDb::new();
    assert_eq!(try_eval_bytes(&[0x06, 0x09, 0x08], &db), None);
    // An END before it ends the evaluation first.
    assert_eq!(try_eval_bytes(&[0x06, 0x08, 0x09], &db), Some(true));
}

#[test]
fn unknown_opcodes_are_refused() {
    let db = ProtocolDb::new();
    assert_eq!(try_eval_bytes(&[0xFF, 0x08], &db), None);
    assert_eq!(try_eval_bytes(&[0xE0, 0x08], &db), None);
    assert_eq!(try_eval_bytes(&[0x06, 0x08], &db), Some(true));
}

#[test]
fn not_true_should_eval_false() {
    let db = ProtocolDb::new();
    // The value is the top of the stack: FALSE, TRUE leaves TRUE on top.
    assert_eq!(eval_bytes(&[0x07, 0x06, 0x08], &db), true);
}

#[test]
fn not_false_should_eval_true() {
    let db = ProtocolDb::new();
    assert_eq!(eval_bytes(&[0x07, 0x05, 0x08], &db), true);
}

#[test]
fn not_negates_the_top_of_the_stack() {
    let db = ProtocolDb::new();
    assert_eq!(eval_bytes(&[0x06, 0x05, 0x08], &db), false);
    assert_eq!(eval_bytes(&[0x07, 0x05, 0x08], &db), true);
}

#[test]
fn and_or_combine_the_two_top_values() {
    let db = ProtocolDb::new();
    assert_eq!(eval_bytes(&[0x06, 0x07, 0x03, 0x08], &db), false);
    assert_eq!(eval_bytes(&[0x06, 0x06, 0x03, 0x08], &db), true);
    assert_eq!(eval_bytes(&[0x06, 0x07, 0x04, 0x08], &db), true);
    assert_eq!(eval_bytes(&[0x07, 0x07, 0x04, 0x08], &db), false);
}

#[test]
fn an_expression_without_end_evaluates_false() {
    let db = ProtocolDb::new();
    assert_eq!(eval_bytes(&[0x06], &db), false);
    assert_eq!(eval_bytes(&[], &db), false);
}

#[test]
fn all_protocols_installed_and_should_eval_true() {
    let mut db = ProtocolDb::new();
    let texts = [
        "13a3f0f6-264a-3ef0-f2e0-dec512342f34",
        "0379be4e-d706-437d-b037-edb82fb772a4",
        "0fd96974-23aa-4cdc-b9cb-98d17750322a",
        "ef9fc172-a1b2-4693-b327-6d32fc416042",
        "587e72d7-cc50-4f79-8209-ca291fc1a10f",
        "27cfac88-46cc-11d4-9a38-0090273fc14d",
        "6441f818-6362-eb44-5700-7dba31dd2453",
        "1e5668e2-8481-11d4-bcf1-0080c73c8881",
    ];
    let interface: usize = 0x1234;
    for text in texts {
        db.install_protocol_interface(None, depex_guid(text), interface).unwrap();
    }

    let expression: &[u8] = &[
        0x02, 0xF6, 0xF0, 0xA3, 0x13, 0x4A, 0x26, 0xF0, 0x3E, 0xF2, 0xE0, 0xDE, 0xC5, 0x12, 0x34, 0x2F, 0x34, 0x02, 0x4E,
        0xBE, 0x79, 0x03, 0x06, 0xD7, 0x7D, 0x43, 0xB0, 0x37, 0xED, 0xB8, 0x2F, 0xB7, 0x72, 0xA4, 0x02, 0x74, 0x69, 0xD9,
        0x0F, 0xAA, 0x23, 0xDC, 0x4C, 0xB9, 0xCB, 0x98, 0xD1, 0x77, 0x50, 0x32, 0x2A, 0x02, 0x72, 0xC1, 0x9F, 0xEF, 0xB2,
        0xA1, 0x93, 0x46, 0xB3, 0x27, 0x6D, 0x32, 0xFC, 0x41, 0x60, 0x42, 0x02, 0xD7, 0x72, 0x7E, 0x58, 0x50, 0xCC, 0x79,
        0x4F, 0x82, 0x09, 0xCA, 0x29, 0x1F, 0xC1, 0xA1, 0x0F, 0x02, 0x88, 0xAC, 0xCF, 0x27, 0xCC, 0x46, 0xD4, 0x11, 0x9A,
        0x38, 0x00, 0x90, 0x27, 0x3F, 0xC1, 0x4D, 0x02, 0x18, 0xF8, 0x41, 0x64, 0x62, 0x63, 0x44, 0xEB, 0x57, 0x00, 0x7D,
        0xBA, 0x31, 0xDD, 0x24, 0x53, 0x02, 0xE2, 0x68, 0x56, 0x1E, 0x81, 0x84, 0xD4, 0x11, 0xBC, 0xF1, 0x00, 0x80, 0xC7,
        0x3C, 0x88, 0x81, 0x03, 0x03, 0x03, 0x03, 0x03, 0x03, 0x03, 0x08,
    ];
    let mut depex = Depex::from_bytes(&expression.to_vec());

    assert_eq!(depex.eval(&db), true);
}

#[test]
fn all_protocols_installed_or_and_should_eval_true() {
    let mut db = ProtocolDb::new();
    let texts = [
        "1e5668e2-8481-11d4-bcf1-0080c73c8881",
        "6441f818-6362-eb44-5700-7dba31dd2453",
        "f541796d-a62e-4954-a775-9584f61b9cdd",
        "607f766c-7455-42be-930b-e4d76db2720f",
        "13a3f0f6-264a-3ef0-f2e0-dec512342f34",
        "0379be4e-d706-437d-b037-edb82fb772a4",
    ];
    let interface: usize = 0x1234;
    for text in texts {
        db.install_protocol_interface(None, depex_guid(text), interface).unwrap();
    }

    let expression: &[u8] = &[
        0x02, 0xE2, 0x68, 0x56, 0x1E, 0x81, 0x84, 0xD4, 0x11, 0xBC, 0xF1, 0x00, 0x80, 0xC7, 0x3C, 0x88, 0x81, 0x02, 0x18,
        0xF8, 0x41, 0x64, 0x62, 0x63, 0x44, 0xEB, 0x57, 0x0, 0x7D, 0xBA, 0x31, 0xDD, 0x24, 0x53, 0x02, 0x6D, 0x79, 0x41,
        0xF5, 0x2E, 0xA6, 0x54, 0x49, 0xA7, 0x75, 0x95, 0x84, 0xF6, 0x1B, 0x9C, 0xDD, 0x02, 0x6C, 0x76, 0x7F, 0x60, 0x55,
        0x74, 0xBE, 0x42, 0x93, 0x0B, 0xE4, 0xD7, 0x6D, 0xB2, 0x72, 0x0F, 0x04, 0x03, 0x03, 0x02, 0xF6, 0xF0, 0xA3, 0x13,
        0x4A, 0x26, 0xF0, 0x3E, 0xF2, 0xE0, 0xDE, 0xC5, 0x12, 0x34, 0x2F, 0x34, 0x02, 0x4E, 0xBE, 0x79, 0x03, 0x06, 0xD7,
        0x7D, 0x43, 0xB0, 0x37, 0xED, 0xB8, 0x2F, 0xB7, 0x72, 0xA4, 0x03, 0x03, 0x08,
    ];
    let mut depex = Depex::from_bytes(&expression.to_vec());

    assert_eq!(depex.eval(&db), true);
}

#[test]
fn guid_to_uuid_conversion_should_produce_correct_bytes() {
    let device_path_protocol_guid_bytes: &[u8] =
        &[0x4E, 0xBE, 0x79, 0x03, 0x06, 0xD7, 0x7D, 0x43, 0xB0, 0x37, 0xED, 0xB8, 0x2F, 0xB7, 0x72, 0xA4];

    let guid = guid_from_slice(device_path_protocol_guid_bytes, 0);
    assert_eq!(guid, depex_guid("0379be4e-d706-437d-b037-edb82fb772a4"));

    let mut bytes = [0u8; 16];
    bytes.copy_from_slice(device_path_protocol_guid_bytes);
    assert_eq!(guid.0, u128::from_be_bytes(bytes));
}

#[test]
fn a_missing_protocol_evaluates_false_and_stays_unmarked() {
    let db = ProtocolDb::new();
    let mut bytes = vec![0x02];
    bytes.extend_from_slice(&uuid::Uuid::parse_str("0379be4e-d706-437d-b037-edb82fb772a4").unwrap().to_bytes_le());
    bytes.push(0x08);
    let mut depex = Depex::from_bytes(&bytes);
    assert_eq!(depex.eval(&db), false);
    assert_eq!(depex.expression[0], Opcode::Push(Some(depex_guid("0379be4e-d706-437d-b037-edb82fb772a4")), false));
}

#[test]
fn a_found_protocol_is_marked_and_evaluation_is_stable() {
    let mut db = ProtocolDb::new();
    let guid = depex_guid("0379be4e-d706-437d-b037-edb82fb772a4");
    db.install_protocol_interface(None, guid, 0x1234).unwrap();
    let mut bytes = vec![0x02];
    bytes.extend_from_slice(&uuid::Uuid::parse_str("0379be4e-d706-437d-b037-edb82fb772a4").unwrap().to_bytes_le());
    bytes.push(0x08);
    let mut depex = Depex::from_bytes(&bytes);
    assert_eq!(depex.eval(&db), true);
    assert_eq!(depex.expression[0], Opcode::Push(Some(guid), true));
    // A second evaluation gives the same value.
    assert_eq!(depex.eval(&db), true);
}

#[test]
fn parser_yields_each_opcode_once() {
    let mut parser = DepexParser::new(&[0x09, 0x06, 0x07, 0x04, 0x08]);
    let mut ops = Vec::new();
    while let Some(op) = parser.next() {
        ops.push(op);
    }
    assert_eq!(ops, vec![Opcode::Sor, Opcode::True, Opcode::False, Opcode::Or, Opcode::End]);
}

#[test]
fn from_opcodes_keeps_the_opcodes() {
    let db = ProtocolDb::new();
    let mut depex = Depex::from_opcodes(&[Opcode::False, Opcode::Not, Opcode::End]);
    assert_eq!(depex.expression.len(), 3);
    assert_eq!(depex.eval(&db), true);
}

#[test]
fn opcode_from_bytes_reads_a_push_guid_only_with_more_than_seventeen_bytes() {
    let mut bytes = vec![0x02];
    bytes.extend_from_slice(&[0x11; 16]);
    assert_eq!(Opcode::from_bytes(&bytes), Opcode::Push(None, false));
    bytes.push(0x08);
    assert_eq!(Opcode::from_bytes(&bytes), Opcode::Push(Some(Guid(0x1111_1111_1111_1111_1111_1111_1111_1111)), false));
    assert_eq!(Opcode::from_bytes(&[0x0A]), Opcode::Unknown);
}

#[test]
fn a_push_needs_sixteen_guid_bytes() {
    assert!(is_well_formed(&[0x06, 0x08]));
    assert!(is_well_formed(&[]));
    let mut bytes = vec![0x02];
    bytes.extend_from_slice(&[0u8; 15]);
    assert!(!is_well_formed(&bytes));
    bytes.push(0);
    assert!(is_well_formed(&bytes));
    bytes.push(0x02);
    assert!(!is_well_formed(&bytes));
}

#[test]
fn parser_reads_an_opcode_before_a_short_push() {
    let mut parser = DepexParser::new(&[0x06, 0x02]);
    assert_eq!(parser.next(), Some(Opcode::True));
    assert_eq!(parser.index, 1);
}

#[test]
fn parser_skips_the_guid_of_a_push() {
    let mut bytes = vec![0x02];
    bytes.extend_from_slice(&[0x22; 16]);
    bytes.push(0x08);
    let mut parser = DepexParser::new(&bytes);
    assert_eq!(parser.next(), Some(Opcode::Push(Some(Guid(0x2222_2222_2222_2222_2222_2222_2222_2222)), false)));
    assert_eq!(parser.index, 17);
    assert_eq!(parser.next(), Some(Opcode::End));
    assert_eq!(parser.index, 18);
    assert_eq!(parser.next(), None);
}
