use mzkana_core::codec::{decode, find_bytes, find_msg, find_varint, write_len_field, write_varint_field, Value};
use mzkana_core::proto::{
    decode_response, encode_command, input_create_session, input_delete_session, input_revert,
    input_select_candidate, input_send_kana, input_send_key_code_with_mods, input_send_special,
    input_send_special_with_mods, input_submit, input_turn_on_ime, COMPOSITION_HIRAGANA, SPECIAL_BACKSPACE,
    SPECIAL_LEFT,
};

fn round_trip_varint(field: u32, value: u64) {
    let mut buf = Vec::new();
    write_varint_field(&mut buf, field, value);
    let fields = decode(&buf).unwrap();
    assert_eq!(find_varint(&fields, field), Some(value));
}

#[test]
fn codec_varint_roundtrip_small() {
    round_trip_varint(1, 0);
    round_trip_varint(1, 1);
    round_trip_varint(2, 127);
    round_trip_varint(3, 128);
    round_trip_varint(15, u64::MAX);
}

#[test]
fn codec_len_field_roundtrip() {
    let data = "かきくけこ".as_bytes();
    let mut buf = Vec::new();
    write_len_field(&mut buf, 5, data);
    let fields = decode(&buf).unwrap();
    assert_eq!(find_bytes(&fields, 5), Some(data));
}

#[test]
fn codec_multiple_fields() {
    let mut buf = Vec::new();
    write_varint_field(&mut buf, 1, 42);
    write_len_field(&mut buf, 2, b"hello");
    write_varint_field(&mut buf, 3, 99);
    let fields = decode(&buf).unwrap();
    assert_eq!(find_varint(&fields, 1), Some(42));
    assert_eq!(find_bytes(&fields, 2), Some(b"hello".as_slice()));
    assert_eq!(find_varint(&fields, 3), Some(99));
}

#[test]
fn codec_nested_message_roundtrip() {
    let mut inner = Vec::new();
    write_len_field(&mut inner, 2, "かな".as_bytes());
    let mut outer = Vec::new();
    write_varint_field(&mut outer, 1, 7);
    write_len_field(&mut outer, 4, &inner);
    let fields = decode(&outer).unwrap();
    assert_eq!(find_varint(&fields, 1), Some(7));
    let inner_fields = find_msg(&fields, 4).unwrap();
    assert_eq!(find_bytes(&inner_fields, 2), Some("かな".as_bytes()));
}

#[test]
fn codec_group_encode_decode() {
    let mut buf = Vec::new();
    write_varint_field(&mut buf, 1, 3);
    buf.push(0x13);
    write_varint_field(&mut buf, 3, 2);
    write_len_field(&mut buf, 4, "変換".as_bytes());
    buf.push(0x14);

    let fields = decode(&buf).unwrap();
    assert_eq!(find_varint(&fields, 1), Some(3));
    let seg_fields = find_msg(&fields, 2).unwrap();
    assert_eq!(find_varint(&seg_fields, 3), Some(2));
    assert_eq!(find_bytes(&seg_fields, 4), Some("変換".as_bytes()));
}

#[test]
fn proto_encode_send_kana_is_non_empty() {
    let encoded = encode_command(&input_send_kana(1234, "あ"));
    assert!(!encoded.is_empty());
    let fields = decode(&encoded).unwrap();
    assert_eq!(find_varint(&fields, 1), Some(3), "Input.type should be SEND_KEY=3");
    assert_eq!(find_varint(&fields, 2), Some(1234), "Input.id should be 1234");
}

#[test]
fn decode_response_full_roundtrip() {
    let mut result_msg = Vec::new();
    write_varint_field(&mut result_msg, 1, 1);
    write_len_field(&mut result_msg, 2, "変換".as_bytes());

    let mut preedit_msg = Vec::new();
    write_varint_field(&mut preedit_msg, 1, 2);
    preedit_msg.push(0x13);
    write_varint_field(&mut preedit_msg, 3, 1);
    write_len_field(&mut preedit_msg, 4, "か".as_bytes());
    write_varint_field(&mut preedit_msg, 5, 1);
    preedit_msg.push(0x14);
    preedit_msg.push(0x13);
    write_varint_field(&mut preedit_msg, 3, 2);
    write_len_field(&mut preedit_msg, 4, "な".as_bytes());
    write_varint_field(&mut preedit_msg, 5, 1);
    preedit_msg.push(0x14);

    let mut output_msg = Vec::new();
    write_varint_field(&mut output_msg, 1, 42);
    write_varint_field(&mut output_msg, 2, 1);
    write_varint_field(&mut output_msg, 3, 1);
    write_len_field(&mut output_msg, 4, &result_msg);
    write_len_field(&mut output_msg, 5, &preedit_msg);

    let out = decode_response(&output_msg).expect("decode_response failed");
    assert_eq!(out.session_id, Some(42));
    assert_eq!(out.mode, 1);
    assert!(out.consumed);
    assert_eq!(out.result_value.as_deref(), Some("変換"));
    assert_eq!(out.preedit_text, "かな");
    assert!(out.preedit_has_highlight, "HIGHLIGHT segment should be detected");
}

// ── Own tests ────────────────────────────────────────────────────────────────

#[test]
fn varint_bytes_are_base_128() {
    let mut buf = Vec::new();
    write_varint_field(&mut buf, 1, 300);
    assert_eq!(buf, vec![0x08, 0xAC, 0x02]);
}

#[test]
fn len_field_bytes() {
    let mut buf = Vec::new();
    write_len_field(&mut buf, 2, b"hi");
    assert_eq!(buf, vec![0x12, 0x02, b'h', b'i']);
}

#[test]
fn truncated_varint_is_an_error() {
    let e = decode(&[0x08, 0x80]).unwrap_err();
    assert_eq!(e.0, "truncated varint");
    assert!(e.message().starts_with("protobuf decode error: "));
}

#[test]
fn unsupported_wire_type_is_an_error() {
    assert!(decode(&[0x0D, 0, 0, 0, 0]).is_err());
}

#[test]
fn decoded_group_holds_its_fields() {
    let buf = vec![0x13, 0x18, 0x02, 0x14];
    let fields = decode(&buf).unwrap();
    assert_eq!(fields.len(), 1);
    assert!(matches!(&fields[0].1, Value::Group(g) if g.len() == 1));
}

#[test]
fn create_session_bytes() {
    assert_eq!(input_create_session().0, vec![0x08, 0x01]);
}

#[test]
fn delete_session_bytes() {
    assert_eq!(input_delete_session(5).0, vec![0x08, 0x02, 0x10, 0x05]);
}

#[test]
fn send_kana_bytes() {
    // type=3, id=1, key={key_string="a", input_style=AS_IS}
    assert_eq!(
        input_send_kana(1, "a").0,
        vec![0x08, 0x03, 0x10, 0x01, 0x1A, 0x05, 0x2A, 0x01, b'a', 0x30, 0x01]
    );
}

#[test]
fn send_special_bytes() {
    // key={special_key=BACKSPACE, input_style=FOLLOW_MODE}
    assert_eq!(
        input_send_special(1, SPECIAL_BACKSPACE).0,
        vec![0x08, 0x03, 0x10, 0x01, 0x1A, 0x04, 0x18, 0x0C, 0x30, 0x00]
    );
}

#[test]
fn send_special_with_mods_lists_shift_ctrl_alt() {
    // mods Shift|Ctrl|Alt|Super → modifier keys 4, 1, 2 (Super dropped)
    let b = input_send_special_with_mods(1, SPECIAL_LEFT, 0x0F).0;
    assert_eq!(
        b,
        vec![0x08, 0x03, 0x10, 0x01, 0x1A, 0x0A, 0x18, 0x06, 0x20, 0x04, 0x20, 0x01, 0x20, 0x02, 0x30, 0x00]
    );
}

#[test]
fn send_key_code_with_mods_bytes() {
    assert_eq!(
        input_send_key_code_with_mods(1, 122, 0x02).0,
        vec![0x08, 0x03, 0x10, 0x01, 0x1A, 0x04, 0x08, 0x7A, 0x20, 0x01]
    );
}

#[test]
fn session_command_bytes() {
    assert_eq!(input_submit(1).0, vec![0x08, 0x05, 0x10, 0x01, 0x22, 0x02, 0x08, 0x02]);
    assert_eq!(input_revert(1).0, vec![0x08, 0x05, 0x10, 0x01, 0x22, 0x02, 0x08, 0x01]);
    assert_eq!(
        input_select_candidate(1, 7).0,
        vec![0x08, 0x05, 0x10, 0x01, 0x22, 0x04, 0x08, 0x03, 0x10, 0x07]
    );
    assert_eq!(
        input_turn_on_ime(1, COMPOSITION_HIRAGANA).0,
        vec![0x08, 0x05, 0x10, 0x01, 0x22, 0x04, 0x08, 0x16, 0x18, 0x01]
    );
}

#[test]
fn negative_candidate_id_is_sign_extended() {
    let b = input_select_candidate(1, -1).0;
    let fields = decode(&b).unwrap();
    let cmd = find_msg(&fields, 4).unwrap();
    assert_eq!(find_varint(&cmd, 2), Some(u64::MAX));
}

#[test]
fn decode_response_reads_candidate_window() {
    let mut ann = Vec::new();
    write_len_field(&mut ann, 2, "[半]".as_bytes());
    let mut cw = Vec::new();
    write_varint_field(&mut cw, 1, 0);
    write_varint_field(&mut cw, 2, 9);
    cw.push(0x1B); // group 3 start
    write_varint_field(&mut cw, 4, 0);
    write_len_field(&mut cw, 5, "漢字".as_bytes());
    write_varint_field(&mut cw, 9, 11);
    write_len_field(&mut cw, 7, &ann);
    cw.push(0x1C); // group 3 end
    let mut out = Vec::new();
    write_len_field(&mut out, 6, &cw);
    let d = decode_response(&out).unwrap();
    assert_eq!(d.candidate_size, 9);
    assert_eq!(d.focused_index, Some(0));
    assert_eq!(d.candidates.len(), 1);
    assert_eq!(d.candidates[0].value, "漢字");
    assert_eq!(d.candidates[0].id, Some(11));
    assert_eq!(d.candidates[0].annotation.as_deref(), Some("[半]"));
    assert_eq!(d.mode, 0);
    assert!(!d.consumed);
    assert_eq!(d.session_id, None);
}

#[test]
fn decode_response_rejects_invalid_utf8() {
    let mut result_msg = Vec::new();
    write_len_field(&mut result_msg, 2, &[0xFF, 0xFE]);
    let mut out = Vec::new();
    write_len_field(&mut out, 4, &result_msg);
    let e = decode_response(&out).unwrap_err();
    assert_eq!(e.0, "invalid string value: data is not UTF-8 encoded");
}

#[test]
fn decode_response_rejects_known_field_with_wrong_wire_type() {
    let e = decode_response(&[0x0A, 0x00]).unwrap_err();
    assert_eq!(e.0, "invalid wire type");
}

#[test]
fn decode_response_keeps_last_of_repeated_scalar() {
    let mut out = Vec::new();
    write_varint_field(&mut out, 1, 5);
    write_varint_field(&mut out, 1, 9);
    write_varint_field(&mut out, 3, 1);
    write_varint_field(&mut out, 3, 0);
    let d = decode_response(&out).unwrap();
    assert_eq!(d.session_id, Some(9));
    assert!(!d.consumed);
}

#[test]
fn decode_response_skips_fixed_width_unknown_fields() {
    let mut out = Vec::new();
    out.extend_from_slice(&[0xA1, 0x01]); // field 20, fixed64
    out.extend_from_slice(&[1, 2, 3, 4, 5, 6, 7, 8]);
    out.extend_from_slice(&[0xAD, 0x01]); // field 21, fixed32
    out.extend_from_slice(&[1, 2, 3, 4]);
    write_varint_field(&mut out, 1, 42);
    let d = decode_response(&out).unwrap();
    assert_eq!(d.session_id, Some(42));
}

#[test]
fn decode_response_rejects_field_number_zero() {
    let e = decode_response(&[0x00, 0x01]).unwrap_err();
    assert_eq!(e.0, "invalid tag value: 0");
}

#[test]
fn decode_response_rejects_truncated_fixed_field() {
    let e = decode_response(&[0x45, 0x01, 0x02]).unwrap_err();
    assert_eq!(e.0, "buffer underflow");
}

#[test]
fn decode_response_rejects_stray_end_group() {
    let e = decode_response(&[0x0C]).unwrap_err();
    assert_eq!(e.0, "unexpected end group tag");
}

#[test]
fn decode_response_skips_unknown_group() {
    let mut out = Vec::new();
    out.push(0x7B); // field 15, start group
    write_varint_field(&mut out, 1, 3);
    out.push(0x7C); // field 15, end group
    write_varint_field(&mut out, 2, 1);
    let d = decode_response(&out).unwrap();
    assert_eq!(d.mode, 1);
    assert_eq!(d.session_id, None);
}

#[test]
fn appending_a_field_keeps_the_decoded_prefix() {
    let mut b = Vec::new();
    write_varint_field(&mut b, 1, 300);
    write_len_field(&mut b, 2, b"abc");
    let before = format!("{:?}", decode(&b).unwrap());
    write_varint_field(&mut b, 7, 5);
    write_len_field(&mut b, 3, b"xy");
    let after = decode(&b).unwrap();
    assert_eq!(after.len(), 4);
    assert_eq!(format!("{:?}", &after[..2]), before);
    assert!(matches!(after[2], (7, Value::Varint(5))));
    assert!(matches!(&after[3], (3, Value::Bytes(v)) if v == b"xy"));
}

#[test]
fn decode_response_checks_declared_fields_it_does_not_read() {
    // Result.type (field 1) sent length-delimited.
    let mut result_msg = Vec::new();
    write_len_field(&mut result_msg, 1, b"x");
    write_len_field(&mut result_msg, 2, "変換".as_bytes());
    let mut out = Vec::new();
    write_len_field(&mut out, 4, &result_msg);
    assert_eq!(decode_response(&out).unwrap_err().0, "invalid wire type");

    // Output.status (field 13) sent as a varint.
    let mut out = Vec::new();
    write_varint_field(&mut out, 13, 1);
    assert_eq!(decode_response(&out).unwrap_err().0, "invalid wire type");

    // Preedit.cursor (field 1) sent length-delimited.
    let mut preedit_msg = Vec::new();
    write_len_field(&mut preedit_msg, 1, b"");
    let mut out = Vec::new();
    write_len_field(&mut out, 5, &preedit_msg);
    assert_eq!(decode_response(&out).unwrap_err().0, "invalid wire type");

    // Output.url (field 8) that is not UTF-8.
    let mut out = Vec::new();
    write_len_field(&mut out, 8, &[0xFF]);
    assert_eq!(decode_response(&out).unwrap_err().0, "invalid string value: data is not UTF-8 encoded");
}

#[test]
fn decode_response_accepts_declared_fields_of_the_right_type() {
    let mut result_msg = Vec::new();
    write_varint_field(&mut result_msg, 1, 1);
    write_len_field(&mut result_msg, 2, "変換".as_bytes());
    write_len_field(&mut result_msg, 3, "へんかん".as_bytes());
    write_varint_field(&mut result_msg, 4, 0);
    let mut status = Vec::new();
    write_varint_field(&mut status, 1, 1);
    let mut out = Vec::new();
    write_varint_field(&mut out, 1, 7);
    write_len_field(&mut out, 4, &result_msg);
    write_len_field(&mut out, 8, b"https://example.com");
    write_varint_field(&mut out, 11, 0);
    write_len_field(&mut out, 13, &status);
    let d = decode_response(&out).unwrap();
    assert_eq!(d.session_id, Some(7));
    assert_eq!(d.result_value.as_deref(), Some("変換"));
}
