use mzkana_core::client::{
    find_abstract_socket_name, ipc_key_from_socket_name, xkb_name_to_mozc_special, MozcClient, MozcError,
    MozcOutput,
};
use mzkana_core::codec::{write_len_field, write_varint_field, DecodeError};
use mzkana_core::proto::{
    input_create_session, input_turn_on_ime, COMPOSITION_HIRAGANA, input_delete_session, input_revert, input_send_kana, input_send_key_code_with_mods,
    input_send_special, input_send_special_with_mods, input_submit, SPECIAL_BACKSPACE, SPECIAL_ENTER,
    SPECIAL_F1, SPECIAL_HENKAN, SPECIAL_KANA, SPECIAL_LEFT, SPECIAL_PAGE_DOWN, SPECIAL_PAGE_UP, SPECIAL_SPACE,
};

fn connected(id: u64) -> MozcClient {
    let mut c = MozcClient::connect(Some("/tmp/mozc.sock".to_string()), None, "/home/u/.mozc/session.sock".to_string());
    let mut resp = Vec::new();
    write_varint_field(&mut resp, 1, id);
    c.accept_session(&resp).unwrap();
    c
}

#[test]
fn xkb_names_map_to_mozc_special_keys() {
    assert_eq!(xkb_name_to_mozc_special("Return"), Some(SPECIAL_ENTER));
    assert_eq!(xkb_name_to_mozc_special("space"), Some(SPECIAL_SPACE));
    assert_eq!(xkb_name_to_mozc_special("Prior"), Some(SPECIAL_PAGE_UP));
    assert_eq!(xkb_name_to_mozc_special("PageUp"), Some(SPECIAL_PAGE_UP));
    assert_eq!(xkb_name_to_mozc_special("Next"), Some(SPECIAL_PAGE_DOWN));
    assert_eq!(xkb_name_to_mozc_special("Henkan"), Some(SPECIAL_HENKAN));
    assert_eq!(xkb_name_to_mozc_special("Hiragana_Katakana"), Some(SPECIAL_KANA));
    assert_eq!(xkb_name_to_mozc_special("Muhenkan"), None);
    assert_eq!(xkb_name_to_mozc_special("a"), None);
}

#[test]
fn function_keys_f1_to_f12() {
    assert_eq!(xkb_name_to_mozc_special("F1"), Some(SPECIAL_F1));
    assert_eq!(xkb_name_to_mozc_special("F12"), Some(30));
    assert_eq!(xkb_name_to_mozc_special("F13"), None);
    assert_eq!(xkb_name_to_mozc_special("F0"), None);
    assert_eq!(xkb_name_to_mozc_special("F"), None);
    assert_eq!(xkb_name_to_mozc_special("F+3"), Some(21));
    assert_eq!(xkb_name_to_mozc_special("F03"), Some(21));
    assert_eq!(xkb_name_to_mozc_special("F-1"), None);
    assert_eq!(xkb_name_to_mozc_special("Fx"), None);
}

#[test]
fn ipc_key_decodes_hex_hash() {
    assert_eq!(ipc_key_from_socket_name("@tmp/.mozc.0aFf.session"), Some(vec![0x0a, 0xff]));
    assert_eq!(ipc_key_from_socket_name("tmp/.mozc.10.session"), Some(vec![0x10]));
    assert_eq!(ipc_key_from_socket_name("@tmp/.mozc..session"), Some(vec![]));
}

#[test]
fn ipc_key_rejects_malformed_names() {
    assert_eq!(ipc_key_from_socket_name("@tmp/.mozc.abc.session"), None);
    assert_eq!(ipc_key_from_socket_name("@tmp/.mozc.zz.session"), None);
    assert_eq!(ipc_key_from_socket_name("@tmp/.other.00.session"), None);
    assert_eq!(ipc_key_from_socket_name("@tmp/.mozc.00.sock"), None);
    assert_eq!(ipc_key_from_socket_name("@tmp/.mozc.ああ.session"), None);
}

#[test]
fn ipc_key_accepts_plus_as_leading_digit() {
    assert_eq!(ipc_key_from_socket_name("@tmp/.mozc.+f.session"), Some(vec![0x0f]));
}

#[test]
fn abstract_socket_found_in_socket_table() {
    let table = "Num RefCount Protocol Flags Type St Inode Path\n\
                 0000: 00000002 00000000 00010000 0001 01 1234 /run/user/1000/bus\n\
                 0000: 00000002 00000000 00010000 0001 01 5678 @tmp/.mozc.abcd.session\n\
                 0000: 00000002 00000000 00010000 0001 01 9999 @tmp/.mozc.ffff.session\n";
    assert_eq!(find_abstract_socket_name(table), Some("@tmp/.mozc.abcd.session".to_string()));
}

#[test]
fn abstract_socket_absent_from_socket_table() {
    let table = "Num RefCount\n0000: 1 /tmp/.mozc.abcd.session\n0000: 1 @tmp/.other.session\n";
    assert_eq!(find_abstract_socket_name(table), None);
    assert_eq!(find_abstract_socket_name(""), None);
}

#[test]
fn full_connection_picks_its_socket() {
    let c = MozcClient::connect(Some("/p".to_string()), Some("@n".to_string()), "/d".to_string());
    assert_eq!(c.socket_path(), Some("/p".to_string()));
    assert_eq!(c.abstract_name(), None);
    let c = MozcClient::connect(None, Some("@n".to_string()), "/d".to_string());
    assert_eq!(c.socket_path(), None);
    assert_eq!(c.abstract_name(), Some("@n".to_string()));
    let c = MozcClient::connect(None, None, "/d".to_string());
    assert_eq!(c.socket_path(), Some("/d".to_string()));
    assert_eq!(c.session_id(), 0);
}

#[test]
fn quick_connection_needs_an_existing_socket() {
    assert!(matches!(MozcClient::connect_quick(None, None, "/d".to_string(), false), Err(MozcError::NotConnected)));
    let c = MozcClient::connect_quick(None, None, "/d".to_string(), true).unwrap();
    assert_eq!(c.socket_path(), Some("/d".to_string()));
    let c = MozcClient::connect_quick(None, Some("@n".to_string()), "/d".to_string(), true).unwrap();
    assert_eq!(c.abstract_name(), Some("@n".to_string()));
}

#[test]
fn session_comes_from_create_session_answer() {
    let c = connected(77);
    assert_eq!(c.session_id(), 77);
    assert_eq!(c.create_session_request().0, input_create_session().0);
    assert_eq!(c.delete_session_request().unwrap().0, input_delete_session(77).0);
}

#[test]
fn create_session_answer_without_id_is_an_error() {
    let mut c = MozcClient::connect(None, None, "/d".to_string());
    let mut resp = Vec::new();
    write_varint_field(&mut resp, 2, 1);
    match c.accept_session(&resp) {
        Err(MozcError::Protocol(m)) => assert_eq!(m, "CREATE_SESSION returned no id"),
        other => panic!("unexpected {other:?}"),
    }
    assert_eq!(c.session_id(), 0);
    assert!(c.delete_session_request().is_none());
}

#[test]
fn requests_need_a_session() {
    let c = MozcClient::connect(None, None, "/d".to_string());
    assert!(matches!(c.send_kana("あ"), Err(MozcError::NotConnected)));
    assert!(matches!(c.send_backspace(), Err(MozcError::NotConnected)));
    assert!(matches!(c.submit(), Err(MozcError::NotConnected)));
    assert!(matches!(c.send_modified_key("z", 2), Err(MozcError::NotConnected)));
}

#[test]
fn requests_carry_the_session() {
    let c = connected(9);
    assert_eq!(c.send_kana("あ").unwrap().0, input_send_kana(9, "あ").0);
    assert_eq!(c.send_backspace().unwrap().0, input_send_special(9, SPECIAL_BACKSPACE).0);
    assert_eq!(c.send_space().unwrap().0, input_send_special(9, SPECIAL_SPACE).0);
    assert_eq!(c.send_enter().unwrap().0, input_send_special(9, SPECIAL_ENTER).0);
    assert_eq!(c.submit().unwrap().0, input_submit(9).0);
    assert_eq!(c.revert().unwrap().0, input_revert(9).0);
    assert_eq!(c.send_function_key("Left").unwrap().0, input_send_special(9, SPECIAL_LEFT).0);
}

#[test]
fn function_key_without_mozc_code_is_an_error() {
    let c = connected(9);
    match c.send_function_key("Muhenkan") {
        Err(MozcError::Protocol(m)) => assert_eq!(m, "no Mozc SpecialKey for: Muhenkan"),
        other => panic!("unexpected {other:?}"),
    }
}

#[test]
fn modified_key_uses_special_key_or_ascii_code() {
    let c = connected(9);
    assert_eq!(c.send_modified_key("Left", 1).unwrap().0, input_send_special_with_mods(9, SPECIAL_LEFT, 1).0);
    assert_eq!(c.send_modified_key("z", 2).unwrap().0, input_send_key_code_with_mods(9, 122, 2).0);
    match c.send_modified_key("あ", 2) {
        Err(MozcError::Protocol(m)) => assert_eq!(m, "no Mozc encoding for key: あ"),
        other => panic!("unexpected {other:?}"),
    }
    assert!(c.send_modified_key("zz", 2).is_err());
}

#[test]
fn response_reading() {
    match MozcClient::read_response(&[]) {
        Err(MozcError::Protocol(m)) => assert_eq!(m, "empty response from Mozc server"),
        other => panic!("unexpected {other:?}"),
    }
    assert!(matches!(MozcClient::read_response(&[0x08]), Err(MozcError::Decode(_))));
    let mut preedit = Vec::new();
    preedit.push(0x13);
    write_varint_field(&mut preedit, 3, 2);
    write_len_field(&mut preedit, 4, "へんかん".as_bytes());
    preedit.push(0x14);
    let mut resp = Vec::new();
    write_varint_field(&mut resp, 3, 1);
    write_len_field(&mut resp, 5, &preedit);
    let o: MozcOutput = MozcClient::read_response(&resp).unwrap();
    assert_eq!(o.preedit, "へんかん");
    assert!(o.is_converting);
    assert!(o.consumed);
    assert_eq!(o.result, None);
}

#[test]
fn response_length_limit() {
    assert!(MozcClient::check_response_length(1048576 - 10, 10).is_ok());
    match MozcClient::check_response_length(1048576 - 10, 11) {
        Err(MozcError::Protocol(m)) => assert_eq!(m, "Mozc response length 1048577 exceeds 1048576 bytes"),
        other => panic!("unexpected {other:?}"),
    }
}

#[test]
fn error_messages() {
    assert_eq!(MozcError::NotConnected.message(), "no active Mozc session");
    assert_eq!(MozcError::Io("broken pipe".to_string()).message(), "I/O error: broken pipe");
    assert_eq!(MozcError::Protocol("x".to_string()).message(), "protocol error: x");
    assert_eq!(
        MozcError::Decode(DecodeError("truncated varint".to_string())).message(),
        "decode error: protobuf decode error: truncated varint"
    );
}

#[test]
fn accepted_session_is_turned_on_in_hiragana() {
    let mut c = MozcClient::connect(None, None, "/d".to_string());
    let mut resp = Vec::new();
    write_varint_field(&mut resp, 1, 9);
    let next = c.accept_session(&resp).unwrap();
    assert_eq!(next.0, input_turn_on_ime(9, COMPOSITION_HIRAGANA).0);
    assert_ne!(next.0, input_create_session().0);
    assert_eq!(c.session_id(), 9);
}
