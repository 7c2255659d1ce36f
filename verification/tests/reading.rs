//! What is read from an event, in its ordinary and in its odd forms.

use utd_cause::{
    array_elements, membership_at_event, membership_member, object_members, raw_object_members,
    time_of_event, trim_start, CryptoContextInfo, Member, Membership, MilliSecondsSinceUnixEpoch,
    UnableToDecryptInfo, UnableToDecryptReason, UtdCause,
};

fn members(text: &str) -> Option<Vec<(String, String)>> {
    let list = object_members(text.as_bytes())?;
    Some(
        list.iter()
            .map(|m| (m.key.clone(), String::from_utf8(m.value.to_vec()).unwrap()))
            .collect(),
    )
}

fn pairs(list: &[(&str, &str)]) -> Option<Vec<(String, String)>> {
    Some(list.iter().map(|(k, v)| (k.to_string(), v.to_string())).collect())
}

fn unsigned(text: &str) -> Option<Membership> {
    Membership::from_unsigned(text.as_bytes())
}

fn encrypted_event(unsigned: &str) -> String {
    format!(
        r#"{{"type":"m.room.encrypted","event_id":"$0","content":{{"algorithm":"m.megolm.v1.aes-sha2","ciphertext":"FOO","sender_key":"SENDERKEYSENDERKEY","device_id":"ABCDEFGH","session_id":"A0"}},"sender":"@bob:localhost","origin_server_ts":10000,"unsigned":{}}}"#,
        unsigned
    )
}

fn cause(event: &str, device_creation_ts: u64, is_backup_configured: bool) -> UtdCause {
    UtdCause::determine(
        event,
        CryptoContextInfo {
            device_creation_ts: MilliSecondsSinceUnixEpoch(device_creation_ts),
            is_backup_configured,
        },
        &UnableToDecryptInfo {
            session_id: Some("A0".to_owned()),
            reason: UnableToDecryptReason::MissingMegolmSession(None),
        },
    )
}

#[test]
fn blank_bytes_are_dropped_from_the_start_only() {
    assert_eq!(trim_start(b" \t\r\n a b "), b"a b ");
    assert_eq!(trim_start(b""), b"");
    assert_eq!(trim_start(b" \n"), b"");
    assert_eq!(trim_start(b"\x0ba"), b"\x0ba");
}

#[test]
fn members_are_listed_in_order_with_the_text_of_their_values() {
    assert_eq!(members("{}"), pairs(&[]));
    assert_eq!(members(" { } "), pairs(&[]));
    assert_eq!(
        members(r#" { "a" : 1 , "b":"x,}\"" ,"c": { "a" : [ 1, 2 ] },"d":-1.5e3,"e":null}  "#),
        pairs(&[
            ("a", "1"),
            ("b", r#""x,}\"""#),
            ("c", r#"{ "a" : [ 1, 2 ] }"#),
            ("d", "-1.5e3"),
            ("e", "null"),
        ])
    );
}

#[test]
fn a_repeated_key_is_listed_every_time() {
    assert_eq!(members(r#"{"a":1,"a":2,"a":1}"#), pairs(&[("a", "1"), ("a", "2"), ("a", "1")]));
}

#[test]
fn escapes_in_keys_are_resolved() {
    assert_eq!(members("{\"\\u0061\\n\":1}"), pairs(&[("a\n", "1")]));
    assert_eq!(members("{\"\u{e9}\":\"\u{1f600}\"}"), pairs(&[("\u{e9}", "\"\u{1f600}\"")]));
    // A lone surrogate stands for no character.
    assert_eq!(members(r#"{"\ud800":1}"#), None);
}

#[test]
fn what_is_no_object_has_no_members() {
    for text in [
        "", "  ", "1", "null", r#""{}""#, "[]", r#"["a"]"#, "{", "}", r#"{"a"}"#, r#"{"a":}"#,
        r#"{"a":1,}"#, r#"{,"a":1}"#, r#"{"a":1 "b":2}"#, r#"{"a":1}}"#, r#"{"a":1} x"#, "{} {}",
        r#"{1:2}"#, r#"{"a" 1}"#, r#"{"a":1x}"#, r#"{"a":tru}"#, r#"{"a":01}"#,
    ] {
        assert_eq!(members(text), None, "{}", text);
    }
}

#[test]
fn elements_are_listed_in_order() {
    let elements = |text: &str| -> Option<Vec<String>> {
        let list = array_elements(text.as_bytes())?;
        Some(list.iter().map(|e| String::from_utf8(e.to_vec()).unwrap()).collect())
    };
    assert_eq!(elements("[]"), Some(vec![]));
    assert_eq!(elements(" [ ] "), Some(vec![]));
    assert_eq!(elements(r#" [ "leave" ] "#), Some(vec![r#""leave""#.to_owned()]));
    assert_eq!(
        elements(r#"[[1,2] , {"a":"]"},null,-3]"#),
        Some(vec![
            "[1,2]".to_owned(),
            r#"{"a":"]"}"#.to_owned(),
            "null".to_owned(),
            "-3".to_owned(),
        ])
    );
    for text in ["", "[1,]", "[,]", "[1", "1", "{}", "[1] 2", "[1 2]", r#""[]""#] {
        assert_eq!(elements(text), None, "{}", text);
    }
}

#[test]
fn raw_members_keep_their_keys_as_written() {
    let text = br#"{ "\ud800" : 1 , "a\u0062":[] }"#;
    let list = raw_object_members(text).unwrap();
    assert_eq!(list.len(), 2);
    assert_eq!((list[0].key, list[0].value), (&br#""\ud800""#[..], &b"1"[..]));
    assert_eq!((list[1].key, list[1].value), (&br#""a\u0062""#[..], &b"[]"[..]));
    assert!(object_members(text).is_none());
    assert!(raw_object_members(b"[]").is_none());
}

#[test]
fn memberships_go_by_lower_case_names() {
    assert_eq!(Membership::from_name("leave"), Some(Membership::Leave));
    assert_eq!(Membership::from_name("invite"), Some(Membership::Invite));
    assert_eq!(Membership::from_name("join"), Some(Membership::Join));
    assert_eq!(Membership::from_name("Leave"), None);
    assert_eq!(Membership::from_name("ban"), None);
    assert_eq!(Membership::from_name(""), None);
}

#[test]
fn a_membership_is_a_name_or_a_tagged_null() {
    assert_eq!(Membership::from_json(br#""leave""#), Some(Membership::Leave));
    assert_eq!(Membership::from_json(br#""\u006ceave""#), Some(Membership::Leave));
    assert_eq!(Membership::from_json(br#"{"leave":null}"#), Some(Membership::Leave));
    assert_eq!(Membership::from_json(br#" { "join" : null } "#), Some(Membership::Join));
    for text in [
        r#""knock""#, "3", "null", "[]", r#"["leave"]"#, "{}", r#"{"leave":1}"#, r#"{"leave":"null"}"#,
        r#"{"leave":null,"leave":null}"#, r#"{"leave":null,"x":1}"#, r#"{"knock":null}"#, "leave", "",
    ] {
        assert_eq!(Membership::from_json(text.as_bytes()), None, "{}", text);
    }
}

#[test]
fn a_tag_is_the_only_member_with_a_null() {
    let member = |key: &str, value: &'static [u8]| Member { key: key.to_owned(), value };
    assert_eq!(Membership::from_tag(&vec![member("invite", b"null")]), Some(Membership::Invite));
    assert_eq!(Membership::from_tag(&vec![member("invite", b"nulL")]), None);
    assert_eq!(Membership::from_tag(&vec![member("invite", b"nul")]), None);
    assert_eq!(Membership::from_tag(&vec![]), None);
    assert_eq!(
        Membership::from_tag(&vec![member("invite", b"null"), member("invite", b"null")]),
        None
    );
}

#[test]
fn the_member_with_the_membership_is_found() {
    let list = |keys: &[&str]| -> Vec<Member<'static>> {
        keys.iter().map(|k| Member { key: k.to_string(), value: b"1" }).collect()
    };
    assert_eq!(membership_member(&list(&[])), None);
    assert_eq!(membership_member(&list(&["age", "Membership"])), None);
    assert_eq!(membership_member(&list(&["membership"])), Some(0));
    assert_eq!(
        membership_member(&list(&["age", "x", "io.element.msc4115.membership", "y"])),
        Some(2)
    );
    assert_eq!(membership_member(&list(&["membership", "age", "membership"])), None);
    assert_eq!(membership_member(&list(&["membership", "io.element.msc4115.membership"])), None);
}

#[test]
fn either_key_states_the_membership() {
    for key in ["membership", "io.element.msc4115.membership", r"\u006dembership"] {
        for (name, membership) in [
            ("leave", Membership::Leave),
            ("invite", Membership::Invite),
            ("join", Membership::Join),
        ] {
            let text = format!(r#"{{"age":1,"{}":"{}","x":[]}}"#, key, name);
            assert_eq!(unsigned(&text), Some(membership), "{}", text);
        }
    }
}

#[test]
fn a_membership_that_is_stated_twice_does_not_count() {
    for text in [
        r#"{"membership":"leave","membership":"leave"}"#,
        r#"{"membership":"leave","io.element.msc4115.membership":"leave"}"#,
        r#"{"membership":"leave","io.element.msc4115.membership":3}"#,
        r#"{"membership":3,"x":1,"membership":"leave"}"#,
    ] {
        assert_eq!(unsigned(text), None, "{}", text);
    }
}

#[test]
fn other_members_have_no_bearing_on_the_membership() {
    assert_eq!(
        unsigned(r#"{"x":"leave","membership":"join","Membership":"leave","x":{}}"#),
        Some(Membership::Join)
    );
    assert_eq!(unsigned(r#"{"x":"leave"}"#), None);
}

#[test]
fn an_array_with_the_membership_alone_is_read() {
    assert_eq!(unsigned(r#"["leave"]"#), Some(Membership::Leave));
    assert_eq!(unsigned(r#"[{"leave":null}]"#), Some(Membership::Leave));
    assert_eq!(unsigned(r#"["leave",1]"#), None);
    assert_eq!(unsigned(r#"[{"membership":"leave"}]"#), None);
    assert_eq!(unsigned("[]"), None);
    assert_eq!(unsigned(r#""leave""#), None);
    assert_eq!(unsigned("null"), None);
}

#[test]
fn the_membership_of_an_event_is_that_of_its_unsigned_field() {
    assert_eq!(
        membership_at_event(r#"{"membership":"join","unsigned":{"membership":"leave"}}"#),
        Some(Membership::Leave)
    );
    assert_eq!(membership_at_event(r#"{"membership":"leave"}"#), None);
    assert_eq!(membership_at_event(r#"{"unsigned":null}"#), None);
    assert_eq!(membership_at_event(r#"{"content":{"unsigned":{"membership":"leave"}}}"#), None);
    assert_eq!(membership_at_event("[]"), None);
    assert_eq!(membership_at_event("no json"), None);
    assert_eq!(membership_at_event(""), None);
}

#[test]
fn every_unsigned_field_has_to_be_readable_and_the_last_counts() {
    assert_eq!(
        membership_at_event(
            r#"{"unsigned":{"membership":"join"},"x":1,"unsigned":{"membership":"leave"}}"#
        ),
        Some(Membership::Leave)
    );
    assert_eq!(
        membership_at_event(r#"{"unsigned":{},"unsigned":{"membership":"leave"}}"#),
        None
    );
    assert_eq!(
        membership_at_event(r#"{"unsigned":{"membership":"leave"},"unsigned":{}}"#),
        None
    );
}

#[test]
fn blanks_around_an_event_make_no_difference() {
    let text = format!("\n  {}\t ", encrypted_event(r#"{ "membership" : "leave" }"#));
    assert_eq!(membership_at_event(&text), Some(Membership::Leave));
    assert_eq!(time_of_event(&text), Some(MilliSecondsSinceUnixEpoch(10000)));
}

#[test]
fn the_time_is_read_from_well_formed_events_only() {
    assert_eq!(
        time_of_event(&encrypted_event("{}")),
        Some(MilliSecondsSinceUnixEpoch(10000))
    );
    assert_eq!(time_of_event(r#"{"origin_server_ts":10000}"#), None);
    assert_eq!(time_of_event("{}"), None);
    assert_eq!(time_of_event("no json"), None);
}

#[test]
fn an_event_that_names_leave_was_sent_before_we_joined() {
    // Also where it is older than the device, which has a backup.
    for text in [
        r#"{"membership":"leave"}"#,
        r#"{"io.element.msc4115.membership":"leave","age":3}"#,
        r#"["leave"]"#,
    ] {
        assert_eq!(cause(&encrypted_event(text), 20000, true), UtdCause::SentBeforeWeJoined);
        assert_eq!(cause(&encrypted_event(text), 5, false), UtdCause::SentBeforeWeJoined);
    }
}

#[test]
fn an_event_that_states_leave_twice_can_still_be_historical() {
    let event =
        encrypted_event(r#"{"membership":"leave","io.element.msc4115.membership":"leave"}"#);
    assert_eq!(cause(&event, 20000, true), UtdCause::HistoricalMessage);
    assert_eq!(cause(&event, 20000, false), UtdCause::Unknown);
}

#[test]
fn an_event_as_old_as_the_device_is_not_historical() {
    let event = encrypted_event("{}");
    assert_eq!(cause(&event, 9999, true), UtdCause::Unknown);
    assert_eq!(cause(&event, 10000, true), UtdCause::Unknown);
    assert_eq!(cause(&event, 10001, true), UtdCause::HistoricalMessage);
    assert_eq!(cause(&event, u64::MAX, true), UtdCause::HistoricalMessage);
}
