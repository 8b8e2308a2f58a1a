use dwmend::recovery::{list_to_save, saved_ids, to_restore};
use dwmend::reply::{exit_code, reply_ok, reply_text};

#[test]
fn a_saved_list_is_read_back() {
    for ids in [vec![], vec![0], vec![-7, 12, isize::MIN, isize::MAX]] {
        let bytes = list_to_save(&ids).unwrap();
        assert_eq!(saved_ids(Some(bytes)), Ok(Some(ids)));
    }
}

#[test]
fn a_saved_list_is_plain_json() {
    assert_eq!(list_to_save(&vec![]).unwrap(), b"[]".to_vec());
    assert_eq!(list_to_save(&vec![10]).unwrap(), b"[10]".to_vec());
    assert_eq!(list_to_save(&vec![1, -20, 300]).unwrap(), b"[1,-20,300]".to_vec());
}

#[test]
fn no_file_is_nothing_to_restore() {
    assert_eq!(saved_ids(None), Ok(None));
}

#[test]
fn a_list_may_hold_white_space() {
    assert_eq!(saved_ids(Some(b" [ 1 ,\n 2 ] ".to_vec())), Ok(Some(vec![1, 2])));
}

#[test]
fn a_broken_list_is_an_error() {
    for bytes in [&b""[..], b"[1,", b"{}", b"[1.5]", b"[\"1\"]", b"[1] 2"] {
        let e = saved_ids(Some(bytes.to_vec())).unwrap_err();
        assert!(!e.is_empty());
    }
}

#[test]
fn the_living_are_restored_in_order() {
    let ids = vec![5, 3, 9, 3];
    assert_eq!(to_restore(&ids, &vec![true, false, true, true]), vec![5, 9, 3]);
    assert_eq!(to_restore(&ids, &vec![false; 4]), Vec::<isize>::new());
    assert_eq!(to_restore(&Vec::new(), &Vec::new()), Vec::<isize>::new());
}

#[test]
fn a_reported_failure_is_an_exit_code() {
    assert_eq!(exit_code(reply_ok("{\"ok\":false,\"error\":\"no\"}\n")), 1);
    assert_eq!(exit_code(reply_ok("  {\"ok\":true}  ")), 0);
    assert_eq!(exit_code(None), 0);
}

#[test]
fn a_reply_may_not_say_how_it_went() {
    assert_eq!(reply_ok("{\"ok\":false}"), Some(false));
    assert_eq!(reply_ok("{\"ok\":true}"), Some(true));
    assert_eq!(reply_ok("{\"ok\":\"false\"}"), None);
    assert_eq!(reply_ok("{\"data\":1}"), None);
    assert_eq!(reply_ok("[false]"), None);
    assert_eq!(reply_ok("not json"), None);
}

#[test]
fn replies_are_printed_over_several_lines() {
    assert_eq!(reply_text(" {\"ok\":true}\n"), "{\n  \"ok\": true\n}");
    assert_eq!(reply_text("[]"), "[]");
    // What is no JSON is printed as one string, with the white space around it.
    assert_eq!(reply_text("not json\n"), "\"not json\\n\"");
}
