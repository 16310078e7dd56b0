use quicklan::numbers::{decimal_text, parse_i64, parse_u64};
use quicklan::pieces::{split_char, strip_char_text, strip_prefixes_text};
use quicklan::storage::{candidate_file_name, file_name_from, path_file_name, safe_file_name};
use quicklan::text::{clean_chars, is_blank, str_lt, trimmed};
use quicklan::digest::{sha256_hex, StreamDigest};
use quicklan::transfer::{
    check_received_digest, check_received_hash, frame_payload_len, frame_prefix, ids_newest_first, is_unfinished,
    next_read_size,
};
use quicklan::protocol::TransferStatus;

#[test]
fn trimming_follows_unicode_white_space() {
    assert_eq!(trimmed("\u{3000} 你好 \t\n"), "你好");
    assert_eq!(trimmed("   "), "");
    assert_eq!(trimmed(&trimmed("  a b  ")), trimmed("  a b  "));
    assert_eq!(clean_chars("  abcdef  ", 3), "abc");
    assert_eq!(clean_chars("  ab  ", 3), "ab");
    assert!(is_blank(" \u{00A0}\u{2003}"));
    assert!(!is_blank(" x "));
    assert!(str_lt("abc", "abd"));
    assert!(str_lt("ab", "abc"));
    assert!(!str_lt("abc", "abc"));
}

#[test]
fn numbers_read_and_write() {
    assert_eq!(parse_u64("42"), Some(42));
    assert_eq!(parse_u64("+7"), Some(7));
    assert_eq!(parse_u64("18446744073709551615"), Some(u64::MAX));
    assert_eq!(parse_u64("18446744073709551616"), None);
    assert_eq!(parse_u64(""), None);
    assert_eq!(parse_u64("+"), None);
    assert_eq!(parse_u64("-1"), None);
    assert_eq!(parse_u64("1a"), None);
    assert_eq!(parse_i64("-9223372036854775808"), Some(i64::MIN));
    assert_eq!(parse_i64("9223372036854775807"), Some(i64::MAX));
    assert_eq!(parse_i64("9223372036854775808"), None);
    assert_eq!(parse_i64("-12"), Some(-12));
    assert_eq!(parse_i64("+12"), Some(12));
    assert_eq!(decimal_text(0), "0");
    assert_eq!(decimal_text(1234567890), "1234567890");
    assert_eq!(decimal_text(u64::MAX), u64::MAX.to_string());
    for n in [0u64, 9, 10, 99, 100, 65535, u64::MAX] {
        assert_eq!(parse_u64(&decimal_text(n)), Some(n));
    }
}

#[test]
fn text_is_split_and_stripped_like_str() {
    assert_eq!(split_char("a.b..c", '.'), vec!["a", "b", "", "c"]);
    assert_eq!(split_char("", '.'), vec![""]);
    assert_eq!(strip_char_text("//a/b//", '/'), "a/b");
    assert_eq!(strip_char_text("///", '/'), "");
    assert_eq!(strip_prefixes_text("/x/x/y", "/x"), "/y");
    assert_eq!(strip_prefixes_text("abc", ""), "abc");
}

#[test]
fn file_names_are_made_safe() {
    assert_eq!(safe_file_name("a/b\\c:d*e?f\"g<h>i|j"), "a_b_c_d_e_f_g_h_i_j");
    assert_eq!(safe_file_name("  ..报告.txt.. "), "报告.txt");
    assert_eq!(safe_file_name("tab\there"), "tab_here");
    assert_eq!(safe_file_name("..."), "");
}

#[test]
fn numbered_names_keep_the_extension() {
    assert_eq!(candidate_file_name("a.txt", Some("a"), Some("txt"), 0), "a.txt");
    assert_eq!(candidate_file_name("a.txt", Some("a"), Some("txt"), 2), "a (2).txt");
    assert_eq!(candidate_file_name("README", Some("README"), None, 13), "README (13)");
    assert_eq!(candidate_file_name("x", None, None, 1), "download (1)");
}

#[test]
fn header_frames_carry_their_length() {
    let prefix = frame_prefix(300).unwrap();
    assert_eq!(prefix, vec![0, 0, 1, 44]);
    assert_eq!(frame_payload_len([prefix[0], prefix[1], prefix[2], prefix[3]]).unwrap(), 300);
    assert_eq!(frame_payload_len([0, 0, 0, 0]).unwrap_err(), "传输头长度非法");
    assert_eq!(frame_payload_len([0, 2, 0, 1]).unwrap_err(), "传输头长度非法");
    assert_eq!(frame_payload_len([0, 2, 0, 0]).unwrap(), 131072);
    assert_eq!(next_read_size(10, 4, 1024), 6);
    assert_eq!(next_read_size(5000, 0, 1024), 1024);
    assert!(is_unfinished(TransferStatus::Transferring));
    assert!(!is_unfinished(TransferStatus::Completed));
    assert!(check_received_hash("ab", "ab").is_ok());
    assert_eq!(check_received_hash("ab", "cd").unwrap_err(), "SHA256 校验失败，文件可能已损坏");
}

#[test]
fn file_names_of_paths() {
    assert_eq!(path_file_name("/data/shared/report.pdf").unwrap(), "report.pdf");
    assert_eq!(path_file_name("notes.txt").unwrap(), "notes.txt");
    assert_eq!(path_file_name("/data/..").unwrap_err(), "无法解析文件名: /data/..");
    assert_eq!(path_file_name("/").unwrap_err(), "无法解析文件名: /");
    assert_eq!(file_name_from("/x/ ", Some(" ".to_string())).unwrap_err(), "无法解析文件名: /x/ ");
    assert_eq!(file_name_from("/x/a", Some("a".to_string())).unwrap(), "a");
    assert_eq!(file_name_from("/x/..", None).unwrap_err(), "无法解析文件名: /x/..");
}

#[test]
fn a_digest_fed_in_pieces_is_the_digest_of_the_whole() {
    let mut d = StreamDigest::new();
    d.update(b"ab");
    d.update(b"");
    d.update(b"c");
    assert_eq!(d.finish_hex(), "ba7816bf8f01cfea414140de5dae2223b00361a396177a9cb410ff61f20015ad");
    assert_eq!(StreamDigest::new().finish_hex(), sha256_hex(b""));
}

#[test]
fn received_bytes_are_checked_against_the_announced_digest() {
    let expected = sha256_hex(b"hello world");
    let mut d = StreamDigest::new();
    d.update(b"hello ");
    d.update(b"world");
    assert_eq!(check_received_digest(d, &expected), Ok(()));
    let mut bad = StreamDigest::new();
    bad.update(b"hello_world");
    assert_eq!(check_received_digest(bad, &expected), Err("SHA256 校验失败，文件可能已损坏".to_string()));
}

#[test]
fn transfers_are_listed_from_the_greatest_id_down() {
    let ids: Vec<String> = ["b-2", "a-9", "c-1", "b-10"].iter().map(|s| s.to_string()).collect();
    assert_eq!(ids_newest_first(ids), vec!["c-1", "b-2", "b-10", "a-9"]);
}

#[test]
fn the_last_plain_component_is_the_file_name() {
    assert_eq!(path_file_name("tmp/foo.txt").unwrap(), "foo.txt");
    assert_eq!(path_file_name("./a b/c.tar.gz").unwrap(), "c.tar.gz");
    assert_eq!(path_file_name("../x").unwrap(), "x");
}
