use rust_util::util_git::parse_current_branch;
use rust_util::util_term::parse_yes_no;
use rust_util::util_env::{is_env_off, is_env_on, is_off, is_on};
use rust_util::util_file::{join_path, resolve_file_path};
use rust_util::util_io::{is_status_due, PrintStatusContext};
use rust_util::util_msg::{
    find_char_boundary, get_term_width_message, is_logger_level_enabled, parse_logger_level, MessageType,
};
use rust_util::SimpleError;
use std::time::Duration;

#[test]
fn switches_read_in_any_case() {
    assert!(is_on("TRUE"));
    assert!(is_on("Yes"));
    assert!(is_on("1"));
    assert!(!is_on("on"));
    assert!(is_off("False"));
    assert!(is_off("NO"));
    assert!(is_off("0"));
    assert!(!is_off("true"));
    assert!(is_env_on(&Some("yEs".to_owned())));
    assert!(!is_env_on(&None));
    assert!(is_env_off(&Some("no".to_owned())));
    assert!(!is_env_off(&Some("1".to_owned())));
}

#[test]
fn logger_levels() {
    assert_eq!(0, MessageType::DEBUG.get_u8_value());
    assert_eq!(4, MessageType::ERROR.get_u8_value());
    assert!(is_logger_level_enabled(MessageType::WARN, MessageType::INFO));
    assert!(is_logger_level_enabled(MessageType::INFO, MessageType::INFO));
    assert!(!is_logger_level_enabled(MessageType::DEBUG, MessageType::INFO));
    assert_eq!(Some(MessageType::DEBUG), parse_logger_level("  Debug "));
    assert_eq!(Some(MessageType::DEBUG), parse_logger_level("*"));
    assert_eq!(Some(MessageType::OK), parse_logger_level("#"));
    assert_eq!(Some(MessageType::WARN), parse_logger_level("WARN"));
    assert_eq!(Some(MessageType::ERROR), parse_logger_level("^"));
    assert_eq!(None, parse_logger_level("verbose"));
}

#[test]
fn char_boundaries() {
    let s = "aé中b";
    assert_eq!(0, find_char_boundary(s, 0));
    assert_eq!(1, find_char_boundary(s, 1));
    assert_eq!(3, find_char_boundary(s, 2));
    assert_eq!(6, find_char_boundary(s, 4));
    assert_eq!(7, find_char_boundary(s, 7));
    assert_eq!(20, find_char_boundary(s, 20));
}

#[test]
fn paths() {
    assert_eq!("a/b", join_path("a", "b", "/"));
    assert_eq!("a/b", join_path("a/", "b", "/"));
    assert_eq!("a\\b", join_path("a", "b", "\\"));
    assert_eq!("/home/u", resolve_file_path("~", Some("/home/u")));
    assert_eq!("/home/u/x/y", resolve_file_path("~/x/y", Some("/home/u")));
    assert_eq!("~x", resolve_file_path("~x", Some("/home/u")));
    assert_eq!("~/x", resolve_file_path("~/x", None));
    assert_eq!("/etc", resolve_file_path("/etc", Some("/home/u")));
}

#[test]
fn status_line_decisions() {
    assert!(is_status_due(100, 95, 0, 10, 0, 100));
    assert!(is_status_due(1000, 600, 0, 500, 0, 100));
    assert!(!is_status_due(1000, 400, 0, 500, 0, 100));
    assert!(is_status_due(1000, 400, 0, 500, 101, 100));
    assert!(!is_status_due(1000, 400, 0, 500, 100, 100));
    assert!(is_status_due(i64::MAX, i64::MIN + 1, 0, 1, 0, 0) == false);
    let mut ctx = PrintStatusContext::new_with(Duration::from_secs(3600), 10);
    let (due, _) = ctx.check_print(1000, 500);
    assert!(due);
    assert_eq!(500, ctx.total_written_bytes);
    let (due, _) = ctx.check_print(1000, 505);
    assert!(!due);
    assert_eq!(500, ctx.total_written_bytes);
    let ctx = PrintStatusContext::new();
    assert_eq!(512 * 1024, ctx.print_interval_bytes);
    assert_eq!(Duration::from_millis(100), ctx.print_interval_time);
}

#[test]
fn simple_errors() {
    let e = SimpleError::new("bad".to_owned());
    assert_eq!("bad", e.message);
    assert!(e.source.is_none());
    let e = SimpleError::new2("outer".to_owned(), "inner".to_owned());
    assert_eq!(Some("inner".to_owned()), e.source);
    assert_eq!("SimpleErorr, message: outer, source erorr: inner", e.to_text());
    assert_eq!("SimpleErorr, message: bad", SimpleError::new("bad".to_owned()).to_text());
}

#[test]
fn yes_no_replies() {
    assert_eq!(Some(true), parse_yes_no("Y\n"));
    assert_eq!(Some(true), parse_yes_no("  yes "));
    assert_eq!(Some(false), parse_yes_no("NO\r\n"));
    assert_eq!(Some(false), parse_yes_no("n"));
    assert_eq!(None, parse_yes_no("maybe"));
    assert_eq!(None, parse_yes_no(""));
}

#[test]
fn current_branch_from_listing() {
    assert_eq!(Some("main".to_owned()), parse_current_branch("  dev\n* main\n  old\n"));
    assert_eq!(None, parse_current_branch("  dev\n  old\n"));
    assert_eq!(Some("x".to_owned()), parse_current_branch("*   x  \n* y"));
}

#[test]
fn term_width_messages() {
    let msg = "0123456789abcdefghijklmnopqrstuvwxyz";
    assert_eq!(msg, get_term_width_message(msg, 0, None));
    assert_eq!(msg, get_term_width_message(msg, 3, Some(37)));
    assert_eq!("01234[...]qrstuvwxyz", get_term_width_message(msg, 0, Some(20)));
    assert_eq!("012[...]qrstuvwxyz", get_term_width_message(msg, 2, Some(20)));
    let wide = "ééééééééééééééééééééé";
    assert_eq!("ééé[...]ééééé", get_term_width_message(wide, 0, Some(20)));
}
