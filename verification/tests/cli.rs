use libman::args::parse_args;
use libman::errors::LibmanError;
use libman::plan::backup_name;
use libman::scan::{member_base_name, split_lines};
use libman::text::{get_string_from_u8, str_ends_with, str_eq, trim_trailing, usize_to_string};

fn s(text: &str) -> String {
    String::from(text)
}

fn args_of(items: &[&str]) -> Vec<String> {
    items.iter().map(|a| s(a)).collect()
}

#[test]
fn no_arguments_is_usage_error() {
    let args = args_of(&["libman"]);
    assert_eq!(parse_args(&args, ".a", ".o"), Err(LibmanError::Usage));
}

#[test]
fn missing_output_flag_is_usage_error() {
    let args = args_of(&["libman", "first.a", "x.o"]);
    assert_eq!(parse_args(&args, ".a", ".o"), Err(LibmanError::Usage));
}

#[test]
fn unrecognized_extension_is_usage_error() {
    let args = args_of(&["libman", "notes.txt", "-o", "out.a"]);
    assert_eq!(parse_args(&args, ".a", ".o"), Err(LibmanError::Usage));
}

#[test]
fn output_flag_without_value_is_usage_error() {
    let args = args_of(&["libman", "first.a", "-o"]);
    assert_eq!(parse_args(&args, ".a", ".o"), Err(LibmanError::Usage));
}

#[test]
fn arguments_classified_by_extension() {
    let args = args_of(&["libman", "first.a", "x.o", "-o", "out.a", "second.a", "y.o"]);
    let parsed = parse_args(&args, ".a", ".o").unwrap();
    assert_eq!(parsed.libraries, vec![s("first.a"), s("second.a")]);
    assert_eq!(parsed.objs, vec![s("x.o"), s("y.o")]);
    assert_eq!(parsed.target, s("out.a"));
}

#[test]
fn last_output_flag_wins() {
    let args = args_of(&["libman", "-o", "one.a", "x.o", "-o", "two.a"]);
    let parsed = parse_args(&args, ".a", ".o").unwrap();
    assert_eq!(parsed.target, s("two.a"));
    assert_eq!(parsed.objs, vec![s("x.o")]);
    assert!(parsed.libraries.is_empty());
}

#[test]
fn output_value_not_scanned_as_positional() {
    // The flag's value ends in the archive extension but is consumed by -o.
    let args = args_of(&["libman", "x.o", "-o", "out.a"]);
    let parsed = parse_args(&args, ".a", ".o").unwrap();
    assert!(parsed.libraries.is_empty());
    assert_eq!(parsed.objs, vec![s("x.o")]);
    assert_eq!(parsed.target, s("out.a"));
}

#[test]
fn empty_arguments_are_ignored() {
    let args = args_of(&["libman", "", "x.o", "-o", "out.a"]);
    let parsed = parse_args(&args, ".a", ".o").unwrap();
    assert_eq!(parsed.objs, vec![s("x.o")]);
}

#[test]
fn windows_extensions_work_the_same() {
    let args = args_of(&["libman", "first.lib", "x.obj", "-o", "out.lib"]);
    let parsed = parse_args(&args, ".lib", ".obj").unwrap();
    assert_eq!(parsed.libraries, vec![s("first.lib")]);
    assert_eq!(parsed.objs, vec![s("x.obj")]);
    assert_eq!(parsed.target, s("out.lib"));
}

#[test]
fn error_messages_name_the_failure() {
    assert_eq!(LibmanError::Usage.message(), "usage error");
    assert_eq!(LibmanError::ToolNotFound.message(), "cannot locate the archiver tool");
    assert_eq!(LibmanError::ToolInvocation.message(), "archiver invocation failed");
    assert_eq!(LibmanError::Filesystem.message(), "filesystem operation failed");
}

#[test]
fn decimal_rendering_exact() {
    assert_eq!(usize_to_string(0), s("0"));
    assert_eq!(usize_to_string(7), s("7"));
    assert_eq!(usize_to_string(10), s("10"));
    assert_eq!(usize_to_string(12345), s("12345"));
}

#[test]
fn string_helpers() {
    assert!(str_eq("abc", "abc"));
    assert!(!str_eq("abc", "abd"));
    assert!(!str_eq("abc", "ab"));
    assert!(str_ends_with("first.a", ".a"));
    assert!(!str_ends_with("first.a", ".o"));
    assert!(!str_ends_with("a", ".a"));
    assert!(str_ends_with("x", ""));
}

#[test]
fn lines_split_like_the_archiver_prints_them() {
    let lines = split_lines("x.o\ny.o\n");
    assert_eq!(lines, vec![s("x.o"), s("y.o")]);
    assert_eq!(split_lines(""), Vec::<String>::new());
    assert_eq!(split_lines("a\r\nb"), vec![s("a"), s("b")]);
    assert_eq!(split_lines("a\n\nb"), vec![s("a"), s(""), s("b")]);
    assert_eq!(split_lines("last"), vec![s("last")]);
    assert_eq!(split_lines("last\r"), vec![s("last\r")]);
}

#[test]
fn trimming_and_backup_paths() {
    let cs = vec!['.', 'a'];
    assert_eq!(trim_trailing("first.a", &cs), s("first"));
    assert_eq!(trim_trailing("x", &cs), s("x"));
    assert_eq!(trim_trailing("aaa", &cs), s(""));
    assert_eq!(backup_name("first.a"), s("first.bak"));
    assert_eq!(backup_name("second.a"), s("second.bak"));
    // The trim removes every trailing archive-extension character.
    assert_eq!(backup_name("liba.a"), s("lib.bak"));
}

#[test]
fn base_name_from_scanned_path() {
    assert_eq!(member_base_name("dir\\main.obj"), s("main"));
    assert_eq!(member_base_name("a/b/main.obj"), s("main"));
    assert_eq!(member_base_name("main.obj"), s("main"));
    assert_eq!(member_base_name("x\\y/main.obj"), s("main"));
}

#[test]
fn wide_buffer_decoding() {
    let mut buffer = [0u8; 1024];
    buffer[0] = b'A';
    buffer[2] = b'B';
    buffer[4] = b'C';
    let decoded = get_string_from_u8(&buffer, 3);
    assert_eq!(decoded.len(), 512);
    assert!(decoded.starts_with("ABC"));
    assert_eq!(decoded.trim_end_matches('\0'), "ABC");
}
