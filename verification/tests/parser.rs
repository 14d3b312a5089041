use vistrace::parser::parse_syscall;
use vistrace::parser::SyscallParser;
use vistrace::syscall::FlagSetValue;
use vistrace::syscall::SyscallArg;
use vistrace::syscall::SyscallArgValue;

fn assert_arg_string(arg: &SyscallArg, expected_text: &str, expected_truncated: bool) {
    if let SyscallArgValue::Quoted { text, truncated } = &arg.value {
        assert_eq!(text, expected_text);
        assert_eq!(*truncated, expected_truncated);
    } else {
        panic!("expected SyscallArg::String, got {:?}", arg);
    }
}

fn assert_arg_flagset(arg: &SyscallArg, expected: &Vec<String>) {
    if let SyscallArgValue::FlagSet(vs) = &arg.value {
        for (actual_v, expected_v) in std::iter::zip(vs, expected) {
            match actual_v {
                FlagSetValue::Symbol(s) => {
                    assert_eq!(s, expected_v);
                }
                FlagSetValue::Bits(x) => {
                    assert_eq!(*x, i64::from_str_radix(&expected_v[1..], 8).unwrap());
                }
            }
        }
        assert_eq!(vs.len(), expected.len());
    } else {
        panic!("expected SyscallArg::FlagSet, got {:?}", arg);
    }
}

fn assert_arg_symbol(arg: &SyscallArg, expected: &str) {
    if let SyscallArgValue::Symbol(s) = &arg.value {
        assert_eq!(s, expected);
    } else {
        panic!("expected SyscallArg::Symbol, got {:?}", arg);
    }
}

fn assert_arg_number(arg: &SyscallArg, expected: i64) {
    if let SyscallArgValue::Number(x) = &arg.value {
        assert_eq!(*x, expected);
    } else {
        panic!("expected SyscallArg::Number, got {:?}", arg);
    }
}

fn assert_arg_struct(arg: &SyscallArg) -> &Vec<SyscallArg> {
    if let SyscallArgValue::Struct(x) = &arg.value {
        x
    } else {
        panic!("expected SyscallArg::Struct, got {:?}", arg);
    }
}

fn struct_field<'x>(fields: &'x Vec<SyscallArg>, name: &str) -> Option<&'x SyscallArg> {
    fields.iter().find(|f| f.name == name)
}

fn assert_arg_array(arg: &SyscallArg, expected: &Vec<String>) {
    if let SyscallArgValue::Array(vs) = &arg.value {
        for (actual_v, expected_v) in std::iter::zip(vs, expected) {
            assert_arg_string(actual_v, expected_v, false);
        }
        assert_eq!(vs.len(), expected.len());
    } else {
        panic!("expected SyscallArg::Array, got {:?}", arg);
    }
}

fn assert_arg_product(arg: &SyscallArg, expected1: i64, expected2: i64) {
    if let SyscallArgValue::Product(actual1, actual2) = &arg.value {
        assert_eq!(*actual1, expected1);
        assert_eq!(*actual2, expected2);
    } else {
        panic!("expected SyscallArg::Product, got {:?}", arg);
    }
}

fn assert_arg_function_call<'x>(arg: &'x SyscallArg, expected_name: &str) -> &'x Vec<SyscallArg> {
    if let SyscallArgValue::FunctionCall(name, args) = &arg.value {
        assert_eq!(name, expected_name);
        args
    } else {
        panic!("expected SyscallArg::FunctionCall, got {:?}", arg);
    }
}

#[test]
fn test_syscall_parse() {
    let mut sc = parse_syscall("close(3) = 0");
    assert_eq!(sc.name, "close");
    assert_eq!(sc.args.len(), 1);
    assert_arg_number(&sc.args[0], 3);
    assert_eq!(sc.return_value, 0);

    sc = parse_syscall("openat(AT_FDCWD, \"/proc/self/mountinfo\", O_RDONLY|O_CLOEXEC) = 3");
    assert_eq!(sc.name, "openat");
    assert_eq!(sc.args.len(), 3);
    assert_arg_symbol(&sc.args[0], "AT_FDCWD");
    assert_arg_string(&sc.args[1], "/proc/self/mountinfo", false);
    assert_arg_flagset(
        &sc.args[2],
        &vec!["O_RDONLY".to_string(), "O_CLOEXEC".to_string()],
    );
    assert_eq!(sc.return_value, 3);

    sc = parse_syscall("read(3, \"# Locale name alias data base.\\n#\"..., 4096) = 2996");
    assert_eq!(sc.name, "read");
    assert_eq!(sc.args.len(), 3);
    assert_arg_number(&sc.args[0], 3);
    assert_arg_string(&sc.args[1], "# Locale name alias data base.\\n#", true);
    assert_arg_number(&sc.args[2], 4096);
    assert_eq!(sc.return_value, 2996);

    sc = parse_syscall("fstat(1, {st_mode=S_IFIFO|0600, st_size=0, ...}) = 0\n");
    assert_eq!(sc.name, "fstat");
    assert_eq!(sc.args.len(), 2);
    assert_arg_number(&sc.args[0], 1);
    let st = assert_arg_struct(&sc.args[1]);
    assert_arg_flagset(
        struct_field(st, "st_mode").unwrap(),
        &vec!["S_IFIFO".to_string(), "0600".to_string()],
    );
    assert_arg_number(struct_field(st, "st_size").unwrap(), 0);
    assert_eq!(sc.return_value, 0);

    sc = parse_syscall("execve(\"/usr/bin/echo\", [\"echo\", \"hello\", \"world\"], 0xffffc98f1ef0 /* 61 vars */) = 0\n");
    assert_eq!(sc.name, "execve");
    assert_eq!(sc.args.len(), 3);
    assert_arg_string(&sc.args[0], "/usr/bin/echo", false);
    assert_arg_array(
        &sc.args[1],
        &vec!["echo".to_string(), "hello".to_string(), "world".to_string()],
    );
    assert_arg_number(&sc.args[2], 0xffffc98f1ef0);
    assert_eq!(sc.return_value, 0);

    sc = parse_syscall("read(0, \"{\\\"lol\\\":42}\\n\", 8192)         = 11");
    assert_eq!(sc.name, "read");
    assert_eq!(sc.args.len(), 3);
    assert_arg_string(&sc.args[1], "{\\\"lol\\\":42}\\n", false);

    sc = parse_syscall("getdents64(3, 0xba02287ca030 /* 9 entries */, 32768) = 280");
    assert_eq!(sc.name, "getdents64");
    assert_eq!(sc.args.len(), 3);
    assert_arg_number(&sc.args[0], 3);
    assert_arg_number(&sc.args[1], 0xba02287ca030);
    assert_arg_number(&sc.args[2], 32768);

    sc = parse_syscall("clone(child_stack=NULL, flags=CLONE_CHILD_CLEARTID|CLONE_CHILD_SETTID|SIGCHLD, child_tidptr=0xef6aae8510f0) = 2077145");
    assert_eq!(sc.name, "clone");
    assert_eq!(sc.args.len(), 3);
    assert_arg_symbol(&sc.args[0], "NULL");
    assert_eq!(sc.args[0].name, "child_stack");
    assert_arg_flagset(
        &sc.args[1],
        &vec![
            "CLONE_CHILD_CLEARTID".to_string(),
            "CLONE_CHILD_SETTID".to_string(),
            "SIGCHLD".to_string(),
        ],
    );
    assert_eq!(sc.args[1].name, "flags");
    assert_arg_number(&sc.args[2], 0xef6aae8510f0);
    assert_eq!(sc.args[2].name, "child_tidptr");

    sc = parse_syscall("fstat(2, {st_mode=S_IFCHR|0666, st_rdev=makedev(0x1, 0x3), ...}) = 0");
    assert_eq!(sc.name, "fstat");
    assert_eq!(sc.args.len(), 2);
    let fields = assert_arg_struct(&sc.args[1]);
    assert_arg_flagset(
        struct_field(fields, "st_mode").unwrap(),
        &vec!["S_IFCHR".to_string(), "0666".to_string()],
    );
    let args = assert_arg_function_call(struct_field(fields, "st_rdev").unwrap(), "makedev");
    assert_arg_number(&args[0], 0x1);
    assert_arg_number(&args[1], 0x3);
}

#[test]
fn test_syscall_parse_partial() {
    let sc = parse_syscall("write(");
    assert_eq!(sc.name, "write");
    assert!(sc.error_details.is_some());
}

#[test]
fn test_consume_symbol() {
    let mut p = SyscallParser::new("read");
    let mut s = p.consume_symbol().unwrap();
    assert_eq!(s, "read");

    p = SyscallParser::new("syscall_whatever(");
    s = p.consume_symbol().unwrap();
    assert_eq!(s, "syscall_whatever");

    p = SyscallParser::new("123");
    assert!(p.consume_symbol().is_err());
}

#[test]
fn test_consume_arg() {
    let mut p = SyscallParser::new("O_RDONLY, 123, \"hello\", 1024*3");
    let mut arg = p.consume_arg().unwrap().unwrap();
    assert_arg_symbol(&arg, "O_RDONLY");

    arg = p.consume_arg().unwrap().unwrap();
    assert_arg_number(&arg, 123);

    arg = p.consume_arg().unwrap().unwrap();
    assert_arg_string(&arg, "hello", false);

    arg = p.consume_arg().unwrap().unwrap();
    assert_arg_product(&arg, 1024, 3);

    assert!(p.consume_arg().unwrap().is_none());
}

#[test]
fn test_consume_i64() {
    let mut p = SyscallParser::new("123");
    let mut v = p.consume_i64().unwrap();
    assert_eq!(v, 123);

    p = SyscallParser::new("-0xfF abc");
    v = p.consume_i64().unwrap();
    assert_eq!(v, -0xFF);

    p = SyscallParser::new("0600");
    v = p.consume_i64().unwrap();
    assert_eq!(v, 0o600);

    p = SyscallParser::new("0");
    v = p.consume_i64().unwrap();
    assert_eq!(v, 0);
}

#[test]
fn test_consume_quoted() {
    let mut p = SyscallParser::new("\"hello\"");
    let (mut s, mut truncated) = p.consume_quoted().unwrap();
    assert_eq!(s, "hello");
    assert!(!truncated);

    p = SyscallParser::new("\"\"...");
    (s, truncated) = p.consume_quoted().unwrap();
    assert_eq!(s, "");
    assert!(p.done());
    assert!(truncated);
}

#[test]
fn test_advance_whitespace() {
    let mut p = SyscallParser::new("  /* one comment */   ab    ");
    p.whitespace_comments();
    assert_eq!(p.read().unwrap(), 'a');
    p.advance();
    assert_eq!(p.read().unwrap(), 'b');
    p.advance();
    assert_eq!(p.read().unwrap(), ' ');
    p.whitespace_comments();
    assert!(p.done());
}

#[test]
fn test_numeric_literals() {
    let mut p = SyscallParser::new("0xfF");
    assert_eq!(p.consume_i64().unwrap(), 255);
    p = SyscallParser::new("-0xfF");
    assert_eq!(p.consume_i64().unwrap(), -255);
    p = SyscallParser::new("0600");
    assert_eq!(p.consume_i64().unwrap(), 384);
    p = SyscallParser::new("0");
    assert_eq!(p.consume_i64().unwrap(), 0);
}

#[test]
fn test_struct_exactly_two_fields() {
    // elided fields leave no placeholder behind
    let sc = parse_syscall("fstat(1, {st_mode=S_IFIFO|0600, st_size=0, ...}) = 0\n");
    let st = assert_arg_struct(&sc.args[1]);
    assert_eq!(st.len(), 2);
    assert_eq!(st[0].name, "st_mode");
    assert_eq!(st[1].name, "st_size");
}

#[test]
fn test_struct_duplicate_field_last_wins() {
    // a repeated field name keeps its first position and the last value
    let sc = parse_syscall("f({a=1, b=2, a=3}) = 0");
    assert!(sc.error_details.is_none());
    let st = assert_arg_struct(&sc.args[0]);
    assert_eq!(st.len(), 2);
    assert_eq!(st[0].name, "a");
    assert_arg_number(&st[0], 3);
    assert_eq!(st[1].name, "b");
    assert_arg_number(&st[1], 2);
}

#[test]
fn test_parse_is_total() {
    // any input yields a record: failures are data, not aborts
    let inputs = [
        "",
        "(",
        ")(",
        "close(3) = ",
        "close(3)",
        "\u{fe}\u{ff} garbage \\ \" {",
        "a(b=c=d) = 1",
        "x([[[[[]]]]]) = 0",
        "n(\"unterminated) = 1",
    ];
    for text in inputs {
        let sc = parse_syscall(text);
        if let Some(details) = &sc.error_details {
            // a failure record has no arguments and a zero return value
            assert_eq!(sc.args.len(), 0);
            assert_eq!(sc.return_value, 0);
            assert_eq!(details.fulltext, text);
        }
    }
}

#[test]
fn test_parse_failure_messages() {
    let sc = parse_syscall("123");
    assert_eq!(sc.name, "");
    let d = sc.error_details.unwrap();
    assert_eq!(d.message, "expected to see name");
    assert_eq!(d.fulltext, "123");

    let sc = parse_syscall("write(");
    assert_eq!(sc.error_details.unwrap().message, "end of file");

    let sc = parse_syscall("close 3");
    assert_eq!(sc.error_details.unwrap().message, "unexpected character");

    let sc = parse_syscall("open(flags=) = 0");
    assert_eq!(
        sc.error_details.unwrap().message,
        "expected argument after '='"
    );

    let sc = parse_syscall("f({a=");
    assert_eq!(
        sc.error_details.unwrap().message,
        "struct field missing value"
    );

    let sc = parse_syscall("f(}) = 0");
    assert_eq!(sc.error_details.unwrap().message, "could not parse arg");
}

#[test]
fn test_missing_return_value_fails() {
    // the grammar requires at least one digit after '='
    let sc = parse_syscall("close(3) = ");
    assert_eq!(sc.name, "close");
    assert_eq!(sc.error_details.unwrap().message, "expected a number");

    let sc = parse_syscall("close(3) =");
    assert_eq!(sc.error_details.unwrap().message, "expected a number");
}

#[test]
fn test_empty_symbol_fails() {
    let sc = parse_syscall("");
    assert_eq!(sc.name, "");
    assert_eq!(sc.error_details.unwrap().message, "end of file");

    let mut p = SyscallParser::new("");
    assert!(p.consume_symbol().is_err());
}

#[test]
fn test_flagset_needs_an_alternative() {
    // a line ending right after '|' is malformed
    let sc = parse_syscall("open(A|");
    assert_eq!(sc.name, "open");
    assert_eq!(sc.error_details.unwrap().message, "end of file");

    // with an alternative present the set parses
    let sc = parse_syscall("f(A|B) = 1");
    assert!(sc.error_details.is_none());
    if let SyscallArgValue::FlagSet(vs) = &sc.args[0].value {
        assert_eq!(vs.len(), 2);
    } else {
        panic!("expected a flag set, got {:?}", sc.args[0]);
    }
}

#[test]
fn test_empty_digit_run_fails() {
    // a '0' followed by a digit selects octal, so '8' leaves the run empty
    let sc = parse_syscall("f(08) = 0");
    assert_eq!(sc.error_details.unwrap().message, "expected a number");

    // '0x' with no hexadecimal digit after it
    let sc = parse_syscall("f(0x) = 0");
    assert_eq!(sc.error_details.unwrap().message, "expected a number");

    // a product needs its second factor
    let sc = parse_syscall("f(5*) = 0");
    assert_eq!(sc.error_details.unwrap().message, "expected a number");

    let mut p = SyscallParser::new("-");
    assert!(p.consume_i64().is_err());
}

#[test]
fn test_multiple_comments_skipped() {
    let sc = parse_syscall("f( /* one */ /* two */ 7 ) = 0");
    assert!(sc.error_details.is_none());
    assert_eq!(sc.args.len(), 1);
    assert_arg_number(&sc.args[0], 7);

    let mut p = SyscallParser::new("/* a */ /* b */x");
    p.whitespace_comments();
    assert_eq!(p.read().unwrap(), 'x');
}

#[test]
fn test_trailing_text_never_changes_record() {
    let plain = parse_syscall("getpid() = 7");
    let suffixed = parse_syscall("getpid() = 7 ENOSYS (ignored)");
    assert!(plain.error_details.is_none());
    assert!(suffixed.error_details.is_none());
    assert_eq!(plain.name, suffixed.name);
    assert_eq!(plain.return_value, suffixed.return_value);
    assert_eq!(plain.args.len(), suffixed.args.len());
}

#[test]
fn test_failure_record_shape() {
    // a failure record carries the name read so far, no arguments and a
    // zero return value
    let sc = parse_syscall("openat(AT_FDCWD, \"x");
    assert_eq!(sc.name, "openat");
    assert_eq!(sc.args.len(), 0);
    assert_eq!(sc.return_value, 0);
    assert_eq!(sc.error_details.as_ref().unwrap().fulltext, "openat(AT_FDCWD, \"x");
}

#[test]
fn test_trailing_text_ignored() {
    let sc = parse_syscall("openat(AT_FDCWD, \"missing\", O_RDONLY) = -1 ENOENT (No such file or directory)");
    assert!(sc.error_details.is_none());
    assert_eq!(sc.name, "openat");
    assert_eq!(sc.return_value, -1);
}

#[test]
fn test_empty_arg_list() {
    let sc = parse_syscall("getpid() = 123");
    assert!(sc.error_details.is_none());
    assert_eq!(sc.name, "getpid");
    assert_eq!(sc.args.len(), 0);
    assert_eq!(sc.return_value, 123);
}

#[test]
fn test_flagset_with_raw_bits() {
    let sc = parse_syscall("open(\"f\", O_RDWR|O_CREAT|0644) = 3");
    assert!(sc.error_details.is_none());
    if let SyscallArgValue::FlagSet(vs) = &sc.args[1].value {
        assert_eq!(vs.len(), 3);
        assert!(matches!(&vs[0], FlagSetValue::Symbol(s) if s == "O_RDWR"));
        assert!(matches!(&vs[1], FlagSetValue::Symbol(s) if s == "O_CREAT"));
        assert!(matches!(&vs[2], FlagSetValue::Bits(x) if *x == 0o644));
    } else {
        panic!("expected a flag set, got {:?}", sc.args[1]);
    }
}

#[test]
fn test_escaped_quote_kept_verbatim() {
    let mut p = SyscallParser::new("\"a\\\"b\"");
    let (s, truncated) = p.consume_quoted().unwrap();
    assert_eq!(s, "a\\\"b");
    assert!(!truncated);
}
