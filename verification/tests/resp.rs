use selene::resp::{command_length, line_length, number, parse, replies, Parsed};

#[test]
fn an_inline_command_is_one_command() {
    assert_eq!(
        parse(b"PING\r\n"),
        Parsed {
            commands_count: 1,
            consumed_count: 6,
        }
    );
}

#[test]
fn a_resp_array_counts_once_not_once_per_line() {
    assert_eq!(
        parse(b"*1\r\n$4\r\nPING\r\n"),
        Parsed {
            commands_count: 1,
            consumed_count: 14,
        }
    );
}

#[test]
fn pipelined_commands_are_all_counted() {
    assert_eq!(
        parse(b"*1\r\n$4\r\nPING\r\nPING\r\n*1\r\n$4\r\nPING\r\n"),
        Parsed {
            commands_count: 3,
            consumed_count: 34,
        }
    );
}

#[test]
fn a_truncated_array_consumes_nothing() {
    assert_eq!(
        parse(b"*1\r\n$4\r\nPI"),
        Parsed {
            commands_count: 0,
            consumed_count: 0,
        }
    );
}

#[test]
fn a_complete_command_before_a_truncated_one_is_still_answered() {
    assert_eq!(
        parse(b"PING\r\n*1\r\n$4\r\nPI"),
        Parsed {
            commands_count: 1,
            consumed_count: 6,
        }
    );
}

#[test]
fn a_multi_argument_array_is_one_command() {
    assert_eq!(
        parse(b"*2\r\n$4\r\nECHO\r\n$2\r\nhi\r\n"),
        Parsed {
            commands_count: 1,
            consumed_count: 22,
        }
    );
}

#[test]
fn every_prefix_of_a_command_is_partial() {
    let command = b"*2\r\n$4\r\nECHO\r\n$2\r\nhi\r\n";
    for kept in 0..command.len() {
        assert_eq!(command_length(&command[..kept]), None);
    }
    assert_eq!(command_length(command), Some(command.len()));
    let mut longer = command.to_vec();
    longer.extend_from_slice(b"more");
    assert_eq!(command_length(&longer), Some(command.len()));
}

#[test]
fn a_line_ends_at_its_first_terminator() {
    assert_eq!(line_length(b""), None);
    assert_eq!(line_length(b"\r"), None);
    assert_eq!(line_length(b"\r\n"), Some(2));
    assert_eq!(line_length(b"a\rb\n\r\r\nc\r\n"), Some(7));
}

#[test]
fn a_number_is_all_digits_and_fits() {
    assert_eq!(number(b"0\r\n"), Some(0));
    assert_eq!(number(b"0042\r\n"), Some(42));
    assert_eq!(number(b"18446744073709551615\r\n"), Some(usize::MAX));
    assert_eq!(number(b"18446744073709551616\r\n"), None);
    assert_eq!(number(b"99999999999999999999999\r\n"), None);
    assert_eq!(number(b"\r\n"), None);
    assert_eq!(number(b"4"), None);
    assert_eq!(number(b"-1\r\n"), None);
    assert_eq!(number(b"1:\r\n"), None);
    assert_eq!(number(b"12\n\r"), None);
}

#[test]
fn an_array_without_arguments_is_its_header() {
    assert_eq!(command_length(b"*0\r\nPING\r\n"), Some(4));
    assert_eq!(command_length(b"*\r\n"), None);
    assert_eq!(command_length(b"*x\r\n"), None);
}

#[test]
fn an_argument_that_cannot_fit_is_partial() {
    assert_eq!(command_length(b"*1\r\n$18446744073709551615\r\nPING\r\n"), None);
    assert_eq!(command_length(b"*18446744073709551615\r\n$1\r\na\r\n"), None);
}

#[test]
fn every_command_gets_one_reply() {
    assert_eq!(replies(0), b"");
    assert_eq!(replies(1), b"+PONG\r\n");
    let parsed = parse(b"PING\r\n*1\r\n$4\r\nPING\r\nPING\r\n");
    assert_eq!(replies(parsed.commands_count), b"+PONG\r\n+PONG\r\n+PONG\r\n");
}
