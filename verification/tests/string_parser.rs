use swift_mt::string_parser::StringParser;

#[test]
fn positive_tests() {
    let mut content = "Hello, world!";
    let mut parser = StringParser::new(content.to_string());
    assert_eq!(parser.next().unwrap(), 'H');
    assert_eq!(parser.next_line().unwrap(), "ello, world!");

    content = "Hello world!\r\nWhat is going on?\r\nSomething";
    parser = StringParser::new(content.to_string());
    assert_eq!(parser.next_line().unwrap(), "Hello world!");
    assert_eq!(parser.next_line().unwrap(), "What is going on?");
    assert_eq!(parser.next_line().unwrap(), "Something");

    content = "Hello world!\r\r\nWhat is going on?\rab\r\n\rSomething";
    parser = StringParser::new(content.to_string());
    assert_eq!(parser.next_line().unwrap(), "Hello world!\r");
    assert_eq!(parser.next_line().unwrap(), "What is going on?\rab");
    assert_eq!(parser.next_line().unwrap(), "\rSomething");

    content = "{1:asdf}{2:asdafaae}{3:asdf";
    parser = StringParser::new(content.to_string());
    assert_eq!(parser.until('}').unwrap(), "{1:asdf");
    assert_eq!(parser.until('}').unwrap(), "{2:asdafaae");
    assert_eq!(parser.until('}').unwrap(), "{3:asdf");

    content = "";
    parser = StringParser::new(content.to_string());
    assert_eq!(parser.next_line().unwrap(), "");
    assert_eq!(parser.until(' ').unwrap(), "");

    content = "Random text";
    parser = StringParser::new(content.to_string());
    assert_eq!(parser.until('$').unwrap(), "Random text");

    content = "Random text";
    parser = StringParser::new(content.to_string());
    assert_eq!(parser.next_line().unwrap(), "Random text");

    content = "ABCD";
    parser = StringParser::new(content.to_string());

    assert_eq!(parser.has_more(), true);
    parser.next().unwrap();
    assert_eq!(parser.has_more(), true);
    parser.next_line().unwrap();
    assert_eq!(parser.has_more(), false);
}

#[test]
fn negative_tests() {
    let mut content = "";
    let mut parser = StringParser::new(content.to_string());

    assert!(parser.next().is_err());

    content = "Abcd";
    parser = StringParser::new(content.to_string());

    parser.next_line().unwrap();
    assert!(parser.next().is_err());
}

#[test]
fn peek_and_positions() {
    let mut parser = StringParser::new("ab".to_string());
    assert_eq!(parser.peek().unwrap(), 'a');
    assert_eq!(parser.position(), 0);
    assert_eq!(parser.next().unwrap(), 'a');
    assert_eq!(parser.position(), 1);
    parser.set_position(0);
    assert_eq!(parser.next().unwrap(), 'a');
    assert_eq!(parser.n_chars(1).unwrap(), "b");
    assert!(parser.peek().is_err());
    assert!(parser.n_chars(1).is_err());
}

#[test]
fn peek_line_does_not_consume() {
    let mut parser = StringParser::new("one\r\ntwo".to_string());
    assert_eq!(parser.peek_line().unwrap(), "one");
    assert_eq!(parser.position(), 0);
    assert_eq!(parser.next_line().unwrap(), "one");
    assert_eq!(parser.next_line().unwrap(), "two");
}

#[test]
fn n_chars_consumes_nothing_on_failure() {
    let mut parser = StringParser::new("abc".to_string());
    assert!(parser.n_chars(4).is_err());
    assert_eq!(parser.position(), 0);
    assert_eq!(parser.n_chars(3).unwrap(), "abc");
}

// Joining the lines with LF reproduces the input, CRLF normalised to LF
// and lone CRs kept.
#[test]
fn line_join_reproduces_input() {
    let content = "alpha\r\nbe\rta\ngamma";
    let mut parser = StringParser::new(content.to_string());
    let mut lines: Vec<String> = Vec::new();
    while parser.has_more() {
        lines.push(parser.next_line().unwrap());
    }
    assert_eq!(lines.join("\n"), "alpha\nbe\rta\ngamma");
}
