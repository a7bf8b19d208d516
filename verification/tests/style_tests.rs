use snakepit::native::style::{blue, bold, cyan, dim, green, italic, magenta, red, underline, white, yellow, Color, StyledText};

#[test]
fn test_styling() {
    let styled = StyledText::new("Hello").fg(Color::Red).bold();
    let output = styled.to_string(true);
    // Should contain ANSI codes or plain text
    assert!(output.contains("Hello"));
}

#[test]
fn test_quick_functions() {
    assert!(red("test").to_string(true).contains("test"));
    assert!(green("test").to_string(true).contains("test"));
    assert!(bold("test").to_string(true).contains("test"));
}

#[test]
fn escape_sequences() {
    assert_eq!(StyledText::new("x").to_string(true), "x");
    assert_eq!(red("x").to_string(false), "x");
    assert_eq!(red("x").to_string(true), "\x1b[31mx\x1b[0m");
    assert_eq!(green("x").to_string(true), "\x1b[32mx\x1b[0m");
    assert_eq!(yellow("x").to_string(true), "\x1b[33mx\x1b[0m");
    assert_eq!(blue("x").to_string(true), "\x1b[34mx\x1b[0m");
    assert_eq!(magenta("x").to_string(true), "\x1b[35mx\x1b[0m");
    assert_eq!(cyan("x").to_string(true), "\x1b[36mx\x1b[0m");
    assert_eq!(white("x").to_string(true), "\x1b[37mx\x1b[0m");
    assert_eq!(bold("x").to_string(true), "\x1b[1mx\x1b[0m");
    assert_eq!(dim("x").to_string(true), "\x1b[2mx\x1b[0m");
    assert_eq!(italic("x").to_string(true), "\x1b[3mx\x1b[0m");
    assert_eq!(underline("x").to_string(true), "\x1b[4mx\x1b[0m");
    let all = StyledText::new("x")
        .bg(Color::BrightWhite)
        .fg(Color::BrightBlack)
        .underline()
        .italic()
        .dim()
        .bold();
    assert_eq!(all.to_string(true), "\x1b[1;2;3;4;90;107mx\x1b[0m");
    assert_eq!(StyledText::new("x").bg(Color::Black).to_string(true), "\x1b[40mx\x1b[0m");
}
