use nand7400::formatter::Formatter;

/// Formatting works on example code: trimmed lines, collapsed whitespace,
/// one blank line at most, and indentation after a label.
#[test]
fn test_example_format() {
    let code = "; Write some assembly...\n\
                      jmp LABEL\n\
                      nop\n\
                      nop\n\
                      \n\
                      \n\
                      LABEL:\n\
                          add #0x01    #0x02        \t    #0x03\n\
                          lda #-0x01\n\
                          ldb +0x01\n\
                      ";

    let expected = "; Write some assembly...\n\
                          jmp LABEL\n\
                          nop\n\
                          nop\n\
                          \n\
                          LABEL:\n\
                          \tadd #0x01 #0x02 #0x03\n\
                          \tlda #-0x01\n\
                          \tldb +0x01\n\
                          ";

    let formatter = Formatter::new();
    let formatted = formatter.format(code);

    assert_eq!(formatted, expected);
}

/// Formatting the empty text yields the empty text, and a lone word is
/// trimmed onto its own line.
#[test]
fn format_trims_and_terminates() {
    let formatter = Formatter::new();

    assert_eq!(formatter.format(""), "");
    assert_eq!(formatter.format("   nop   "), "nop\n");
    assert_eq!(formatter.format("a \t b\r\nc"), "a b\nc\n");
}

/// A label line at the very top gets a line of its own.
#[test]
fn format_label_first_line() {
    let formatter = Formatter::new();

    assert_eq!(formatter.format("lbl: nop"), "\nlbl: nop\n");
}

/// The default formatter is the formatter.
#[test]
fn format_default_is_new() {
    assert_eq!(Formatter::default(), Formatter::new());
}
