use dymo_print::command_accumulator::{print_commands, CommandAccumulator};
use dymo_print::picture::PrintableImage;

#[test]
fn test_append_row() {
    let mut ca = CommandAccumulator { accu: Vec::new() };
    (0..7).for_each(|_| ca.accu.push(17u8));

    ca.add_data_row([0u8, 1u8, 2u8, 3u8, 4u8, 5u8, 6u8, 7u8]);
    assert_eq!(ca.accu[0..7], [17u8; 7]);
    assert_eq!(ca.accu[7], 0x16);
    assert_eq!(ca.accu[8..16], [0, 1, 2, 3, 4, 5, 6, 7]);
}

#[test]
fn test_preamble() {
    let mut ca = CommandAccumulator { accu: Vec::new() };
    ca.preamble(false);
    assert_eq!(ca.accu[0..6], [0x1b, 0x43, 0, 0x1b, 0x42, 0]);
}

#[test]
fn test_get_status() {
    let mut ca = CommandAccumulator { accu: Vec::new() };
    ca.get_status();
    assert_eq!(ca.accu[0..2], [0x1b, 0x41]);
}

#[test]
fn test_bytes_per_line() {
    let mut ca = CommandAccumulator { accu: Vec::new() };
    ca.bytes_per_line(8);
    assert_eq!(ca.accu[0..3], [0x1b, 0x44, 0x08]);
}

#[test]
fn test_tape_color() {
    let mut ca = CommandAccumulator { accu: Vec::new() };
    ca.tape_color();
    assert_eq!(ca.accu[0..3], [0x1b, 0x43, 0]);
}

#[test]
fn test_dottab() {
    let mut ca = CommandAccumulator { accu: Vec::new() };
    ca.dottab();
    assert_eq!(ca.accu[0..3], [0x1b, 0x42, 0]);
}

#[test]
fn new_accumulator_is_empty() {
    let ca = CommandAccumulator::new();
    assert!(ca.accu.is_empty());
    let d = CommandAccumulator::default();
    assert!(d.accu.is_empty());
}

#[test]
fn preamble_with_whitespace() {
    let mut ca = CommandAccumulator::new();
    ca.preamble(true);
    assert_eq!(ca.accu.len(), 6 + 3 + 56);
    assert_eq!(ca.accu[6..9], [0x1b, 0x44, 0]);
    assert!(ca.accu[9..].iter().all(|&b| b == 0x16));
}

#[test]
fn postamble_without_and_with_whitespace() {
    let mut ca = CommandAccumulator::new();
    ca.postamble(false);
    assert_eq!(ca.accu, vec![0x1b, 0x41]);
    let mut ca = CommandAccumulator::new();
    ca.postamble(true);
    assert_eq!(ca.accu.len(), 3 + 56 + 2);
    assert_eq!(ca.accu[0..3], [0x1b, 0x44, 0]);
    assert_eq!(ca.accu[59..61], [0x1b, 0x41]);
}

#[test]
fn whitespace_lines() {
    let mut ca = CommandAccumulator::new();
    ca.whitespace(3);
    assert_eq!(ca.accu, vec![0x1b, 0x44, 0, 0x16, 0x16, 0x16]);
    let mut ca = CommandAccumulator::new();
    ca.whitespace(0);
    assert_eq!(ca.accu, vec![0x1b, 0x44, 0]);
}

#[test]
fn commands_keep_what_was_there() {
    let mut ca = CommandAccumulator { accu: vec![9, 9] };
    ca.get_status();
    ca.tape_color();
    assert_eq!(ca.accu, vec![9, 9, 0x1b, 0x41, 0x1b, 0x43, 0]);
}

#[test]
fn generate_commands_layout() {
    let image = PrintableImage {
        data: vec![[1, 2, 3, 4, 5, 6, 7, 8], [0xff, 0, 0xff, 0, 0xff, 0, 0xff, 0]],
    };
    let mut ca = CommandAccumulator::new();
    ca.generate_commands(&image);
    let c = &ca.accu;
    // 129 bytes of framing plus nine per row
    assert_eq!(c.len(), 129 + 9 * 2);
    assert_eq!(c[0..6], [0x1b, 0x43, 0, 0x1b, 0x42, 0]);
    // whitespace in front of the label
    assert_eq!(c[6..9], [0x1b, 0x44, 0]);
    assert!(c[9..65].iter().all(|&b| b == 0x16));
    assert_eq!(c[65..68], [0x1b, 0x44, 8]);
    assert_eq!(c[68], 0x16);
    assert_eq!(c[69..77], [1, 2, 3, 4, 5, 6, 7, 8]);
    assert_eq!(c[77], 0x16);
    assert_eq!(c[78..86], [0xff, 0, 0xff, 0, 0xff, 0, 0xff, 0]);
    // whitespace behind the label
    assert_eq!(c[86..89], [0x1b, 0x44, 0]);
    assert!(c[89..145].iter().all(|&b| b == 0x16));
    assert_eq!(c[145..147], [0x1b, 0x41]);
}

#[test]
fn print_commands_for_empty_image() {
    let image = PrintableImage { data: vec![] };
    let c = print_commands(&image);
    assert_eq!(c.len(), 129);
    let mut ca = CommandAccumulator::new();
    ca.generate_commands(&image);
    assert_eq!(c, ca.accu);
}
