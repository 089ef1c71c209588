use vstd::prelude::*;

verus! {

/// Marks the start of a line of print data.
pub const SYN: u8 = 0x16;

/// Announces that the next byte encodes a command.
pub const ESC: u8 = 0x1b;

/// The command stream that asks the printer for its status: `ESC A`.
pub open spec fn status_cmd() -> Seq<u8> {
    seq![ESC, 0x41u8]
}

/// The command stream that sets the number of bytes in the following rows: `ESC D num`.
pub open spec fn bytes_per_line_cmd(num: u8) -> Seq<u8> {
    seq![ESC, 0x44u8, num]
}

/// The command stream that sets the tape colour: `ESC C 0`.
pub open spec fn tape_color_cmd() -> Seq<u8> {
    seq![ESC, 0x43u8, 0u8]
}

/// The command stream that sets the dot tab: `ESC B 0`.
pub open spec fn dottab_cmd() -> Seq<u8> {
    seq![ESC, 0x42u8, 0u8]
}

/// `num` empty lines, each one a lone `SYN`, after a line width of zero bytes.
pub open spec fn whitespace_cmd(num: nat) -> Seq<u8> {
    bytes_per_line_cmd(0) + Seq::new(num, |i: int| SYN)
}

/// One line of print data: `SYN` followed by the row's eight bytes.
pub open spec fn data_row_cmd(row: Seq<u8>) -> Seq<u8> {
    seq![SYN] + row
}

/// The print data of all rows, in order.
pub open spec fn rows_cmd(rows: Seq<[u8; 8]>) -> Seq<u8>
    decreases rows.len(),
{
    if rows.len() == 0 {
        Seq::empty()
    } else {
        rows_cmd(rows.drop_last()) + data_row_cmd(rows.last()@)
    }
}

/// What is sent before the image: tape colour, dot tab and optional whitespace.
pub open spec fn preamble_cmd(add_whitespace: bool) -> Seq<u8> {
    tape_color_cmd() + dottab_cmd() + if add_whitespace {
        whitespace_cmd(56)
    } else {
        Seq::empty()
    }
}

/// What is sent after the image: optional whitespace, then a status request.
pub open spec fn postamble_cmd(add_whitespace: bool) -> Seq<u8> {
    (if add_whitespace {
        whitespace_cmd(56)
    } else {
        Seq::empty()
    }) + status_cmd()
}

/// The image part of a job: the line width of eight bytes, then every row.
pub open spec fn image_rows_cmd(rows: Seq<[u8; 8]>) -> Seq<u8> {
    bytes_per_line_cmd(8) + rows_cmd(rows)
}

/// The complete print job for an image with the given rows: 56 lines of
/// whitespace in front of the label and 56 behind it.
pub open spec fn label_cmd(rows: Seq<[u8; 8]>) -> Seq<u8> {
    preamble_cmd(true) + image_rows_cmd(rows) + postamble_cmd(true)
}

/// Collects the bytes that are sent to the printer.
pub struct CommandAccumulator {
    pub accu: Vec<u8>,
}

impl Default for CommandAccumulator {
    fn default() -> (res: Self)
        ensures
            res.accu@ == Seq::<u8>::empty(),
    {
        CommandAccumulator { accu: Vec::new() }
    }
}

impl CommandAccumulator {
    /// An accumulator that holds no command yet.
    pub fn new() -> (res: Self)
        ensures
            res.accu@ == Seq::<u8>::empty(),
    {
        CommandAccumulator { accu: Vec::new() }
    }

    /// Appends the data of every row of `image`, after announcing eight bytes per line.
    pub fn append_image_rows(&mut self, image: &crate::picture::PrintableImage)
        ensures
            final(self).accu@ == old(self).accu@ + image_rows_cmd(image.data@),
    {
        self.bytes_per_line(8);
        let ghost start = self.accu@;
        let mut i: usize = 0;
        while i < image.data.len()
            invariant
                0 <= i <= image.data.len(),
                self.accu@ == start + rows_cmd(image.data@.take(i as int)),
            decreases image.data.len() - i,
        {
            self.add_data_row(image.data[i]);
            proof {
                assert(image.data@.take(i + 1).drop_last() =~= image.data@.take(i as int));
            }
            i = i + 1;
        }
        proof {
            assert(image.data@.take(i as int) =~= image.data@);
        }
    }

    /// Generates all commands necessary to print an image.
    /// Includes some whitespace in front of and behind the label.
    pub fn generate_commands(&mut self, image: &crate::picture::PrintableImage)
        ensures
            final(self).accu@ == old(self).accu@ + label_cmd(image.data@),
    {
        self.preamble(true);
        self.append_image_rows(image);
        self.postamble(true);
    }

    /// Adds the print commands for one row of the image.
    /// Before the line, `bytes_per_line` must be set to the correct value.
    pub fn add_data_row(&mut self, row: [u8; 8])
        ensures
            final(self).accu@ == old(self).accu@ + data_row_cmd(row@),
    {
        self.accu.push(SYN);
        let mut i: usize = 0;
        while i < 8
            invariant
                0 <= i <= 8,
                self.accu@ == old(self).accu@ + seq![SYN] + row@.take(i as int),
            decreases 8 - i,
        {
            self.accu.push(row[i]);
            proof {
                assert(row@.take(i + 1) =~= row@.take(i as int).push(row@[i as int]));
            }
            i = i + 1;
        }
        proof {
            assert(row@.take(8) =~= row@);
        }
    }

    /// Starts a job: tape colour and dot tab, then whitespace if asked for.
    pub fn preamble(&mut self, add_whitespace: bool)
        ensures
            final(self).accu@ == old(self).accu@ + preamble_cmd(add_whitespace),
    {
        self.tape_color();
        self.dottab();
        if add_whitespace {
            self.whitespace(56);
        }
    }

    /// Ends a job: whitespace if asked for, then a status request.
    pub fn postamble(&mut self, add_whitespace: bool)
        ensures
            final(self).accu@ == old(self).accu@ + postamble_cmd(add_whitespace),
    {
        if add_whitespace {
            self.whitespace(56);
        }
        self.get_status();
    }

    /// Adds `num` lines of whitespace.
    ///
    /// 56 is recommended as space before and after the label text.
    pub fn whitespace(&mut self, num: usize)
        ensures
            final(self).accu@ == old(self).accu@ + whitespace_cmd(num as nat),
    {
        self.bytes_per_line(0);
        let ghost start = self.accu@;
        let mut i: usize = 0;
        while i < num
            invariant
                0 <= i <= num,
                self.accu@ == start + Seq::new(i as nat, |k: int| SYN),
            decreases num - i,
        {
            self.accu.push(SYN);
            proof {
                assert(Seq::new((i + 1) as nat, |k: int| SYN) =~= Seq::new(i as nat, |k: int| SYN).push(SYN));
            }
            i = i + 1;
        }
    }

    /// Asks the printer for its status.
    pub fn get_status(&mut self)
        ensures
            final(self).accu@ == old(self).accu@ + status_cmd(),
    {
        self.accu.push(ESC);
        self.accu.push(0x41u8);
    }

    /// The number of bytes in the following row(s).
    pub fn bytes_per_line(&mut self, num: u8)
        ensures
            final(self).accu@ == old(self).accu@ + bytes_per_line_cmd(num),
    {
        self.accu.push(ESC);
        self.accu.push(0x44u8);
        self.accu.push(num);
    }

    /// The tape's colour. Encoding unknown; zero is what is sent.
    pub fn tape_color(&mut self)
        ensures
            final(self).accu@ == old(self).accu@ + tape_color_cmd(),
    {
        self.accu.push(ESC);
        self.accu.push(0x43u8);
        self.accu.push(0u8);
    }

    /// Probably whether (or how) to print the tab character; zero is what is sent.
    pub fn dottab(&mut self)
        ensures
            final(self).accu@ == old(self).accu@ + dottab_cmd(),
    {
        self.accu.push(ESC);
        self.accu.push(0x42u8);
        self.accu.push(0u8);
    }
}

/// The bytes to send to the printer to print `image`.
pub fn print_commands(image: &crate::picture::PrintableImage) -> (commands: Vec<u8>)
    ensures
        commands@ == label_cmd(image.data@),
{
    let mut ca = CommandAccumulator::new();
    ca.generate_commands(image);
    proof {
        assert(Seq::<u8>::empty() + label_cmd(image.data@) =~= label_cmd(image.data@));
    }
    ca.accu
}

/// The print data of the rows takes nine bytes per row.
pub proof fn lemma_rows_cmd_len(rows: Seq<[u8; 8]>)
    ensures
        rows_cmd(rows).len() == 9 * rows.len(),
    decreases rows.len(),
{
    if rows.len() > 0 {
        lemma_rows_cmd_len(rows.drop_last());
    }
}

/// A print job for `n` rows is `129 + 9 * n` bytes long: 65 for the preamble
/// (with its whitespace), 3 for the line width, 9 per row, 61 for the
/// postamble (with its whitespace).
pub proof fn lemma_label_cmd_len(rows: Seq<[u8; 8]>)
    ensures
        label_cmd(rows).len() == 129 + 9 * rows.len(),
{
    lemma_rows_cmd_len(rows);
}

/// In the print data, row `k` starts at byte `9 * k` with `SYN`, and its
/// byte `j` follows at `9 * k + 1 + j`: every row can be read back.
pub proof fn lemma_rows_cmd_layout(rows: Seq<[u8; 8]>, k: int, j: int)
    requires
        0 <= k < rows.len(),
        0 <= j < 8,
    ensures
        rows_cmd(rows)[9 * k] == SYN,
        rows_cmd(rows)[9 * k + 1 + j] == rows[k]@[j],
    decreases rows.len(),
{
    lemma_rows_cmd_len(rows.drop_last());
    if k < rows.len() - 1 {
        lemma_rows_cmd_layout(rows.drop_last(), k, j);
    }
}

/// In a whole print job, row `k` of the image is found at byte `69 + 9 * k`
/// (after 65 bytes of preamble and 3 of line width, behind its `SYN`).
pub proof fn lemma_label_cmd_row(rows: Seq<[u8; 8]>, k: int, j: int)
    requires
        0 <= k < rows.len(),
        0 <= j < 8,
    ensures
        label_cmd(rows)[68 + 9 * k] == SYN,
        label_cmd(rows)[69 + 9 * k + j] == rows[k]@[j],
{
    lemma_rows_cmd_layout(rows, k, j);
    lemma_rows_cmd_len(rows);
}

/// How the printer reads a command stream, starting at line width `width`:
/// `ESC A`, `ESC B b` and `ESC C b` are skipped, `ESC D n` sets the line width
/// to `n`, and `SYN` is followed by one line of exactly `width` bytes. Gives
/// the non-empty lines in order and the width at the end, or `None` where
/// the stream does not read.
pub open spec fn read_lines(s: Seq<u8>, width: u8) -> Option<(Seq<Seq<u8>>, u8)>
    decreases s.len(),
{
    if s.len() == 0 {
        Some((Seq::empty(), width))
    } else if s[0] == ESC && s.len() >= 2 && s[1] == 0x41u8 {
        read_lines(s.skip(2), width)
    } else if s[0] == ESC && s.len() >= 3 && (s[1] == 0x42u8 || s[1] == 0x43u8) {
        read_lines(s.skip(3), width)
    } else if s[0] == ESC && s.len() >= 3 && s[1] == 0x44u8 {
        read_lines(s.skip(3), s[2])
    } else if s[0] == SYN && s.len() >= 1 + width {
        match read_lines(s.skip(1 + width), width) {
            Some((lines, w)) => Some(
                (
                    if width == 0 {
                        lines
                    } else {
                        seq![s.subrange(1, 1 + width)] + lines
                    },
                    w,
                ),
            ),
            None => None,
        }
    } else {
        None
    }
}

/// Reading two streams one after the other reads their concatenation.
pub proof fn lemma_read_lines_concat(a: Seq<u8>, b: Seq<u8>, width: u8)
    requires
        read_lines(a, width) is Some,
    ensures
        read_lines(a + b, width) == (match read_lines(b, read_lines(a, width).unwrap().1) {
            Some((lb, wb)) => Some((read_lines(a, width).unwrap().0 + lb, wb)),
            None => None,
        }),
    decreases a.len(),
{
    let ab = a + b;
    if a.len() == 0 {
        assert(ab =~= b);
        match read_lines(b, width) {
            Some((lb, wb)) => {
                assert(Seq::<Seq<u8>>::empty() + lb =~= lb);
            },
            None => {},
        }
    } else if a[0] == ESC && a.len() >= 2 && a[1] == 0x41u8 {
        assert(ab.skip(2) =~= a.skip(2) + b);
        lemma_read_lines_concat(a.skip(2), b, width);
    } else if a[0] == ESC && a.len() >= 3 && (a[1] == 0x42u8 || a[1] == 0x43u8) {
        assert(ab.skip(3) =~= a.skip(3) + b);
        lemma_read_lines_concat(a.skip(3), b, width);
    } else if a[0] == ESC && a.len() >= 3 && a[1] == 0x44u8 {
        assert(ab.skip(3) =~= a.skip(3) + b);
        lemma_read_lines_concat(a.skip(3), b, a[2]);
    } else {
        let k = 1 + width;
        assert(ab.skip(k) =~= a.skip(k) + b);
        assert(ab.subrange(1, k) =~= a.subrange(1, k));
        lemma_read_lines_concat(a.skip(k), b, width);
        let (la, wa) = read_lines(a.skip(k), width).unwrap();
        match read_lines(b, wa) {
            Some((lb, wb)) => {
                if width != 0 {
                    assert(seq![a.subrange(1, k)] + (la + lb) =~= (seq![a.subrange(1, k)] + la) + lb);
                }
            },
            None => {},
        }
    }
}

proof fn lemma_read_syns(n: nat)
    ensures
        read_lines(Seq::new(n, |i: int| SYN), 0u8) == Some((Seq::<Seq<u8>>::empty(), 0u8)),
    decreases n,
{
    let s = Seq::new(n, |i: int| SYN);
    if n > 0 {
        assert(s.skip(1) =~= Seq::new((n - 1) as nat, |i: int| SYN));
        lemma_read_syns((n - 1) as nat);
    }
}

proof fn lemma_read_whitespace(n: nat, width: u8)
    ensures
        read_lines(whitespace_cmd(n), width) == Some((Seq::<Seq<u8>>::empty(), 0u8)),
{
    let c = bytes_per_line_cmd(0);
    assert(c.skip(3) =~= Seq::<u8>::empty());
    assert(read_lines(c.skip(3), 0u8) == Some((Seq::<Seq<u8>>::empty(), 0u8)));
    assert(read_lines(c, width) == Some((Seq::<Seq<u8>>::empty(), 0u8)));
    lemma_read_syns(n);
    lemma_read_lines_concat(c, Seq::new(n, |i: int| SYN), width);
    assert(Seq::<Seq<u8>>::empty() + Seq::<Seq<u8>>::empty() =~= Seq::<Seq<u8>>::empty());
}

proof fn lemma_read_rows(rows: Seq<[u8; 8]>)
    ensures
        read_lines(rows_cmd(rows), 8u8) == Some((rows.map_values(|r: [u8; 8]| r@), 8u8)),
    decreases rows.len(),
{
    if rows.len() == 0 {
        assert(rows.map_values(|r: [u8; 8]| r@) =~= Seq::<Seq<u8>>::empty());
    } else {
        let init = rows.drop_last();
        let d = data_row_cmd(rows.last()@);
        lemma_read_rows(init);
        assert(d.skip(9) =~= Seq::<u8>::empty());
        assert(read_lines(d.skip(9), 8u8) == Some((Seq::<Seq<u8>>::empty(), 8u8)));
        assert(d.subrange(1, 9) =~= rows.last()@);
        assert(seq![rows.last()@] + Seq::<Seq<u8>>::empty() =~= seq![rows.last()@]);
        assert(read_lines(d, 8u8) == Some((seq![rows.last()@], 8u8)));
        lemma_read_lines_concat(rows_cmd(init), d, 8u8);
        assert(init.map_values(|r: [u8; 8]| r@) + seq![rows.last()@] =~= rows.map_values(
            |r: [u8; 8]| r@,
        ));
    }
}

/// The printer reads a print job back into exactly the image's rows, in
/// order, whatever line width it was left at: every data line comes after
/// a line-width command, the image lines are eight bytes wide, and all other
/// lines are empty whitespace lines.
pub proof fn lemma_label_cmd_reads_back(rows: Seq<[u8; 8]>, width: u8)
    ensures
        read_lines(label_cmd(rows), width) == Some((rows.map_values(|r: [u8; 8]| r@), 0u8)),
{
    let e = Seq::<Seq<u8>>::empty();
    let lines = rows.map_values(|r: [u8; 8]| r@);
    let tape = tape_color_cmd();
    let dot = dottab_cmd();
    let ws = whitespace_cmd(56);
    let bpl = bytes_per_line_cmd(8);
    let st = status_cmd();
    assert(tape.skip(3) =~= Seq::<u8>::empty());
    assert(dot.skip(3) =~= Seq::<u8>::empty());
    assert(bpl.skip(3) =~= Seq::<u8>::empty());
    assert(st.skip(2) =~= Seq::<u8>::empty());
    assert(read_lines(Seq::<u8>::empty(), width) == Some((e, width)));
    assert(read_lines(Seq::<u8>::empty(), 8u8) == Some((e, 8u8)));
    assert(read_lines(Seq::<u8>::empty(), 0u8) == Some((e, 0u8)));
    assert(read_lines(tape, width) == Some((e, width)));
    assert(read_lines(dot, width) == Some((e, width)));
    assert(read_lines(bpl, 0u8) == Some((e, 8u8)));
    assert(read_lines(st, 0u8) == Some((e, 0u8)));
    assert(e + e =~= e);
    assert(e + lines =~= lines);
    assert(lines + e =~= lines);
    lemma_read_whitespace(56, width);
    lemma_read_whitespace(56, 8u8);
    lemma_read_rows(rows);
    // preamble: tape colour, dot tab, whitespace
    lemma_read_lines_concat(tape, dot, width);
    lemma_read_lines_concat(tape + dot, ws, width);
    let pre = preamble_cmd(true);
    assert(pre =~= tape + dot + ws);
    assert(read_lines(pre, width) == Some((e, 0u8)));
    // image rows
    lemma_read_lines_concat(bpl, rows_cmd(rows), 0u8);
    let img = image_rows_cmd(rows);
    assert(read_lines(img, 0u8) == Some((lines, 8u8)));
    // postamble: whitespace, status
    lemma_read_lines_concat(ws, st, 8u8);
    let post = postamble_cmd(true);
    assert(post =~= ws + st);
    assert(read_lines(post, 8u8) == Some((e, 0u8)));
    lemma_read_lines_concat(pre, img, width);
    lemma_read_lines_concat(pre + img, post, width);
    assert(label_cmd(rows) =~= pre + img + post);
}

/// The whole print job, byte for byte, for any number of rows: tape colour
/// (`1b 43 00`), dot tab (`1b 42 00`), a line width of zero (`1b 44 00`) and
/// 56 blank lines (`16`), a line width of eight (`1b 44 08`); then each row
/// as `16` and its eight bytes; then a line width of zero, 56 blank lines
/// behind the label, and the status request (`1b 41`).
pub proof fn lemma_label_cmd_bytes(rows: Seq<[u8; 8]>)
    ensures
        label_cmd(rows).len() == 129 + 9 * rows.len(),
        label_cmd(rows).take(68) == seq![0x1bu8, 0x43u8, 0u8, 0x1bu8, 0x42u8, 0u8, 0x1bu8, 0x44u8, 0u8]
            + Seq::new(56, |i: int| 0x16u8) + seq![0x1bu8, 0x44u8, 8u8],
        forall|k: int| 0 <= k < rows.len() ==> #[trigger] label_cmd(rows)[68 + 9 * k] == 0x16u8,
        forall|k: int, j: int|
            0 <= k < rows.len() && 0 <= j < 8 ==> #[trigger] label_cmd(rows)[69 + 9 * k + j]
                == rows[k]@[j],
        label_cmd(rows).skip(68 + 9 * rows.len() as int) == seq![0x1bu8, 0x44u8, 0u8] + Seq::new(
            56,
            |i: int| 0x16u8,
        ) + seq![0x1bu8, 0x41u8],
{
    lemma_rows_cmd_len(rows);
    let pre = preamble_cmd(true);
    let img = image_rows_cmd(rows);
    let post = postamble_cmd(true);
    let all = label_cmd(rows);
    assert(all =~= pre + img + post);
    assert(pre.len() == 65);
    assert(all.take(68) =~= seq![0x1bu8, 0x43u8, 0u8, 0x1bu8, 0x42u8, 0u8, 0x1bu8, 0x44u8, 0u8]
        + Seq::new(56, |i: int| 0x16u8) + seq![0x1bu8, 0x44u8, 8u8]);
    assert forall|k: int| 0 <= k < rows.len() implies #[trigger] all[68 + 9 * k] == 0x16u8 by {
        lemma_rows_cmd_layout(rows, k, 0);
    }
    assert forall|k: int, j: int| 0 <= k < rows.len() && 0 <= j < 8 implies #[trigger] all[69 + 9 * k
        + j] == rows[k]@[j] by {
        lemma_rows_cmd_layout(rows, k, j);
    }
    assert(all.skip(68 + 9 * rows.len() as int) =~= seq![0x1bu8, 0x44u8, 0u8] + Seq::new(
        56,
        |i: int| 0x16u8,
    ) + seq![0x1bu8, 0x41u8]);
}

} // verus!
