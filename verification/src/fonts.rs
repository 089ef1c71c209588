use vstd::prelude::*;
use crate::error::LabelError;
use vstd::utf8::{decode_utf8, valid_utf8};
use crate::picture::push_char;

verus! {

/// The index of the first line feed in `s`, or the length of `s` if there is none.
pub open spec fn first_newline(s: Seq<char>) -> int
    decreases s.len(),
{
    if s.len() == 0 {
        0
    } else if s[0] == '\n' {
        0
    } else {
        1 + first_newline(s.drop_first())
    }
}

/// The first line feed lies within the text, and no line feed comes before it.
pub proof fn lemma_first_newline_bounds(s: Seq<char>)
    ensures
        0 <= first_newline(s) <= s.len(),
        first_newline(s) < s.len() ==> s[first_newline(s)] == '\n',
        forall|k: int| 0 <= k < first_newline(s) ==> s[k] != '\n',
    decreases s.len(),
{
    if s.len() > 0 && s[0] != '\n' {
        lemma_first_newline_bounds(s.drop_first());
        assert forall|k: int| 0 <= k < first_newline(s) implies s[k] != '\n' by {
            if k > 0 {
                assert(s[k] == s.drop_first()[k - 1]);
            }
        }
    }
}

proof fn lemma_first_newline_at(s: Seq<char>, m: int)
    requires
        0 <= m <= s.len(),
        m < s.len() ==> s[m] == '\n',
        forall|k: int| 0 <= k < m ==> s[k] != '\n',
    ensures
        first_newline(s) == m,
    decreases m,
{
    if m > 0 {
        assert forall|k: int| 0 <= k < m - 1 implies s.drop_first()[k] != '\n' by {
            assert(s.drop_first()[k] == s[k + 1]);
        }
        lemma_first_newline_at(s.drop_first(), m - 1);
    }
}

/// A line without the carriage return that ended it, if there was one.
pub open spec fn strip_cr(line: Seq<char>) -> Seq<char> {
    if line.len() > 0 && line.last() == '\r' {
        line.drop_last()
    } else {
        line
    }
}

/// The lines of a text as `str::lines` yields them: split at each line feed,
/// a carriage return just before a line feed dropped, and no empty line
/// after a final line feed.
pub open spec fn text_lines(s: Seq<char>) -> Seq<Seq<char>>
    decreases s.len(),
{
    if s.len() == 0 {
        Seq::empty()
    } else {
        let i = first_newline(s);
        if i < s.len() {
            proof {
                lemma_first_newline_bounds(s);
            }
            seq![strip_cr(s.take(i))] + text_lines(s.skip(i + 1))
        } else {
            seq![s]
        }
    }
}

/// How ImageMagick's font list introduces a font name.
pub open spec fn font_prefix() -> Seq<char> {
    seq![' ', ' ', 'F', 'o', 'n', 't', ':', ' ']
}

/// The font named on a line of the font list, if the line names one.
pub open spec fn font_of_line(line: Seq<char>) -> Option<Seq<char>> {
    if line.len() >= 8 && line.take(8) == font_prefix() {
        Some(line.skip(8))
    } else {
        None
    }
}

/// The font names in ImageMagick's font list: the rest of every line that
/// starts with `"  Font: "`, in order.
pub open spec fn font_names_of(text: Seq<char>) -> Seq<Seq<char>> {
    text_lines(text).filter_map(font_of_line_fn())
}

/// `font_of_line` as a value.
pub open spec fn font_of_line_fn() -> spec_fn(Seq<char>) -> Option<Seq<char>> {
    |line: Seq<char>| font_of_line(line)
}

proof fn lemma_filter_map_add(a: Seq<Seq<char>>, b: Seq<Seq<char>>, f: spec_fn(Seq<char>) -> Option<Seq<char>>)
    ensures
        (a + b).filter_map(f) == a.filter_map(f) + b.filter_map(f),
    decreases b.len(),
{
    if b.len() == 0 {
        assert(a + b =~= a);
        assert(a.filter_map(f) + b.filter_map(f) =~= a.filter_map(f));
    } else {
        assert((a + b).drop_last() =~= a + b.drop_last());
        assert((a + b).last() == b.last());
        lemma_filter_map_add(a, b.drop_last(), f);
        match f(b.last()) {
            Some(x) => {
                assert(a.filter_map(f) + b.filter_map(f) =~= a.filter_map(f) + b.drop_last().filter_map(
                    f,
                ) + seq![x]);
            },
            None => {},
        }
    }
}

/// No line of a text holds a line feed.
pub proof fn lemma_text_lines_single(s: Seq<char>)
    ensures
        forall|i: int| 0 <= i < text_lines(s).len() ==> !(#[trigger] text_lines(s)[i]).contains('\n'),
    decreases s.len(),
{
    if s.len() > 0 {
        lemma_first_newline_bounds(s);
        let m = first_newline(s);
        if m < s.len() {
            let rest = s.skip(m + 1);
            lemma_text_lines_single(rest);
            let line = strip_cr(s.take(m));
            assert(!line.contains('\n')) by {
                assert forall|k: int| 0 <= k < line.len() implies line[k] != '\n' by {
                    assert(line[k] == s[k]);
                }
            }
            assert forall|i: int| 0 <= i < text_lines(s).len() implies !(#[trigger] text_lines(
                s,
            )[i]).contains('\n') by {
                if i > 0 {
                    assert(text_lines(s)[i] == text_lines(rest)[i - 1]);
                }
            }
        } else {
            assert forall|k: int| 0 <= k < s.len() implies s[k] != '\n' by {}
        }
    }
}

/// A font name never spans lines: no name in the font list holds a line feed.
pub proof fn lemma_font_names_single_line(text: Seq<char>)
    ensures
        forall|i: int|
            0 <= i < font_names_of(text).len() ==> !(#[trigger] font_names_of(text)[i]).contains('\n'),
{
    let lines = text_lines(text);
    let f = font_of_line_fn();
    lemma_text_lines_single(text);
    assert forall|i: int| 0 <= i < font_names_of(text).len() implies !(
    #[trigger] font_names_of(text)[i]).contains('\n') by {
        let name = font_names_of(text)[i];
        assert(lines.filter_map(f).contains(name));
        lines.lemma_filter_map_contains(f, name);
        let line = choose|t: Seq<char>| #[trigger] lines.contains(t) && f(t) == Some(name);
        let li = choose|li: int| 0 <= li < lines.len() && lines[li] == line;
        assert(!lines[li].contains('\n'));
        assert(name == line.skip(8));
        assert forall|k: int| 0 <= k < name.len() implies name[k] != '\n' by {
            assert(name[k] == line[k + 8]);
        }
    }
}

/// The `Display` text of the `Utf8Error` that `std::str::from_utf8` gives for `bytes`.
pub uninterp spec fn spec_utf8_error_text(bytes: Seq<u8>) -> Seq<char>;

/// Decodes `bytes` with `std::str::from_utf8`; an error is turned into its
/// `Display` text. Claimed of std: it succeeds exactly on valid UTF-8, and
/// then the text is the decoded characters (vstd's `valid_utf8` and
/// `decode_utf8`); the error text is a function of `bytes`.
#[verifier::external_body]
fn str_from_utf8(bytes: &[u8]) -> (res: Result<&str, String>)
    ensures
        match res {
            Ok(s) => valid_utf8(bytes@) && s@ == decode_utf8(bytes@),
            Err(message) => !valid_utf8(bytes@) && message@ == spec_utf8_error_text(bytes@),
        },
{
    match std::str::from_utf8(bytes) {
        Ok(s) => Ok(s),
        Err(err) => Err(err.to_string()),
    }
}

/// Whether the characters of `line` from `start` to `end` begin with the font prefix.
fn starts_with_prefix(line: &Vec<char>, start: usize, end: usize) -> (b: bool)
    requires
        start <= end <= line@.len(),
    ensures
        b == (end - start >= 8 && line@.subrange(start as int, end as int).take(8) == font_prefix()),
{
    if end - start < 8 {
        return false;
    }
    let prefix: [char; 8] = [' ', ' ', 'F', 'o', 'n', 't', ':', ' '];
    let mut k: usize = 0;
    while k < 8
        invariant
            0 <= k <= 8,
            start + 8 <= end <= line@.len(),
            prefix@ == font_prefix(),
            forall|i: int| 0 <= i < k ==> line@[start + i] == font_prefix()[i],
        decreases 8 - k,
    {
        if line[start + k] != prefix[k] {
            proof {
                assert(line@.subrange(start as int, end as int).take(8)[k as int] != font_prefix()[k as int]);
            }
            return false;
        }
        k = k + 1;
    }
    proof {
        assert(line@.subrange(start as int, end as int).take(8) =~= font_prefix());
    }
    true
}

/// The characters of `chars` from `start` to `end` as a `String`.
fn string_of(chars: &Vec<char>, start: usize, end: usize) -> (s: String)
    requires
        start <= end <= chars@.len(),
    ensures
        s@ == chars@.subrange(start as int, end as int),
{
    let mut s = String::new();
    let mut i: usize = start;
    while i < end
        invariant
            start <= i <= end <= chars@.len(),
            s@ == chars@.subrange(start as int, i as int),
        decreases end - i,
    {
        push_char(&mut s, chars[i]);
        proof {
            assert(chars@.subrange(start as int, i + 1) =~= chars@.subrange(start as int, i as int).push(
                chars@[i as int],
            ));
        }
        i = i + 1;
    }
    s
}

/// The characters of `text`, in order.
fn chars_of(text: &str) -> (chars: Vec<char>)
    ensures
        chars@ == text@,
{
    broadcast use vstd::string::group_string_axioms;

    let mut chars: Vec<char> = Vec::new();
    for c in it: text.chars()
        invariant
            it.seq() == text@,
            chars@ == it.seq().take(it.index()),
    {
        chars.push(c);
        proof {
            assert(it.seq().take(it.index() + 1) =~= it.seq().take(it.index()).push(c));
        }
    }
    proof {
        assert(text@.take(text@.len() as int) =~= text@);
    }
    chars
}

/// The font names in the text of ImageMagick's font list (`convert -list font`).
pub fn font_names(text: &str) -> (names: Vec<String>)
    ensures
        names@.map_values(|n: String| n@) == font_names_of(text@),
{
    let chars = chars_of(text);
    let ghost s = chars@;
    let n = chars.len();
    let mut names: Vec<String> = Vec::new();
    let mut pos: usize = 0;
    let ghost f = font_of_line_fn();
    proof {
        assert(s.skip(0) =~= s);
        assert(names@.map_values(|n: String| n@) =~= Seq::<Seq<char>>::empty());
        assert(Seq::<Seq<char>>::empty() + font_names_of(s) =~= font_names_of(s));
    }
    while pos < n
        invariant
            n == s.len(),
            f == font_of_line_fn(),
            s == chars@,
            s == text@,
            0 <= pos <= n,
            font_names_of(s) == names@.map_values(|n: String| n@) + text_lines(s.skip(pos as int)).filter_map(f),
        decreases n - pos,
    {
        let ghost rest = s.skip(pos as int);
        let mut end: usize = pos;
        while end < n && chars[end] != '\n'
            invariant
                pos <= end <= n,
                n == chars@.len(),
                forall|k: int| pos <= k < end ==> chars@[k] != '\n',
            decreases n - end,
        {
            end = end + 1;
        }
        proof {
            assert forall|k: int| 0 <= k < end - pos implies rest[k] != '\n' by {
                assert(rest[k] == s[pos + k]);
            }
            lemma_first_newline_at(rest, end - pos);
        }
        let line_end = if end < n && end > pos && chars[end - 1] == '\r' {
            end - 1
        } else {
            end
        };
        let ghost line = chars@.subrange(pos as int, line_end as int);
        proof {
            if end < n {
                assert(rest.take(end - pos) =~= s.subrange(pos as int, end as int));
                assert(line =~= strip_cr(rest.take(end - pos)));
                assert(rest.skip(end - pos + 1) =~= s.skip(end + 1));
                assert(text_lines(rest) == seq![line] + text_lines(s.skip(end + 1)));
            } else {
                assert(rest =~= line);
                assert(text_lines(rest) == seq![line]);
            }
        }
        let is_font = starts_with_prefix(&chars, pos, line_end);
        let ghost before = names@.map_values(|n: String| n@);
        if is_font {
            let name = string_of(&chars, pos + 8, line_end);
            names.push(name);
            proof {
                assert(line.skip(8) =~= chars@.subrange(pos + 8, line_end as int));
                assert(names@.map_values(|n: String| n@) =~= before.push(line.skip(8)));
            }
        }
        let next = if end < n { end + 1 } else { n };
        proof {
            let tail = if end < n { text_lines(s.skip(end + 1)) } else { Seq::empty() };
            assert(text_lines(rest) =~= seq![line] + tail);
            lemma_filter_map_add(seq![line], tail, f);
            Seq::lemma_filter_map_singleton(line, f);
            let step = seq![line].filter_map(f);
            assert(f(line) == font_of_line(line));
            assert(line.len() == line_end - pos);
            if is_font {
                assert(f(line) == Some(line.skip(8)));
                assert(names@.map_values(|n: String| n@) =~= before + step);
            } else {
                assert(f(line) is None);
                assert(names@.map_values(|n: String| n@) =~= before + step);
            }
            assert(font_names_of(s) == before + (step + tail.filter_map(f)));
            assert(before + (step + tail.filter_map(f)) =~= (before + step) + tail.filter_map(f));
            if end < n {
                assert(s.skip(next as int) == s.skip(end + 1));
            } else {
                assert(s.skip(next as int) =~= Seq::<char>::empty());
                assert(text_lines(s.skip(next as int)) =~= Seq::<Seq<char>>::empty());
            }
        }
        pos = next;
    }
    proof {
        assert(s.skip(n as int) =~= Seq::<char>::empty());
        assert(text_lines(s.skip(n as int)) =~= Seq::<Seq<char>>::empty());
    }
    names
}

/// The fonts that ImageMagick reported: its output must come from a
/// successful run and be UTF-8; then the font names are read from it.
pub fn font_list(success: bool, stdout: &[u8]) -> (res: Result<Vec<String>, LabelError>)
    ensures
        match res {
            Ok(names) => success && valid_utf8(stdout@) && names@.map_values(|n: String| n@)
                == font_names_of(decode_utf8(stdout@)),
            Err(LabelError::FontQueryFailed) => !success,
            Err(LabelError::NotUtf8 { message }) => success && !valid_utf8(stdout@)
                && message@ == spec_utf8_error_text(stdout@),
            Err(_) => false,
        },
{
    if !success {
        return Err(LabelError::FontQueryFailed);
    }
    match str_from_utf8(stdout) {
        Ok(text) => Ok(font_names(text)),
        Err(message) => Err(LabelError::NotUtf8 { message }),
    }
}

/// The names in the font list of a text that starts with the line `line`
/// (without its line feed) followed by `rest`.
proof fn lemma_font_names_first_line(line: Seq<char>, rest: Seq<char>)
    requires
        !line.contains('\n'),
        line.len() == 0 || line.last() != '\r',
    ensures
        font_names_of(line + seq!['\n'] + rest) == (match font_of_line(line) {
            Some(name) => seq![name],
            None => Seq::<Seq<char>>::empty(),
        }) + font_names_of(rest),
{
    let text = line + seq!['\n'] + rest;
    let m = line.len() as int;
    assert forall|k: int| 0 <= k < m implies text[k] != '\n' by {
        assert(text[k] == line[k]);
        if line[k] == '\n' {
            assert(line.contains('\n'));
        }
    }
    lemma_first_newline_at(text, m);
    assert(text.take(m) =~= line);
    assert(text.skip(m + 1) =~= rest);
    assert(strip_cr(line) == line);
    assert(text_lines(text) == seq![line] + text_lines(rest));
    let f = font_of_line_fn();
    lemma_filter_map_add(seq![line], text_lines(rest), f);
    Seq::lemma_filter_map_singleton(line, f);
    assert(f(line) == font_of_line(line));
}

/// An empty text names no font.
pub proof fn lemma_font_names_empty()
    ensures
        font_names_of(Seq::empty()).len() == 0,
{
    assert(text_lines(Seq::<char>::empty()) =~= Seq::<Seq<char>>::empty());
}

/// A line `"  Font: " + name`, of any length, adds `name` to the list, in
/// front of the names of the lines that follow (a carriage return before the
/// line feed is not part of the name, so `name` is taken not to end in one).
pub proof fn lemma_font_names_font_line(name: Seq<char>, rest: Seq<char>)
    requires
        !name.contains('\n'),
        name.len() == 0 || name.last() != '\r',
    ensures
        font_names_of(seq![' ', ' ', 'F', 'o', 'n', 't', ':', ' '] + name + seq!['\n'] + rest)
            == seq![name] + font_names_of(rest),
{
    let p = seq![' ', ' ', 'F', 'o', 'n', 't', ':', ' '];
    let line = p + name;
    assert(!line.contains('\n')) by {
        if line.contains('\n') {
            let i = choose|i: int| 0 <= i < line.len() && line[i] == '\n';
            if i >= 8 {
                assert(name[i - 8] == '\n');
                assert(name.contains('\n'));
            }
        }
    }
    if name.len() > 0 {
        assert(line.last() == name.last());
    }
    lemma_font_names_first_line(line, rest);
    assert(line.take(8) =~= font_prefix());
    assert(line.skip(8) =~= name);
}

/// A line that does not start with `"  Font: "` adds no name.
pub proof fn lemma_font_names_other_line(line: Seq<char>, rest: Seq<char>)
    requires
        !line.contains('\n'),
        line.len() == 0 || line.last() != '\r',
        !(line.len() >= 8 && line.take(8) == seq![' ', ' ', 'F', 'o', 'n', 't', ':', ' ']),
    ensures
        font_names_of(line + seq!['\n'] + rest) == font_names_of(rest),
{
    lemma_font_names_first_line(line, rest);
    assert(font_prefix() =~= seq![' ', ' ', 'F', 'o', 'n', 't', ':', ' ']);
    assert(Seq::<Seq<char>>::empty() + font_names_of(rest) =~= font_names_of(rest));
}

/// A last line `"  Font: " + name` without a line feed names `name`, of any
/// length, carriage return and all.
pub proof fn lemma_font_names_last_line(name: Seq<char>)
    requires
        !name.contains('\n'),
    ensures
        font_names_of(seq![' ', ' ', 'F', 'o', 'n', 't', ':', ' '] + name) == seq![name],
{
    let p = seq![' ', ' ', 'F', 'o', 'n', 't', ':', ' '];
    let line = p + name;
    assert forall|k: int| 0 <= k < line.len() implies line[k] != '\n' by {
        if k >= 8 {
            assert(line[k] == name[k - 8]);
            if name[k - 8] == '\n' {
                assert(name.contains('\n'));
            }
        }
    }
    lemma_first_newline_at(line, line.len() as int);
    assert(text_lines(line) == seq![line]);
    let f = font_of_line_fn();
    Seq::lemma_filter_map_singleton(line, f);
    assert(line.take(8) =~= font_prefix());
    assert(line.skip(8) =~= name);
    assert(f(line) == Some(name));
}

} // verus!
