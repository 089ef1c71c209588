use vstd::prelude::*;
use crate::error::LabelError;
use crate::picture::{decode_error_is, decode_image, decodes_to, SourceImage};

verus! {

/// The arguments for ImageMagick's `convert` that render `text` in `font`
/// as black on white, centred, 64 pixels high, written as PNG to stdout.
pub open spec fn render_args_of(text: Seq<char>, font: Seq<char>) -> Seq<Seq<char>> {
    seq![
        "-background"@,
        "white"@,
        "-fill"@,
        "black"@,
        "-font"@,
        font,
        "-gravity"@,
        "center"@,
        "-size"@,
        "x64"@,
        "label:"@ + text,
        "png:-"@,
    ]
}

/// The command-line arguments for ImageMagick's `convert` that render a text label.
pub fn render_args(text: &str, font: &str) -> (args: Vec<String>)
    ensures
        args@.map_values(|a: String| a@) == render_args_of(text@, font@),
{
    let mut label = "label:".to_owned();
    label.append(text);
    let args: Vec<String> = vec![
        "-background".to_owned(),
        "white".to_owned(),
        "-fill".to_owned(),
        "black".to_owned(),
        "-font".to_owned(),
        font.to_owned(),
        "-gravity".to_owned(),
        "center".to_owned(),
        "-size".to_owned(),
        "x64".to_owned(),
        label,
        "png:-".to_owned(),
    ];
    proof {
        assert(args@.map_values(|a: String| a@) =~= render_args_of(text@, font@));
    }
    args
}

/// The picture that ImageMagick rendered: it must come from a successful run,
/// and its output is decoded as a picture file.
pub fn image_from_render(success: bool, stdout: &[u8]) -> (res: Result<SourceImage, LabelError>)
    ensures
        match res {
            Ok(img) => success && img.wf() && decodes_to(stdout@, img),
            Err(LabelError::RenderFailed) => !success,
            Err(e) => success && decode_error_is(stdout@, e),
        },
{
    if !success {
        return Err(LabelError::RenderFailed);
    }
    decode_image(stdout)
}

/// The arguments ask ImageMagick for exactly the label that was given: there
/// are twelve of them, black on white, centred, 64 pixels high, PNG to
/// stdout; the font is the sixth, whole, and the eleventh is `label:`
/// followed by every character of the text, in order.
pub proof fn lemma_render_args_label(text: Seq<char>, font: Seq<char>)
    ensures
        render_args_of(text, font).len() == 12,
        render_args_of(text, font)[0] == seq!['-', 'b', 'a', 'c', 'k', 'g', 'r', 'o', 'u', 'n', 'd'],
        render_args_of(text, font)[1] == seq!['w', 'h', 'i', 't', 'e'],
        render_args_of(text, font)[2] == seq!['-', 'f', 'i', 'l', 'l'],
        render_args_of(text, font)[3] == seq!['b', 'l', 'a', 'c', 'k'],
        render_args_of(text, font)[4] == seq!['-', 'f', 'o', 'n', 't'],
        render_args_of(text, font)[6] == seq!['-', 'g', 'r', 'a', 'v', 'i', 't', 'y'],
        render_args_of(text, font)[7] == seq!['c', 'e', 'n', 't', 'e', 'r'],
        render_args_of(text, font)[8] == seq!['-', 's', 'i', 'z', 'e'],
        render_args_of(text, font)[9] == seq!['x', '6', '4'],
        render_args_of(text, font)[5] == font,
        render_args_of(text, font)[10].len() == 6 + text.len(),
        render_args_of(text, font)[10].take(6) == seq!['l', 'a', 'b', 'e', 'l', ':'],
        render_args_of(text, font)[10].skip(6) == text,
        render_args_of(text, font)[11] == seq!['p', 'n', 'g', ':', '-'],
{
    reveal_strlit("label:");
    reveal_strlit("png:-");
    reveal_strlit("-background");
    assert("-background"@ =~= seq!['-', 'b', 'a', 'c', 'k', 'g', 'r', 'o', 'u', 'n', 'd']);
    reveal_strlit("white");
    assert("white"@ =~= seq!['w', 'h', 'i', 't', 'e']);
    reveal_strlit("-fill");
    assert("-fill"@ =~= seq!['-', 'f', 'i', 'l', 'l']);
    reveal_strlit("black");
    assert("black"@ =~= seq!['b', 'l', 'a', 'c', 'k']);
    reveal_strlit("-font");
    assert("-font"@ =~= seq!['-', 'f', 'o', 'n', 't']);
    reveal_strlit("-gravity");
    assert("-gravity"@ =~= seq!['-', 'g', 'r', 'a', 'v', 'i', 't', 'y']);
    reveal_strlit("center");
    assert("center"@ =~= seq!['c', 'e', 'n', 't', 'e', 'r']);
    reveal_strlit("-size");
    assert("-size"@ =~= seq!['-', 's', 'i', 'z', 'e']);
    reveal_strlit("x64");
    assert("x64"@ =~= seq!['x', '6', '4']);
    let l = render_args_of(text, font)[10];
    assert(l == "label:"@ + text);
    assert(l.take(6) =~= seq!['l', 'a', 'b', 'e', 'l', ':']);
    assert(l.skip(6) =~= text);
    assert("png:-"@ =~= seq!['p', 'n', 'g', ':', '-']);
}

} // verus!
