use dymo_print::error::LabelError;
use dymo_print::fonts::{font_list, font_names};
use dymo_print::imagemagick::{image_from_render, render_args};

#[test]
fn font_names_from_list() {
    let text = "\nPath: /etc/fonts\n  Font: DejaVu-Sans\n    family: DejaVu Sans\n  Font: Ubuntu-Bold\r\n  Font:X\n  Font: Last";
    assert_eq!(font_names(text), vec!["DejaVu-Sans", "Ubuntu-Bold", "Last"]);
    assert!(font_names("").is_empty());
    assert_eq!(font_names("  Font: \n"), vec![""]);
}

#[test]
fn font_list_checks_success_and_utf8() {
    assert!(matches!(font_list(false, b"  Font: A\n"), Err(LabelError::FontQueryFailed)));
    match font_list(true, &[0xff, 0xfe]) {
        Err(LabelError::NotUtf8 { message }) => assert!(message.contains("utf-8")),
        _ => panic!("expected a UTF-8 error"),
    }
    assert_eq!(font_list(true, "  Font: Ünïcode\n".as_bytes()).ok().unwrap(), vec!["Ünïcode"]);
}

#[test]
fn render_arguments() {
    let args = render_args("Hello", "Ubuntu");
    assert_eq!(
        args,
        vec![
            "-background", "white", "-fill", "black", "-font", "Ubuntu", "-gravity", "center",
            "-size", "x64", "label:Hello", "png:-",
        ]
    );
}

#[test]
fn render_outcome() {
    assert!(matches!(image_from_render(false, b""), Err(LabelError::RenderFailed)));
    assert!(matches!(image_from_render(true, b"garbage"), Err(LabelError::Image { .. })));
}
