use optionfiles::kitty::{base64, converted_file_name, delete_command, first_frame, image_command, KittyPreview, RenderPlan};

#[test]
fn encodes_base64() {
    assert_eq!(base64(b"kitty"), "a2l0dHk=");
    assert_eq!(base64(b"png"), "cG5n");
}

#[test]
fn recognizes_image_extensions() {
    assert!(KittyPreview::can_preview("cover.PNG"));
    assert!(KittyPreview::can_preview("photo.jpeg"));
    assert!(!KittyPreview::can_preview("notes.md"));
}

#[test]
fn base64_pads_short_tails() {
    assert_eq!(base64(b""), "");
    assert_eq!(base64(b"a"), "YQ==");
    assert_eq!(base64(b"ab"), "YWI=");
    assert_eq!(base64(&[0xff, 0xfe, 0xfd]), "//79");
}

#[test]
fn detection_follows_override_then_terminal() {
    let s = |x: &str| Some(x.to_string());
    assert!(KittyPreview::detect(s("1"), false, None, None).supported());
    assert!(!KittyPreview::detect(s("no"), true, s("xterm-kitty"), None).supported());
    assert!(KittyPreview::detect(None, true, None, None).supported());
    assert!(KittyPreview::detect(s("maybe"), false, s("xterm-ghostty"), None).supported());
    assert!(KittyPreview::detect(None, false, None, s("WezTerm")).supported());
    assert!(!KittyPreview::detect(None, false, s("xterm-256color"), s("Apple_Terminal")).supported());
}

#[test]
fn render_plans() {
    let off = KittyPreview::detect(s0(), false, None, None);
    assert!(matches!(off.plan(Some("a.png"), 10, 10), RenderPlan::Nothing));
    let mut on = KittyPreview::detect(Some("1".into()), false, None, None);
    assert!(matches!(on.plan(Some("a.png"), 0, 10), RenderPlan::Nothing));
    assert!(matches!(on.plan(Some("a.md"), 10, 10), RenderPlan::Forget));
    assert!(matches!(on.plan(Some("a.PNG"), 10, 10), RenderPlan::Direct(ref p) if p == "a.PNG"));
    assert!(matches!(on.plan(Some("a.jpg"), 10, 10), RenderPlan::Convert));
    assert_eq!(on.keep_conversion("/tmp/c.png".into()), None);
    on.shown("a.jpg");
    assert!(matches!(on.plan(Some("a.jpg"), 10, 10), RenderPlan::Cached(ref p) if p == "/tmp/c.png"));
    on.shown("/pics/a.jpg");
    // The same path written another way is the same source.
    assert!(matches!(on.plan(Some("/pics//a.jpg"), 10, 10), RenderPlan::Cached(ref p) if p == "/tmp/c.png"));
    assert!(matches!(on.plan(Some("/pics/b.jpg"), 10, 10), RenderPlan::Convert));
    assert_eq!(on.keep_conversion("/tmp/d.png".into()), Some("/tmp/c.png".to_string()));
    assert_eq!(on.shutdown(), Some("/tmp/d.png".to_string()));
    assert!(!on.supported());
}

fn s0() -> Option<String> {
    Some("0".to_string())
}

#[test]
fn graphics_commands() {
    assert_eq!(
        image_command("/x.png", 30, 8),
        "\x1b_Ga=T,f=100,t=f,I=987621,p=1,c=30,r=8,C=1,q=2;L3gucG5n\x1b\\"
    );
    assert_eq!(delete_command(), "\x1b_Ga=d,d=N,I=987621,p=1,q=2\x1b\\");
    assert_eq!(converted_file_name(42), "optionfiles-tty-graphics-protocol-42.png");
    assert_eq!(first_frame("/a b.gif"), "/a b.gif[0]");
}

#[test]
fn extensions_follow_the_last_dot() {
    assert!(KittyPreview::can_preview("/a/b.tar.png"));
    assert!(!KittyPreview::can_preview("/a/.png"));
    assert!(KittyPreview::can_preview("/a/..png"));
    assert!(!KittyPreview::can_preview("/a/png"));
    assert!(!KittyPreview::can_preview("/a/b.png."));
}
