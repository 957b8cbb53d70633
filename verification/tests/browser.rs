use khawrizm::browser::{joyride_stack_active, ServoRenderer};

const SAMPLE: &str = r#"
        <html>
            <head>
                <title>Sovereign System Console</title>
            </head>
            <body>
                <h1>Sovereign Data Refinery Network Bypass</h1>
                <p>Telemetry blocks are active. eBPF packet drop hooks enabled.</p>
            </body>
        </html>
    "#;

#[test]
fn renders_the_sample_page() {
    assert!(ServoRenderer::can_render(SAMPLE));
    let mut r = ServoRenderer::new();
    let log = r.render_html(SAMPLE);
    assert_eq!(
        log,
        vec![
            "[Servo Core] Parsing and rendering HTML payload...".to_string(),
            "[Servo Layout] Entering document body rendering pipeline...".to_string(),
            "[Servo Render] <h1> Header: Sovereign Data Refinery Network Bypass".to_string(),
            "[Servo Render] Paragraph text: Telemetry blocks are active. eBPF packet drop hooks enabled.".to_string(),
            "[Servo Core] Rendering complete. Window: \"Sovereign System Console\"".to_string(),
        ]
    );
}

#[test]
fn untitled_page_keeps_default_title() {
    let mut r = ServoRenderer::new();
    let log = r.render_html("<p>one\r\n<p>two</p>\n");
    assert_eq!(
        log,
        vec![
            "[Servo Core] Parsing and rendering HTML payload...".to_string(),
            "[Servo Render] Paragraph text: one".to_string(),
            "[Servo Render] Paragraph text: two".to_string(),
            "[Servo Core] Rendering complete. Window: \"Untitled Document\"".to_string(),
        ]
    );
}

#[test]
fn last_title_wins_across_pages() {
    let mut r = ServoRenderer::new();
    r.render_html("<title>First</title>\n<title>Second");
    let log = r.render_html("<body>");
    assert_eq!(log[2], "[Servo Core] Rendering complete. Window: \"Second\"");
}

#[test]
fn closing_before_opening_cannot_render() {
    assert!(!ServoRenderer::can_render("</title><title>x"));
    assert!(!ServoRenderer::can_render("ok\n</h1> <h1>"));
    assert!(ServoRenderer::can_render("<title></title>"));
    assert!(ServoRenderer::can_render(""));
}

#[test]
fn joyride_guard() {
    assert!(joyride_stack_active("/opt/lib/joyride_networking.so:/x.so"));
    assert!(!joyride_stack_active(""));
    assert!(!joyride_stack_active("joyride_networking.s"));
}
