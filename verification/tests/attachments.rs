use medha::attachments::{
    check_count, check_source, human_size, label_for, pixels_match, Attachment,
};
use medha::refs::{
    candidates, expand, has_image_extension, only_paths, scan, strip_unreachable,
};

const ROOT: &str = "/work/project";

fn fixture() -> Vec<String> {
    ["shot.png", "Screen Shot 1.png", "assets/logo.JPG"]
        .iter()
        .map(|name| format!("{ROOT}/{name}"))
        .collect()
}

fn found(message: &str) -> Vec<String> {
    scan(message, ROOT, Some("/home/u"), &fixture())
}

fn under(name: &str) -> String {
    format!("{ROOT}/{name}")
}

#[test]
fn a_dropped_path_with_spaces_attaches_however_the_terminal_quoted_it() {
    let quoted = format!("'{}' explain this", under("Screen Shot 1.png"));
    assert_eq!(found(&quoted), vec![under("Screen Shot 1.png")]);
    let escaped = format!(
        "{} explain this",
        under("Screen Shot 1.png").replace(' ', "\\ ")
    );
    assert_eq!(found(&escaped), vec![under("Screen Shot 1.png")]);
}

#[test]
fn relative_and_uppercase_extensions_resolve_under_the_workspace() {
    assert_eq!(
        found("compare shot.png with assets/logo.JPG please"),
        vec![under("shot.png"), under("assets/logo.JPG")]
    );
}

#[test]
fn only_files_that_exist_become_attachments() {
    assert!(found("look at missing.png and notes.txt").is_empty());
    assert_eq!(
        candidates("look at missing.png and notes.txt", ROOT, None),
        vec![under("missing.png")]
    );
}

#[test]
fn trailing_punctuation_is_prose_not_part_of_the_name() {
    assert_eq!(found("see shot.png."), vec![under("shot.png")]);
    assert_eq!(found("(shot.png)"), vec![under("shot.png")]);
}

#[test]
fn a_path_inside_backticks_stays_quoted_text() {
    assert!(found("the file `shot.png` is missing").is_empty());
    assert!(found("```\nshot.png\n```").is_empty());
    assert_eq!(found("`unclosed shot.png"), Vec::<String>::new());
}

#[test]
fn the_same_path_twice_attaches_once() {
    assert_eq!(
        found("shot.png and shot.png again"),
        vec![under("shot.png")]
    );
}

#[test]
fn expand_handles_quotes_home_and_absolute_paths() {
    let home = Some("/home/u");
    assert_eq!(
        expand(ROOT, home, " \"assets/shot.png\" "),
        "/work/project/assets/shot.png"
    );
    assert_eq!(expand(ROOT, home, "/tmp/shot.png"), "/tmp/shot.png");
    assert_eq!(expand(ROOT, home, "~/shot.png"), "/home/u/shot.png");
}

#[test]
fn unsupported_image_formats_are_still_recognised_as_attachments() {
    assert!(has_image_extension("photo.HEIC"));
    assert!(has_image_extension("frame.avif"));
    assert!(!has_image_extension("notes.txt"));
    assert!(!has_image_extension("archive.png.zip"));
}

#[test]
fn a_dropped_screenshot_leaves_no_path_behind() {
    let outside = "/tmp/NSIRD_screencaptureui/Screen Shot.png".to_string();
    let attached = vec![outside.clone()];
    let gone: Vec<String> = Vec::new();
    assert_eq!(
        strip_unreachable(
            &format!("'{outside}' what is on my screen"),
            &attached,
            ROOT,
            &gone
        ),
        "what is on my screen"
    );
    assert_eq!(strip_unreachable(&outside, &attached, ROOT, &gone), "");
    assert_eq!(
        strip_unreachable(&outside.replace(' ', "\\ "), &attached, ROOT, &gone),
        ""
    );
}

#[test]
fn a_workspace_path_survives_because_tools_can_act_on_it() {
    let inside = under("shot.png");
    let line = format!("resize {inside} to 800px");
    assert_eq!(
        strip_unreachable(&line, &vec![inside], ROOT, &fixture()),
        line
    );
}

#[test]
fn a_message_of_paths_alone_is_recognised() {
    let known = vec![under("shot.png")];
    assert!(only_paths("shot.png", &known, ROOT, None));
    assert!(!only_paths("see shot.png", &known, ROOT, None));
    assert!(!only_paths("", &known, ROOT, None));
}

#[test]
fn an_attachment_is_summed_up() {
    let a = Attachment {
        mime_type: "image/png".into(),
        artifact: "hash".into(),
        label: label_for("/a/shot.png"),
        source: None,
        width: 1920,
        height: 1080,
        bytes: 240 * 1024,
        note: None,
    };
    assert_eq!(a.summary(), "shot.png  1920×1080 · 240 KB");
    assert_eq!(
        label_for("/a/a-very-long-screenshot-name-indeed.png"),
        "a-very-long-screenshot-name-…"
    );
    assert_eq!(human_size(512), "512 B");
}

#[test]
fn more_than_the_limit_is_refused_before_any_file_is_read() {
    assert!(check_count(4).is_ok());
    assert!(check_count(5).unwrap_err().contains("at most 4"));
    assert!(check_source("/a/dir", false, 1)
        .unwrap_err()
        .contains("regular file: /a/dir"));
    assert!(check_source("/a/x.png", true, usize::MAX).is_err());
    assert!(check_source("/a/x.png", true, 1).is_ok());
    assert!(pixels_match(2, 3, 24));
    assert!(!pixels_match(2, 3, 25));
    assert!(!pixels_match(0, 3, 0));
}

#[test]
fn an_unreachable_path_is_taken_out_wherever_it_stands() {
    let attached = vec!["/tmp/x.png".to_string()];
    let gone: Vec<String> = Vec::new();
    let strip = |text: &str| strip_unreachable(text, &attached, ROOT, &gone);
    assert_eq!(strip("/tmp/x.png and /tmp/x.png"), "and");
    assert_eq!(strip("'/tmp/x.png' and \"/tmp/x.png\" or /tmp/x.png"), "and or");
    assert_eq!(strip("/tmp/tmp/x.png/x.png"), "");
    assert_eq!(strip("(/tmp/x.png), see:/tmp/x.png."), "(), see:.");
    assert_eq!(strip("/tmp/x.png.bak"), ".bak");
}

#[test]
fn a_longer_workspace_path_is_left_whole() {
    let attached = vec!["/t/a.png".to_string()];
    let gone: Vec<String> = Vec::new();
    let strip = |text: &str| strip_unreachable(text, &attached, "/w", &gone);
    assert_eq!(strip("/t/a.png /w/t/a.png"), "/w/t/a.png");
    assert_eq!(strip("resize /w/t/a.png, not /t/a.png"), "resize /w/t/a.png, not");
    assert_eq!(strip("/t/a.png,/w/t/a.png"), ",/w/t/a.png");
    assert_eq!(strip("assets/t/a.png and /t/a.png"), "assets/t/a.png and");
    assert_eq!(strip("'/w/t/a.png' from '/t/a.png'"), "'/w/t/a.png' from");

    let lost = vec!["/w/a.png".to_string()];
    assert_eq!(
        strip_unreachable("/w/a.png.bak was /w/a.png.", &lost, "/w", &gone),
        "/w/a.png.bak was ."
    );
}
