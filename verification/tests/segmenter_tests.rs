use justext::JustextError;
use justext::parser::Document;
use justext::parser::DomNode;
use justext::parser::Parser;

fn elem(tag: &str, children: Vec<DomNode>) -> DomNode {
    DomNode::Element { tag: String::from(tag), src: None, children }
}

fn elem_src(tag: &str, src: &str, children: Vec<DomNode>) -> DomNode {
    DomNode::Element { tag: String::from(tag), src: Some(String::from(src)), children }
}

fn text(content: &str) -> DomNode {
    DomNode::Text { content: String::from(content) }
}

#[test]
fn missing_root_is_rejected() {
    let mut parser = Parser::new();
    let r = parser.walk_tree(&Document { root: None });
    assert_eq!(r, Err(JustextError::MissingRoot));
    assert_eq!(parser.paragraphs.len(), 0);
}

#[test]
fn one_paragraph_with_path() {
    let root = elem("html", vec![elem("body", vec![elem("p", vec![text("Hello there")])])]);
    let mut parser = Parser::new();
    assert_eq!(parser.walk_tree(&Document { root: Some(root) }), Ok(()));
    assert_eq!(parser.paragraphs.len(), 1);
    assert_eq!(parser.paragraphs[0].text, "Hello there");
    assert_eq!(parser.paragraphs[0].dom_path, "body.p");
    assert_eq!(parser.paragraphs[0].word_count, 1);
    assert_eq!(parser.paragraphs[0].linked_char_count, 0);
}

#[test]
fn image_inserts_placeholder_token() {
    let root = elem(
        "html",
        vec![
            elem(
                "body",
                vec![
                    elem(
                        "p",
                        vec![
                            text("Hello world "),
                            elem_src("img", "x.jpg", vec![]),
                            text(" more text"),
                        ],
                    ),
                ],
            ),
        ],
    );
    let mut parser = Parser::new();
    assert_eq!(parser.walk_tree(&Document { root: Some(root) }), Ok(()));
    assert_eq!(parser.paragraphs.len(), 1);
    assert_eq!(parser.paragraphs[0].text, "Hello world <IMAGE>x.jpg</IMAGE> more text");
    assert_eq!(parser.paragraphs[0].linked_char_count, 0);
    assert_eq!(parser.paragraphs[0].word_count, 3);
}

#[test]
fn anchor_text_counts_linked_characters() {
    let root = elem(
        "html",
        vec![
            elem(
                "body",
                vec![elem("p", vec![elem("a", vec![text("link text")]), text(" more")])],
            ),
        ],
    );
    let mut parser = Parser::new();
    assert_eq!(parser.walk_tree(&Document { root: Some(root) }), Ok(()));
    assert_eq!(parser.paragraphs.len(), 1);
    assert_eq!(parser.paragraphs[0].text, "link text more");
    assert_eq!(parser.paragraphs[0].linked_char_count, 9);
}

#[test]
fn anchor_flag_ends_with_the_anchor() {
    let root = elem(
        "html",
        vec![
            elem(
                "body",
                vec![
                    elem("p", vec![elem("a", vec![text("in")])]),
                    elem("p", vec![text("out")]),
                ],
            ),
        ],
    );
    let mut parser = Parser::new();
    assert_eq!(parser.walk_tree(&Document { root: Some(root) }), Ok(()));
    assert_eq!(parser.paragraphs.len(), 2);
    assert_eq!(parser.paragraphs[0].linked_char_count, 2);
    assert_eq!(parser.paragraphs[1].linked_char_count, 0);
}

#[test]
fn double_break_closes_paragraph() {
    let root = elem(
        "html",
        vec![
            elem(
                "body",
                vec![
                    elem(
                        "p",
                        vec![text("first"), elem("br", vec![]), elem("br", vec![]), text("second")],
                    ),
                ],
            ),
        ],
    );
    let mut parser = Parser::new();
    assert_eq!(parser.walk_tree(&Document { root: Some(root) }), Ok(()));
    assert_eq!(parser.paragraphs.len(), 2);
    assert_eq!(parser.paragraphs[0].text, "first");
    assert_eq!(parser.paragraphs[0].dom_path, "body.p.br");
    assert_eq!(parser.paragraphs[1].text, "\nsecond");
}

#[test]
fn bold_break_promotes_heading() {
    let root = elem(
        "html",
        vec![
            elem(
                "body",
                vec![elem("p", vec![elem("b", vec![text("Title"), elem("br", vec![]), text("  ")])])],
            ),
        ],
    );
    let mut parser = Parser::new();
    assert_eq!(parser.walk_tree(&Document { root: Some(root) }), Ok(()));
    assert_eq!(parser.paragraphs.len(), 1);
    assert_eq!(parser.paragraphs[0].text, "Title");
    assert!(parser.paragraphs[0].heading);
}

#[test]
fn ignored_subtrees_are_skipped() {
    let root = elem(
        "html",
        vec![
            elem("head", vec![elem("title", vec![text("Ignored")])]),
            elem("script", vec![text("var x = 1;")]),
            elem("body", vec![elem("p", vec![text("kept")])]),
        ],
    );
    let mut parser = Parser::new();
    assert_eq!(parser.walk_tree(&Document { root: Some(root) }), Ok(()));
    assert_eq!(parser.paragraphs.len(), 1);
    assert_eq!(parser.paragraphs[0].text, "kept");
}

#[test]
fn whitespace_only_text_outside_pre_is_dropped() {
    let root = elem(
        "html",
        vec![elem("body", vec![elem("p", vec![text("   \n  ")]), elem("p", vec![text("real")])])],
    );
    let mut parser = Parser::new();
    assert_eq!(parser.walk_tree(&Document { root: Some(root) }), Ok(()));
    assert_eq!(parser.paragraphs.len(), 1);
    assert_eq!(parser.paragraphs[0].text, "real");
}

#[test]
fn preformatted_text_keeps_line_breaks() {
    let root = elem(
        "html",
        vec![elem("body", vec![elem("pre", vec![text("line one\nline  two")])])],
    );
    let mut parser = Parser::new();
    assert_eq!(parser.walk_tree(&Document { root: Some(root) }), Ok(()));
    assert_eq!(parser.paragraphs.len(), 1);
    assert_eq!(parser.paragraphs[0].tag, "pre");
    assert_eq!(parser.paragraphs[0].text, "line one\nline two");
}

#[test]
fn comments_contribute_nothing() {
    let root = elem(
        "html",
        vec![elem("body", vec![elem("p", vec![DomNode::Comment, text("visible")])])],
    );
    let mut parser = Parser::new();
    assert_eq!(parser.walk_tree(&Document { root: Some(root) }), Ok(()));
    assert_eq!(parser.paragraphs.len(), 1);
    assert_eq!(parser.paragraphs[0].text, "visible");
}

#[test]
fn video_and_audio_insert_their_placeholders() {
    let root = elem(
        "html",
        vec![
            elem(
                "body",
                vec![
                    elem(
                        "p",
                        vec![
                            text("watch "),
                            elem_src("video", "v.mp4", vec![]),
                            text(" or hear "),
                            elem_src("audio", "a.ogg", vec![]),
                        ],
                    ),
                ],
            ),
        ],
    );
    let mut parser = Parser::new();
    assert_eq!(parser.walk_tree(&Document { root: Some(root) }), Ok(()));
    assert_eq!(parser.paragraphs.len(), 1);
    assert_eq!(parser.paragraphs[0].text, "watch <VIDEO>v.mp4</VIDEO> or hear <AUDIO>a.ogg</AUDIO>");
}

#[test]
fn media_without_source_adds_nothing() {
    let root = elem(
        "html",
        vec![elem("body", vec![elem("p", vec![text("a"), elem("img", vec![]), text("b")])])],
    );
    let mut parser = Parser::new();
    assert_eq!(parser.walk_tree(&Document { root: Some(root) }), Ok(()));
    assert_eq!(parser.paragraphs.len(), 1);
    assert_eq!(parser.paragraphs[0].text, "ab");
}

#[test]
fn placeholder_inside_anchor_is_not_linked_text() {
    let root = elem(
        "html",
        vec![
            elem(
                "body",
                vec![elem("p", vec![elem("a", vec![text("go"), elem_src("img", "i.png", vec![])])])],
            ),
        ],
    );
    let mut parser = Parser::new();
    assert_eq!(parser.walk_tree(&Document { root: Some(root) }), Ok(()));
    assert_eq!(parser.paragraphs.len(), 1);
    assert_eq!(parser.paragraphs[0].text, "go<IMAGE>i.png</IMAGE>");
    assert_eq!(parser.paragraphs[0].linked_char_count, 2);
}

#[test]
fn single_break_prefixes_following_text_with_a_line_break() {
    let root = elem(
        "html",
        vec![elem("body", vec![elem("p", vec![text("a"), elem("br", vec![]), text("b")])])],
    );
    let mut parser = Parser::new();
    assert_eq!(parser.walk_tree(&Document { root: Some(root) }), Ok(()));
    assert_eq!(parser.paragraphs.len(), 1);
    assert_eq!(parser.paragraphs[0].text, "a\nb");
    assert_eq!(parser.paragraphs[0].word_count, 2);
}
