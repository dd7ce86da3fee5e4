use justext::justtext::Justext;
use justext::justtext::StopList;
use justext::parser::Classification;
use justext::parser::Document;
use justext::parser::DomNode;
use justext::parser::Paragraph;
use justext::parser::Parser;

fn plain_para(txt: &str, fc: Classification) -> Paragraph {
    Paragraph {
        dom_path: String::from("body.p"),
        text_nodes: Vec::new(),
        text: String::from(txt),
        cfclass: fc,
        finalclass: fc,
        heading: false,
        bullet: false,
        word_count: 0,
        linked_char_count: 0,
        stopword_count: 0,
        token_count: 0,
        tag: String::new(),
    }
}

#[test]
fn empty_sequence_gives_empty_output_and_no_content_flag() {
    let jt = Justext::new();
    let ps: Vec<Paragraph> = Vec::new();
    let (out, found) = jt.output_default(&ps);
    assert_eq!(out, "");
    assert!(!found);
}

#[test]
fn all_bad_sequence_gives_empty_plain_output() {
    let jt = Justext::new();
    let ps = vec![
        plain_para("nav nav nav", Classification::Bad),
        plain_para("footer text", Classification::Bad),
    ];
    let (out, found) = jt.output_default(&ps);
    assert_eq!(out, "");
    assert!(!found);
}

#[test]
fn plain_output_keeps_good_paragraphs_in_order() {
    let jt = Justext::new();
    let ps = vec![
        plain_para("first", Classification::Good),
        plain_para("skipped", Classification::Bad),
        plain_para("second", Classification::Good),
    ];
    let (out, found) = jt.output_default(&ps);
    assert_eq!(out, "first\nsecond\n");
    assert!(found);
}

#[test]
fn plain_output_unescapes_entities() {
    let jt = Justext::new();
    let ps = vec![plain_para("a&lt;b&gt;c&nbsp;&quot;d", Classification::Good)];
    let (out, _) = jt.output_default(&ps);
    assert_eq!(out, "a<b>c \"d\n");
}

#[test]
fn full_output_tags_every_paragraph() {
    let jt = Justext::new();
    let mut h = plain_para("Title", Classification::Good);
    h.heading = true;
    let mut l = plain_para("item", Classification::Good);
    l.bullet = true;
    let ps = vec![
        h,
        l,
        plain_para("prose", Classification::Good),
        plain_para("junk", Classification::Bad),
    ];
    let out = jt.output_full(&ps);
    assert_eq!(out, "<h>Title\n\n<l>item\n\n<p>prose\n\n<b>junk\n\n");
}

#[test]
fn full_output_collapses_blank_runs_in_preformatted() {
    let jt = Justext::new();
    let mut p = plain_para("x\n\n\n\ny", Classification::Good);
    p.tag = String::from("pre");
    let out = jt.output_full(&vec![p]);
    assert_eq!(out, "<p>x\n\ny\n\n");
}

#[test]
fn end_to_end_extraction_from_a_document() {
    let mut body_children = Vec::new();
    let mut good = String::new();
    for _ in 0..10 {
        good.push_str("the ");
    }
    for _ in 0..14 {
        good.push_str("bbbbbbbbbbbbbbbb ");
    }
    good.push_str("cccccccccccccccccccccc");
    body_children.push(DomNode::Element {
        tag: String::from("p"),
        src: None,
        children: vec![DomNode::Text { content: good.clone() }],
    });
    body_children.push(DomNode::Element {
        tag: String::from("p"),
        src: None,
        children: vec![DomNode::Text { content: String::from("tiny nav") }],
    });
    let root = DomNode::Element {
        tag: String::from("html"),
        src: None,
        children: vec![
            DomNode::Element { tag: String::from("body"), src: None, children: body_children },
        ],
    };
    let mut parser = Parser::new();
    assert_eq!(parser.walk_tree(&Document { root: Some(root) }), Ok(()));
    let jt = Justext::new();
    let sl = StopList::from_words(vec![String::from("the")]);
    let (out, found) = jt.get_content(&mut parser, &sl);
    assert!(found);
    assert_eq!(out, format!("{}\n", good));
    assert_eq!(parser.paragraphs[0].finalclass, Classification::Good);
    assert_eq!(parser.paragraphs[1].finalclass, Classification::Bad);
}

#[test]
fn document_with_no_good_content_reports_not_found() {
    let root = DomNode::Element {
        tag: String::from("html"),
        src: None,
        children: vec![
            DomNode::Element {
                tag: String::from("body"),
                src: None,
                children: vec![
                    DomNode::Element {
                        tag: String::from("p"),
                        src: None,
                        children: vec![DomNode::Text { content: String::from("just a stub") }],
                    },
                ],
            },
        ],
    };
    let mut parser = Parser::new();
    assert_eq!(parser.walk_tree(&Document { root: Some(root) }), Ok(()));
    let jt = Justext::new();
    let sl = StopList::from_words(vec![String::from("the")]);
    let (out, found) = jt.get_content(&mut parser, &sl);
    assert_eq!(out, "");
    assert!(!found);
}
